# Nautilus

A Minecraft client for protocol version 5 (1.7.10), with the part that decides proved
correct with Verus.

- `src/net` holds the values that packets are made of. Each has a binary form: `decode`
  says what the front of a packet holds, `encode` which bytes stand for a value, and
  reading and writing are proved to follow them. What was written is read back, for every
  value that `survives` its binary form.
- `src/client` holds the decisions: the session with the server as a state machine, what
  a packet changes in the world, how much of it a frame deals with, which chunk sections
  get a new mesh, and what the window does about the user's input.
- `app` is the program around it: the connection, the window, and the world with its
  floating-point coordinates.

Numbers that only pass through, such as coordinates in floating point, are kept as bits in
`src`. Calls into `flate2`, `hematite-nbt` and `intmap` stand in `src/net/item_nbt.rs`,
`src/net/types/meta_map.rs` and `src/client/chunk_data.rs`, each with the contract that the
proofs rely on.
