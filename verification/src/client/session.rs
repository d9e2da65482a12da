//! The connection to the server, as a state machine over the packets that come in.

use crate::client::packets::{ClientState, Packet, PlayerPosition};
use crate::net::error::PacketError;
use crate::net::varint::VarInt;
use vstd::prelude::*;

verus! {

/// The version of the protocol that the client speaks.
pub const PROTOCOL_VERSION: i32 = 5;

/// The handshake's word for a client that wants to log in.
pub const NEXT_STATE_LOGIN: i32 = 2;

/// The number of the packet that ends the login.
pub const LOGIN_SUCCESS: i32 = 2;

/// The client command that asks to be spawned.
pub const PERFORM_RESPAWN: u8 = 0;

/// How far a session has come.
#[derive(Debug, Clone, Copy, PartialEq, Eq, Structural)]
pub enum Phase {
    /// The server has not let the player in yet.
    Login,
    /// The server has not said yet where the player is.
    AwaitingPosition,
    /// The game is on.
    Play,
    /// The server has ended the session.
    Closed,
}

/// Something to be done about a packet.
#[derive(Debug, PartialEq)]
pub enum Action {
    /// A packet for the server.
    Send(ClientState, Packet),
    /// A packet for the frame loop.
    Forward(Packet),
    /// The camera goes where the player is and turns the way they look.
    SetCamera(PlayerPosition),
    /// A line on the standard output.
    Print(Packet),
    /// A line of chat for the log.
    Chat(String),
    /// The reason that the server gives for ending the session, for the log.
    Disconnected(String),
    /// A packet that could not be decoded, with its number, for the log.
    DecodeFailed(i32, PacketError),
}

/// The packets that open a session: what the client speaks and wants, and who is playing.
pub fn opening(address: String, port: u16, username: String) -> (actions: Vec<Action>)
    ensures
        actions@ == seq![
            Action::Send(
                ClientState::Handshaking,
                Packet::SetProtocol {
                    protocol_version: VarInt(PROTOCOL_VERSION),
                    server_host: address,
                    server_port: port,
                    next_state: VarInt(NEXT_STATE_LOGIN),
                },
            ),
            Action::Send(ClientState::Login, Packet::LoginStart { username }),
        ],
        actions@.len() == 2,
        match actions@[0] {
            Action::Send(
                state,
                Packet::SetProtocol { protocol_version, server_host, server_port, next_state },
            ) => state == ClientState::Handshaking && protocol_version.0 == 5 && server_host@
                == address@ && server_port == port && next_state.0 == 2,
            _ => false,
        },
        match actions@[1] {
            Action::Send(state, Packet::LoginStart { username: name }) => state
                == ClientState::Login && name@ == username@,
            _ => false,
        },
{
    vec![
        Action::Send(
            ClientState::Handshaking,
            Packet::SetProtocol {
                protocol_version: VarInt(PROTOCOL_VERSION),
                server_host: address,
                server_port: port,
                next_state: VarInt(NEXT_STATE_LOGIN),
            },
        ),
        Action::Send(ClientState::Login, Packet::LoginStart { username }),
    ]
}

/// The packet that tells the server that its word on the player's position was heard.
pub open spec fn confirmation(p: PlayerPosition) -> Action {
    Action::Send(ClientState::Play, Packet::PositionLook(p))
}

/// The packet that asks the server to spawn the player.
pub open spec fn spawn_request() -> Action {
    Action::Send(ClientState::Play, Packet::ClientCommand { payload: PERFORM_RESPAWN })
}

/// Whether the frame loop has use for a packet.
pub open spec fn is_for_frame(p: Packet) -> bool {
    ||| p is PositionClientbound
    ||| p is Respawn
    ||| p is MapChunkBulk
    ||| p is MapChunk
    ||| p is BlockChange
    ||| p is MultiBlockChange
    ||| p is EntityDestroy
    ||| p is EntityMoveLook
    ||| p is RelEntityMove
    ||| p is EntityVelocity
    ||| p is SpawnEntity
    ||| p is SpawnEntityLiving
    ||| p is NamedEntitySpawn
}

/// What is done about a packet while the game is on.
pub open spec fn play_actions(p: Packet) -> Seq<Action> {
    match p {
        Packet::KeepAliveClientbound { keep_alive_id } => seq![
            Action::Send(ClientState::Play, Packet::KeepAliveServerbound { keep_alive_id }),
        ],
        Packet::PositionClientbound(at) => seq![Action::Forward(p), confirmation(at)],
        Packet::ScoreboardScore { .. } => seq![Action::Print(p)],
        Packet::ScoreboardObjective { .. } => seq![Action::Print(p)],
        Packet::ChatClientbound { message } => seq![Action::Chat(message)],
        Packet::Disconnect { reason } => seq![Action::Disconnected(reason)],
        _ => if is_for_frame(p) {
            seq![Action::Forward(p)]
        } else {
            seq![]
        },
    }
}

/// What a packet with the number `id` leads to: the next phase and what is done.
pub open spec fn reaction(phase: Phase, id: i32, decoded: Result<Packet, PacketError>) -> (
    Phase,
    Seq<Action>,
) {
    match phase {
        Phase::Login => if id == LOGIN_SUCCESS {
            (Phase::AwaitingPosition, seq![])
        } else {
            (Phase::Login, seq![])
        },
        Phase::AwaitingPosition => match decoded {
            Ok(Packet::PositionClientbound(at)) => (
                Phase::Play,
                seq![Action::SetCamera(at), confirmation(at), spawn_request()],
            ),
            _ => (Phase::AwaitingPosition, seq![]),
        },
        Phase::Play => match decoded {
            Ok(p) => (
                if p is Disconnect {
                    Phase::Closed
                } else {
                    Phase::Play
                },
                play_actions(p),
            ),
            Err(e) => (Phase::Play, seq![Action::DecodeFailed(id, e)]),
        },
        Phase::Closed => (Phase::Closed, seq![]),
    }
}

/// Decides on a packet while the game is on.
fn play(p: Packet) -> (actions: Vec<Action>)
    ensures
        actions@ == play_actions(p),
{
    match p {
        Packet::KeepAliveClientbound { keep_alive_id } => vec![
            Action::Send(ClientState::Play, Packet::KeepAliveServerbound { keep_alive_id }),
        ],
        Packet::PositionClientbound(at) => vec![
            Action::Forward(Packet::PositionClientbound(at)),
            Action::Send(ClientState::Play, Packet::PositionLook(at)),
        ],
        Packet::ScoreboardScore { .. } | Packet::ScoreboardObjective { .. } => vec![
            Action::Print(p),
        ],
        Packet::ChatClientbound { message } => vec![Action::Chat(message)],
        Packet::Disconnect { reason } => vec![Action::Disconnected(reason)],
        Packet::Respawn
        | Packet::MapChunkBulk(_)
        | Packet::MapChunk(_)
        | Packet::BlockChange { .. }
        | Packet::MultiBlockChange(_)
        | Packet::EntityDestroy { .. }
        | Packet::EntityMoveLook { .. }
        | Packet::RelEntityMove { .. }
        | Packet::EntityVelocity { .. }
        | Packet::SpawnEntity { .. }
        | Packet::SpawnEntityLiving { .. }
        | Packet::NamedEntitySpawn { .. } => vec![Action::Forward(p)],
        _ => Vec::new(),
    }
}

/// Decides on a packet that has come in: `id` is its number, `decoded` what it says. The
/// login goes by the number alone.
pub fn receive(phase: Phase, id: i32, decoded: Result<Packet, PacketError>) -> (res: (
    Phase,
    Vec<Action>,
))
    ensures
        (res.0, res.1@) == reaction(phase, id, decoded),
{
    match phase {
        Phase::Login => if id == LOGIN_SUCCESS {
            (Phase::AwaitingPosition, Vec::new())
        } else {
            (Phase::Login, Vec::new())
        },
        Phase::AwaitingPosition => match decoded {
            Ok(Packet::PositionClientbound(at)) => (
                Phase::Play,
                vec![
                    Action::SetCamera(at),
                    Action::Send(ClientState::Play, Packet::PositionLook(at)),
                    Action::Send(
                        ClientState::Play,
                        Packet::ClientCommand { payload: PERFORM_RESPAWN },
                    ),
                ],
            ),
            _ => (Phase::AwaitingPosition, Vec::new()),
        },
        Phase::Play => match decoded {
            Ok(p) => {
                let next = match &p {
                    Packet::Disconnect { .. } => Phase::Closed,
                    _ => Phase::Play,
                };
                (next, play(p))
            },
            Err(e) => (Phase::Play, vec![Action::DecodeFailed(id, e)]),
        },
        Phase::Closed => (Phase::Closed, Vec::new()),
    }
}

/// What a whole run of packets leads to: the last phase and all that is done.
pub open spec fn run(phase: Phase, incoming: Seq<(i32, Result<Packet, PacketError>)>) -> (
    Phase,
    Seq<Action>,
)
    decreases incoming.len(),
{
    if incoming.len() == 0 {
        (phase, seq![])
    } else {
        let (before, done) = run(phase, incoming.drop_last());
        let (next, more) = reaction(before, incoming.last().0, incoming.last().1);
        (next, done + more)
    }
}

/// Until the server has said where the player is, nothing is done but read.
pub proof fn silent_until_play(incoming: Seq<(i32, Result<Packet, PacketError>)>)
    ensures
        ({
            let (phase, done) = run(Phase::Login, incoming);
            phase is Login || phase is AwaitingPosition ==> done == Seq::<Action>::empty()
        }),
    decreases incoming.len(),
{
    if incoming.len() > 0 {
        silent_until_play(incoming.drop_last());
    }
}

/// The login ends with the packet that says so and with no other.
pub proof fn login_ends_with_success(incoming: Seq<(i32, Result<Packet, PacketError>)>)
    ensures
        run(Phase::Login, incoming).0 is Login <==> forall|i: int|
            0 <= i < incoming.len() ==> (#[trigger] incoming[i]).0 != LOGIN_SUCCESS,
    decreases incoming.len(),
{
    if incoming.len() > 0 {
        let before = incoming.drop_last();
        login_ends_with_success(before);
        if run(Phase::Login, incoming).0 is Login {
            assert forall|i: int| 0 <= i < incoming.len() implies (#[trigger] incoming[i]).0
                != LOGIN_SUCCESS by {
                if i < before.len() {
                    assert(before[i] == incoming[i]);
                }
            }
        } else {
            if run(Phase::Login, before).0 is Login {
                assert(incoming[incoming.len() - 1].0 == LOGIN_SUCCESS);
            } else {
                let i = choose|i: int|
                    0 <= i < before.len() && (#[trigger] before[i]).0 == LOGIN_SUCCESS;
                assert(incoming[i].0 == LOGIN_SUCCESS);
            }
        }
    }
}

/// How many of the actions are equal to `a`.
pub open spec fn times(actions: Seq<Action>, a: Action) -> nat
    decreases actions.len(),
{
    if actions.len() == 0 {
        0
    } else {
        times(actions.drop_last(), a) + if actions.last() == a {
            1nat
        } else {
            0nat
        }
    }
}

/// Counts of two runs of actions add up.
proof fn lemma_times(first: Seq<Action>, more: Seq<Action>, a: Action)
    ensures
        times(first + more, a) == times(first, a) + times(more, a),
    decreases more.len(),
{
    if more.len() == 0 {
        assert(first + more =~= first);
    } else {
        assert((first + more).drop_last() =~= first + more.drop_last());
        lemma_times(first, more.drop_last(), a);
    }
}

/// The player asks to be spawned once in a session: when they first learn where they are.
pub proof fn spawn_is_asked_for_once(incoming: Seq<(i32, Result<Packet, PacketError>)>)
    ensures
        ({
            let (phase, done) = run(Phase::Login, incoming);
            times(done, spawn_request()) == if phase is Play || phase is Closed {
                1nat
            } else {
                0nat
            }
        }),
    decreases incoming.len(),
{
    if incoming.len() > 0 {
        let (before, done) = run(Phase::Login, incoming.drop_last());
        let (next, more) = reaction(before, incoming.last().0, incoming.last().1);
        spawn_is_asked_for_once(incoming.drop_last());
        lemma_times(done, more, spawn_request());
        reveal_with_fuel(times, 4);
        assert(times(more, spawn_request()) == if before is AwaitingPosition && next is Play {
            1nat
        } else {
            0nat
        });
    }
}

/// Every keep-alive of the game is answered, with its own number.
pub proof fn keep_alive_is_answered(id: i32, keep_alive_id: i32)
    ensures
        reaction(
            Phase::Play,
            id,
            Ok::<Packet, PacketError>(Packet::KeepAliveClientbound { keep_alive_id }),
        ) == (
            Phase::Play,
            seq![Action::Send(ClientState::Play, Packet::KeepAliveServerbound { keep_alive_id })],
        ),
{
}

/// Once the player is let in, every word of the server on their position is confirmed, with
/// the position that it gave.
pub proof fn position_is_confirmed(phase: Phase, id: i32, at: PlayerPosition)
    requires
        phase is AwaitingPosition || phase is Play,
    ensures
        reaction(phase, id, Ok::<Packet, PacketError>(Packet::PositionClientbound(at))).0 is Play,
        times(
            reaction(phase, id, Ok::<Packet, PacketError>(Packet::PositionClientbound(at))).1,
            confirmation(at),
        ) == 1,
{
    reveal_with_fuel(times, 4);
}

/// Only the server ends a session, and a session that has ended stays ended.
pub proof fn only_disconnect_ends(phase: Phase, id: i32, decoded: Result<Packet, PacketError>)
    ensures
        reaction(phase, id, decoded).0 is Closed <==> phase is Closed || (phase is Play && (
        decoded matches Ok(p) && p is Disconnect)),
        phase is Closed ==> reaction(phase, id, decoded).1 == Seq::<Action>::empty(),
{
}

/// Whether a packet is one that a client sends while the game is on.
pub open spec fn is_from_client(p: Packet) -> bool {
    p is KeepAliveServerbound || p is PositionLook || p is ClientCommand
}

/// Whatever comes in, the server is sent nothing but packets of a client in the game.
pub proof fn only_client_packets_are_sent(
    phase: Phase,
    id: i32,
    decoded: Result<Packet, PacketError>,
    i: int,
)
    requires
        0 <= i < reaction(phase, id, decoded).1.len(),
    ensures
        reaction(phase, id, decoded).1[i] matches Action::Send(state, p) ==> state is Play
            && is_from_client(p),
{
}

/// The packets that actions hand to the frame loop.
pub open spec fn forwarded(actions: Seq<Action>) -> Seq<Packet>
    decreases actions.len(),
{
    if actions.len() == 0 {
        seq![]
    } else {
        let before = forwarded(actions.drop_last());
        match actions.last() {
            Action::Forward(p) => before.push(p),
            _ => before,
        }
    }
}

/// The packets that the frame loop has use for, among those that were decoded.
pub open spec fn frame_packets(incoming: Seq<(i32, Result<Packet, PacketError>)>) -> Seq<Packet>
    decreases incoming.len(),
{
    if incoming.len() == 0 {
        seq![]
    } else {
        let before = frame_packets(incoming.drop_last());
        match incoming.last().1 {
            Ok(p) => if is_for_frame(p) {
                before.push(p)
            } else {
                before
            },
            Err(_) => before,
        }
    }
}

/// What two runs of actions hand on is handed on one behind the other.
proof fn lemma_forwarded(first: Seq<Action>, more: Seq<Action>)
    ensures
        forwarded(first + more) == forwarded(first) + forwarded(more),
    decreases more.len(),
{
    if more.len() == 0 {
        assert(first + more =~= first);
        assert(forwarded(first) + forwarded(more) =~= forwarded(first));
    } else {
        assert((first + more).drop_last() =~= first + more.drop_last());
        lemma_forwarded(first, more.drop_last());
        assert(forwarded(first + more) =~= forwarded(first) + forwarded(more));
    }
}

/// While the game is on, the frame loop gets the packets that it has use for, all of them
/// and in the order in which they came.
pub proof fn frame_gets_its_packets(incoming: Seq<(i32, Result<Packet, PacketError>)>)
    requires
        run(Phase::Play, incoming).0 is Play,
    ensures
        forwarded(run(Phase::Play, incoming).1) == frame_packets(incoming),
    decreases incoming.len(),
{
    if incoming.len() > 0 {
        let (before, done) = run(Phase::Play, incoming.drop_last());
        let (next, more) = reaction(before, incoming.last().0, incoming.last().1);
        lemma_phase_from_play(incoming.drop_last());
        assert(before is Play);
        frame_gets_its_packets(incoming.drop_last());
        lemma_forwarded(done, more);
        reveal_with_fuel(forwarded, 3);
        assert(forwarded(done + more) =~= frame_packets(incoming));
    }
}

/// From the game there is no way but to the end.
proof fn lemma_phase_from_play(incoming: Seq<(i32, Result<Packet, PacketError>)>)
    ensures
        run(Phase::Play, incoming).0 is Play || run(Phase::Play, incoming).0 is Closed,
    decreases incoming.len(),
{
    if incoming.len() > 0 {
        lemma_phase_from_play(incoming.drop_last());
    }
}

} // verus!
