use nautilus::client::packets::{
    print_packet_filtered, ClientState, EntitySpeed, MapChunk, MapChunkBulk, MultiBlockChange,
    Offset, Packet, PlayerPosition,
};
use nautilus::client::session::{opening, receive, Action, Phase};
use nautilus::net::error::PacketError;
use nautilus::net::float_bits::{Float32, Float64};
use nautilus::net::types::position::PositionIBI;
use nautilus::net::varint::VarInt;

fn somewhere() -> PlayerPosition {
    PlayerPosition {
        x: Float64 { bits: 1.5f64.to_bits() },
        y: Float64 { bits: 64.0f64.to_bits() },
        z: Float64 { bits: (-3.25f64).to_bits() },
        yaw: Float32 { bits: 90.0f32.to_bits() },
        pitch: Float32 { bits: 10.0f32.to_bits() },
        on_ground: true,
    }
}

fn origin() -> Offset {
    Offset {
        x: Float32 { bits: 0 },
        y: Float32 { bits: 0 },
        z: Float32 { bits: 0 },
    }
}

fn still() -> EntitySpeed {
    EntitySpeed { x: 0, y: 0, z: 0 }
}

fn text() -> String {
    "text".to_string()
}

/// The packets that the frame loop has use for.
fn for_frame() -> Vec<Packet> {
    vec![
        Packet::PositionClientbound(somewhere()),
        Packet::Respawn,
        Packet::MapChunkBulk(MapChunkBulk { sky_light_sent: true, data: vec![], meta: vec![] }),
        Packet::MapChunk(MapChunk {
            x: 1,
            z: 2,
            ground_up: true,
            bit_map: 3,
            add_bit_map: 4,
            compressed_chunk_data: vec![],
        }),
        Packet::BlockChange { location: PositionIBI { x: 1, y: 2, z: 3 }, kind: VarInt(4) },
        Packet::MultiBlockChange(MultiBlockChange { chunk_x: 0, chunk_z: 0, records: vec![] }),
        Packet::EntityDestroy { entity_ids: vec![1, 2] },
        Packet::EntityMoveLook { entity_id: 1, by: origin() },
        Packet::RelEntityMove { entity_id: 1, by: origin() },
        Packet::EntityVelocity { entity_id: 1, velocity: still() },
        Packet::SpawnEntity { entity_id: VarInt(1), at: origin() },
        Packet::SpawnEntityLiving { entity_id: VarInt(1), at: origin(), velocity: still() },
        Packet::NamedEntitySpawn { entity_id: VarInt(1), at: origin() },
    ]
}

#[test]
fn session_is_opened_with_two_packets() {
    assert_eq!(
        opening("localhost".to_string(), 25565, "Nautilus".to_string()),
        vec![
            Action::Send(
                ClientState::Handshaking,
                Packet::SetProtocol {
                    protocol_version: VarInt(5),
                    server_host: "localhost".to_string(),
                    server_port: 25565,
                    next_state: VarInt(2),
                },
            ),
            Action::Send(
                ClientState::Login,
                Packet::LoginStart { username: "Nautilus".to_string() },
            ),
        ]
    );
}

#[test]
fn login_goes_by_the_number_alone() {
    let other = Packet::Other { text: text() };
    assert_eq!(receive(Phase::Login, 0, Ok(other.clone())), (Phase::Login, vec![]));
    assert_eq!(receive(Phase::Login, 3, Ok(other.clone())), (Phase::Login, vec![]));
    assert_eq!(
        receive(Phase::Login, 1, Err(PacketError::UnexpectedEnd)),
        (Phase::Login, vec![])
    );
    assert_eq!(
        receive(Phase::Login, 2, Err(PacketError::UnexpectedEnd)),
        (Phase::AwaitingPosition, vec![])
    );
    assert_eq!(receive(Phase::Login, 2, Ok(other)), (Phase::AwaitingPosition, vec![]));
}

#[test]
fn nothing_is_done_before_the_position_is_known() {
    for p in [
        Packet::KeepAliveClientbound { keep_alive_id: 4 },
        Packet::Respawn,
        Packet::ChatClientbound { message: text() },
        Packet::Disconnect { reason: text() },
    ] {
        assert_eq!(
            receive(Phase::AwaitingPosition, 0, Ok(p)),
            (Phase::AwaitingPosition, vec![])
        );
    }
    assert_eq!(
        receive(Phase::AwaitingPosition, 0, Err(PacketError::UnexpectedEnd)),
        (Phase::AwaitingPosition, vec![])
    );
}

#[test]
fn first_position_starts_the_game() {
    assert_eq!(
        receive(Phase::AwaitingPosition, 8, Ok(Packet::PositionClientbound(somewhere()))),
        (
            Phase::Play,
            vec![
                Action::SetCamera(somewhere()),
                Action::Send(ClientState::Play, Packet::PositionLook(somewhere())),
                Action::Send(ClientState::Play, Packet::ClientCommand { payload: 0 }),
            ]
        )
    );
}

#[test]
fn keep_alive_is_answered_with_its_number() {
    for keep_alive_id in [0, 77, -1] {
        assert_eq!(
            receive(Phase::Play, 0, Ok(Packet::KeepAliveClientbound { keep_alive_id })),
            (
                Phase::Play,
                vec![Action::Send(
                    ClientState::Play,
                    Packet::KeepAliveServerbound { keep_alive_id }
                )]
            )
        );
    }
}

#[test]
fn later_positions_are_confirmed_and_passed_on() {
    assert_eq!(
        receive(Phase::Play, 8, Ok(Packet::PositionClientbound(somewhere()))),
        (
            Phase::Play,
            vec![
                Action::Forward(Packet::PositionClientbound(somewhere())),
                Action::Send(ClientState::Play, Packet::PositionLook(somewhere())),
            ]
        )
    );
}

#[test]
fn packets_for_the_frame_are_passed_on() {
    for p in for_frame() {
        let (phase, actions) = receive(Phase::Play, 0, Ok(p.clone()));
        assert_eq!(phase, Phase::Play);
        assert_eq!(actions[0], Action::Forward(p.clone()));
        let confirmed = matches!(p, Packet::PositionClientbound(_));
        assert_eq!(actions.len(), if confirmed { 2 } else { 1 });
    }
}

#[test]
fn other_packets_are_left_alone() {
    for p in [
        Packet::Other { text: text() },
        Packet::EntityLook,
        Packet::EntityHeadRotation,
        Packet::EntityMetadata,
        Packet::UpdateAttributes,
        Packet::LoginStart { username: text() },
        Packet::ClientCommand { payload: 0 },
    ] {
        assert_eq!(receive(Phase::Play, 0, Ok(p)), (Phase::Play, vec![]));
    }
}

#[test]
fn scoreboard_and_chat_are_shown() {
    for p in [
        Packet::ScoreboardScore { text: text() },
        Packet::ScoreboardObjective { text: text() },
    ] {
        assert_eq!(
            receive(Phase::Play, 0, Ok(p.clone())),
            (Phase::Play, vec![Action::Print(p)])
        );
    }
    assert_eq!(
        receive(Phase::Play, 2, Ok(Packet::ChatClientbound { message: text() })),
        (Phase::Play, vec![Action::Chat(text())])
    );
}

#[test]
fn disconnect_ends_the_session() {
    assert_eq!(
        receive(Phase::Play, 0x40, Ok(Packet::Disconnect { reason: text() })),
        (Phase::Closed, vec![Action::Disconnected(text())])
    );
    for p in for_frame() {
        assert_eq!(receive(Phase::Closed, 2, Ok(p)), (Phase::Closed, vec![]));
    }
}

#[test]
fn packet_that_cannot_be_decoded_is_reported_with_its_number() {
    assert_eq!(
        receive(Phase::Play, 0x21, Err(PacketError::InvalidString)),
        (Phase::Play, vec![Action::DecodeFailed(0x21, PacketError::InvalidString)])
    );
}

#[test]
fn whole_session_asks_to_spawn_once() {
    let incoming: Vec<(i32, Result<Packet, PacketError>)> = vec![
        (0, Err(PacketError::UnexpectedEnd)),
        (2, Ok(Packet::Other { text: text() })),
        (0, Ok(Packet::Respawn)),
        (8, Ok(Packet::PositionClientbound(somewhere()))),
        (8, Ok(Packet::PositionClientbound(somewhere()))),
        (7, Ok(Packet::Respawn)),
        (0x40, Ok(Packet::Disconnect { reason: text() })),
        (8, Ok(Packet::PositionClientbound(somewhere()))),
    ];
    let mut phase = Phase::Login;
    let mut done: Vec<Action> = vec![];
    for (id, decoded) in incoming {
        let (next, mut actions) = receive(phase, id, decoded);
        phase = next;
        done.append(&mut actions);
    }
    assert_eq!(phase, Phase::Closed);
    let spawn = Action::Send(ClientState::Play, Packet::ClientCommand { payload: 0 });
    assert_eq!(done.iter().filter(|a| **a == spawn).count(), 1);
    let passed_on: Vec<&Action> = done
        .iter()
        .filter(|a| matches!(a, Action::Forward(_)))
        .collect();
    assert_eq!(
        passed_on,
        vec![
            &Action::Forward(Packet::PositionClientbound(somewhere())),
            &Action::Forward(Packet::Respawn),
        ]
    );
}

#[test]
fn frequent_packets_are_not_printed() {
    let frequent: Vec<bool> = for_frame().iter().map(print_packet_filtered).collect();
    // positions, respawns and block changes are rare
    assert_eq!(
        frequent,
        vec![
            true, true, false, false, true, true, false, false, false, false, false, false, false
        ]
    );
    for p in [
        Packet::EntityLook,
        Packet::EntityHeadRotation,
        Packet::EntityMetadata,
        Packet::UpdateAttributes,
    ] {
        assert!(!print_packet_filtered(&p));
    }
    for p in [
        Packet::KeepAliveClientbound { keep_alive_id: 1 },
        Packet::ChatClientbound { message: text() },
        Packet::Disconnect { reason: text() },
        Packet::Other { text: text() },
        Packet::ScoreboardScore { text: text() },
    ] {
        assert!(print_packet_filtered(&p));
    }
}
