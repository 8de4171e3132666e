use biorite::blocks::BlockType;
use biorite::pos::IVec3;
use biorite::protocol::{ClientMessage, PlayerInput, ServerChunkMessage, ServerMessage};
use biorite::server::{
    chunk_send, client_connected, client_disconnected, server_ping_test, server_receive_input, ChunkRequestAction,
    Lobby, MAX_CHUNK_REQUEST,
};

#[test]
fn connecting_lists_earlier_players_and_announces_the_new_one() {
    let mut lobby = Lobby::default();
    let (init, spawn) = client_connected(&mut lobby, 1, 10);
    assert!(matches!(init, ServerChunkMessage::Init { ref player_ids } if player_ids.is_empty()));
    assert!(matches!(spawn, ServerMessage::PlayerSpawn(1)));
    let (init, _) = client_connected(&mut lobby, 2, 20);
    assert!(matches!(init, ServerChunkMessage::Init { ref player_ids } if *player_ids == vec![1]));
    let (init, _) = client_connected(&mut lobby, 3, 30);
    match init {
        ServerChunkMessage::Init { mut player_ids } => {
            player_ids.sort();
            assert_eq!(player_ids, vec![1, 2]);
        }
        _ => panic!("expected the player list"),
    }
    assert_eq!(lobby.players.get(&3), Some(&30));
}

#[test]
fn disconnecting_removes_the_player() {
    let mut lobby = Lobby::default();
    client_connected(&mut lobby, 1, 10);
    let (entity, msg) = client_disconnected(&mut lobby, 1);
    assert_eq!(entity, Some(10));
    assert!(matches!(msg, ServerMessage::PlayerDespawn(1)));
    assert!(lobby.players.is_empty());
    let (entity, msg) = client_disconnected(&mut lobby, 1);
    assert_eq!(entity, None);
    assert!(matches!(msg, ServerMessage::PlayerDespawn(1)));
}

#[test]
fn pings_get_pongs() {
    let msgs = vec![(4, ClientMessage::Ping), (5, ClientMessage::BreakBlock(IVec3::zero())), (6, ClientMessage::Ping)];
    let replies = server_ping_test(&msgs);
    assert_eq!(replies.len(), 2);
    assert_eq!(replies[0].0, 4);
    assert_eq!(replies[1].0, 6);
    match &replies[0].1 {
        ServerMessage::Pong(info) => {
            assert_eq!(info.name, "Test");
            assert_eq!(info.motd, "Test server");
            assert_eq!(info.player_count, 1);
            assert_eq!(info.max_player_count, 5);
        }
        _ => panic!("expected a pong"),
    }
}

#[test]
fn inputs_of_known_players_are_kept() {
    let mut lobby = Lobby::default();
    lobby.players.insert(1, 10);
    let a = PlayerInput { forward: 1.0f32.to_bits(), sideways: 0, jumping: true };
    let b = PlayerInput::default();
    let msgs = vec![
        (1, ClientMessage::PlayerInput(a)),
        (2, ClientMessage::PlayerInput(b)),
        (1, ClientMessage::Ping),
    ];
    let ups = server_receive_input(&msgs, &lobby);
    assert_eq!(ups.len(), 1);
    assert_eq!(ups[0].0, 10);
    assert_eq!(ups[0].1, a);
}

#[test]
fn oversized_requests_disconnect_and_known_players_are_served() {
    let mut lobby = Lobby::default();
    lobby.players.insert(1, 10);
    let big = vec![IVec3::zero(); MAX_CHUNK_REQUEST + 1];
    let small = vec![IVec3::new(1, 2, 3)];
    let msgs = vec![
        (1, ClientMessage::RequestChunk(small.clone())),
        (2, ClientMessage::RequestChunk(big.clone())),
        (1, ClientMessage::RequestChunk(big.clone())),
        (2, ClientMessage::PlaceBlock { pos: IVec3::zero(), block: BlockType::Dirt }),
    ];
    let actions = chunk_send(&msgs, &lobby);
    assert_eq!(actions.len(), 4);
    assert!(matches!(&actions[0], ChunkRequestAction::Serve { client: 1, positions } if *positions == small));
    assert!(matches!(actions[1], ChunkRequestAction::Disconnect(2)));
    assert!(matches!(actions[2], ChunkRequestAction::Disconnect(1)));
    assert!(matches!(&actions[3], ChunkRequestAction::Serve { client: 1, positions } if positions.len() == 513));
    let exact = vec![(1, ClientMessage::RequestChunk(vec![IVec3::zero(); MAX_CHUNK_REQUEST]))];
    let actions = chunk_send(&exact, &lobby);
    assert_eq!(actions.len(), 1);
    assert!(matches!(actions[0], ChunkRequestAction::Serve { client: 1, .. }));
}
