use biorite::client::{entity_spawn, entity_sync, request_spawn_chunks, SpawnKind, SpawnOrder};
use biorite::pos::IVec3;
use biorite::protocol::{EntityPosition, ServerChunkMessage, ServerMessage};
use biorite::server::Lobby;

#[test]
fn spawns_controlled_remote_and_existing_players() {
    let msgs = vec![ServerMessage::PlayerSpawn(3), ServerMessage::PlayerDespawn(9), ServerMessage::PlayerSpawn(4)];
    let chunk_msgs = vec![ServerChunkMessage::ChunkBatch(vec![]), ServerChunkMessage::Init { player_ids: vec![1, 2] }];
    let orders = entity_spawn(&msgs, &chunk_msgs, 4);
    assert_eq!(
        orders,
        vec![
            SpawnOrder { id: 3, kind: SpawnKind::Remote },
            SpawnOrder { id: 4, kind: SpawnKind::Controlled },
            SpawnOrder { id: 1, kind: SpawnKind::Existing },
            SpawnOrder { id: 2, kind: SpawnKind::Existing },
        ]
    );
}

#[test]
fn sync_moves_other_known_players_only() {
    let mut lobby = Lobby::default();
    lobby.players.insert(1, 100);
    lobby.players.insert(2, 200);
    let p1 = EntityPosition { id: 1, x: 1, y: 2, z: 3 };
    let p2 = EntityPosition { id: 2, x: 4, y: 5, z: 6 };
    let p3 = EntityPosition { id: 3, x: 7, y: 8, z: 9 };
    let msgs = vec![ServerMessage::EntitySync(vec![p1, p2, p3]), ServerMessage::PlayerSpawn(5)];
    let ups = entity_sync(&msgs, &lobby, 2);
    assert_eq!(ups, vec![(100, p1)]);
}

#[test]
fn spawn_chunks_form_a_sorted_ball() {
    let chunks = request_spawn_chunks(1);
    assert_eq!(chunks.len(), 7);
    assert_eq!(chunks[0], IVec3::new(-1, 0, 0));
    assert_eq!(chunks[3], IVec3::new(0, 0, 0));
    assert_eq!(chunks[6], IVec3::new(1, 0, 0));
    let two = request_spawn_chunks(2);
    assert_eq!(two.len(), 33);
    assert!(two.windows(2).all(|w| (w[0].x, w[0].y, w[0].z) < (w[1].x, w[1].y, w[1].z)));
    assert_eq!(request_spawn_chunks(0), vec![IVec3::new(0, 0, 0)]);
    assert!(request_spawn_chunks(-1).is_empty());
}
