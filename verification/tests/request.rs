use biorite::chunk::{Chunk, ChunkEntry, LoadedChunks};
use biorite::pos::IVec3;
use biorite::posmap::PosMap;
use biorite::protocol::ClientMessage;
use biorite::request::{client_chunk_despawner, request_chunk, AlreadyRequested};

fn requested(m: Option<ClientMessage>) -> Vec<IVec3> {
    match m {
        Some(ClientMessage::RequestChunk(v)) => v,
        _ => panic!("expected a chunk request"),
    }
}

#[test]
fn no_player_no_request() {
    let mut sent = AlreadyRequested(vec![]);
    assert!(request_chunk(None, &mut sent).is_none());
    assert!(sent.0.is_empty());
}

#[test]
fn first_request_asks_for_the_whole_box_in_order() {
    let mut sent = AlreadyRequested(vec![]);
    let batch = requested(request_chunk(Some(IVec3::new(5, 5, 5)), &mut sent));
    assert_eq!(batch.len(), 27);
    assert_eq!(batch[0], IVec3::new(-1, -1, -1));
    assert_eq!(batch[1], IVec3::new(-1, -1, 0));
    assert_eq!(batch[3], IVec3::new(-1, 0, -1));
    assert_eq!(batch[9], IVec3::new(0, -1, -1));
    assert_eq!(batch[26], IVec3::new(1, 1, 1));
    assert_eq!(sent.0, batch);
}

#[test]
fn asking_again_from_the_same_chunk_sends_nothing() {
    let mut sent = AlreadyRequested(vec![]);
    request_chunk(Some(IVec3::new(1, 2, 3)), &mut sent);
    let before = sent.0.clone();
    assert!(request_chunk(Some(IVec3::new(15, 15, 15)), &mut sent).is_none());
    assert_eq!(sent.0, before);
}

#[test]
fn moving_one_chunk_asks_only_for_the_new_layer() {
    let mut sent = AlreadyRequested(vec![]);
    request_chunk(Some(IVec3::new(0, 0, 0)), &mut sent);
    let batch = requested(request_chunk(Some(IVec3::new(16, 0, 0)), &mut sent));
    assert_eq!(batch.len(), 9);
    assert!(batch.iter().all(|c| c.x == 2));
    assert_eq!(sent.0.len(), 36);
}

#[test]
fn negative_positions_use_the_chunk_below() {
    let mut sent = AlreadyRequested(vec![]);
    let batch = requested(request_chunk(Some(IVec3::new(-1, -17, 0)), &mut sent));
    assert_eq!(batch[0], IVec3::new(-2, -3, -1));
    assert_eq!(batch[26], IVec3::new(0, -1, 1));
}

fn entry(p: IVec3, entity: u64) -> ChunkEntry {
    let mut c = Chunk::default();
    c.position = p;
    ChunkEntry { chunk: c, entity }
}

#[test]
fn despawner_drops_far_chunks_and_forgets_them() {
    let mut map = PosMap::new();
    map.insert(IVec3::new(0, 0, 0), entry(IVec3::new(0, 0, 0), 10));
    map.insert(IVec3::new(1, 1, 1), entry(IVec3::new(1, 1, 1), 11));
    map.insert(IVec3::new(5, 0, 0), entry(IVec3::new(5, 0, 0), 12));
    let mut loaded = LoadedChunks(map);
    let mut sent = AlreadyRequested(vec![IVec3::new(0, 0, 0), IVec3::new(5, 0, 0), IVec3::new(-2, 0, 0)]);
    let gone = client_chunk_despawner(&vec![IVec3::new(3, 3, 3)], &mut loaded, &mut sent);
    assert_eq!(gone.len(), 1);
    assert_eq!(gone[0], (IVec3::new(5, 0, 0), 12));
    assert!(loaded.0.contains_key(&IVec3::new(0, 0, 0)));
    assert!(loaded.0.contains_key(&IVec3::new(1, 1, 1)));
    assert!(!loaded.0.contains_key(&IVec3::new(5, 0, 0)));
    assert_eq!(sent.0, vec![IVec3::new(0, 0, 0)]);
}

#[test]
fn despawner_without_players_drops_everything() {
    let mut map = PosMap::new();
    map.insert(IVec3::new(0, 0, 0), entry(IVec3::new(0, 0, 0), 1));
    let mut loaded = LoadedChunks(map);
    let mut sent = AlreadyRequested(vec![IVec3::new(0, 0, 0)]);
    let gone = client_chunk_despawner(&vec![], &mut loaded, &mut sent);
    assert_eq!(gone, vec![(IVec3::new(0, 0, 0), 1)]);
    assert!(sent.0.is_empty());
    assert!(!loaded.0.contains_key(&IVec3::new(0, 0, 0)));
}
