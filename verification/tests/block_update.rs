use biorite::block_update::{client_block_updates, handle_block_updates, BlockUpdate};
use biorite::blocks::BlockType;
use biorite::chunk::{Chunk, ChunkEntry, LoadedChunks};
use biorite::pos::{block_location, local_index, IVec3};
use biorite::posmap::PosMap;
use biorite::protocol::{ClientMessage, ServerMessage};
use biorite::save::SaveFile;

fn world_with(chunk_pos: IVec3) -> SaveFile {
    let mut s = SaveFile::default();
    let mut c = Chunk::default();
    c.position = chunk_pos;
    s.insert_chunk(c);
    s
}

fn block_at(s: &mut SaveFile, pos: IVec3) -> BlockType {
    let loc = block_location(pos);
    let i = local_index(&loc);
    s.modify_chunk(loc.chunk).unwrap().blocks[i]
}

fn delta_of(u: &BlockUpdate) -> Option<(IVec3, BlockType)> {
    match u {
        BlockUpdate::Broadcast(ServerMessage::BlockDelta { pos, block }) => Some((*pos, *block)),
        _ => None,
    }
}

#[test]
fn placing_fills_air_and_is_announced() {
    let mut s = world_with(IVec3::new(-1, 0, 0));
    let pos = IVec3::new(-3, 4, 5);
    let ups = handle_block_updates(&mut s, &vec![(7, ClientMessage::PlaceBlock { pos, block: BlockType::Stone })]);
    assert_eq!(block_at(&mut s, pos), BlockType::Stone);
    assert_eq!(ups.len(), 2);
    assert_eq!(delta_of(&ups[0]), Some((pos, BlockType::Stone)));
    assert!(matches!(ups[1], BlockUpdate::SaveRegion(r) if r == IVec3::new(-1, 0, 0)));
}

#[test]
fn placing_never_overwrites_but_is_still_announced() {
    let mut s = world_with(IVec3::new(0, 0, 0));
    let pos = IVec3::new(1, 1, 1);
    handle_block_updates(&mut s, &vec![(1, ClientMessage::PlaceBlock { pos, block: BlockType::Stone })]);
    let ups = handle_block_updates(&mut s, &vec![(2, ClientMessage::PlaceBlock { pos, block: BlockType::Sand })]);
    assert_eq!(block_at(&mut s, pos), BlockType::Stone);
    assert_eq!(delta_of(&ups[0]), Some((pos, BlockType::Sand)));
}

#[test]
fn breaking_leaves_air_and_then_placing_works() {
    let mut s = world_with(IVec3::new(0, 0, 0));
    let pos = IVec3::new(2, 3, 4);
    let msgs = vec![
        (1, ClientMessage::PlaceBlock { pos, block: BlockType::Wood }),
        (1, ClientMessage::BreakBlock(pos)),
        (1, ClientMessage::PlaceBlock { pos, block: BlockType::Sand }),
    ];
    let ups = handle_block_updates(&mut s, &msgs);
    assert_eq!(block_at(&mut s, pos), BlockType::Sand);
    assert_eq!(ups.len(), 6);
    assert_eq!(delta_of(&ups[2]), Some((pos, BlockType::Air)));
    // a neighbour is untouched
    assert_eq!(block_at(&mut s, IVec3::new(2, 3, 5)), BlockType::Air);
}

#[test]
fn edits_in_missing_chunks_do_nothing() {
    let mut s = world_with(IVec3::new(0, 0, 0));
    let msgs = vec![
        (1, ClientMessage::BreakBlock(IVec3::new(100, 0, 0))),
        (1, ClientMessage::PlaceBlock { pos: IVec3::new(-1, 0, 0), block: BlockType::Dirt }),
        (1, ClientMessage::Ping),
        (1, ClientMessage::RequestChunk(vec![IVec3::zero()])),
    ];
    assert!(handle_block_updates(&mut s, &msgs).is_empty());
}

#[test]
fn client_applies_announced_changes() {
    let mut map = PosMap::new();
    map.insert(IVec3::new(0, 0, 0), ChunkEntry { chunk: Chunk::default(), entity: 9 });
    let mut loaded = LoadedChunks(map);
    let pos = IVec3::new(3, 3, 3);
    let msgs = vec![
        ServerMessage::BlockDelta { pos, block: BlockType::Stone },
        ServerMessage::PlayerSpawn(4),
        ServerMessage::BlockDelta { pos: IVec3::new(40, 0, 0), block: BlockType::Stone },
    ];
    let queue = client_block_updates(&mut loaded, &msgs);
    assert_eq!(queue.len(), 1);
    assert!(!queue[0].is_new);
    let i = local_index(&block_location(pos));
    assert_eq!(queue[0].chunk.blocks[i], BlockType::Stone);
    let entry = loaded.0.get(&IVec3::zero()).unwrap();
    assert_eq!(entry.chunk.blocks[i], BlockType::Stone);
    assert_eq!(entry.entity, 9);
}

#[test]
fn client_mirrors_server_after_a_break() {
    let mut server = world_with(IVec3::new(0, 0, 0));
    let pos = IVec3::new(5, 5, 5);
    handle_block_updates(&mut server, &vec![(1, ClientMessage::PlaceBlock { pos, block: BlockType::Dirt })]);
    let copy = *server.modify_chunk(IVec3::zero()).unwrap();
    let mut map = PosMap::new();
    map.insert(IVec3::zero(), ChunkEntry { chunk: copy, entity: 1 });
    let mut client = LoadedChunks(map);
    let ups = handle_block_updates(&mut server, &vec![(1, ClientMessage::BreakBlock(pos))]);
    let msgs: Vec<ServerMessage> = ups
        .into_iter()
        .filter_map(|u| match u {
            BlockUpdate::Broadcast(m) => Some(m),
            _ => None,
        })
        .collect();
    client_block_updates(&mut client, &msgs);
    let server_chunk = *server.modify_chunk(IVec3::zero()).unwrap();
    assert_eq!(client.0.get(&IVec3::zero()).unwrap().chunk.blocks, server_chunk.blocks);
}

fn announced(ups: Vec<BlockUpdate>) -> Vec<ServerMessage> {
    ups.into_iter()
        .filter_map(|u| match u {
            BlockUpdate::Broadcast(m) => Some(m),
            _ => None,
        })
        .collect()
}

fn client_copy(server: &mut SaveFile, c: IVec3) -> LoadedChunks {
    let copy = *server.modify_chunk(c).unwrap();
    let mut map = PosMap::new();
    map.insert(c, ChunkEntry { chunk: copy, entity: 1 });
    LoadedChunks(map)
}

#[test]
fn clients_stay_in_sync_over_a_tick() {
    let mut server = world_with(IVec3::new(0, 0, 0));
    let mut client = client_copy(&mut server, IVec3::zero());
    let msgs = vec![
        (1, ClientMessage::PlaceBlock { pos: IVec3::new(1, 2, 3), block: BlockType::Wood }),
        (2, ClientMessage::BreakBlock(IVec3::new(9, 9, 9))),
        (1, ClientMessage::PlaceBlock { pos: IVec3::new(4, 4, 4), block: BlockType::Sand }),
        (2, ClientMessage::BreakBlock(IVec3::new(1, 2, 3))),
        (3, ClientMessage::Ping),
    ];
    let ups = handle_block_updates(&mut server, &msgs);
    client_block_updates(&mut client, &announced(ups));
    let server_chunk = *server.modify_chunk(IVec3::zero()).unwrap();
    assert_eq!(client.0.get(&IVec3::zero()).unwrap().chunk.blocks, server_chunk.blocks);
}

#[test]
fn a_refused_placement_puts_the_client_out_of_step() {
    let mut server = world_with(IVec3::new(0, 0, 0));
    let pos = IVec3::new(2, 2, 2);
    handle_block_updates(&mut server, &vec![(1, ClientMessage::PlaceBlock { pos, block: BlockType::Stone })]);
    let mut client = client_copy(&mut server, IVec3::zero());
    let ups = handle_block_updates(&mut server, &vec![(1, ClientMessage::PlaceBlock { pos, block: BlockType::Dirt })]);
    client_block_updates(&mut client, &announced(ups));
    let i = local_index(&block_location(pos));
    assert_eq!(server.modify_chunk(IVec3::zero()).unwrap().blocks[i], BlockType::Stone);
    assert_eq!(client.0.get(&IVec3::zero()).unwrap().chunk.blocks[i], BlockType::Dirt);
}
