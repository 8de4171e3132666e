use biorite::blocks::BlockType;
use biorite::chunk::{
    base_terrain, chunk_renderer, spawn_chunk, terrain_chunk, Chunk, ChunkEntry, ChunkRenderAction, LoadedChunks,
    QueuedChunk,
};
use biorite::posmap::PosMap;
use biorite::pos::{linearize, IVec3, CHUNK_SHAPE_SIZE};

#[test]
fn default_chunk_is_air() {
    let c = Chunk::default();
    assert_eq!(c.position, IVec3::zero());
    assert!(c.blocks.iter().all(|b| *b == BlockType::Air));
    assert!(!c.modified && !c.loaded);
}

#[test]
fn prototype_chunk_is_a_sphere() {
    let v = spawn_chunk();
    assert_eq!(v.len(), CHUNK_SHAPE_SIZE);
    assert_eq!(v[linearize([0, 0, 0]) as usize], BlockType::Dirt);
    assert_eq!(v[linearize([14, 5, 1]) as usize], BlockType::Dirt); // 222
    assert_eq!(v[linearize([14, 5, 2]) as usize], BlockType::Air); // 225
    assert_eq!(v[linearize([15, 0, 0]) as usize], BlockType::Air);
    assert_eq!(v[linearize([17, 17, 17]) as usize], BlockType::Air);
    for i in 0..CHUNK_SHAPE_SIZE as u32 {
        let [x, y, z] = biorite::pos::delinearize(i);
        let inside = ((x * x + y * y + z * z) as f32).sqrt() < 15.0;
        let expected = if inside { BlockType::Dirt } else { BlockType::Air };
        assert_eq!(v[i as usize], expected);
    }
}

#[test]
fn terrain_fills_columns_up_to_their_height() {
    let mut hm = [0u32; 324];
    hm[3 + 18 * 4] = 5;
    let blocks = base_terrain(&hm, IVec3::new(0, 0, 0));
    for y in 1..=16u32 {
        let b = blocks[linearize([3, y, 4]) as usize];
        assert_eq!(b, if y <= 5 { BlockType::Grass } else { BlockType::Air });
    }
    assert_eq!(blocks[linearize([2, 1, 4]) as usize], BlockType::Air);
    // the border stays air
    assert_eq!(blocks[linearize([3, 0, 4]) as usize], BlockType::Air);
    assert_eq!(blocks[linearize([3, 17, 4]) as usize], BlockType::Air);
}

#[test]
fn terrain_below_zero_is_solid_and_high_chunks_are_empty() {
    let hm = [0u32; 324];
    let low = base_terrain(&hm, IVec3::new(0, -1, 0));
    assert_eq!(low[linearize([1, 16, 1]) as usize], BlockType::Grass); // world height 0
    assert_eq!(low[linearize([16, 1, 16]) as usize], BlockType::Grass);
    let high = base_terrain(&[100u32; 324], IVec3::new(0, 7, 0));
    assert_eq!(high[linearize([1, 1, 1]) as usize], BlockType::Air); // height 113
    let chunk = terrain_chunk(&[20u32; 324], IVec3::new(2, 1, -3));
    assert_eq!(chunk.position, IVec3::new(2, 1, -3));
    assert_eq!(chunk.blocks[linearize([8, 4, 8]) as usize], BlockType::Grass); // height 20
    assert_eq!(chunk.blocks[linearize([8, 5, 8]) as usize], BlockType::Air); // height 21
}

#[test]
fn meshed_chunks_are_recorded_and_empty_ones_removed() {
    let mut loaded = LoadedChunks(PosMap::<ChunkEntry>::new());
    let mut c = Chunk::default();
    c.position = IVec3::new(2, -1, 0);
    let action = chunk_renderer(&mut loaded, 7, Some(QueuedChunk { chunk: c, is_new: true }));
    assert_eq!(action, ChunkRenderAction::Show { entity: 7, position: IVec3::new(2, -1, 0), rise: true });
    assert_eq!(loaded.0.get(&IVec3::new(2, -1, 0)).unwrap().entity, 7);
    let again = chunk_renderer(&mut loaded, 8, Some(QueuedChunk { chunk: c, is_new: false }));
    assert_eq!(again, ChunkRenderAction::Show { entity: 8, position: IVec3::new(2, -1, 0), rise: false });
    assert_eq!(loaded.0.get(&IVec3::new(2, -1, 0)).unwrap().entity, 8);
    assert_eq!(chunk_renderer(&mut loaded, 9, None), ChunkRenderAction::Despawn(9));
    assert_eq!(loaded.0.keys().len(), 1);
}
