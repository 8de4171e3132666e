use biorite::pos::{
    block_location, chunk_position, delinearize, linearize, local_index, nearest_chunk_origin,
    region_of, update_player_pos, CurrentLocalPlayerChunk, IVec3, CHUNK_SHAPE_SIZE,
};

#[test]
fn linearize_lays_out_x_fastest() {
    assert_eq!(linearize([0, 0, 0]), 0);
    assert_eq!(linearize([1, 0, 0]), 1);
    assert_eq!(linearize([0, 1, 0]), 18);
    assert_eq!(linearize([0, 0, 1]), 324);
    assert_eq!(linearize([17, 17, 17]), CHUNK_SHAPE_SIZE as u32 - 1);
}

#[test]
fn delinearize_inverts_linearize() {
    for i in 0..CHUNK_SHAPE_SIZE as u32 {
        assert_eq!(linearize(delinearize(i)), i);
    }
    assert_eq!(delinearize(linearize([3, 4, 5])), [3, 4, 5]);
}

#[test]
fn block_location_of_positive_and_negative_blocks() {
    let loc = block_location(IVec3::new(0, 0, 0));
    assert_eq!(loc.chunk, IVec3::new(0, 0, 0));
    assert_eq!((loc.lx, loc.ly, loc.lz), (1, 1, 1));

    let loc = block_location(IVec3::new(-1, 15, 16));
    assert_eq!(loc.chunk, IVec3::new(-1, 0, 1));
    assert_eq!((loc.lx, loc.ly, loc.lz), (16, 16, 1));

    let loc = block_location(IVec3::new(-16, -17, 33));
    assert_eq!(loc.chunk, IVec3::new(-1, -2, 2));
    assert_eq!((loc.lx, loc.ly, loc.lz), (1, 16, 2));
    assert_eq!(local_index(&loc), 1 + 18 * 16 + 324 * 2);
}

#[test]
fn block_location_reconstructs_the_block() {
    for x in -40..40 {
        let loc = block_location(IVec3::new(x, 2 * x, -x));
        assert_eq!(16 * loc.chunk.x + loc.lx as i32 - 1, x);
        assert_eq!(16 * loc.chunk.y + loc.ly as i32 - 1, 2 * x);
        assert_eq!(16 * loc.chunk.z + loc.lz as i32 - 1, -x);
    }
    let far = block_location(IVec3::new(i32::MIN, i32::MAX, 0));
    assert_eq!(far.chunk, IVec3::new(i32::MIN / 16, i32::MAX / 16, 0));
    assert_eq!((far.lx, far.ly), (1, 16));
}

#[test]
fn chunk_origin_rounds_down() {
    assert_eq!(nearest_chunk_origin(IVec3::new(5, 16, 31)), IVec3::new(0, 16, 16));
    assert_eq!(nearest_chunk_origin(IVec3::new(-1, -16, -17)), IVec3::new(-16, -16, -32));
    assert_eq!(chunk_position(IVec3::new(-1, -16, -17)), IVec3::new(-1, -1, -2));
    assert_eq!(chunk_position(IVec3::new(33, 0, 15)), IVec3::new(2, 0, 0));
}

#[test]
fn regions_hold_32_chunks_a_side() {
    assert_eq!(region_of(IVec3::new(0, 31, 32)), IVec3::new(0, 0, 1));
    assert_eq!(region_of(IVec3::new(-1, -32, -33)), IVec3::new(-1, -1, -2));
}

#[test]
fn player_position_tracking() {
    let mut cur = CurrentLocalPlayerChunk { chunk_min: IVec3::zero(), world_pos: IVec3::zero() };
    update_player_pos(Some(IVec3::new(17, -3, 40)), &mut cur);
    assert_eq!(cur.world_pos, IVec3::new(17, -3, 40));
    assert_eq!(cur.chunk_min, IVec3::new(16, -16, 32));
    update_player_pos(None, &mut cur);
    assert_eq!(cur.world_pos, IVec3::new(17, -3, 40));
    assert_eq!(cur.chunk_min, IVec3::new(16, -16, 32));
}
