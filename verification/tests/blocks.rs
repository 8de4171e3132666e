use biorite::blocks::{BlockFace, BlockTexture, BlockType, Visibility, F32_MINUS_ONE_BITS, F32_ONE_BITS};

#[test]
fn full_texture_shows_one_index_everywhere() {
    let t = BlockTexture::full(7);
    assert_eq!(t.from_direction(BlockFace::Top), 7);
    assert_eq!(t.from_direction(BlockFace::Side), 7);
    assert_eq!(t.from_direction(BlockFace::Bottom), 7);
}

#[test]
fn new_texture_keeps_each_face() {
    let t = BlockTexture::new(1, 2, 3);
    assert_eq!(t.from_direction(BlockFace::Top), 1);
    assert_eq!(t.from_direction(BlockFace::Side), 2);
    assert_eq!(t.from_direction(BlockFace::Bottom), 3);
}

#[test]
fn block_textures_match_the_atlas() {
    let grass = BlockType::Grass.get_texture();
    assert_eq!(grass.from_direction(BlockFace::Top), 0);
    assert_eq!(grass.from_direction(BlockFace::Side), 1);
    assert_eq!(grass.from_direction(BlockFace::Bottom), 2);
    assert_eq!(BlockType::Dirt.get_texture().from_direction(BlockFace::Top), 2);
    assert_eq!(BlockType::Stone.get_texture().from_direction(BlockFace::Side), 3);
    assert_eq!(BlockType::Sand.get_texture().from_direction(BlockFace::Bottom), 4);
    let wood = BlockType::Wood.get_texture();
    assert_eq!(wood.from_direction(BlockFace::Top), 6);
    assert_eq!(wood.from_direction(BlockFace::Side), 5);
    assert_eq!(wood.from_direction(BlockFace::Bottom), 6);
}

#[test]
fn air_is_empty_and_the_rest_opaque() {
    assert_eq!(BlockType::Air.get_visibility(), Visibility::Empty);
    assert_eq!(BlockType::Stone.get_visibility(), Visibility::Opaque);
    assert_eq!(BlockType::default(), BlockType::Air);
}

fn normals(n: [f32; 3]) -> [[u32; 3]; 4] {
    let v = [n[0].to_bits(), n[1].to_bits(), n[2].to_bits()];
    [v, v, v, v]
}

#[test]
fn face_kind_from_normals() {
    assert_eq!(F32_ONE_BITS, 1.0f32.to_bits());
    assert_eq!(F32_MINUS_ONE_BITS, (-1.0f32).to_bits());
    assert_eq!(BlockFace::from_normal(normals([0.0, 1.0, 0.0])), BlockFace::Top);
    assert_eq!(BlockFace::from_normal(normals([0.0, -1.0, 0.0])), BlockFace::Bottom);
    assert_eq!(BlockFace::from_normal(normals([1.0, 0.0, 0.0])), BlockFace::Side);
    assert_eq!(BlockFace::from_normal(normals([0.0, 0.0, -1.0])), BlockFace::Side);
    // negative zero equals zero
    assert_eq!(BlockFace::from_normal(normals([-0.0, 1.0, -0.0])), BlockFace::Top);
    // one vertex off makes a side face
    let mut mixed = normals([0.0, 1.0, 0.0]);
    mixed[2] = [0, (-1.0f32).to_bits(), 0];
    assert_eq!(BlockFace::from_normal(mixed), BlockFace::Side);
    assert_eq!(BlockFace::from_normal(normals([f32::NAN, 1.0, 0.0])), BlockFace::Side);
}
