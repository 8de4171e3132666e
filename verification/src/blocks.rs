use vstd::prelude::*;

verus! {

/// Texture atlas indices of the three kinds of faces of a block.
pub struct BlockTexture {
    top: i32,
    side: i32,
    bottom: i32,
}

/// The three kinds of faces a block texture distinguishes.
#[derive(PartialEq, Eq, Structural, Clone, Copy, Debug)]
pub enum BlockFace {
    Top,
    Bottom,
    Side,
}

/// Bit pattern of single-precision 1.0.
pub const F32_ONE_BITS: u32 = 0x3f80_0000;

/// Bit pattern of single-precision -1.0.
pub const F32_MINUS_ONE_BITS: u32 = 0xbf80_0000;

/// Whether the single-precision value with bit pattern `bits` equals zero
/// (either sign).
pub open spec fn f32_is_zero(bits: u32) -> bool {
    bits & 0x7fff_ffffu32 == 0
}

/// Whether a vertex normal, given as the bit patterns of its three
/// single-precision components, equals `(0, y, 0)` for `y` given as a bit
/// pattern of 1.0 or -1.0.
pub open spec fn normal_is(n: [u32; 3], y: u32) -> bool {
    f32_is_zero(n[0]) && n[1] == y && f32_is_zero(n[2])
}

impl BlockFace {
    /// The kind of a quad's face from the normals of its four vertices
    /// (each component given as the bit pattern of its single-precision
    /// value): all pointing up is a top face, all pointing down a bottom
    /// face, anything else a side face.
    pub fn from_normal(normal: [[u32; 3]; 4]) -> (f: Self)
        ensures
            f == (if forall|i: int| 0 <= i < 4 ==> normal_is(#[trigger] normal@[i], F32_ONE_BITS) {
                BlockFace::Top
            } else if forall|i: int| 0 <= i < 4 ==> normal_is(#[trigger] normal@[i], F32_MINUS_ONE_BITS) {
                BlockFace::Bottom
            } else {
                BlockFace::Side
            }),
    {
        let mut up = true;
        let mut down = true;
        let mut i: usize = 0;
        while i < 4
            invariant
                i <= 4,
                up == forall|j: int| 0 <= j < i ==> normal_is(#[trigger] normal@[j], F32_ONE_BITS),
                down == forall|j: int| 0 <= j < i ==> normal_is(#[trigger] normal@[j], F32_MINUS_ONE_BITS),
            decreases 4 - i,
        {
            let n = normal[i];
            let zero_xz = n[0] & 0x7fff_ffffu32 == 0 && n[2] & 0x7fff_ffffu32 == 0;
            if !(zero_xz && n[1] == F32_ONE_BITS) {
                up = false;
            }
            if !(zero_xz && n[1] == F32_MINUS_ONE_BITS) {
                down = false;
            }
            i = i + 1;
        }
        if up {
            BlockFace::Top
        } else if down {
            BlockFace::Bottom
        } else {
            BlockFace::Side
        }
    }
}

impl BlockTexture {
    pub closed spec fn top_id(&self) -> i32 {
        self.top
    }

    pub closed spec fn side_id(&self) -> i32 {
        self.side
    }

    pub closed spec fn bottom_id(&self) -> i32 {
        self.bottom
    }

    /// The texture index that a face of the given kind shows.
    pub open spec fn spec_index(&self, dir: BlockFace) -> i32 {
        match dir {
            BlockFace::Top => self.top_id(),
            BlockFace::Bottom => self.bottom_id(),
            BlockFace::Side => self.side_id(),
        }
    }

    /// A texture that shows `id` on every face.
    pub fn full(id: i32) -> (t: Self)
        ensures
            t.top_id() == id,
            t.side_id() == id,
            t.bottom_id() == id,
    {
        BlockTexture { top: id, side: id, bottom: id }
    }

    /// A texture with its own index for the top, the sides and the bottom.
    pub fn new(top: i32, side: i32, bottom: i32) -> (t: Self)
        ensures
            t.top_id() == top,
            t.side_id() == side,
            t.bottom_id() == bottom,
    {
        BlockTexture { top, side, bottom }
    }

    /// The texture index of the face `dir`.
    pub fn from_direction(&self, dir: BlockFace) -> (id: i32)
        ensures
            id == self.spec_index(dir),
    {
        match dir {
            BlockFace::Top => self.top,
            BlockFace::Bottom => self.bottom,
            BlockFace::Side => self.side,
        }
    }
}

/// The kinds of blocks that make up the world.
#[derive(PartialEq, Eq, Structural, Clone, Copy, Debug)]
pub enum BlockType {
    Air,
    Grass,
    Dirt,
    Stone,
    Sand,
    Wood,
}

/// Whether a voxel hides what is behind it.
#[derive(PartialEq, Eq, Structural, Clone, Copy, Debug)]
pub enum Visibility {
    Empty,
    Opaque,
}

/// Texture indices (top, side, bottom) of each solid block.
pub open spec fn texture_ids(block: BlockType) -> (i32, i32, i32) {
    match block {
        BlockType::Grass => (0, 1, 2),
        BlockType::Dirt => (2, 2, 2),
        BlockType::Stone => (3, 3, 3),
        BlockType::Sand => (4, 4, 4),
        BlockType::Wood => (6, 5, 6),
        BlockType::Air => (0, 0, 0),
    }
}

impl BlockType {
    /// The block placed where nothing is, and the one a fresh chunk holds.
    pub fn default() -> (b: Self)
        ensures
            b == BlockType::Air,
    {
        BlockType::Air
    }

    /// The textures of a solid block. Air has none.
    pub fn get_texture(&self) -> (t: BlockTexture)
        requires
            *self != BlockType::Air,
        ensures
            t.top_id() == texture_ids(*self).0,
            t.side_id() == texture_ids(*self).1,
            t.bottom_id() == texture_ids(*self).2,
    {
        match *self {
            BlockType::Grass => BlockTexture::new(0, 1, 2),
            BlockType::Dirt => BlockTexture::full(2),
            BlockType::Stone => BlockTexture::full(3),
            BlockType::Sand => BlockTexture::full(4),
            BlockType::Wood => BlockTexture::new(6, 5, 6),
            BlockType::Air => BlockTexture::full(0),
        }
    }

    /// Air is empty, every other block is opaque.
    pub fn get_visibility(&self) -> (v: Visibility)
        ensures
            v == (if *self == BlockType::Air { Visibility::Empty } else { Visibility::Opaque }),
    {
        if *self == BlockType::Air {
            Visibility::Empty
        } else {
            Visibility::Opaque
        }
    }
}

} // verus!
