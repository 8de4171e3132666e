use vstd::prelude::*;

verus! {

/// A point of the integer lattice: a block, a chunk or a region position.
#[derive(PartialEq, Eq, Structural, Clone, Copy, Debug)]
pub struct IVec3 {
    pub x: i32,
    pub y: i32,
    pub z: i32,
}

impl IVec3 {
    pub fn new(x: i32, y: i32, z: i32) -> (v: Self)
        ensures
            v.x == x,
            v.y == y,
            v.z == z,
    {
        IVec3 { x, y, z }
    }

    /// The origin of the lattice.
    pub fn zero() -> (v: Self)
        ensures
            v.x == 0,
            v.y == 0,
            v.z == 0,
    {
        IVec3 { x: 0, y: 0, z: 0 }
    }
}

/// Edge length of the padded block array of a chunk: the chunk plus a
/// one-block border on each side.
pub const CHUNK_SHAPE_EDGE: u32 = 18;

/// Number of blocks in the padded block array of a chunk.
pub const CHUNK_SHAPE_SIZE: usize = 5832;

/// Position of cell `(x, y, z)` in an 18 x 18 x 18 array stored x-fastest.
pub open spec fn spec_linearize(x: int, y: int, z: int) -> int {
    x + 18 * y + 324 * z
}

/// The cell of an 18 x 18 x 18 array stored at position `i`.
pub open spec fn spec_delinearize(i: int) -> (int, int, int) {
    ((i % 324) % 18, (i % 324) / 18, i / 324)
}

/// Position of `p` in the padded 18 x 18 x 18 block array of a chunk,
/// stored with x varying fastest, then y, then z.
pub fn linearize(p: [u32; 3]) -> (i: u32)
    requires
        spec_linearize(p[0] as int, p[1] as int, p[2] as int) <= u32::MAX,
    ensures
        i == spec_linearize(p[0] as int, p[1] as int, p[2] as int),
{
    p[0] + 18 * p[1] + 324 * p[2]
}

/// The cell stored at position `i` of the padded block array; the inverse of
/// `linearize`.
pub fn delinearize(i: u32) -> (p: [u32; 3])
    ensures
        p[0] == spec_delinearize(i as int).0,
        p[1] == spec_delinearize(i as int).1,
        p[2] == spec_delinearize(i as int).2,
{
    let z = i / 324;
    let rest = i - z * 324;
    let y = rest / 18;
    let x = rest - y * 18;
    [x, y, z]
}

/// Laying out a cell and reading it back gives the cell again, and every
/// position names exactly one cell.
pub proof fn lemma_linearize_roundtrip(x: int, y: int, z: int, i: int)
    requires
        0 <= x < 18,
        0 <= y < 18,
        0 <= z,
        i >= 0,
    ensures
        spec_delinearize(spec_linearize(x, y, z)) == (x, y, z),
        spec_linearize(spec_delinearize(i).0, spec_delinearize(i).1, spec_delinearize(i).2) == i,
        0 <= x < 18 && 0 <= y < 18 && z < 18 ==> spec_linearize(x, y, z) < 5832,
{
    let l = spec_linearize(x, y, z);
    assert(l / 324 == z && l % 324 == x + 18 * y) by {
        vstd::arithmetic::div_mod::lemma_fundamental_div_mod_converse(l, 324, z, x + 18 * y);
    }
    assert((x + 18 * y) / 18 == y && (x + 18 * y) % 18 == x) by {
        vstd::arithmetic::div_mod::lemma_fundamental_div_mod_converse(x + 18 * y, 18, y, x);
    }
    vstd::arithmetic::div_mod::lemma_fundamental_div_mod(i, 324);
    vstd::arithmetic::div_mod::lemma_fundamental_div_mod(i % 324, 18);
}


/// Where a block of the world lies: the chunk that holds it and its cell in
/// that chunk's padded block array (each coordinate in `1..=16`).
#[derive(PartialEq, Eq, Structural, Clone, Copy, Debug)]
pub struct BlockLocation {
    pub chunk: IVec3,
    pub lx: u32,
    pub ly: u32,
    pub lz: u32,
}

/// The chunk coordinate of world coordinate `c`: `c` divided by the chunk
/// edge, rounded toward negative infinity.
pub open spec fn chunk_coord(c: int) -> int {
    c / 16
}

/// The padded cell coordinate of world coordinate `c` inside its chunk.
pub open spec fn local_coord(c: int) -> int {
    c % 16 + 1
}

/// `loc` is where block `pos` lies.
pub open spec fn locates(loc: BlockLocation, pos: IVec3) -> bool {
    &&& loc.chunk.x == chunk_coord(pos.x as int)
    &&& loc.chunk.y == chunk_coord(pos.y as int)
    &&& loc.chunk.z == chunk_coord(pos.z as int)
    &&& loc.lx == local_coord(pos.x as int)
    &&& loc.ly == local_coord(pos.y as int)
    &&& loc.lz == local_coord(pos.z as int)
}

/// Where block `pos` lies.
pub open spec fn spec_block_location(pos: IVec3) -> BlockLocation {
    BlockLocation {
        chunk: IVec3 {
            x: chunk_coord(pos.x as int) as i32,
            y: chunk_coord(pos.y as int) as i32,
            z: chunk_coord(pos.z as int) as i32,
        },
        lx: local_coord(pos.x as int) as u32,
        ly: local_coord(pos.y as int) as u32,
        lz: local_coord(pos.z as int) as u32,
    }
}

/// Index of `loc`'s cell in its chunk's padded block array.
pub open spec fn spec_local_index(loc: BlockLocation) -> int {
    spec_linearize(loc.lx as int, loc.ly as int, loc.lz as int)
}

fn split_coord(c: i32) -> (r: (i32, u32))
    ensures
        r.0 == chunk_coord(c as int),
        r.1 == local_coord(c as int),
        1 <= r.1 <= 16,
{
    let q = match c.checked_div_euclid(16) {
        Some(q) => q,
        None => 0,
    };
    let m = match c.checked_rem_euclid(16) {
        Some(m) => m,
        None => 0,
    };
    (q, (m + 1) as u32)
}

/// The chunk that holds block `pos` and the block's cell in that chunk:
/// each chunk coordinate is the block coordinate divided by 16, rounded down,
/// and each cell coordinate is the remainder plus one (the padded array
/// keeps a border of one block).
pub fn block_location(pos: IVec3) -> (loc: BlockLocation)
    ensures
        locates(loc, pos),
        loc == spec_block_location(pos),
        1 <= loc.lx <= 16,
        1 <= loc.ly <= 16,
        1 <= loc.lz <= 16,
{
    let (cx, lx) = split_coord(pos.x);
    let (cy, ly) = split_coord(pos.y);
    let (cz, lz) = split_coord(pos.z);
    BlockLocation { chunk: IVec3 { x: cx, y: cy, z: cz }, lx, ly, lz }
}

/// Index of the cell of `loc` in its chunk's padded block array.
pub fn local_index(loc: &BlockLocation) -> (i: usize)
    requires
        1 <= loc.lx <= 16,
        1 <= loc.ly <= 16,
        1 <= loc.lz <= 16,
    ensures
        i == spec_local_index(*loc),
        i < CHUNK_SHAPE_SIZE,
{
    linearize([loc.lx, loc.ly, loc.lz]) as usize
}

/// A block location names the block it was computed from: sixteen times the
/// chunk coordinate plus the cell coordinate, less the border, gives the
/// block coordinate back, and distinct blocks never share a location.
pub proof fn lemma_block_location_inverse(loc: BlockLocation, pos: IVec3, other: IVec3)
    requires
        locates(loc, pos),
        locates(loc, other),
    ensures
        16 * loc.chunk.x + loc.lx - 1 == pos.x,
        16 * loc.chunk.y + loc.ly - 1 == pos.y,
        16 * loc.chunk.z + loc.lz - 1 == pos.z,
        other == pos,
{
    vstd::arithmetic::div_mod::lemma_fundamental_div_mod(pos.x as int, 16);
    vstd::arithmetic::div_mod::lemma_fundamental_div_mod(pos.y as int, 16);
    vstd::arithmetic::div_mod::lemma_fundamental_div_mod(pos.z as int, 16);
    vstd::arithmetic::div_mod::lemma_fundamental_div_mod(other.x as int, 16);
    vstd::arithmetic::div_mod::lemma_fundamental_div_mod(other.y as int, 16);
    vstd::arithmetic::div_mod::lemma_fundamental_div_mod(other.z as int, 16);
}

/// Two blocks in the same chunk lie in distinct cells exactly when they are
/// distinct blocks.
pub proof fn lemma_local_index_injective(a: BlockLocation, pa: IVec3, b: BlockLocation, pb: IVec3)
    requires
        locates(a, pa),
        locates(b, pb),
        a.chunk == b.chunk,
        spec_local_index(a) == spec_local_index(b),
    ensures
        pa == pb,
{
    vstd::arithmetic::div_mod::lemma_fundamental_div_mod(pa.x as int, 16);
    vstd::arithmetic::div_mod::lemma_fundamental_div_mod(pa.y as int, 16);
    vstd::arithmetic::div_mod::lemma_fundamental_div_mod(pa.z as int, 16);
    vstd::arithmetic::div_mod::lemma_fundamental_div_mod(pb.x as int, 16);
    vstd::arithmetic::div_mod::lemma_fundamental_div_mod(pb.y as int, 16);
    vstd::arithmetic::div_mod::lemma_fundamental_div_mod(pb.z as int, 16);
    lemma_linearize_roundtrip(a.lx as int, a.ly as int, a.lz as int, 0);
    lemma_linearize_roundtrip(b.lx as int, b.ly as int, b.lz as int, 0);
}


/// `x & !15` clears the low four bits: it is `x` rounded down to a multiple
/// of sixteen.
proof fn lemma_mask_low4(x: i32)
    ensures
        (x & !15i32) as int == (x as int / 16) * 16,
{
    assert(x == ((x >> 4u32) << 4u32) + (x & 15i32) && 0 <= (x & 15i32) < 16 && (x & !15i32)
        == ((x >> 4u32) << 4u32)) by (bit_vector);
    assert(((x >> 4u32) << 4u32) == (x >> 4u32) * 16) by (bit_vector)
        requires
            x == ((x >> 4u32) << 4u32) + (x & 15i32),
    ;
    let q = (x >> 4u32) as int;
    let r = (x & 15i32) as int;
    assert(x as int == q * 16 + r);
    vstd::arithmetic::div_mod::lemma_fundamental_div_mod_converse(x as int, 16, q, r);
}

/// `x >> 5` is `x` divided by thirty-two, rounded toward negative infinity.
proof fn lemma_shift5(x: i32)
    ensures
        (x >> 5u32) as int == x as int / 32,
{
    assert(x == (x >> 5u32) * 32 + (x & 31i32) && 0 <= (x & 31i32) < 32) by (bit_vector);
    let q = (x >> 5u32) as int;
    let r = (x & 31i32) as int;
    vstd::arithmetic::div_mod::lemma_fundamental_div_mod_converse(x as int, 32, q, r);
}

/// The block at the lowest corner of the chunk that holds block `pos`.
pub open spec fn spec_chunk_origin(pos: IVec3) -> IVec3 {
    IVec3 {
        x: (chunk_coord(pos.x as int) * 16) as i32,
        y: (chunk_coord(pos.y as int) * 16) as i32,
        z: (chunk_coord(pos.z as int) * 16) as i32,
    }
}

/// The lowest corner of the chunk that holds block `pos`, found by clearing
/// the low four bits of each coordinate.
pub fn nearest_chunk_origin(pos: IVec3) -> (o: IVec3)
    ensures
        o == spec_chunk_origin(pos),
        o.x as int == chunk_coord(pos.x as int) * 16,
        o.y as int == chunk_coord(pos.y as int) * 16,
        o.z as int == chunk_coord(pos.z as int) * 16,
{
    proof {
        lemma_mask_low4(pos.x);
        lemma_mask_low4(pos.y);
        lemma_mask_low4(pos.z);
    }
    IVec3 { x: pos.x & !15i32, y: pos.y & !15i32, z: pos.z & !15i32 }
}

/// The chunk position of the chunk whose lowest corner is `origin`.
fn origin_to_chunk(c: i32) -> (r: i32)
    requires
        c as int % 16 == 0,
    ensures
        r as int * 16 == c,
{
    let r = match c.checked_div(16) {
        Some(r) => r,
        None => 0,
    };
    proof {
        let a = c as int;
        if a < 0 {
            vstd::arithmetic::div_mod::lemma_fundamental_div_mod(-a, 16);
            vstd::arithmetic::div_mod::lemma_fundamental_div_mod(a, 16);
        } else {
            vstd::arithmetic::div_mod::lemma_fundamental_div_mod(a, 16);
        }
    }
    r
}

/// The position, in chunks, of the chunk that holds block `pos`: the chunk
/// origin of `pos` divided by the chunk edge.
pub fn chunk_position(pos: IVec3) -> (c: IVec3)
    ensures
        c.x == chunk_coord(pos.x as int),
        c.y == chunk_coord(pos.y as int),
        c.z == chunk_coord(pos.z as int),
{
    let o = nearest_chunk_origin(pos);
    proof {
        vstd::arithmetic::div_mod::lemma_mod_multiples_basic(chunk_coord(pos.x as int), 16);
        vstd::arithmetic::div_mod::lemma_mod_multiples_basic(chunk_coord(pos.y as int), 16);
        vstd::arithmetic::div_mod::lemma_mod_multiples_basic(chunk_coord(pos.z as int), 16);
    }
    IVec3 { x: origin_to_chunk(o.x), y: origin_to_chunk(o.y), z: origin_to_chunk(o.z) }
}

/// The chunk the local player is in, as the lowest corner of that chunk,
/// and the block the player is at.
#[derive(PartialEq, Eq, Structural, Clone, Copy, Debug)]
pub struct CurrentLocalPlayerChunk {
    pub chunk_min: IVec3,
    pub world_pos: IVec3,
}

/// Follows the local player: records the block the player is at and the
/// lowest corner of the chunk around it. Without a player nothing changes.
pub fn update_player_pos(player: Option<IVec3>, chunk_pos: &mut CurrentLocalPlayerChunk)
    ensures
        player is None ==> *final(chunk_pos) == *old(chunk_pos),
        player matches Some(p) ==> final(chunk_pos).world_pos == p && final(chunk_pos).chunk_min
            == spec_chunk_origin(p),
{
    match player {
        Some(p) => {
            let origin = nearest_chunk_origin(p);
            chunk_pos.world_pos = p;
            if chunk_pos.chunk_min != origin {
                chunk_pos.chunk_min = origin;
            }
        },
        None => {},
    }
}

/// Edge length of a region, in chunks, as a power of two.
pub const REGION_DIM: u32 = 5;

/// The region that holds chunk `c`: each coordinate divided by 32, rounded
/// toward negative infinity.
pub open spec fn spec_region_of(c: IVec3) -> IVec3 {
    IVec3 {
        x: (c.x as int / 32) as i32,
        y: (c.y as int / 32) as i32,
        z: (c.z as int / 32) as i32,
    }
}

/// The region that holds chunk `c`, found by an arithmetic shift of each
/// coordinate by `REGION_DIM`.
pub fn region_of(c: IVec3) -> (r: IVec3)
    ensures
        r == spec_region_of(c),
{
    proof {
        lemma_shift5(c.x);
        lemma_shift5(c.y);
        lemma_shift5(c.z);
    }
    IVec3 { x: c.x >> REGION_DIM, y: c.y >> REGION_DIM, z: c.z >> REGION_DIM }
}

} // verus!
