use vstd::prelude::*;

use crate::blocks::BlockType;
use crate::posmap::PosMap;
use crate::pos::{spec_delinearize, delinearize, lemma_linearize_roundtrip, IVec3, CHUNK_SHAPE_SIZE};

verus! {

/// A 16 x 16 x 16 piece of the world, stored with a one-block border as an
/// 18 x 18 x 18 array of blocks.
#[derive(Clone, Copy, Debug)]
pub struct Chunk {
    pub position: IVec3,
    pub blocks: [BlockType; 5832],
    pub modified: bool,
    pub loaded: bool,
}

/// The part of a chunk that a spawned chunk entity carries.
#[derive(PartialEq, Eq, Structural, Clone, Copy, Debug)]
pub struct ChunkComponent {
    pub position: IVec3,
    pub loaded: bool,
}

/// A chunk a client has loaded, with the entity that shows it.
#[derive(Clone, Copy, Debug)]
pub struct ChunkEntry {
    pub chunk: Chunk,
    pub entity: u64,
}

/// The chunks a client has loaded, by chunk position.
pub struct LoadedChunks(pub PosMap<ChunkEntry>);

/// A chunk waiting to be meshed; `is_new` when it has just arrived.
#[derive(Clone, Copy, Debug)]
pub struct QueuedChunk {
    pub chunk: Chunk,
    pub is_new: bool,
}

/// `c` with the block at position `i` of its block array set to `b`.
pub open spec fn with_block(c: Chunk, i: int, b: BlockType) -> Chunk {
    Chunk {
        position: c.position,
        blocks: vstd::array::spec_array_update(c.blocks, i, b),
        modified: c.modified,
        loaded: c.loaded,
    }
}

impl Chunk {
    /// An unloaded, unmodified chunk at the origin, filled with air.
    pub fn default() -> (c: Self)
        ensures
            c.position == (IVec3 { x: 0, y: 0, z: 0 }),
            forall|i: int| 0 <= i < CHUNK_SHAPE_SIZE ==> c.blocks@[i] == BlockType::Air,
            !c.modified,
            !c.loaded,
    {
        Chunk {
            position: IVec3::zero(),
            blocks: [BlockType::Air; 5832],
            modified: false,
            loaded: false,
        }
    }
}

/// Whether cell `(x, y, z)` lies inside the sphere of radius 15 around the
/// corner of the array.
pub open spec fn in_sphere(x: int, y: int, z: int) -> bool {
    x * x + y * y + z * z < 225
}

/// The block that the prototype chunk holds at position `i` of its block
/// array: dirt inside the sphere of radius 15 around the array's corner, air
/// elsewhere.
pub open spec fn sphere_block(i: int) -> BlockType {
    let (x, y, z) = spec_delinearize(i);
    if in_sphere(x, y, z) {
        BlockType::Dirt
    } else {
        BlockType::Air
    }
}

/// The blocks of the prototype chunk: for each cell, dirt where the distance
/// from the array's corner is below 15, air elsewhere. (For these small
/// integer squares, comparing the square root with 15 in single precision
/// and comparing the square with 225 agree.)
pub fn spawn_chunk() -> (voxels: [BlockType; 5832])
    ensures
        forall|i: int| 0 <= i < CHUNK_SHAPE_SIZE ==> voxels@[i] == sphere_block(i),
{
    let mut voxels = [BlockType::Air; 5832];
    let mut i: u32 = 0;
    while i < 5832
        invariant
            i <= 5832,
            forall|j: int| 0 <= j < i ==> voxels@[j] == sphere_block(j),
        decreases 5832 - i,
    {
        let p = delinearize(i);
        proof {
            lemma_linearize_roundtrip(0, 0, 0, i as int);
        }
        let x = p[0];
        let y = p[1];
        let z = p[2];
        assert(x < 18 && y < 18 && z < 18);
        assert(x * x <= 289 && y * y <= 289 && z * z <= 289) by (nonlinear_arith)
            requires
                x < 18 && y < 18 && z < 18,
        ;
        let d = x * x + y * y + z * z;
        let b = if d < 225 {
            BlockType::Dirt
        } else {
            BlockType::Air
        };
        voxels[i as usize] = b;
        i = i + 1;
    }
    voxels
}


/// Number of columns in a chunk's height map: 18 x 18, border included.
pub const HEIGHT_MAP_SIZE: usize = 324;

/// The terrain level below which a cell at height `gy` (in blocks, over the
/// whole world) is ground: heights below zero count as zero.
pub open spec fn clamp_height(gy: int) -> int {
    if gy < 0 {
        0
    } else {
        gy
    }
}

/// The block that generated terrain holds at position `i` of the padded
/// block array of the chunk whose vertical chunk coordinate is `chunk_y`:
/// grass in the chunk's interior wherever the column's height reaches the
/// cell's world height, air elsewhere (the border included).
pub open spec fn terrain_block(heightmap: Seq<u32>, chunk_y: int, i: int) -> BlockType {
    let (x, y, z) = spec_delinearize(i);
    if 1 <= x <= 16 && 1 <= y <= 16 && 1 <= z <= 16 && heightmap[x + 18 * z] >= clamp_height(
        chunk_y * 16 + y,
    ) {
        BlockType::Grass
    } else {
        BlockType::Air
    }
}

/// The blocks of a freshly generated chunk at `position`, given the height
/// of each column: every interior cell at or below its column's height is
/// grass. The world height of a cell is computed exactly; generation works
/// in single precision, which is exact for chunks below `2^20`.
pub fn base_terrain(heightmap: &[u32; 324], position: IVec3) -> (blocks: [BlockType; 5832])
    requires
        position.y < 0x10_0000,
    ensures
        forall|i: int|
            0 <= i < CHUNK_SHAPE_SIZE ==> blocks@[i] == terrain_block(
                heightmap@,
                position.y as int,
                i,
            ),
{
    let mut blocks = [BlockType::Air; 5832];
    let mut i: u32 = 0;
    while i < 5832
        invariant
            i <= 5832,
            position.y < 0x10_0000,
            forall|j: int|
                0 <= j < i ==> blocks@[j] == terrain_block(heightmap@, position.y as int, j),
        decreases 5832 - i,
    {
        let p = delinearize(i);
        proof {
            lemma_linearize_roundtrip(0, 0, 0, i as int);
        }
        let x = p[0];
        let y = p[1];
        let z = p[2];
        let mut b = BlockType::Air;
        if 1 <= x && x <= 16 && 1 <= y && y <= 16 && 1 <= z && z <= 16 {
            let gy: i64 = position.y as i64 * 16 + y as i64;
            let level: u32 = if gy < 0 {
                0
            } else {
                gy as u32
            };
            if heightmap[(x + 18 * z) as usize] >= level {
                b = BlockType::Grass;
            }
        }
        blocks[i as usize] = b;
        i = i + 1;
    }
    blocks
}

/// A freshly generated chunk at `position` whose columns rise to the heights
/// in `heightmap`: neither modified nor loaded yet.
pub fn terrain_chunk(heightmap: &[u32; 324], position: IVec3) -> (chunk: Chunk)
    requires
        position.y < 0x10_0000,
    ensures
        chunk.position == position,
        forall|i: int|
            0 <= i < CHUNK_SHAPE_SIZE ==> chunk.blocks@[i] == terrain_block(
                heightmap@,
                position.y as int,
                i,
            ),
        !chunk.modified,
        !chunk.loaded,
{
    let blocks = base_terrain(heightmap, position);
    Chunk { position, blocks, modified: false, loaded: false }
}


/// What happens to a chunk entity once its mesh is ready.
#[derive(PartialEq, Eq, Structural, Clone, Copy, Debug)]
pub enum ChunkRenderAction {
    /// Show the mesh on the entity at the chunk's position, rising into
    /// place when the chunk has just arrived.
    Show { entity: u64, position: IVec3, rise: bool },
    /// The chunk holds no faces: remove the entity.
    Despawn(u64),
}

/// Takes the result of meshing a chunk for `entity`: a chunk with a mesh
/// is recorded as loaded under its position with that entity, replacing
/// what was recorded there, and shown; a chunk without faces (`None`) has
/// its entity removed and the loaded chunks stay as they are.
pub fn chunk_renderer(loaded: &mut LoadedChunks, entity: u64, meshed: Option<QueuedChunk>) -> (action: ChunkRenderAction)
    requires
        old(loaded).0.wf(),
    ensures
        final(loaded).0.wf(),
        meshed matches Some(q) ==> action == (ChunkRenderAction::Show {
            entity,
            position: q.chunk.position,
            rise: q.is_new,
        }) && final(loaded).0@ == old(loaded).0@.insert(q.chunk.position, ChunkEntry { chunk: q.chunk, entity }),
        meshed is None ==> action == ChunkRenderAction::Despawn(entity) && final(loaded).0@ == old(
            loaded,
        ).0@,
{
    match meshed {
        Some(q) => {
            loaded.0.insert(q.chunk.position, ChunkEntry { chunk: q.chunk, entity });
            ChunkRenderAction::Show { entity, position: q.chunk.position, rise: q.is_new }
        },
        None => ChunkRenderAction::Despawn(entity),
    }
}


/// Generated terrain leaves the one-block border of the padded block array
/// empty: a cell with any coordinate 0 or 17 belongs to a neighbouring
/// chunk and is air, whatever the heights.
pub proof fn lemma_terrain_border_is_air(heightmap: Seq<u32>, chunk_y: int, x: int, y: int, z: int)
    requires
        0 <= x < 18,
        0 <= y < 18,
        0 <= z < 18,
        x == 0 || x == 17 || y == 0 || y == 17 || z == 0 || z == 17,
    ensures
        terrain_block(heightmap, chunk_y, x + 18 * y + 324 * z) == BlockType::Air,
{
    lemma_linearize_roundtrip(x, y, z, 0);
}

/// Inside the chunk, a generated cell is grass exactly when its column's
/// height reaches the cell's world height (sixteen blocks per chunk, the
/// cell at 1..=16 inside it; heights below zero count as zero).
pub proof fn lemma_terrain_interior(heightmap: Seq<u32>, chunk_y: int, x: int, y: int, z: int)
    requires
        1 <= x <= 16,
        1 <= y <= 16,
        1 <= z <= 16,
    ensures
        terrain_block(heightmap, chunk_y, x + 18 * y + 324 * z) == (if heightmap[x + 18 * z] as int >= (
        if 16 * chunk_y + y < 0 {
            0
        } else {
            16 * chunk_y + y
        }) {
            BlockType::Grass
        } else {
            BlockType::Air
        }),
{
    lemma_linearize_roundtrip(x, y, z, 0);
}

} // verus!
