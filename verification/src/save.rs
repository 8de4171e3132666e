use vstd::prelude::*;

use crate::chunk::Chunk;
use crate::pos::{region_of, spec_region_of, IVec3};
use crate::posmap::PosMap;

verus! {

/// Where the chunk for a requested position comes from.
pub enum ChunkSource {
    /// Held in memory already.
    Stored(Chunk),
    /// Looked up in this region's file on disk.
    Load { region: IVec3, position: IVec3 },
    /// Not stored: to be generated.
    Generate(IVec3),
}

/// Where the chunk for position `p` comes from: the region that holds `p`
/// is looked up in memory; when it is there, the chunk is taken from it or,
/// if the region lacks it, generated; a region not in memory is read from
/// its file.
pub open spec fn spec_chunk_source(regions: Map<IVec3, PosMap<Chunk>>, p: IVec3) -> ChunkSource {
    let r = spec_region_of(p);
    if regions.contains_key(r) {
        if regions[r]@.contains_key(p) {
            ChunkSource::Stored(regions[r]@[p])
        } else {
            ChunkSource::Generate(p)
        }
    } else {
        ChunkSource::Load { region: r, position: p }
    }
}

/// The world as saved: chunks grouped by the 32 x 32 x 32-chunk region that
/// holds them, each region keyed by its position and each chunk by its own.
pub struct SaveFile {
    pub name: String,
    pub regions: PosMap<PosMap<Chunk>>,
    pub seed: u64,
    pub dirty: Vec<IVec3>,
}

impl SaveFile {
    /// The region map and every region in it keep their keys distinct.
    pub open spec fn wf(&self) -> bool {
        &&& self.regions.wf()
        &&& forall|r: IVec3| #[trigger] self.regions@.contains_key(r) ==> self.regions@[r].wf()
    }

    /// The chunk stored at chunk position `p`: looked up in the region that
    /// holds `p`.
    pub open spec fn chunk_at(&self, p: IVec3) -> Option<Chunk> {
        let r = spec_region_of(p);
        if self.regions@.contains_key(r) && self.regions@[r]@.contains_key(p) {
            Some(self.regions@[r]@[p])
        } else {
            None
        }
    }

    /// The chunk stored under key `q` in the region keyed `r`, if any.
    pub open spec fn entry(&self, r: IVec3, q: IVec3) -> Option<Chunk> {
        if self.regions@.contains_key(r) && self.regions@[r]@.contains_key(q) {
            Some(self.regions@[r]@[q])
        } else {
            None
        }
    }

    /// The regions are keyed as in `other`, and every entry that lies
    /// outside its own region is as in `other`.
    pub open spec fn keeps_layout_of(&self, other: &SaveFile) -> bool {
        &&& self.regions@.dom() == other.regions@.dom()
        &&& forall|r: IVec3, q: IVec3|
            r != spec_region_of(q) ==> #[trigger] self.entry(r, q) == other.entry(r, q)
    }

    /// The stored chunks, by chunk position.
    pub open spec fn world(&self) -> Map<IVec3, Chunk> {
        Map::new(|p: IVec3| self.chunk_at(p) is Some, |p: IVec3| self.chunk_at(p).unwrap())
    }

    /// A new, empty world named "New world" with seed 2137.
    pub fn default() -> (s: Self)
        ensures
            s.wf(),
            s.name@ == "New world"@,
            s.regions@ == Map::<IVec3, PosMap<Chunk>>::empty(),
            s.seed == 2137,
            s.dirty@ == Seq::<IVec3>::empty(),
    {
        SaveFile {
            name: "New world".to_owned(),
            regions: PosMap::new(),
            seed: 2137,
            dirty: Vec::new(),
        }
    }

    /// Stores `chunk` under its own position, in the region that holds it,
    /// unless a chunk is stored there already: a stored chunk is never
    /// replaced.
    pub fn insert_chunk(&mut self, chunk: Chunk)
        requires
            old(self).wf(),
        ensures
            final(self).wf(),
            forall|q: IVec3|
                #[trigger] final(self).chunk_at(q) == (if q == chunk.position && old(
                    self,
                ).chunk_at(q) is None {
                    Some(chunk)
                } else {
                    old(self).chunk_at(q)
                }),
            final(self).regions@.dom() == old(self).regions@.dom().insert(
                spec_region_of(chunk.position),
            ),
            forall|r: IVec3, q: IVec3|
                r != spec_region_of(q) ==> #[trigger] final(self).entry(r, q) == old(self).entry(r, q),
            final(self).name == old(self).name,
            final(self).seed == old(self).seed,
            final(self).dirty == old(self).dirty,
    {
        let region_pos = region_of(chunk.position);
        if !self.regions.contains_key(&region_pos) {
            self.regions.insert(region_pos, PosMap::new());
        }
        let ghost mid = self.regions@;
        assert(mid.contains_key(region_pos));
        assert(mid[region_pos].wf());
        match self.regions.get_mut(&region_pos) {
            Some(region) => {
                region.insert_if_absent(chunk.position, chunk);
            },
            None => {},
        }
    }

    /// Decides, for each requested chunk position in order, where its chunk
    /// comes from: memory, a region file, or the terrain generator.
    pub fn plan_chunk_sources(&self, positions: &Vec<IVec3>) -> (plan: Vec<ChunkSource>)
        requires
            self.wf(),
        ensures
            plan@.len() == positions@.len(),
            forall|i: int|
                0 <= i < plan@.len() ==> #[trigger] plan@[i] == spec_chunk_source(
                    self.regions@,
                    positions@[i],
                ),
    {
        let mut plan: Vec<ChunkSource> = Vec::new();
        let mut i: usize = 0;
        while i < positions.len()
            invariant
                self.wf(),
                i <= positions@.len(),
                plan@.len() == i,
                forall|j: int|
                    0 <= j < i ==> #[trigger] plan@[j] == spec_chunk_source(
                        self.regions@,
                        positions@[j],
                    ),
            decreases positions@.len() - i,
        {
            let p = positions[i];
            let r = region_of(p);
            let source = match self.regions.get(&r) {
                Some(region) => match region.get(&p) {
                    Some(chunk) => ChunkSource::Stored(*chunk),
                    None => ChunkSource::Generate(p),
                },
                None => ChunkSource::Load { region: r, position: p },
            };
            plan.push(source);
            i = i + 1;
        }
        plan
    }

    /// The chunk stored at chunk position `chunk_pos`, to be changed in
    /// place: what is written through the reference becomes the stored
    /// chunk, and nothing else changes.
    pub fn modify_chunk(&mut self, chunk_pos: IVec3) -> (r: Option<&mut Chunk>)
        requires
            old(self).wf(),
        ensures
            r is Some <==> old(self).chunk_at(chunk_pos) is Some,
            r matches Some(c) ==> Some(*c) == old(self).chunk_at(chunk_pos),
            r matches Some(c) ==> final(self).wf() && forall|q: IVec3|
                #[trigger] final(self).chunk_at(q) == (if q == chunk_pos {
                    Some(*final(c))
                } else {
                    old(self).chunk_at(q)
                }),
            r matches Some(c) ==> final(self).keeps_layout_of(&*old(self)),
            r is None ==> final(self).wf() && final(self).regions@ == old(self).regions@,
            final(self).name == old(self).name,
            final(self).seed == old(self).seed,
            final(self).dirty == old(self).dirty,
    {
        let region_pos = region_of(chunk_pos);
        match self.regions.get_mut(&region_pos) {
            Some(region) => {
                let ghost old_regions = old(self).regions@;
                let c = region.get_mut(&chunk_pos);
                assert(old_regions.insert(region_pos, old_regions[region_pos]) =~= old_regions);
                c
            },
            None => None,
        }
    }
}

} // verus!
