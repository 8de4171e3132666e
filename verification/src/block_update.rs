use vstd::prelude::*;

use crate::blocks::BlockType;
use crate::chunk::{with_block, Chunk, ChunkEntry, LoadedChunks, QueuedChunk};
use crate::pos::{
    block_location, local_index, region_of, spec_block_location, spec_local_index, spec_region_of,
    IVec3,
};
use crate::protocol::{ClientMessage, ServerMessage};
use crate::save::SaveFile;

verus! {

/// What the server does outside the world after a block edit.
pub enum BlockUpdate {
    /// Send this message to every client.
    Broadcast(ServerMessage),
    /// Write this region of the world to disk.
    SaveRegion(IVec3),
}

/// The world after a request to break the block at `pos`: if the chunk that
/// holds `pos` is stored and the block there is not air, it becomes air.
pub open spec fn break_step(w: Map<IVec3, Chunk>, pos: IVec3) -> Map<IVec3, Chunk> {
    let loc = spec_block_location(pos);
    let i = spec_local_index(loc);
    if w.contains_key(loc.chunk) && w[loc.chunk].blocks@[i] != BlockType::Air {
        w.insert(loc.chunk, with_block(w[loc.chunk], i, BlockType::Air))
    } else {
        w
    }
}

/// The world after a request to place `block` at `pos`: if the chunk that
/// holds `pos` is stored and the block there is air, it becomes `block`;
/// an existing block is never replaced.
pub open spec fn place_step(w: Map<IVec3, Chunk>, pos: IVec3, block: BlockType) -> Map<
    IVec3,
    Chunk,
> {
    let loc = spec_block_location(pos);
    let i = spec_local_index(loc);
    if w.contains_key(loc.chunk) && w[loc.chunk].blocks@[i] == BlockType::Air {
        w.insert(loc.chunk, with_block(w[loc.chunk], i, block))
    } else {
        w
    }
}

/// The world after one client message; only block edits change it.
pub open spec fn block_step(w: Map<IVec3, Chunk>, m: ClientMessage) -> Map<IVec3, Chunk> {
    match m {
        ClientMessage::BreakBlock(pos) => break_step(w, pos),
        ClientMessage::PlaceBlock { pos, block } => place_step(w, pos, block),
        _ => w,
    }
}

/// What the server does after one client message: for a block edit in a
/// stored chunk (whether or not it changed the block), announce the
/// requested block to every client and save the chunk's region.
pub open spec fn block_step_effects(w: Map<IVec3, Chunk>, m: ClientMessage) -> Seq<BlockUpdate> {
    match m {
        ClientMessage::BreakBlock(pos) => {
            let c = spec_block_location(pos).chunk;
            if w.contains_key(c) {
                seq![
                    BlockUpdate::Broadcast(ServerMessage::BlockDelta { pos, block: BlockType::Air }),
                    BlockUpdate::SaveRegion(spec_region_of(c)),
                ]
            } else {
                seq![]
            }
        },
        ClientMessage::PlaceBlock { pos, block } => {
            let c = spec_block_location(pos).chunk;
            if w.contains_key(c) {
                seq![
                    BlockUpdate::Broadcast(ServerMessage::BlockDelta { pos, block }),
                    BlockUpdate::SaveRegion(spec_region_of(c)),
                ]
            } else {
                seq![]
            }
        },
        _ => seq![],
    }
}

/// The world after a list of (client, message) pairs, handled in order.
pub open spec fn apply_block_messages(w: Map<IVec3, Chunk>, ms: Seq<(u64, ClientMessage)>) -> Map<
    IVec3,
    Chunk,
>
    decreases ms.len(),
{
    if ms.len() == 0 {
        w
    } else {
        block_step(apply_block_messages(w, ms.drop_last()), ms.last().1)
    }
}

/// Everything the server does outside the world while handling a list of
/// (client, message) pairs, in order.
pub open spec fn block_message_effects(w: Map<IVec3, Chunk>, ms: Seq<(u64, ClientMessage)>) -> Seq<
    BlockUpdate,
>
    decreases ms.len(),
{
    if ms.len() == 0 {
        seq![]
    } else {
        block_message_effects(w, ms.drop_last()) + block_step_effects(
            apply_block_messages(w, ms.drop_last()),
            ms.last().1,
        )
    }
}

/// Applies the block edits among this tick's client messages to the saved
/// world, in order, and returns what must be announced and saved.
pub fn handle_block_updates(save: &mut SaveFile, messages: &Vec<(u64, ClientMessage)>) -> (updates: Vec<BlockUpdate>)
    requires
        old(save).wf(),
    ensures
        final(save).wf(),
        final(save).world() == apply_block_messages(old(save).world(), messages@),
        updates@ == block_message_effects(old(save).world(), messages@),
        final(save).keeps_layout_of(&*old(save)),
        final(save).name == old(save).name,
        final(save).seed == old(save).seed,
        final(save).dirty == old(save).dirty,
{
    let ghost w0 = save.world();
    let ghost s0 = *save;
    let mut updates: Vec<BlockUpdate> = Vec::new();
    let mut k: usize = 0;
    while k < messages.len()
        invariant
            k <= messages@.len(),
            save.wf(),
            save.world() == apply_block_messages(w0, messages@.take(k as int)),
            updates@ == block_message_effects(w0, messages@.take(k as int)),
            save.keeps_layout_of(&s0),
            save.name == old(save).name,
            save.seed == old(save).seed,
            save.dirty == old(save).dirty,
        decreases messages@.len() - k,
    {
        let ghost before = save.world();
        let ghost before_save = *save;
        assert(messages@.take(k + 1).drop_last() =~= messages@.take(k as int));
        assert(messages@.take(k + 1).last() == messages@[k as int]);
        match &messages[k].1 {
            ClientMessage::BreakBlock(pos) => {
                let loc = block_location(*pos);
                let i = local_index(&loc);
                match save.modify_chunk(loc.chunk) {
                    Some(chunk) => {
                        if chunk.blocks[i] != BlockType::Air {
                            chunk.blocks[i] = BlockType::Air;
                        }
                        updates.push(
                            BlockUpdate::Broadcast(
                                ServerMessage::BlockDelta { pos: *pos, block: BlockType::Air },
                            ),
                        );
                        updates.push(BlockUpdate::SaveRegion(region_of(loc.chunk)));
                    },
                    None => {},
                }
                assert(save.world() =~= block_step(before, messages@[k as int].1));
            },
            ClientMessage::PlaceBlock { pos, block } => {
                let loc = block_location(*pos);
                let i = local_index(&loc);
                match save.modify_chunk(loc.chunk) {
                    Some(chunk) => {
                        if chunk.blocks[i] == BlockType::Air {
                            chunk.blocks[i] = *block;
                        }
                        updates.push(
                            BlockUpdate::Broadcast(ServerMessage::BlockDelta { pos: *pos, block: *block }),
                        );
                        updates.push(BlockUpdate::SaveRegion(region_of(loc.chunk)));
                    },
                    None => {},
                }
                assert(save.world() =~= block_step(before, messages@[k as int].1));
            },
            _ => {},
        }
        proof {
            assert forall|r: IVec3, q: IVec3| r != spec_region_of(q) implies #[trigger] save.entry(r, q)
                == s0.entry(r, q) by {
                assert(save.entry(r, q) == before_save.entry(r, q));
                assert(before_save.entry(r, q) == s0.entry(r, q));
            }
        }
        k = k + 1;
    }
    assert(messages@.take(messages@.len() as int) =~= messages@);
    updates
}


/// A client's loaded chunks after one server message: a block change in a
/// loaded chunk is written into that chunk; other messages change nothing.
pub open spec fn delta_step(w: Map<IVec3, ChunkEntry>, m: ServerMessage) -> Map<IVec3, ChunkEntry> {
    match m {
        ServerMessage::BlockDelta { pos, block } => {
            let loc = spec_block_location(pos);
            if w.contains_key(loc.chunk) {
                w.insert(
                    loc.chunk,
                    ChunkEntry {
                        chunk: with_block(w[loc.chunk].chunk, spec_local_index(loc), block),
                        entity: w[loc.chunk].entity,
                    },
                )
            } else {
                w
            }
        },
        _ => w,
    }
}

/// The chunks to re-mesh after one server message: a loaded chunk whose
/// block changed, as it is after the change.
pub open spec fn delta_remesh(w: Map<IVec3, ChunkEntry>, m: ServerMessage) -> Seq<QueuedChunk> {
    match m {
        ServerMessage::BlockDelta { pos, block } => {
            let c = spec_block_location(pos).chunk;
            if w.contains_key(c) {
                seq![QueuedChunk { chunk: delta_step(w, m)[c].chunk, is_new: false }]
            } else {
                seq![]
            }
        },
        _ => seq![],
    }
}

/// A client's loaded chunks after a list of server messages, in order.
pub open spec fn apply_deltas(w: Map<IVec3, ChunkEntry>, ms: Seq<ServerMessage>) -> Map<
    IVec3,
    ChunkEntry,
>
    decreases ms.len(),
{
    if ms.len() == 0 {
        w
    } else {
        delta_step(apply_deltas(w, ms.drop_last()), ms.last())
    }
}

/// The chunks to re-mesh after a list of server messages, in order.
pub open spec fn deltas_remesh(w: Map<IVec3, ChunkEntry>, ms: Seq<ServerMessage>) -> Seq<
    QueuedChunk,
>
    decreases ms.len(),
{
    if ms.len() == 0 {
        seq![]
    } else {
        deltas_remesh(w, ms.drop_last()) + delta_remesh(apply_deltas(w, ms.drop_last()), ms.last())
    }
}

/// Writes the block changes announced by the server into the client's
/// loaded chunks, in order, and returns each changed chunk for re-meshing.
/// Changes to chunks that are not loaded are dropped.
pub fn client_block_updates(chunks: &mut LoadedChunks, messages: &Vec<ServerMessage>) -> (queue: Vec<QueuedChunk>)
    requires
        old(chunks).0.wf(),
    ensures
        final(chunks).0.wf(),
        final(chunks).0@ == apply_deltas(old(chunks).0@, messages@),
        queue@ == deltas_remesh(old(chunks).0@, messages@),
{
    let ghost w0 = chunks.0@;
    let mut queue: Vec<QueuedChunk> = Vec::new();
    let mut k: usize = 0;
    while k < messages.len()
        invariant
            k <= messages@.len(),
            chunks.0.wf(),
            chunks.0@ == apply_deltas(w0, messages@.take(k as int)),
            queue@ == deltas_remesh(w0, messages@.take(k as int)),
        decreases messages@.len() - k,
    {
        let ghost before = chunks.0@;
        assert(messages@.take(k + 1).drop_last() =~= messages@.take(k as int));
        assert(messages@.take(k + 1).last() == messages@[k as int]);
        match &messages[k] {
            ServerMessage::BlockDelta { pos, block } => {
                let loc = block_location(*pos);
                let i = local_index(&loc);
                match chunks.0.get_mut(&loc.chunk) {
                    Some(entry) => {
                        entry.chunk.blocks[i] = *block;
                        queue.push(QueuedChunk { chunk: entry.chunk, is_new: false });
                    },
                    None => {},
                }
                assert(chunks.0@ =~= delta_step(before, messages@[k as int]));
            },
            _ => {},
        }
        k = k + 1;
    }
    assert(messages@.take(messages@.len() as int) =~= messages@);
    queue
}

/// Placing a block into an air cell of a stored chunk puts that block there,
/// and changes no other cell and no other chunk.
pub proof fn lemma_place_sets_block(w: Map<IVec3, Chunk>, pos: IVec3, block: BlockType)
    requires
        w.contains_key(spec_block_location(pos).chunk),
        w[spec_block_location(pos).chunk].blocks@[spec_local_index(spec_block_location(pos))]
            == BlockType::Air,
    ensures
        ({
            let c = spec_block_location(pos).chunk;
            let i = spec_local_index(spec_block_location(pos));
            let w2 = place_step(w, pos, block);
            &&& w2.dom() == w.dom()
            &&& w2[c].blocks@[i] == block
            &&& forall|j: int| 0 <= j < 5832 && j != i ==> w2[c].blocks@[j] == w[c].blocks@[j]
            &&& forall|q: IVec3| w.contains_key(q) && q != c ==> w2[q] == w[q]
        }),
{
    assert(place_step(w, pos, block).dom() =~= w.dom());
}

/// A block that is not air is never replaced by a placement: the world stays
/// as it was.
pub proof fn lemma_place_never_overwrites(w: Map<IVec3, Chunk>, pos: IVec3, block: BlockType)
    requires
        w.contains_key(spec_block_location(pos).chunk),
        w[spec_block_location(pos).chunk].blocks@[spec_local_index(spec_block_location(pos))]
            != BlockType::Air,
    ensures
        place_step(w, pos, block) == w,
{
}

/// Breaking a block of a stored chunk leaves air in its cell and changes no
/// other cell and no other chunk.
pub proof fn lemma_break_clears(w: Map<IVec3, Chunk>, pos: IVec3)
    requires
        w.contains_key(spec_block_location(pos).chunk),
    ensures
        ({
            let c = spec_block_location(pos).chunk;
            let i = spec_local_index(spec_block_location(pos));
            let w2 = break_step(w, pos);
            &&& w2.dom() == w.dom()
            &&& w2[c].blocks@[i] == BlockType::Air
            &&& forall|j: int| 0 <= j < 5832 && j != i ==> w2[c].blocks@[j] == w[c].blocks@[j]
            &&& forall|q: IVec3| w.contains_key(q) && q != c ==> w2[q] == w[q]
        }),
{
    assert(break_step(w, pos).dom() =~= w.dom());
}

/// After a block is broken, a block can be placed in its cell: breaking then
/// placing `block` at the same position leaves `block` there.
pub proof fn lemma_break_then_place(w: Map<IVec3, Chunk>, pos: IVec3, block: BlockType)
    requires
        w.contains_key(spec_block_location(pos).chunk),
    ensures
        place_step(break_step(w, pos), pos, block)[spec_block_location(
            pos,
        ).chunk].blocks@[spec_local_index(spec_block_location(pos))] == block,
{
    lemma_break_clears(w, pos);
    lemma_place_sets_block(break_step(w, pos), pos, block);
}

/// Block edits never create or drop chunks: the set of stored chunk
/// positions is the same before and after any list of messages.
pub proof fn lemma_block_messages_keep_chunks(w: Map<IVec3, Chunk>, ms: Seq<(u64, ClientMessage)>)
    ensures
        apply_block_messages(w, ms).dom() == w.dom(),
    decreases ms.len(),
{
    if ms.len() > 0 {
        lemma_block_messages_keep_chunks(w, ms.drop_last());
        let w1 = apply_block_messages(w, ms.drop_last());
        match ms.last().1 {
            ClientMessage::BreakBlock(pos) => {
                assert(break_step(w1, pos).dom() =~= w1.dom());
            },
            ClientMessage::PlaceBlock { pos, block } => {
                assert(place_step(w1, pos, block).dom() =~= w1.dom());
            },
            _ => {},
        }
    }
}

/// A message only ever changes the chunk that holds the block it names:
/// every other chunk comes out as it went in.
pub proof fn lemma_block_step_local(w: Map<IVec3, Chunk>, m: ClientMessage, q: IVec3)
    requires
        w.contains_key(q),
        m matches ClientMessage::BreakBlock(pos) ==> spec_block_location(pos).chunk != q,
        m matches ClientMessage::PlaceBlock { pos, .. } ==> spec_block_location(pos).chunk != q,
    ensures
        block_step(w, m)[q] == w[q],
{
}


/// The messages among `us` that go out to every client, in order.
pub open spec fn announcements(us: Seq<BlockUpdate>) -> Seq<ServerMessage>
    decreases us.len(),
{
    if us.len() == 0 {
        seq![]
    } else {
        let prev = announcements(us.drop_last());
        match us.last() {
            BlockUpdate::Broadcast(m) => prev.push(m),
            _ => prev,
        }
    }
}

/// Every chunk that both the server stores and a client has loaded is the
/// same on both sides.
pub open spec fn mirrors(server: Map<IVec3, Chunk>, client: Map<IVec3, ChunkEntry>) -> bool {
    forall|q: IVec3|
        server.contains_key(q) && client.contains_key(q) ==> #[trigger] client[q].chunk == server[q]
}

/// A placement the server carries out: its cell holds air (or its chunk is
/// not stored, and nothing happens on either side).
pub open spec fn placement_accepted(w: Map<IVec3, Chunk>, m: ClientMessage) -> bool {
    match m {
        ClientMessage::PlaceBlock { pos, .. } => {
            let loc = spec_block_location(pos);
            w.contains_key(loc.chunk) ==> w[loc.chunk].blocks@[spec_local_index(loc)]
                == BlockType::Air
        },
        _ => true,
    }
}

/// Every placement among `ms` is carried out when its turn comes.
pub open spec fn placements_accepted(w: Map<IVec3, Chunk>, ms: Seq<(u64, ClientMessage)>) -> bool
    decreases ms.len(),
{
    if ms.len() == 0 {
        true
    } else {
        placements_accepted(w, ms.drop_last()) && placement_accepted(
            apply_block_messages(w, ms.drop_last()),
            ms.last().1,
        )
    }
}

proof fn lemma_announcements_append(a: Seq<BlockUpdate>, b: Seq<BlockUpdate>)
    ensures
        announcements(a + b) == announcements(a) + announcements(b),
    decreases b.len(),
{
    if b.len() == 0 {
        assert(a + b =~= a);
        assert(announcements(a) + announcements(b) =~= announcements(a));
    } else {
        assert((a + b).drop_last() =~= a + b.drop_last());
        assert((a + b).last() == b.last());
        lemma_announcements_append(a, b.drop_last());
        match b.last() {
            BlockUpdate::Broadcast(m) => {
                assert(announcements(a) + announcements(b.drop_last()).push(m) =~= (announcements(a)
                    + announcements(b.drop_last())).push(m));
            },
            _ => {},
        }
    }
}

proof fn lemma_apply_deltas_append(w: Map<IVec3, ChunkEntry>, a: Seq<ServerMessage>, b: Seq<ServerMessage>)
    ensures
        apply_deltas(w, a + b) == apply_deltas(apply_deltas(w, a), b),
    decreases b.len(),
{
    if b.len() == 0 {
        assert(a + b =~= a);
    } else {
        assert((a + b).drop_last() =~= a + b.drop_last());
        assert((a + b).last() == b.last());
        lemma_apply_deltas_append(w, a, b.drop_last());
    }
}

proof fn lemma_one_announcement(us: Seq<BlockUpdate>, d: ServerMessage, r: IVec3)
    requires
        us == seq![BlockUpdate::Broadcast(d), BlockUpdate::SaveRegion(r)],
    ensures
        announcements(us) == seq![d],
{
    let first = seq![BlockUpdate::Broadcast(d)];
    assert(us.drop_last() =~= first);
    assert(first.drop_last() =~= Seq::<BlockUpdate>::empty());
    assert(announcements(Seq::<BlockUpdate>::empty()) == Seq::<ServerMessage>::empty());
    assert(first.last() == BlockUpdate::Broadcast(d));
    assert(announcements(first) == Seq::<ServerMessage>::empty().push(d));
    assert(Seq::<ServerMessage>::empty().push(d) =~= seq![d]);
}

proof fn lemma_one_delta(w: Map<IVec3, ChunkEntry>, d: ServerMessage)
    ensures
        apply_deltas(w, seq![d]) == delta_step(w, d),
{
    assert(seq![d].drop_last() =~= Seq::<ServerMessage>::empty());
    assert(seq![d].last() == d);
    assert(apply_deltas(w, Seq::<ServerMessage>::empty()) == w);
}

/// A client whose loaded chunks match the server's stays matched after the
/// server handles a message and the client applies what the server
/// announces for it, unless the message is a placement the server refuses.
pub proof fn lemma_client_mirrors_server(server: Map<IVec3, Chunk>, client: Map<IVec3, ChunkEntry>, m: ClientMessage)
    requires
        mirrors(server, client),
        placement_accepted(server, m),
    ensures
        mirrors(block_step(server, m), apply_deltas(client, announcements(block_step_effects(server, m)))),
{
    let effects = block_step_effects(server, m);
    let after = apply_deltas(client, announcements(effects));
    assert(apply_deltas(client, Seq::<ServerMessage>::empty()) == client);
    match m {
        ClientMessage::BreakBlock(pos) => {
            let loc = spec_block_location(pos);
            let c = loc.chunk;
            let i = spec_local_index(loc);
            if server.contains_key(c) {
                let d = ServerMessage::BlockDelta { pos, block: BlockType::Air };
                lemma_one_announcement(effects, d, spec_region_of(c));
                lemma_one_delta(client, d);
                let updated = with_block(server[c], i, BlockType::Air);
                if server[c].blocks@[i] == BlockType::Air {
                    assert(updated.blocks =~= server[c].blocks);
                }
                assert forall|q: IVec3|
                    block_step(server, m).contains_key(q) && after.contains_key(q) implies #[trigger] after[q].chunk
                    == block_step(server, m)[q] by {
                    if q == c {
                        assert(client[c].chunk == server[c]);
                    }
                }
            } else {
                assert(announcements(effects) =~= Seq::<ServerMessage>::empty());
            }
        },
        ClientMessage::PlaceBlock { pos, block } => {
            let c = spec_block_location(pos).chunk;
            if server.contains_key(c) {
                let d = ServerMessage::BlockDelta { pos, block };
                lemma_one_announcement(effects, d, spec_region_of(c));
                lemma_one_delta(client, d);
            } else {
                assert(announcements(effects) =~= Seq::<ServerMessage>::empty());
            }
        },
        _ => {
            assert(announcements(effects) =~= Seq::<ServerMessage>::empty());
        },
    }
    assert(mirrors(block_step(server, m), after));
}

/// Clients stay in step with the server: a client whose loaded chunks match
/// the server's still matches after the server handles any list of
/// messages and the client applies everything the server announced, as
/// long as the server refused none of the placements.
pub proof fn lemma_clients_stay_in_sync(
    server: Map<IVec3, Chunk>,
    client: Map<IVec3, ChunkEntry>,
    ms: Seq<(u64, ClientMessage)>,
)
    requires
        mirrors(server, client),
        placements_accepted(server, ms),
    ensures
        mirrors(
            apply_block_messages(server, ms),
            apply_deltas(client, announcements(block_message_effects(server, ms))),
        ),
    decreases ms.len(),
{
    if ms.len() > 0 {
        let prev = ms.drop_last();
        lemma_clients_stay_in_sync(server, client, prev);
        let s1 = apply_block_messages(server, prev);
        let e1 = block_message_effects(server, prev);
        let c1 = apply_deltas(client, announcements(e1));
        let step = block_step_effects(s1, ms.last().1);
        lemma_client_mirrors_server(s1, c1, ms.last().1);
        lemma_announcements_append(e1, step);
        lemma_apply_deltas_append(client, announcements(e1), announcements(step));
    }
}



/// The block position a message edits, if it is a block edit.
pub open spec fn edited_pos(m: ClientMessage) -> Option<IVec3> {
    match m {
        ClientMessage::BreakBlock(pos) => Some(pos),
        ClientMessage::PlaceBlock { pos, .. } => Some(pos),
        _ => None,
    }
}

/// Every region the server is told to save holds a chunk that one of the
/// messages edits: the edited block's chunk `c` (each block coordinate
/// divided by 16, rounded down) lies in region `r` (each chunk coordinate
/// divided by 32, rounded down), and the save stores `c` under region `r`.
pub proof fn lemma_saved_regions_hold_edits(s: SaveFile, ms: Seq<(u64, ClientMessage)>, i: int)
    requires
        0 <= i < block_message_effects(s.world(), ms).len(),
        block_message_effects(s.world(), ms)[i] is SaveRegion,
    ensures
        exists|j: int|
            #![trigger ms[j]]
            0 <= j < ms.len() && (edited_pos(ms[j].1) matches Some(p) && ({
                let c = IVec3 {
                    x: (p.x as int / 16) as i32,
                    y: (p.y as int / 16) as i32,
                    z: (p.z as int / 16) as i32,
                };
                let r = block_message_effects(s.world(), ms)[i]->SaveRegion_0;
                &&& r == (IVec3 {
                    x: (c.x as int / 32) as i32,
                    y: (c.y as int / 32) as i32,
                    z: (c.z as int / 32) as i32,
                })
                &&& s.entry(r, c) is Some
            })),
    decreases ms.len(),
{
    let w = s.world();
    let prev = ms.drop_last();
    let before = block_message_effects(w, prev);
    if i < before.len() {
        lemma_saved_regions_hold_edits(s, prev, i);
        let j = choose|j: int|
            #![trigger prev[j]]
            0 <= j < prev.len() && (edited_pos(prev[j].1) matches Some(p) && ({
                let c = IVec3 {
                    x: (p.x as int / 16) as i32,
                    y: (p.y as int / 16) as i32,
                    z: (p.z as int / 16) as i32,
                };
                let r = before[i]->SaveRegion_0;
                &&& r == (IVec3 {
                    x: (c.x as int / 32) as i32,
                    y: (c.y as int / 32) as i32,
                    z: (c.z as int / 32) as i32,
                })
                &&& s.entry(r, c) is Some
            }));
        assert(ms[j] == prev[j]);
    } else {
        let w1 = apply_block_messages(w, prev);
        let m = ms.last().1;
        let step = block_step_effects(w1, m);
        assert(block_message_effects(w, ms)[i] == step[i - before.len()]);
        lemma_block_messages_keep_chunks(w, prev);
        let j = ms.len() - 1;
        assert(ms[j] == ms.last());
        match m {
            ClientMessage::BreakBlock(pos) => {
                let c = spec_block_location(pos).chunk;
                assert(w1.contains_key(c));
                assert(w.contains_key(c));
                assert(s.chunk_at(c) is Some);
            },
            ClientMessage::PlaceBlock { pos, .. } => {
                let c = spec_block_location(pos).chunk;
                assert(w1.contains_key(c));
                assert(w.contains_key(c));
                assert(s.chunk_at(c) is Some);
            },
            _ => {},
        }
    }
}

} // verus!
