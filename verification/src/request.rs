use vstd::prelude::*;

use crate::chunk::{ChunkEntry, LoadedChunks};
use crate::pos::{chunk_coord, chunk_position, IVec3};
use crate::posmap::{contains_pos, entries_map, keys_distinct};
use crate::protocol::ClientMessage;
use crate::{REQUEST_LIMIT, RENDER_DISTANCE, VERTICAL_RENDER_DISTANCE};

verus! {

/// The chunks a client has asked the server for, so that none is asked for
/// twice.
pub struct AlreadyRequested(pub Vec<IVec3>);

/// The chunk position of the chunk that holds block `p`.
pub open spec fn spec_chunk_of(p: IVec3) -> IVec3 {
    IVec3 {
        x: chunk_coord(p.x as int) as i32,
        y: chunk_coord(p.y as int) as i32,
        z: chunk_coord(p.z as int) as i32,
    }
}

/// The box of chunks around chunk `c` reaching `h` chunks to each side
/// horizontally and `v` chunks up and down, listed with x slowest and z
/// fastest.
pub open spec fn chunk_box(c: IVec3, h: int, v: int) -> Seq<IVec3> {
    let sx = 2 * h + 1;
    let sy = 2 * v + 1;
    Seq::new(
        (sx * sy * sx) as nat,
        |i: int|
            IVec3 {
                x: (c.x - h + i / (sy * sx)) as i32,
                y: (c.y - v + (i / sx) % sy) as i32,
                z: (c.z - h + i % sx) as i32,
            },
    )
}

/// The chunks among `cs` that are neither in `sent` nor earlier in `cs`, in
/// the order of `cs`.
pub open spec fn new_requests(sent: Seq<IVec3>, cs: Seq<IVec3>) -> Seq<IVec3>
    decreases cs.len(),
{
    if cs.len() == 0 {
        seq![]
    } else {
        let prev = new_requests(sent, cs.drop_last());
        if sent.contains(cs.last()) || prev.contains(cs.last()) {
            prev
        } else {
            prev.push(cs.last())
        }
    }
}

/// The chunks a client around `player` should have: the box of chunks that
/// reaches the render distance to every side of the player's chunk.
pub open spec fn request_box(player: IVec3) -> Seq<IVec3> {
    chunk_box(spec_chunk_of(player), RENDER_DISTANCE as int, RENDER_DISTANCE as int)
}

fn box_member(c: IVec3, h: u32, v: u32, i: u32) -> (p: IVec3)
    requires
        h <= 1,
        v <= 1,
        i < (2 * h + 1) * (2 * v + 1) * (2 * h + 1),
        i32::MIN + 2 <= c.x <= i32::MAX - 2,
        i32::MIN + 2 <= c.y <= i32::MAX - 2,
        i32::MIN + 2 <= c.z <= i32::MAX - 2,
    ensures
        p == chunk_box(c, h as int, v as int)[i as int],
{
    let sx: u32 = 2 * h + 1;
    let sy: u32 = 2 * v + 1;
    assert(sx * sy * sx <= 27 && 1 <= sy * sx <= 9) by (nonlinear_arith)
        requires
            1 <= sx <= 3,
            1 <= sy <= 3,
    ;
    let plane: u32 = sy * sx;
    assert(i / plane < sx) by (nonlinear_arith)
        requires
            i < sx * sy * sx,
            plane == sy * sx,
            sx >= 1,
            sy >= 1,
    ;
    let dx = (i / plane) as i32;
    let dy = ((i / sx) % sy) as i32;
    let dz = (i % sx) as i32;
    IVec3 { x: c.x - h as i32 + dx, y: c.y - v as i32 + dy, z: c.z - h as i32 + dz }
}

/// Asks for the chunks around the player that were not asked for before.
/// Every chunk of the box around the player's chunk that is not yet in
/// `sent` is recorded there, in box order; the first `REQUEST_LIMIT` of them
/// make up the request. Nothing is sent when there is no player or nothing
/// new to ask for.
pub fn request_chunk(player: Option<IVec3>, sent: &mut AlreadyRequested) -> (request: Option<ClientMessage>)
    ensures
        player is None ==> request is None && final(sent).0@ == old(sent).0@,
        player matches Some(p) ==> {
            let fresh = new_requests(old(sent).0@, request_box(p));
            &&& final(sent).0@ == old(sent).0@ + fresh
            &&& fresh.len() == 0 ==> request is None
            &&& fresh.len() > 0 ==> (request matches Some(ClientMessage::RequestChunk(batch))
                && batch@ == fresh.take(
                if fresh.len() < REQUEST_LIMIT {
                    fresh.len() as int
                } else {
                    REQUEST_LIMIT as int
                },
            ))
        },
{
    match player {
        None => None,
        Some(p) => {
            let c = chunk_position(p);
            let r = RENDER_DISTANCE as u32;
            assert(r == 1);
            let ghost cube = request_box(p);
            let ghost sent0 = sent.0@;
            let side: u32 = 2 * r + 1;
            assert(side * side == 9 && side * side * side == 27) by (nonlinear_arith)
                requires
                    side == 3,
            ;
            let n: u32 = side * side * side;
            proof {
                vstd::arithmetic::div_mod::lemma_fundamental_div_mod(p.x as int, 16);
                vstd::arithmetic::div_mod::lemma_fundamental_div_mod(p.y as int, 16);
                vstd::arithmetic::div_mod::lemma_fundamental_div_mod(p.z as int, 16);
            }
            let mut to_request: Vec<IVec3> = Vec::new();
            let mut i: u32 = 0;
            while i < n
                invariant
                    0 <= i <= n,
                    n == 27,
                    r == 1,
                    cube.len() == 27,
                    cube == chunk_box(c, 1, 1),
                    i32::MIN + 2 <= c.x <= i32::MAX - 2,
                    i32::MIN + 2 <= c.y <= i32::MAX - 2,
                    i32::MIN + 2 <= c.z <= i32::MAX - 2,
                    to_request@ == new_requests(sent0, cube.take(i as int)),
                    sent.0@ == sent0 + to_request@,
                decreases n - i,
            {
                let q = box_member(c, r, r, i);
                assert(cube.take(i + 1).drop_last() =~= cube.take(i as int));
                assert(cube.take(i + 1).last() == q);
                let seen = contains_pos(&sent.0, &q);
                proof {
                    assert((sent0 + to_request@).contains(q) <==> (sent0.contains(q)
                        || to_request@.contains(q))) by {
                        if (sent0 + to_request@).contains(q) {
                            let j = choose|j: int|
                                0 <= j < (sent0 + to_request@).len() && (sent0 + to_request@)[j]
                                    == q;
                            if j >= sent0.len() {
                                assert(to_request@[j - sent0.len()] == q);
                            }
                        }
                        if to_request@.contains(q) {
                            let j = choose|j: int| 0 <= j < to_request@.len() && to_request@[j] == q;
                            assert((sent0 + to_request@)[sent0.len() + j] == q);
                        }
                        if sent0.contains(q) {
                            let j = choose|j: int| 0 <= j < sent0.len() && sent0[j] == q;
                            assert((sent0 + to_request@)[j] == q);
                        }
                    }
                }
                if !seen {
                    to_request.push(q);
                    sent.0.push(q);
                    assert(sent.0@ =~= sent0 + to_request@);
                }
                i = i + 1;
            }
            assert(cube.take(27) =~= cube);
            if to_request.len() == 0 {
                None
            } else {
                let limit = if to_request.len() < REQUEST_LIMIT {
                    to_request.len()
                } else {
                    REQUEST_LIMIT
                };
                let mut batch: Vec<IVec3> = Vec::new();
                let mut j: usize = 0;
                while j < limit
                    invariant
                        j <= limit,
                        limit <= to_request@.len(),
                        batch@ =~= to_request@.take(j as int),
                    decreases limit - j,
                {
                    batch.push(to_request[j]);
                    j = j + 1;
                }
                Some(ClientMessage::RequestChunk(batch))
            }
        },
    }
}


/// The chunks worth keeping loaded around the given players: for each
/// player in turn, the box of chunks within the render distance
/// horizontally and the vertical render distance up and down.
pub open spec fn relevant_chunks(players: Seq<IVec3>) -> Seq<IVec3>
    decreases players.len(),
{
    if players.len() == 0 {
        seq![]
    } else {
        relevant_chunks(players.drop_last()) + chunk_box(
            spec_chunk_of(players.last()),
            RENDER_DISTANCE as int,
            VERTICAL_RENDER_DISTANCE as int,
        )
    }
}

/// Drops the loaded chunks that no player is near and forgets that they were
/// requested, so that they are asked for again when a player comes back.
/// A chunk stays loaded, and stays recorded as requested, exactly when it
/// lies in the box around some player; the dropped chunks come back with
/// the entities to despawn.
pub fn client_chunk_despawner(
    players: &Vec<IVec3>,
    loaded: &mut LoadedChunks,
    sent: &mut AlreadyRequested,
) -> (despawned: Vec<(IVec3, u64)>)
    requires
        old(loaded).0.wf(),
    ensures
        final(loaded).0.wf(),
        final(loaded).0@ == Map::new(
            |k: IVec3| old(loaded).0@.contains_key(k) && relevant_chunks(players@).contains(k),
            |k: IVec3| old(loaded).0@[k],
        ),
        final(sent).0@ == old(sent).0@.filter(|c: IVec3| relevant_chunks(players@).contains(c)),
        keys_distinct(despawned@),
        entries_map(despawned@) == Map::new(
            |k: IVec3| old(loaded).0@.contains_key(k) && !relevant_chunks(players@).contains(k),
            |k: IVec3| old(loaded).0@[k].entity,
        ),
{
    let mut relevant: Vec<IVec3> = Vec::new();
    let mut pi: usize = 0;
    while pi < players.len()
        invariant
            pi <= players@.len(),
            relevant@ == relevant_chunks(players@.take(pi as int)),
        decreases players@.len() - pi,
    {
        let p = players[pi];
        let c = chunk_position(p);
        proof {
            vstd::arithmetic::div_mod::lemma_fundamental_div_mod(p.x as int, 16);
            vstd::arithmetic::div_mod::lemma_fundamental_div_mod(p.y as int, 16);
            vstd::arithmetic::div_mod::lemma_fundamental_div_mod(p.z as int, 16);
        }
        let h = RENDER_DISTANCE as u32;
        let v = VERTICAL_RENDER_DISTANCE as u32;
        assert(h == 1 && v == 1);
        let ghost b = chunk_box(c, 1, 1);
        assert((2 * 1 + 1) * (2 * 1 + 1) * (2 * 1 + 1) == 27) by (nonlinear_arith);
        assert(b.len() == 27);
        let ghost start = relevant@;
        let mut i: u32 = 0;
        while i < 27
            invariant
                i <= 27,
                h == 1,
                v == 1,
                b == chunk_box(c, 1, 1),
                b.len() == 27,
                i32::MIN + 2 <= c.x <= i32::MAX - 2,
                i32::MIN + 2 <= c.y <= i32::MAX - 2,
                i32::MIN + 2 <= c.z <= i32::MAX - 2,
                relevant@ == start + b.take(i as int),
            decreases 27 - i,
        {
            let q = box_member(c, h, v, i);
            relevant.push(q);
            assert(b.take(i + 1) =~= b.take(i as int).push(q));
            assert(relevant@ =~= start + b.take(i + 1));
            i = i + 1;
        }
        assert(b.take(27) =~= b);
        assert(players@.take(pi + 1).drop_last() =~= players@.take(pi as int));
        assert(players@.take(pi + 1).last() == p);
        pi = pi + 1;
    }
    assert(players@.take(players@.len() as int) =~= players@);
    let dropped = loaded.0.retain_keys(&relevant);
    let ghost keep_pred = |c: IVec3| relevant_chunks(players@).contains(c);
    let ghost sent0 = sent.0@;
    let mut kept: Vec<IVec3> = Vec::new();
    let mut k: usize = 0;
    while k < sent.0.len()
        invariant
            k <= sent.0@.len(),
            sent.0@ == sent0,
            relevant@ == relevant_chunks(players@),
            keep_pred == (|c: IVec3| relevant_chunks(players@).contains(c)),
            kept@ == sent0.take(k as int).filter(keep_pred),
        decreases sent.0@.len() - k,
    {
        let q = sent.0[k];
        assert(sent0.take(k + 1).drop_last() =~= sent0.take(k as int));
        assert(sent0.take(k + 1).last() == q);
        proof {
            reveal(Seq::filter);
        }
        let keep = contains_pos(&relevant, &q);
        assert(keep == keep_pred(q));
        proof {
            let t = sent0.take(k + 1);
            assert(t.len() > 0);
            assert(t.filter(keep_pred) == (if keep_pred(t.last()) {
                t.drop_last().filter(keep_pred).push(t.last())
            } else {
                t.drop_last().filter(keep_pred)
            }));
        }
        if keep {
            kept.push(q);
        }
        k = k + 1;
    }
    assert(sent0.take(sent0.len() as int) =~= sent0);
    sent.0 = kept;
    let entries = dropped.to_entries();
    let mut despawned: Vec<(IVec3, u64)> = Vec::new();
    let mut j: usize = 0;
    while j < entries.len()
        invariant
            j <= entries@.len(),
            keys_distinct(entries@),
            despawned@.len() == j,
            forall|t: int|
                0 <= t < j ==> despawned@[t] == (entries@[t].0, entries@[t].1.entity),
        decreases entries@.len() - j,
    {
        despawned.push((entries[j].0, entries[j].1.entity));
        j = j + 1;
    }
    proof {
        let target = Map::new(
            |k: IVec3| old(loaded).0@.contains_key(k) && !relevant_chunks(players@).contains(k),
            |k: IVec3| old(loaded).0@[k].entity,
        );
        assert forall|a: int, b: int|
            0 <= a < despawned@.len() && 0 <= b < despawned@.len() && despawned@[a].0
                == despawned@[b].0 implies a == b by {
            assert(entries@[a].0 == entries@[b].0);
        }
        assert forall|q: IVec3| #[trigger] entries_map(despawned@).contains_key(q) <==> target.contains_key(q) by {
            if entries_map(entries@).contains_key(q) {
                let t = choose|t: int| 0 <= t < entries@.len() && entries@[t].0 == q;
                assert(despawned@[t].0 == q);
            }
            if entries_map(despawned@).contains_key(q) {
                let t = choose|t: int| 0 <= t < despawned@.len() && despawned@[t].0 == q;
                assert(entries@[t].0 == q);
            }
        }
        assert forall|q: IVec3| #[trigger] entries_map(despawned@).contains_key(q) implies entries_map(despawned@)[q] == target[q] by {
            let t = choose|t: int| 0 <= t < despawned@.len() && despawned@[t].0 == q;
            crate::posmap::lemma_entries_map_at(despawned@, t);
            crate::posmap::lemma_entries_map_at(entries@, t);
        }
        assert(entries_map(despawned@) =~= target);
    }
    despawned
}

/// Every chunk of `cs` ends up either among the chunks already sent or among
/// the new requests; the new requests are fresh and each is asked for once.
pub proof fn lemma_new_requests_cover(sent: Seq<IVec3>, cs: Seq<IVec3>)
    ensures
        forall|q: IVec3| cs.contains(q) ==> sent.contains(q) || new_requests(sent, cs).contains(q),
        forall|q: IVec3| new_requests(sent, cs).contains(q) ==> cs.contains(q) && !sent.contains(q),
        new_requests(sent, cs).no_duplicates(),
    decreases cs.len(),
{
    if cs.len() > 0 {
        let prev = new_requests(sent, cs.drop_last());
        lemma_new_requests_cover(sent, cs.drop_last());
        assert forall|q: IVec3| cs.contains(q) implies sent.contains(q) || new_requests(
            sent,
            cs,
        ).contains(q) by {
            let j = choose|j: int| 0 <= j < cs.len() && cs[j] == q;
            if j < cs.len() - 1 {
                assert(cs.drop_last()[j] == q);
                if prev.contains(q) {
                    let t = choose|t: int| 0 <= t < prev.len() && prev[t] == q;
                    if !(sent.contains(cs.last()) || prev.contains(cs.last())) {
                        assert(prev.push(cs.last())[t] == q);
                    }
                }
            } else if !(sent.contains(cs.last()) || prev.contains(cs.last())) {
                assert(prev.push(cs.last())[prev.len() as int] == q);
            }
        }
        assert forall|q: IVec3| new_requests(sent, cs).contains(q) implies cs.contains(q)
            && !sent.contains(q) by {
            let r = new_requests(sent, cs);
            let t = choose|t: int| 0 <= t < r.len() && r[t] == q;
            if t < prev.len() {
                assert(prev[t] == q);
                assert(prev.contains(q));
                assert(cs.drop_last().contains(q));
                let j = choose|j: int| 0 <= j < cs.drop_last().len() && cs.drop_last()[j] == q;
                assert(cs[j] == q);
            } else {
                assert(q == cs.last());
                assert(cs[cs.len() - 1] == q);
            }
        }
    }
}

/// Asking again from the same place asks for nothing: once the chunks of a
/// box have been requested, no chunk of that box is new any more.
pub proof fn lemma_request_idempotent(sent: Seq<IVec3>, cs: Seq<IVec3>)
    ensures
        new_requests(sent + new_requests(sent, cs), cs).len() == 0,
{
    lemma_new_requests_cover(sent, cs);
    let s2 = sent + new_requests(sent, cs);
    assert forall|q: IVec3| cs.contains(q) implies s2.contains(q) by {
        if sent.contains(q) {
            let j = choose|j: int| 0 <= j < sent.len() && sent[j] == q;
            assert(s2[j] == q);
        } else {
            let r = new_requests(sent, cs);
            let j = choose|j: int| 0 <= j < r.len() && r[j] == q;
            assert(s2[sent.len() + j] == q);
        }
    }
    lemma_all_sent_nothing_new(s2, cs);
}

proof fn lemma_all_sent_nothing_new(sent: Seq<IVec3>, cs: Seq<IVec3>)
    requires
        forall|q: IVec3| cs.contains(q) ==> sent.contains(q),
    ensures
        new_requests(sent, cs).len() == 0,
    decreases cs.len(),
{
    if cs.len() > 0 {
        assert forall|q: IVec3| cs.drop_last().contains(q) implies sent.contains(q) by {
            let j = choose|j: int| 0 <= j < cs.drop_last().len() && cs.drop_last()[j] == q;
            assert(cs[j] == q);
        }
        lemma_all_sent_nothing_new(sent, cs.drop_last());
        assert(cs[cs.len() - 1] == cs.last());
    }
}

/// The box around a player holds 27 chunks, among them the player's own.
pub proof fn lemma_request_box_holds_player(player: IVec3)
    ensures
        request_box(player).len() == 27,
        request_box(player).contains(spec_chunk_of(player)),
{
    let b = request_box(player);
    assert(RENDER_DISTANCE as int == 1);
    assert((2 * 1 + 1) * (2 * 1 + 1) * (2 * 1 + 1) == 27) by (nonlinear_arith);
    assert(b.len() == 27);
    let c = spec_chunk_of(player);
    assert((2 * 1 + 1) * (2 * 1 + 1) == 9) by (nonlinear_arith);
    assert(13int / 9 == 1 && (13int / 3) % 3 == 1 && 13int % 3 == 1);
    assert(b[13].x == c.x && b[13].y == c.y && b[13].z == c.z);
    assert(b[13] == c);
}


/// The box reaching one chunk to every side of `c` holds exactly the chunks
/// at most one step from `c` along each axis.
proof fn lemma_unit_box_members(c: IVec3, q: IVec3)
    requires
        i32::MIN + 1 <= c.x <= i32::MAX - 1,
        i32::MIN + 1 <= c.y <= i32::MAX - 1,
        i32::MIN + 1 <= c.z <= i32::MAX - 1,
    ensures
        chunk_box(c, 1, 1).contains(q) <==> (-1 <= q.x - c.x <= 1 && -1 <= q.y - c.y <= 1 && -1 <= q.z
            - c.z <= 1),
{
    let b = chunk_box(c, 1, 1);
    assert((2 * 1 + 1) * (2 * 1 + 1) * (2 * 1 + 1) == 27 && (2 * 1 + 1) * (2 * 1 + 1) == 9) by (nonlinear_arith);
    assert(b.len() == 27);
    assert forall|i: int| 0 <= i < 27 implies #[trigger] b[i] == (IVec3 {
        x: (c.x - 1 + i / 9) as i32,
        y: (c.y - 1 + (i / 3) % 3) as i32,
        z: (c.z - 1 + i % 3) as i32,
    }) by {}
    if b.contains(q) {
        let i = choose|i: int| 0 <= i < b.len() && b[i] == q;
        vstd::arithmetic::div_mod::lemma_fundamental_div_mod(i, 9);
        vstd::arithmetic::div_mod::lemma_fundamental_div_mod(i, 3);
        vstd::arithmetic::div_mod::lemma_fundamental_div_mod(i / 3, 3);
        assert(0 <= i / 9 <= 2);
        assert(0 <= (i / 3) % 3 <= 2);
        assert(0 <= i % 3 <= 2);
    }
    if -1 <= q.x - c.x <= 1 && -1 <= q.y - c.y <= 1 && -1 <= q.z - c.z <= 1 {
        let dx = q.x - c.x + 1;
        let dy = q.y - c.y + 1;
        let dz = q.z - c.z + 1;
        let i = 9 * dx + 3 * dy + dz;
        vstd::arithmetic::div_mod::lemma_fundamental_div_mod_converse(i, 9, dx, 3 * dy + dz);
        vstd::arithmetic::div_mod::lemma_fundamental_div_mod_converse(i, 3, 3 * dx + dy, dz);
        vstd::arithmetic::div_mod::lemma_fundamental_div_mod_converse(3 * dx + dy, 3, dx, dy);
        assert(b[i] == q);
    }
}

/// The chunks the despawner keeps are exactly those at most the render
/// distance from the chunk of some player (each player coordinate divided
/// by 16, rounded down): horizontally `RENDER_DISTANCE`, vertically
/// `VERTICAL_RENDER_DISTANCE`. So every chunk a client requests around a
/// player, the player's own chunk among them, stays loaded.
pub proof fn lemma_relevant_chunks_near_players(players: Seq<IVec3>, q: IVec3)
    ensures
        relevant_chunks(players).contains(q) <==> exists|i: int|
            #![trigger players[i]]
            0 <= i < players.len() && -(RENDER_DISTANCE as int) <= q.x - players[i].x as int / 16
                <= RENDER_DISTANCE as int && -(VERTICAL_RENDER_DISTANCE as int) <= q.y - players[i].y as int
                / 16 <= VERTICAL_RENDER_DISTANCE as int && -(RENDER_DISTANCE as int) <= q.z
                - players[i].z as int / 16 <= RENDER_DISTANCE as int,
    decreases players.len(),
{
    if players.len() > 0 {
        let prev = players.drop_last();
        let p = players.last();
        lemma_relevant_chunks_near_players(prev, q);
        let a = relevant_chunks(prev);
        let c = spec_chunk_of(p);
        let b = chunk_box(c, 1, 1);
        vstd::arithmetic::div_mod::lemma_fundamental_div_mod(p.x as int, 16);
        vstd::arithmetic::div_mod::lemma_fundamental_div_mod(p.y as int, 16);
        vstd::arithmetic::div_mod::lemma_fundamental_div_mod(p.z as int, 16);
        assert(c.x == p.x as int / 16 && c.y == p.y as int / 16 && c.z == p.z as int / 16);
        lemma_unit_box_members(c, q);
        assert(relevant_chunks(players) == a + b);
        assert((a + b).contains(q) <==> a.contains(q) || b.contains(q)) by {
            if (a + b).contains(q) {
                let k = choose|k: int| 0 <= k < (a + b).len() && (a + b)[k] == q;
                if k < a.len() {
                    assert(a[k] == q);
                } else {
                    assert(b[k - a.len()] == q);
                }
            }
            if a.contains(q) {
                let k = choose|k: int| 0 <= k < a.len() && a[k] == q;
                assert((a + b)[k] == q);
            }
            if b.contains(q) {
                let k = choose|k: int| 0 <= k < b.len() && b[k] == q;
                assert((a + b)[a.len() + k] == q);
            }
        }
        let last = players.len() - 1;
        assert(players[last] == p);
        if exists|i: int|
            #![trigger prev[i]]
            0 <= i < prev.len() && -(RENDER_DISTANCE as int) <= q.x - prev[i].x as int / 16
                <= RENDER_DISTANCE as int && -(VERTICAL_RENDER_DISTANCE as int) <= q.y - prev[i].y as int
                / 16 <= VERTICAL_RENDER_DISTANCE as int && -(RENDER_DISTANCE as int) <= q.z
                - prev[i].z as int / 16 <= RENDER_DISTANCE as int {
            let i = choose|i: int|
                #![trigger prev[i]]
                0 <= i < prev.len() && -(RENDER_DISTANCE as int) <= q.x - prev[i].x as int / 16
                    <= RENDER_DISTANCE as int && -(VERTICAL_RENDER_DISTANCE as int) <= q.y - prev[i].y as int
                    / 16 <= VERTICAL_RENDER_DISTANCE as int && -(RENDER_DISTANCE as int) <= q.z
                    - prev[i].z as int / 16 <= RENDER_DISTANCE as int;
            assert(players[i] == prev[i]);
        }
        if exists|i: int|
            #![trigger players[i]]
            0 <= i < players.len() && -(RENDER_DISTANCE as int) <= q.x - players[i].x as int / 16
                <= RENDER_DISTANCE as int && -(VERTICAL_RENDER_DISTANCE as int) <= q.y - players[i].y as int
                / 16 <= VERTICAL_RENDER_DISTANCE as int && -(RENDER_DISTANCE as int) <= q.z
                - players[i].z as int / 16 <= RENDER_DISTANCE as int {
            let i = choose|i: int|
                #![trigger players[i]]
                0 <= i < players.len() && -(RENDER_DISTANCE as int) <= q.x - players[i].x as int / 16
                    <= RENDER_DISTANCE as int && -(VERTICAL_RENDER_DISTANCE as int) <= q.y - players[i].y as int
                    / 16 <= VERTICAL_RENDER_DISTANCE as int && -(RENDER_DISTANCE as int) <= q.z
                    - players[i].z as int / 16 <= RENDER_DISTANCE as int;
            if i < prev.len() {
                assert(prev[i] == players[i]);
            }
        }
    }
}

} // verus!
