use vstd::prelude::*;

use crate::pos::IVec3;
use crate::protocol::{EntityPosition, ServerChunkMessage, ServerMessage};
use crate::server::Lobby;

verus! {

broadcast use vstd::std_specs::hash::group_hash_axioms;

/// What kind of player entity a client spawns.
#[derive(PartialEq, Eq, Structural, Clone, Copy, Debug)]
pub enum SpawnKind {
    /// The player this client controls.
    Controlled,
    /// A player who joined after this client.
    Remote,
    /// A player who was in the game before this client joined.
    Existing,
}

/// A player entity to spawn for client `id`.
#[derive(PartialEq, Eq, Structural, Clone, Copy, Debug)]
pub struct SpawnOrder {
    pub id: u64,
    pub kind: SpawnKind,
}

/// The player entities a client spawns for one batch of messages: first one
/// per announced new player (controlled when it is the client itself), then
/// one per player listed in the welcome, in order.
pub open spec fn spawn_orders(ms: Seq<ServerMessage>, chunk_ms: Seq<ServerChunkMessage>, client_id: u64) -> Seq<SpawnOrder> {
    announced_spawns(ms, client_id) + existing_spawns(chunk_ms)
}

/// The spawns for the new players announced in `ms`.
pub open spec fn announced_spawns(ms: Seq<ServerMessage>, client_id: u64) -> Seq<SpawnOrder>
    decreases ms.len(),
{
    if ms.len() == 0 {
        seq![]
    } else {
        let prev = announced_spawns(ms.drop_last(), client_id);
        match ms.last() {
            ServerMessage::PlayerSpawn(id) => prev.push(
                SpawnOrder {
                    id,
                    kind: if id == client_id {
                        SpawnKind::Controlled
                    } else {
                        SpawnKind::Remote
                    },
                },
            ),
            _ => prev,
        }
    }
}

/// The spawns for the players listed in the welcome messages among `ms`.
pub open spec fn existing_spawns(ms: Seq<ServerChunkMessage>) -> Seq<SpawnOrder>
    decreases ms.len(),
{
    if ms.len() == 0 {
        seq![]
    } else {
        let prev = existing_spawns(ms.drop_last());
        match ms.last() {
            ServerChunkMessage::Init { player_ids } => prev + player_ids@.map_values(
                |id: u64| SpawnOrder { id, kind: SpawnKind::Existing },
            ),
            _ => prev,
        }
    }
}

/// Decides which player entities to spawn for this tick's messages.
pub fn entity_spawn(messages: &Vec<ServerMessage>, chunk_messages: &Vec<ServerChunkMessage>, client_id: u64) -> (orders: Vec<SpawnOrder>)
    ensures
        orders@ == spawn_orders(messages@, chunk_messages@, client_id),
{
    let mut orders: Vec<SpawnOrder> = Vec::new();
    let mut k: usize = 0;
    while k < messages.len()
        invariant
            k <= messages@.len(),
            orders@ == announced_spawns(messages@.take(k as int), client_id),
        decreases messages@.len() - k,
    {
        assert(messages@.take(k + 1).drop_last() =~= messages@.take(k as int));
        assert(messages@.take(k + 1).last() == messages@[k as int]);
        match &messages[k] {
            ServerMessage::PlayerSpawn(id) => {
                let kind = if *id == client_id {
                    SpawnKind::Controlled
                } else {
                    SpawnKind::Remote
                };
                orders.push(SpawnOrder { id: *id, kind });
            },
            _ => {},
        }
        k = k + 1;
    }
    assert(messages@.take(messages@.len() as int) =~= messages@);
    let ghost announced = orders@;
    let mut c: usize = 0;
    while c < chunk_messages.len()
        invariant
            c <= chunk_messages@.len(),
            announced == announced_spawns(messages@, client_id),
            orders@ == announced + existing_spawns(chunk_messages@.take(c as int)),
        decreases chunk_messages@.len() - c,
    {
        assert(chunk_messages@.take(c + 1).drop_last() =~= chunk_messages@.take(c as int));
        assert(chunk_messages@.take(c + 1).last() == chunk_messages@[c as int]);
        match &chunk_messages[c] {
            ServerChunkMessage::Init { player_ids } => {
                let ghost before = orders@;
                let mut j: usize = 0;
                while j < player_ids.len()
                    invariant
                        j <= player_ids@.len(),
                        orders@ == before + player_ids@.take(j as int).map_values(
                            |id: u64| SpawnOrder { id, kind: SpawnKind::Existing },
                        ),
                    decreases player_ids@.len() - j,
                {
                    orders.push(SpawnOrder { id: player_ids[j], kind: SpawnKind::Existing });
                    assert(player_ids@.take(j + 1).map_values(
                        |id: u64| SpawnOrder { id, kind: SpawnKind::Existing },
                    ) =~= player_ids@.take(j as int).map_values(
                        |id: u64| SpawnOrder { id, kind: SpawnKind::Existing },
                    ).push(SpawnOrder { id: player_ids@[j as int], kind: SpawnKind::Existing }));
                    j = j + 1;
                }
                assert(player_ids@.take(player_ids@.len() as int) =~= player_ids@);
                assert(orders@ =~= announced + existing_spawns(chunk_messages@.take(c + 1)));
            },
            _ => {},
        }
        c = c + 1;
    }
    assert(chunk_messages@.take(chunk_messages@.len() as int) =~= chunk_messages@);
    orders
}

/// The positions to give other players' entities for a batch of messages:
/// for each position update, in order, each listed player that has an
/// entity here, except this client's own player (whose position the client
/// predicts itself).
pub open spec fn sync_updates(ms: Seq<ServerMessage>, players: Map<u64, u64>, client_id: u64) -> Seq<(u64, EntityPosition)>
    decreases ms.len(),
{
    if ms.len() == 0 {
        seq![]
    } else {
        let prev = sync_updates(ms.drop_last(), players, client_id);
        match ms.last() {
            ServerMessage::EntitySync(v) => prev + position_updates(v@, players, client_id),
            _ => prev,
        }
    }
}

/// The entity updates for one list of player positions.
pub open spec fn position_updates(v: Seq<EntityPosition>, players: Map<u64, u64>, client_id: u64) -> Seq<(u64, EntityPosition)>
    decreases v.len(),
{
    if v.len() == 0 {
        seq![]
    } else {
        let prev = position_updates(v.drop_last(), players, client_id);
        let p = v.last();
        if players.contains_key(p.id) && p.id != client_id {
            prev.push((players[p.id], p))
        } else {
            prev
        }
    }
}

/// Moves the entities of other players to the positions the server sent;
/// the client's own player and players without an entity are left alone.
pub fn entity_sync(messages: &Vec<ServerMessage>, lobby: &Lobby, client_id: u64) -> (updates: Vec<(u64, EntityPosition)>)
    ensures
        updates@ == sync_updates(messages@, lobby.players@, client_id),
{
    let mut updates: Vec<(u64, EntityPosition)> = Vec::new();
    let mut k: usize = 0;
    while k < messages.len()
        invariant
            k <= messages@.len(),
            updates@ == sync_updates(messages@.take(k as int), lobby.players@, client_id),
        decreases messages@.len() - k,
    {
        assert(messages@.take(k + 1).drop_last() =~= messages@.take(k as int));
        assert(messages@.take(k + 1).last() == messages@[k as int]);
        match &messages[k] {
            ServerMessage::EntitySync(v) => {
                let ghost before = updates@;
                let mut j: usize = 0;
                while j < v.len()
                    invariant
                        j <= v@.len(),
                        updates@ == before + position_updates(v@.take(j as int), lobby.players@, client_id),
                    decreases v@.len() - j,
                {
                    let p = v[j];
                    assert(v@.take(j + 1).drop_last() =~= v@.take(j as int));
                    assert(v@.take(j + 1).last() == p);
                    if p.id != client_id {
                        match lobby.players.get(&p.id) {
                            Some(entity) => {
                                updates.push((*entity, p));
                            },
                            None => {},
                        }
                    }
                    j = j + 1;
                }
                assert(v@.take(v@.len() as int) =~= v@);
            },
            _ => {},
        }
        k = k + 1;
    }
    assert(messages@.take(messages@.len() as int) =~= messages@);
    updates
}

/// `a` comes before `b` when ordered by x, then y, then z.
pub open spec fn lex_lt(a: IVec3, b: IVec3) -> bool {
    a.x < b.x || (a.x == b.x && (a.y < b.y || (a.y == b.y && a.z < b.z)))
}

/// Chunk `q` lies within distance `d` of the origin chunk.
pub open spec fn in_spawn_sphere(q: IVec3, d: int) -> bool {
    &&& -d <= q.x <= d
    &&& -d <= q.y <= d
    &&& -d <= q.z <= d
    &&& q.x * q.x + q.y * q.y + q.z * q.z <= d * d
}

/// The chunks a freshly started client asks for: every chunk whose distance
/// from the origin chunk is at most `render_distance`, each once, ordered by
/// x, then y, then z. A negative distance asks for nothing.
pub fn request_spawn_chunks(render_distance: i32) -> (chunks: Vec<IVec3>)
    requires
        render_distance <= 26754,
    ensures
        forall|q: IVec3| #[trigger] chunks@.contains(q) <==> in_spawn_sphere(q, render_distance as int),
        forall|i: int, j: int| 0 <= i < j < chunks@.len() ==> lex_lt(chunks@[i], chunks@[j]),
{
    let d = render_distance;
    let mut chunks: Vec<IVec3> = Vec::new();
    if d < 0 {
        assert forall|q: IVec3| #[trigger] chunks@.contains(q) <==> in_spawn_sphere(q, d as int) by {}
        return chunks;
    }
    let dd = d as i64;
    assert(0 <= dd * dd <= 26754 * 26754) by (nonlinear_arith)
        requires
            0 <= dd <= 26754,
    ;
    let d2: i64 = dd * dd;
    let mut x: i32 = -d;
    while x <= d
        invariant
            0 <= d <= 26754,
            d2 == d * d,
            -d <= x <= d + 1,
            forall|q: IVec3| #[trigger] chunks@.contains(q) <==> (in_spawn_sphere(q, d as int) && q.x < x),
            forall|i: int, j: int| 0 <= i < j < chunks@.len() ==> lex_lt(chunks@[i], chunks@[j]),
            forall|i: int| 0 <= i < chunks@.len() ==> chunks@[i].x < x,
        decreases d + 1 - x,
    {
        let mut y: i32 = -d;
        while y <= d
            invariant
                0 <= d <= 26754,
                d2 == d * d,
                -d <= x <= d,
                -d <= y <= d + 1,
                forall|q: IVec3| #[trigger] chunks@.contains(q) <==> (in_spawn_sphere(q, d as int) && (q.x < x
                    || (q.x == x && q.y < y))),
                forall|i: int, j: int| 0 <= i < j < chunks@.len() ==> lex_lt(chunks@[i], chunks@[j]),
                forall|i: int|
                    0 <= i < chunks@.len() ==> chunks@[i].x < x || (chunks@[i].x == x && chunks@[i].y < y),
            decreases d + 1 - y,
        {
            let mut z: i32 = -d;
            while z <= d
                invariant
                    0 <= d <= 26754,
                    d2 == d * d,
                    -d <= x <= d,
                    -d <= y <= d,
                    -d <= z <= d + 1,
                    forall|q: IVec3| #[trigger] chunks@.contains(q) <==> (in_spawn_sphere(q, d as int) && lex_lt(
                        q,
                        IVec3 { x, y, z },
                    )),
                    forall|i: int, j: int| 0 <= i < j < chunks@.len() ==> lex_lt(chunks@[i], chunks@[j]),
                    forall|i: int| 0 <= i < chunks@.len() ==> lex_lt(chunks@[i], IVec3 { x, y, z }),
                decreases d + 1 - z,
            {
                let xx = x as i64;
                let yy = y as i64;
                let zz = z as i64;
                assert(xx * xx <= 26754 * 26754 && yy * yy <= 26754 * 26754 && zz * zz <= 26754 * 26754)
                    by (nonlinear_arith)
                    requires
                        -26754 <= xx <= 26754,
                        -26754 <= yy <= 26754,
                        -26754 <= zz <= 26754,
                ;
                assert(xx * xx >= 0 && yy * yy >= 0 && zz * zz >= 0) by (nonlinear_arith);
                let inside = xx * xx + yy * yy + zz * zz <= d2;
                let here = IVec3 { x, y, z };
                let ghost before = chunks@;
                if inside {
                    chunks.push(here);
                }
                proof {
                    let next = IVec3 { x, y, z: (z + 1) as i32 };
                    assert forall|q: IVec3| #[trigger] chunks@.contains(q) <==> (in_spawn_sphere(
                        q,
                        d as int,
                    ) && lex_lt(q, next)) by {
                        if q == here {
                            if inside {
                                assert(chunks@[chunks@.len() - 1] == q);
                            }
                        } else {
                            if chunks@.contains(q) && inside {
                                let t = choose|t: int| 0 <= t < chunks@.len() && chunks@[t] == q;
                                assert(t < before.len());
                                assert(before.contains(q));
                            }
                            if before.contains(q) {
                                let t = choose|t: int| 0 <= t < before.len() && before[t] == q;
                                assert(chunks@[t] == q);
                            }
                        }
                    }
                }
                z = z + 1;
            }
            proof {
                assert forall|q: IVec3| #[trigger] chunks@.contains(q) <==> (in_spawn_sphere(q, d as int) && (q.x < x
                    || (q.x == x && q.y < y + 1))) by {
                    if in_spawn_sphere(q, d as int) && q.x == x && q.y == y {
                        assert(lex_lt(q, IVec3 { x, y, z }));
                    }
                }
            }
            y = y + 1;
        }
        x = x + 1;
    }
    chunks
}


/// A position sync moves the entity of every listed player that the client
/// knows, other than the client itself, in the order listed: handling one
/// more `EntitySync(v)` appends exactly those entries of `v`, each with its
/// player's entity.
pub proof fn lemma_sync_moves_every_known_other(
    ms: Seq<ServerMessage>,
    v: Vec<EntityPosition>,
    players: Map<u64, u64>,
    client_id: u64,
)
    ensures
        sync_updates(ms.push(ServerMessage::EntitySync(v)), players, client_id) == sync_updates(
            ms,
            players,
            client_id,
        ) + v@.filter(|p: EntityPosition| players.contains_key(p.id) && p.id != client_id).map_values(
            |p: EntityPosition| (players[p.id], p),
        ),
{
    let m = ServerMessage::EntitySync(v);
    assert(ms.push(m).drop_last() =~= ms);
    assert(ms.push(m).last() == m);
    lemma_position_updates_filter(v@, players, client_id);
}

/// Messages other than position syncs move nothing, and no messages move
/// nothing.
pub proof fn lemma_sync_ignores_other_messages(ms: Seq<ServerMessage>, m: ServerMessage, players: Map<u64, u64>, client_id: u64)
    requires
        !(m is EntitySync),
    ensures
        sync_updates(ms.push(m), players, client_id) == sync_updates(ms, players, client_id),
        sync_updates(Seq::<ServerMessage>::empty(), players, client_id) == Seq::<(u64, EntityPosition)>::empty(),
{
    assert(ms.push(m).drop_last() =~= ms);
    assert(ms.push(m).last() == m);
}

proof fn lemma_position_updates_filter(v: Seq<EntityPosition>, players: Map<u64, u64>, client_id: u64)
    ensures
        position_updates(v, players, client_id) == v.filter(
            |p: EntityPosition| players.contains_key(p.id) && p.id != client_id,
        ).map_values(|p: EntityPosition| (players[p.id], p)),
    decreases v.len(),
{
    let f = |p: EntityPosition| players.contains_key(p.id) && p.id != client_id;
    let g = |p: EntityPosition| (players[p.id], p);
    reveal(Seq::filter);
    if v.len() == 0 {
        assert(v.filter(f) =~= Seq::<EntityPosition>::empty());
        assert(v.filter(f).map_values(g) =~= Seq::<(u64, EntityPosition)>::empty());
    } else {
        lemma_position_updates_filter(v.drop_last(), players, client_id);
        let prev = v.drop_last().filter(f);
        if f(v.last()) {
            assert(v.filter(f) == prev.push(v.last()));
            assert(prev.push(v.last()).map_values(g) =~= prev.map_values(g).push(g(v.last())));
        } else {
            assert(v.filter(f) == prev);
        }
    }
}

} // verus!
