use vstd::prelude::*;
use std::collections::HashMap;
use vstd::std_specs::iter::IteratorSpec;

use crate::pos::IVec3;
use crate::protocol::{ClientMessage, PlayerInput, ServerChunkMessage, ServerInfo, ServerMessage};

verus! {

broadcast use vstd::std_specs::hash::group_hash_axioms;

/// The players in the game: each client id with the entity that stands for
/// the client's player.
pub struct Lobby {
    pub players: HashMap<u64, u64>,
}

impl Lobby {
    /// A lobby with nobody in it.
    pub fn default() -> (l: Self)
        ensures
            l.players@ == Map::<u64, u64>::empty(),
    {
        Lobby { players: HashMap::new() }
    }
}

/// Registers a newly connected client as a player whose entity is
/// `entity`. Returns, for the new client, the list of the players already
/// in the game (each once, in no particular order) and, for everybody, the
/// announcement of the new player.
pub fn client_connected(lobby: &mut Lobby, id: u64, entity: u64) -> (r: (ServerChunkMessage, ServerMessage))
    ensures
        r.0 matches ServerChunkMessage::Init { player_ids } && player_ids@.to_set() == old(
            lobby,
        ).players@.dom() && player_ids@.no_duplicates(),
        r.1 == ServerMessage::PlayerSpawn(id),
        final(lobby).players@ == old(lobby).players@.insert(id, entity),
{
    let mut player_ids: Vec<u64> = Vec::new();
    let ghost keys = vstd::std_specs::hash::spec_keys_iter(&lobby.players).remaining();
    proof {
        assert(keys.unref().to_set() == lobby.players@.dom());
        assert(keys.no_duplicates());
    }
    for k in it: lobby.players.keys()
        invariant
            it.seq() == keys,
            player_ids@ == keys.take(it.index() as int).unref(),
    {
        player_ids.push(*k);
        assert(keys.take(it.index() + 1).unref() =~= keys.take(it.index() as int).unref().push(*k));
    }
    assert(keys.take(keys.len() as int) =~= keys);
    proof {
        assert forall|a: int, b: int|
            0 <= a < player_ids@.len() && 0 <= b < player_ids@.len() && a != b implies player_ids@[a]
            != player_ids@[b] by {
            assert(keys[a] != keys[b]);
        }
    }
    lobby.players.insert(id, entity);
    (ServerChunkMessage::Init { player_ids }, ServerMessage::PlayerSpawn(id))
}


/// Removes a disconnected client's player. Returns the player's entity, to
/// despawn, if the client had one, and for everybody the announcement that
/// the player left (sent whether or not the client had a player).
pub fn client_disconnected(lobby: &mut Lobby, id: u64) -> (r: (Option<u64>, ServerMessage))
    ensures
        r.0 == old(lobby).players@.get(id),
        r.1 == ServerMessage::PlayerDespawn(id),
        final(lobby).players@ == old(lobby).players@.remove(id),
{
    let entity = lobby.players.remove(&id);
    (entity, ServerMessage::PlayerDespawn(id))
}

/// The description the test server gives of itself.
pub open spec fn is_test_server_info(info: ServerInfo) -> bool {
    &&& info.name@ == "Test"@
    &&& info.motd@ == "Test server"@
    &&& info.player_count == 1
    &&& info.max_player_count == 5
}

/// `r` is a pong describing the test server, addressed to `id`.
pub open spec fn is_pong_to(r: (u64, ServerMessage), id: u64) -> bool {
    &&& r.0 == id
    &&& r.1 matches ServerMessage::Pong(info) && is_test_server_info(info)
}

/// The clients that sent a ping, in order, once per ping.
pub open spec fn ping_senders(ms: Seq<(u64, ClientMessage)>) -> Seq<u64>
    decreases ms.len(),
{
    if ms.len() == 0 {
        seq![]
    } else if ms.last().1 is Ping {
        ping_senders(ms.drop_last()).push(ms.last().0)
    } else {
        ping_senders(ms.drop_last())
    }
}

/// Answers every ping among this tick's client messages with a pong that
/// describes the server, addressed to the client that pinged, in order.
pub fn server_ping_test(messages: &Vec<(u64, ClientMessage)>) -> (replies: Vec<(u64, ServerMessage)>)
    ensures
        replies@.len() == ping_senders(messages@).len(),
        forall|i: int|
            0 <= i < replies@.len() ==> is_pong_to(#[trigger] replies@[i], ping_senders(messages@)[i]),
{
    let mut replies: Vec<(u64, ServerMessage)> = Vec::new();
    let mut k: usize = 0;
    while k < messages.len()
        invariant
            k <= messages@.len(),
            replies@.len() == ping_senders(messages@.take(k as int)).len(),
            forall|i: int|
                0 <= i < replies@.len() ==> is_pong_to(
                    #[trigger] replies@[i],
                    ping_senders(messages@.take(k as int))[i],
                ),
        decreases messages@.len() - k,
    {
        assert(messages@.take(k + 1).drop_last() =~= messages@.take(k as int));
        assert(messages@.take(k + 1).last() == messages@[k as int]);
        match &messages[k].1 {
            ClientMessage::Ping => {
                let info = ServerInfo {
                    name: "Test".to_owned(),
                    motd: "Test server".to_owned(),
                    player_count: 1,
                    max_player_count: 5,
                };
                replies.push((messages[k].0, ServerMessage::Pong(info)));
            },
            _ => {},
        }
        k = k + 1;
    }
    assert(messages@.take(messages@.len() as int) =~= messages@);
    assert(ping_senders(messages@.take(messages@.len() as int)) == ping_senders(messages@));
    replies
}

/// The inputs to apply this tick: for each input message from a client that
/// has a player, that player's entity and the input, in order.
pub open spec fn input_updates(ms: Seq<(u64, ClientMessage)>, players: Map<u64, u64>) -> Seq<(u64, PlayerInput)>
    decreases ms.len(),
{
    if ms.len() == 0 {
        seq![]
    } else {
        let prev = input_updates(ms.drop_last(), players);
        match ms.last().1 {
            ClientMessage::PlayerInput(input) => if players.contains_key(ms.last().0) {
                prev.push((players[ms.last().0], input))
            } else {
                prev
            },
            _ => prev,
        }
    }
}

/// Routes each client's input to the entity of that client's player; input
/// from clients without a player is dropped.
pub fn server_receive_input(messages: &Vec<(u64, ClientMessage)>, lobby: &Lobby) -> (updates: Vec<(u64, PlayerInput)>)
    ensures
        updates@ == input_updates(messages@, lobby.players@),
{
    let mut updates: Vec<(u64, PlayerInput)> = Vec::new();
    let mut k: usize = 0;
    while k < messages.len()
        invariant
            k <= messages@.len(),
            updates@ == input_updates(messages@.take(k as int), lobby.players@),
        decreases messages@.len() - k,
    {
        assert(messages@.take(k + 1).drop_last() =~= messages@.take(k as int));
        assert(messages@.take(k + 1).last() == messages@[k as int]);
        match &messages[k].1 {
            ClientMessage::PlayerInput(input) => {
                match lobby.players.get(&messages[k].0) {
                    Some(entity) => {
                        updates.push((*entity, *input));
                    },
                    None => {},
                }
            },
            _ => {},
        }
        k = k + 1;
    }
    assert(messages@.take(messages@.len() as int) =~= messages@);
    updates
}

/// Most chunks one request may ask for.
pub const MAX_CHUNK_REQUEST: usize = 512;

/// What the server does about one chunk request.
pub enum ChunkRequestAction {
    /// Disconnect this client: it asked for too many chunks.
    Disconnect(u64),
    /// Look up, or generate, these chunks and send them to this client.
    Serve { client: u64, positions: Vec<IVec3> },
}

/// What the server does about the chunk requests of one message: a request
/// for more than `MAX_CHUNK_REQUEST` chunks disconnects its client, and a
/// request from a client with a player is served (even one that also
/// disconnects it).
pub open spec fn request_actions(m: (u64, ClientMessage), players: Map<u64, u64>) -> Seq<(bool, u64, Seq<IVec3>)> {
    match m.1 {
        ClientMessage::RequestChunk(v) => {
            let d = if v@.len() > MAX_CHUNK_REQUEST {
                seq![(false, m.0, Seq::<IVec3>::empty())]
            } else {
                seq![]
            };
            if players.contains_key(m.0) {
                d.push((true, m.0, v@))
            } else {
                d
            }
        },
        _ => seq![],
    }
}

/// The chunk-request actions for a list of messages, in order.
pub open spec fn all_request_actions(ms: Seq<(u64, ClientMessage)>, players: Map<u64, u64>) -> Seq<(bool, u64, Seq<IVec3>)>
    decreases ms.len(),
{
    if ms.len() == 0 {
        seq![]
    } else {
        all_request_actions(ms.drop_last(), players) + request_actions(ms.last(), players)
    }
}

/// An action seen as (serve?, client, positions); a disconnection carries
/// no positions.
pub open spec fn action_view(a: ChunkRequestAction) -> (bool, u64, Seq<IVec3>) {
    match a {
        ChunkRequestAction::Disconnect(id) => (false, id, Seq::<IVec3>::empty()),
        ChunkRequestAction::Serve { client, positions } => (true, client, positions@),
    }
}

/// Decides what to do about this tick's chunk requests.
pub fn chunk_send(messages: &Vec<(u64, ClientMessage)>, lobby: &Lobby) -> (actions: Vec<ChunkRequestAction>)
    ensures
        actions@.map_values(|a: ChunkRequestAction| action_view(a)) == all_request_actions(
            messages@,
            lobby.players@,
        ),
{
    let mut actions: Vec<ChunkRequestAction> = Vec::new();
    let mut k: usize = 0;
    while k < messages.len()
        invariant
            k <= messages@.len(),
            actions@.map_values(|a: ChunkRequestAction| action_view(a)) == all_request_actions(
                messages@.take(k as int),
                lobby.players@,
            ),
        decreases messages@.len() - k,
    {
        assert(messages@.take(k + 1).drop_last() =~= messages@.take(k as int));
        assert(messages@.take(k + 1).last() == messages@[k as int]);
        let ghost before = actions@.map_values(|a: ChunkRequestAction| action_view(a));
        let id = messages[k].0;
        match &messages[k].1 {
            ClientMessage::RequestChunk(v) => {
                if v.len() > MAX_CHUNK_REQUEST {
                    actions.push(ChunkRequestAction::Disconnect(id));
                }
                if lobby.players.contains_key(&id) {
                    let positions = v.clone();
                    assert(positions@ =~= v@);
                    actions.push(ChunkRequestAction::Serve { client: id, positions });
                }
            },
            _ => {},
        }
        assert(actions@.map_values(|a: ChunkRequestAction| action_view(a)) =~= before
            + request_actions(messages@[k as int], lobby.players@));
        k = k + 1;
    }
    assert(messages@.take(messages@.len() as int) =~= messages@);
    actions
}

} // verus!
