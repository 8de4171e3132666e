use vstd::prelude::*;
use vstd::utf8::{decode_utf8, encode_utf8, valid_utf8};
use crate::blocks::BlockType;
use crate::pos::IVec3;
use renet::{ChunkChannelConfig, ReliableChannelConfig, UnreliableChannelConfig};

verus! {

/// Protocol identifier that game clients and servers agree on.
pub const PROTOCOL_ID: u64 = 1;

/// The three message channels of a connection.
#[derive(PartialEq, Eq, Structural, Clone, Copy, Debug)]
pub enum Channel {
    Reliable,
    Unreliable,
    Chunk,
}

/// Calls `ReliableChannelConfig::default()` of `renet` and reads its channel
/// id; the crate's source sets that default to 0.
#[verifier::external_body]
fn reliable_channel_id() -> (id: u8)
    ensures
        id == 0,
{
    ReliableChannelConfig::default().channel_id
}

/// Calls `UnreliableChannelConfig::default()` of `renet` and reads its
/// channel id; the crate's source sets that default to 1.
#[verifier::external_body]
fn unreliable_channel_id() -> (id: u8)
    ensures
        id == 1,
{
    UnreliableChannelConfig::default().channel_id
}

/// Calls `ChunkChannelConfig::default()` of `renet` and reads its channel
/// id; the crate's source sets that default to 2.
#[verifier::external_body]
fn chunk_channel_id() -> (id: u8)
    ensures
        id == 2,
{
    ChunkChannelConfig::default().channel_id
}

/// The transport's id of each channel, as its default configuration sets it.
pub open spec fn spec_channel_id(c: Channel) -> u8 {
    match c {
        Channel::Reliable => 0,
        Channel::Unreliable => 1,
        Channel::Chunk => 2,
    }
}

impl Channel {
    /// The id under which the transport knows this channel.
    pub fn id(&self) -> (id: u8)
        ensures
            id == spec_channel_id(*self),
    {
        match self {
            Channel::Reliable => reliable_channel_id(),
            Channel::Unreliable => unreliable_channel_id(),
            Channel::Chunk => chunk_channel_id(),
        }
    }
}

/// A player's movement input. The two axes are kept as the bit patterns of
/// their single-precision values.
#[derive(PartialEq, Eq, Structural, Clone, Copy, Debug)]
pub struct PlayerInput {
    pub forward: u32,
    pub sideways: u32,
    pub jumping: bool,
}

impl PlayerInput {
    /// No movement: both axes zero, not jumping.
    pub fn default() -> (p: Self)
        ensures
            p.forward == 0 && p.sideways == 0 && !p.jumping,
    {
        PlayerInput { forward: 0, sideways: 0, jumping: false }
    }
}

/// A message from a client to the server.
pub enum ClientMessage {
    Ping,
    PlayerInput(PlayerInput),
    BreakBlock(IVec3),
    PlaceBlock { pos: IVec3, block: BlockType },
    RequestChunk(Vec<IVec3>),
}

/// What a server tells about itself in answer to a ping.
pub struct ServerInfo {
    pub name: String,
    pub motd: String,
    pub player_count: u32,
    pub max_player_count: u32,
}

/// The position of one player; coordinates are the bit patterns of their
/// single-precision values.
#[derive(PartialEq, Eq, Structural, Clone, Copy, Debug)]
pub struct EntityPosition {
    pub id: u64,
    pub x: u32,
    pub y: u32,
    pub z: u32,
}

/// A message from the server to a client on the reliable or unreliable
/// channel.
pub enum ServerMessage {
    Pong(ServerInfo),
    PlayerSpawn(u64),
    PlayerDespawn(u64),
    EntitySync(Vec<EntityPosition>),
    BlockDelta { pos: IVec3, block: BlockType },
}

/// A message from the server to a client on the chunk channel.
pub enum ServerChunkMessage {
    /// Several compressed chunks at once.
    ChunkBatch(Vec<Vec<u8>>),
    /// The players already in the game when a client joins.
    Init { player_ids: Vec<u64> },
}

/// The channel a server message travels on, to one client or to all:
/// position updates go unreliably, everything else reliably.
pub open spec fn spec_send_channel(m: &ServerMessage) -> Channel {
    if m is EntitySync {
        Channel::Unreliable
    } else {
        Channel::Reliable
    }
}

impl ServerMessage {
    /// The channel that sending or broadcasting this message uses.
    pub fn send_channel(&self) -> (c: Channel)
        ensures
            c == spec_send_channel(self),
    {
        match self {
            ServerMessage::EntitySync(_) => Channel::Unreliable,
            _ => Channel::Reliable,
        }
    }
}

/// The chunk messages that carry `chunks` to a client: batches of five in
/// order, the last one shorter when the count is not a multiple of five.
pub open spec fn spec_batch(chunks: Seq<Vec<u8>>, b: int) -> Seq<Seq<u8>> {
    let end = if 5 * b + 5 < chunks.len() {
        5 * b + 5
    } else {
        chunks.len() as int
    };
    chunks.subrange(5 * b, end).map_values(|c: Vec<u8>| c@)
}

/// Splits compressed chunks into the batches the server sends them in:
/// groups of five in order, the last one shorter when the count is not a
/// multiple of five, and none at all for no chunks.
pub fn chunk_batches(chunks: &Vec<Vec<u8>>) -> (msgs: Vec<ServerChunkMessage>)
    ensures
        msgs@.len() == (chunks@.len() + 4) / 5,
        forall|b: int|
            0 <= b < msgs@.len() ==> (#[trigger] msgs@[b] matches ServerChunkMessage::ChunkBatch(v)
                && v@.map_values(|c: Vec<u8>| c@) == spec_batch(chunks@, b)),
{
    let n = chunks.len();
    let mut msgs: Vec<ServerChunkMessage> = Vec::new();
    let count: usize = n / 5 + if n % 5 != 0 {
        1
    } else {
        0
    };
    assert(count == (n + 4) / 5);
    let mut b: usize = 0;
    while b < count
        invariant
            n == chunks@.len(),
            count == (n + 4) / 5,
            b <= count,
            msgs@.len() == b,
            forall|t: int|
                0 <= t < msgs@.len() ==> (#[trigger] msgs@[t] matches ServerChunkMessage::ChunkBatch(v)
                    && v@.map_values(|c: Vec<u8>| c@) == spec_batch(chunks@, t)),
        decreases count - b,
    {
        let start = 5 * b;
        let end = if start + 5 < n {
            start + 5
        } else {
            n
        };
        let mut batch: Vec<Vec<u8>> = Vec::new();
        let mut j = start;
        while j < end
            invariant
                start <= j <= end,
                end <= n,
                n == chunks@.len(),
                batch@.len() == j - start,
                forall|t: int| 0 <= t < batch@.len() ==> #[trigger] batch@[t]@ == chunks@[start + t]@,
            decreases end - j,
        {
            let c = chunks[j].clone();
            assert(c@ =~= chunks@[j as int]@);
            batch.push(c);
            j = j + 1;
        }
        assert(batch@.map_values(|c: Vec<u8>| c@) =~= spec_batch(chunks@, b as int));
        msgs.push(ServerChunkMessage::ChunkBatch(batch));
        b = b + 1;
    }
    msgs
}

/// Batching loses, repeats and reorders nothing: chunk `t` travels in batch
/// `t / 5` at place `t % 5`, and every place of every batch holds a chunk.
pub proof fn lemma_batches_cover(chunks: Seq<Vec<u8>>, t: int)
    requires
        0 <= t < chunks.len(),
    ensures
        0 <= t / 5 < (chunks.len() + 4) / 5,
        t % 5 < spec_batch(chunks, t / 5).len(),
        spec_batch(chunks, t / 5)[t % 5] == chunks[t]@,
{
    vstd::arithmetic::div_mod::lemma_fundamental_div_mod(t, 5);
}

/// Whether the single-precision value with bit pattern `bits` differs from
/// zero (negative zero counts as zero, not-a-number as different).
pub open spec fn nonzero_f32(bits: u32) -> bool {
    bits & 0x7fff_ffffu32 != 0
}

/// Whether an input is worth sending: moving along either axis, or
/// jumping; any other input is empty.
pub open spec fn input_is_active(input: PlayerInput) -> bool {
    nonzero_f32(input.forward) || nonzero_f32(input.sideways) || input.jumping
}

/// Decides whether the client sends its input this tick. An active input is
/// always sent; an idle one is sent once, right after the player stops, so
/// that the server learns of the stop, and then not again. `is_moving`
/// remembers whether the last input sent was active.
pub fn client_send_input(input: &PlayerInput, is_moving: &mut bool) -> (msg: Option<ClientMessage>)
    ensures
        input_is_active(*input) ==> (msg matches Some(ClientMessage::PlayerInput(p)) && p == *input)
            && *final(is_moving),
        !input_is_active(*input) && *old(is_moving) ==> (msg matches Some(
            ClientMessage::PlayerInput(p),
        ) && p == *input) && !*final(is_moving),
        !input_is_active(*input) && !*old(is_moving) ==> msg is None && !*final(is_moving),
{
    let active = input.forward & 0x7fff_ffffu32 != 0 || input.sideways & 0x7fff_ffffu32 != 0
        || input.jumping;
    if active {
        *is_moving = true;
        Some(ClientMessage::PlayerInput(*input))
    } else if *is_moving {
        *is_moving = false;
        Some(ClientMessage::PlayerInput(*input))
    } else {
        None
    }
}

/// Size of the user data block that a connect token carries.
pub const NETCODE_USER_DATA_BYTES: usize = 256;

/// Longest user name, in bytes, that fits in a user data block behind its
/// eight-byte length.
pub const MAX_USER_NAME_BYTES: usize = 248;

/// The name a client connects under, sent to the server in the user data of
/// its connect token.
pub struct UserData(pub String);

/// Byte `i` (0 to 7) of `n` written little-endian.
pub open spec fn le_byte(n: u64, i: int) -> u8 {
    ((n >> (8 * i) as u64) & 0xff) as u8
}

/// The number that eight little-endian bytes spell.
pub open spec fn le_u64(b: Seq<u8>) -> u64 {
    (b[0] as u64) | ((b[1] as u64) << 8u64) | ((b[2] as u64) << 16u64) | ((b[3] as u64)
        << 24u64) | ((b[4] as u64) << 32u64) | ((b[5] as u64) << 40u64) | ((b[6] as u64)
        << 48u64) | ((b[7] as u64) << 56u64)
}

/// The user data block that holds name `name` (given as its UTF-8 bytes):
/// the byte length as eight little-endian bytes, then the bytes, then zeros.
pub open spec fn spec_user_data_bytes(name: Seq<u8>) -> Seq<u8> {
    Seq::new(
        256,
        |i: int|
            if i < 8 {
                le_byte(name.len() as u64, i)
            } else if i < 8 + name.len() {
                name[i - 8]
            } else {
                0u8
            },
    )
}

/// Length of the name stored in user data block `data`: the eight-byte
/// little-endian length, capped at 248.
pub open spec fn stored_name_len(data: Seq<u8>) -> int {
    let n = le_u64(data.subrange(0, 8));
    if n > 248 {
        248
    } else {
        n as int
    }
}

/// The bytes of the name stored in user data block `data`.
pub open spec fn stored_name_bytes(data: Seq<u8>) -> Seq<u8> {
    data.subrange(8, 8 + stored_name_len(data))
}

proof fn lemma_le_roundtrip(n: u64)
    ensures
        le_u64(seq![le_byte(n, 0), le_byte(n, 1), le_byte(n, 2), le_byte(n, 3), le_byte(n, 4), le_byte(n, 5), le_byte(n, 6), le_byte(n, 7)]) == n,
{
    let b0 = ((n >> 0u64) & 0xff) as u8;
    let b1 = ((n >> 8u64) & 0xff) as u8;
    let b2 = ((n >> 16u64) & 0xff) as u8;
    let b3 = ((n >> 24u64) & 0xff) as u8;
    let b4 = ((n >> 32u64) & 0xff) as u8;
    let b5 = ((n >> 40u64) & 0xff) as u8;
    let b6 = ((n >> 48u64) & 0xff) as u8;
    let b7 = ((n >> 56u64) & 0xff) as u8;
    assert((b0 as u64) | ((b1 as u64) << 8u64) | ((b2 as u64) << 16u64) | ((b3 as u64) << 24u64)
        | ((b4 as u64) << 32u64) | ((b5 as u64) << 40u64) | ((b6 as u64) << 48u64) | ((b7 as u64)
        << 56u64) == n) by (bit_vector)
        requires
            b0 == ((n >> 0u64) & 0xff) as u8,
            b1 == ((n >> 8u64) & 0xff) as u8,
            b2 == ((n >> 16u64) & 0xff) as u8,
            b3 == ((n >> 24u64) & 0xff) as u8,
            b4 == ((n >> 32u64) & 0xff) as u8,
            b5 == ((n >> 40u64) & 0xff) as u8,
            b6 == ((n >> 48u64) & 0xff) as u8,
            b7 == ((n >> 56u64) & 0xff) as u8,
    ;
    let s = seq![le_byte(n, 0), le_byte(n, 1), le_byte(n, 2), le_byte(n, 3), le_byte(n, 4), le_byte(n, 5), le_byte(n, 6), le_byte(n, 7)];
    assert(s[0] == b0 && s[1] == b1 && s[2] == b2 && s[3] == b3);
    assert(s[4] == b4 && s[5] == b5 && s[6] == b6 && s[7] == b7);
}


/// Calls `String::from_utf8` of std: the bytes become a string exactly when
/// they are valid UTF-8, and the string holds the characters they encode.
#[verifier::external_body]
fn string_from_utf8(bytes: Vec<u8>) -> (s: Option<String>)
    ensures
        s is Some <==> valid_utf8(bytes@),
        s matches Some(s) ==> s@ == decode_utf8(bytes@),
{
    String::from_utf8(bytes).ok()
}

impl UserData {
    /// The UTF-8 bytes of the name.
    pub open spec fn name_bytes(&self) -> Seq<u8> {
        encode_utf8(self.0@)
    }

    /// The user data block that carries this name: its byte length as eight
    /// little-endian bytes, then its bytes, then zeros. A name longer than
    /// 248 bytes does not fit.
    pub fn to_netcode_user_data(&self) -> (data: [u8; 256])
        requires
            self.name_bytes().len() <= MAX_USER_NAME_BYTES,
        ensures
            data@ == spec_user_data_bytes(self.name_bytes()),
    {
        let bytes: &[u8] = self.0.as_str().as_bytes();
        let len = bytes.len();
        let len64 = len as u64;
        let mut data = [0u8; 256];
        let mut i: usize = 0;
        while i < 8
            invariant
                i <= 8,
                len == self.name_bytes().len(),
                len <= MAX_USER_NAME_BYTES,
                len64 == len,
                forall|j: int| 0 <= j < i ==> data@[j] == le_byte(len64, j),
                forall|j: int| 8 <= j < 256 ==> data@[j] == 0u8,
            decreases 8 - i,
        {
            let b = ((len64 >> (8 * i as u64)) & 0xff) as u8;
            data[i] = b;
            i = i + 1;
        }
        let mut k: usize = 0;
        while k < len
            invariant
                k <= len,
                len == bytes@.len(),
                bytes@ == self.name_bytes(),
                len <= MAX_USER_NAME_BYTES,
                len64 == len,
                forall|j: int| 0 <= j < 8 ==> data@[j] == le_byte(len64, j),
                forall|j: int| 8 <= j < 8 + k ==> data@[j] == bytes@[j - 8],
                forall|j: int| 8 + k <= j < 256 ==> data@[j] == 0u8,
            decreases len - k,
        {
            data[8 + k] = bytes[k];
            k = k + 1;
        }
        assert(data@ =~= spec_user_data_bytes(self.name_bytes()));
        data
    }

    /// The name stored in a user data block: as many bytes after the
    /// eight-byte length as the length says, at most 248, read as UTF-8.
    /// Bytes that are not valid UTF-8 are refused (the caller checks them).
    pub fn from_user_data(user_data: &[u8; 256]) -> (u: Self)
        requires
            valid_utf8(stored_name_bytes(user_data@)),
        ensures
            u.0@ == decode_utf8(stored_name_bytes(user_data@)),
    {
        let n: u64 = (user_data[0] as u64) | ((user_data[1] as u64) << 8u64) | ((user_data[2] as u64)
            << 16u64) | ((user_data[3] as u64) << 24u64) | ((user_data[4] as u64) << 32u64) | ((
        user_data[5] as u64) << 40u64) | ((user_data[6] as u64) << 48u64) | ((user_data[7] as u64)
            << 56u64);
        assert(n == le_u64(user_data@.subrange(0, 8)));
        let len: usize = if n > 248 {
            248
        } else {
            n as usize
        };
        let mut data: Vec<u8> = Vec::new();
        let mut k: usize = 0;
        while k < len
            invariant
                k <= len,
                len == stored_name_len(user_data@),
                len <= 248,
                data@ =~= user_data@.subrange(8, 8 + k as int),
            decreases len - k,
        {
            data.push(user_data[8 + k]);
            k = k + 1;
        }
        match string_from_utf8(data) {
            Some(name) => UserData(name),
            None => UserData(String::new()),
        }
    }
}

/// A name of at most 248 bytes survives the trip through a user data block:
/// reading back the block written for it gives the same name.
pub proof fn lemma_user_data_roundtrip(name: Seq<char>)
    requires
        encode_utf8(name).len() <= MAX_USER_NAME_BYTES,
    ensures
        stored_name_bytes(spec_user_data_bytes(encode_utf8(name))) == encode_utf8(name),
        valid_utf8(stored_name_bytes(spec_user_data_bytes(encode_utf8(name)))),
        decode_utf8(stored_name_bytes(spec_user_data_bytes(encode_utf8(name)))) == name,
{
    let nb = encode_utf8(name);
    let d = spec_user_data_bytes(nb);
    let n = nb.len() as u64;
    lemma_le_roundtrip(n);
    assert(d.subrange(0, 8) =~= seq![le_byte(n, 0), le_byte(n, 1), le_byte(n, 2), le_byte(n, 3), le_byte(n, 4), le_byte(n, 5), le_byte(n, 6), le_byte(n, 7)]);
    assert(stored_name_bytes(d) =~= nb);
    vstd::utf8::encode_utf8_valid_utf8(name);
    vstd::utf8::encode_utf8_decode_utf8(name);
}

} // verus!
