use vstd::prelude::*;

use base64::Engine;
use rand::Rng;

verus! {

/// Largest request body, in bytes, that the login endpoints accept.
pub const MAX_SIZE: usize = 262_144;

/// Why a request body was refused.
#[derive(PartialEq, Eq, Structural, Clone, Copy, Debug)]
pub enum PayloadError {
    /// The body grew past `MAX_SIZE`.
    Overflow,
}

/// Adds the next piece of a request body to what was received so far,
/// unless the body would then exceed `MAX_SIZE` bytes, in which case the
/// request is refused and the body left as it was.
pub fn accept_payload_chunk(body: &mut Vec<u8>, chunk: &[u8]) -> (r: Result<(), PayloadError>)
    requires
        old(body)@.len() <= MAX_SIZE,
    ensures
        old(body)@.len() + chunk@.len() > MAX_SIZE ==> r == Err::<(), PayloadError>(
            PayloadError::Overflow,
        ) && final(body)@ == old(body)@,
        old(body)@.len() + chunk@.len() <= MAX_SIZE ==> r is Ok && final(body)@ == old(body)@
            + chunk@,
        final(body)@.len() <= MAX_SIZE,
{
    if chunk.len() > MAX_SIZE - body.len() {
        return Err(PayloadError::Overflow);
    }
    let ghost start = body@;
    let mut i: usize = 0;
    while i < chunk.len()
        invariant
            i <= chunk@.len(),
            body@ == start + chunk@.take(i as int),
        decreases chunk@.len() - i,
    {
        body.push(chunk[i]);
        assert(chunk@.take(i + 1) =~= chunk@.take(i as int).push(chunk[i as int]));
        assert(body@ =~= start + chunk@.take(i + 1));
        i = i + 1;
    }
    assert(chunk@.take(chunk@.len() as int) =~= chunk@);
    Ok(())
}

/// A challenge handed to a client: the random bytes it must sign and the
/// public key it claimed.
#[derive(Clone, Copy)]
pub struct ChallengeData {
    pub bytes: [u8; 30],
    pub key: [u8; 32],
}

/// A client's answer to a challenge: its session id and its signature of
/// the challenge bytes.
pub struct SignedChallenge {
    pub uuid: String,
    pub sign: [u8; 64],
}

/// A client's first message: its public key and a session id of its
/// choosing.
pub struct Welcome {
    pub key: [u8; 32],
    pub uuid: String,
}

/// The open challenges, by session id.
pub struct Challenges {
    entries: Vec<(String, ChallengeData)>,
}

/// The map that a list of (session id, challenge) entries stands for.
pub open spec fn challenge_map(s: Seq<(String, ChallengeData)>) -> Map<Seq<char>, ChallengeData> {
    Map::new(
        |k: Seq<char>| exists|i: int| 0 <= i < s.len() && s[i].0@ == k,
        |k: Seq<char>| s[choose|i: int| 0 <= i < s.len() && s[i].0@ == k].1,
    )
}

impl View for Challenges {
    type V = Map<Seq<char>, ChallengeData>;

    closed spec fn view(&self) -> Map<Seq<char>, ChallengeData> {
        challenge_map(self.entries@)
    }
}

impl Challenges {
    /// Session ids are distinct.
    pub closed spec fn wf(&self) -> bool {
        forall|i: int, j: int|
            0 <= i < self.entries@.len() && 0 <= j < self.entries@.len() && self.entries@[i].0@
                == self.entries@[j].0@ ==> i == j
    }

    /// No open challenges.
    pub fn default() -> (c: Self)
        ensures
            c.wf(),
            c@ == Map::<Seq<char>, ChallengeData>::empty(),
    {
        let c = Challenges { entries: Vec::new() };
        assert(c@ =~= Map::<Seq<char>, ChallengeData>::empty());
        c
    }

    fn find(&self, uuid: &String) -> (r: Option<usize>)
        requires
            self.wf(),
        ensures
            r matches Some(i) ==> i < self.entries@.len() && self.entries@[i as int].0@ == uuid@,
            r is None ==> !self@.contains_key(uuid@),
    {
        let mut i: usize = 0;
        while i < self.entries.len()
            invariant
                i <= self.entries@.len(),
                forall|j: int| 0 <= j < i ==> self.entries@[j].0@ != uuid@,
            decreases self.entries@.len() - i,
        {
            if self.entries[i].0 == *uuid {
                return Some(i);
            }
            i = i + 1;
        }
        None
    }

    proof fn lemma_at(&self, i: int)
        requires
            self.wf(),
            0 <= i < self.entries@.len(),
        ensures
            self@.contains_key(self.entries@[i].0@),
            self@[self.entries@[i].0@] == self.entries@[i].1,
    {
        let k = self.entries@[i].0@;
        assert(exists|j: int| 0 <= j < self.entries@.len() && self.entries@[j].0@ == k);
        let c = choose|j: int| 0 <= j < self.entries@.len() && self.entries@[j].0@ == k;
        assert(c == i);
    }

    /// Takes the challenge of session `uuid` out of the store.
    pub fn remove(&mut self, uuid: &String) -> (r: Option<ChallengeData>)
        requires
            old(self).wf(),
        ensures
            final(self).wf(),
            final(self)@ == old(self)@.remove(uuid@),
            r == old(self)@.get(uuid@),
    {
        match self.find(uuid) {
            Some(i) => {
                proof {
                    self.lemma_at(i as int);
                }
                let ghost s = self.entries@;
                let (_, data) = self.entries.remove(i);
                proof {
                    let t = self.entries@;
                    assert(t =~= s.remove(i as int));
                    assert forall|a: int, b: int|
                        0 <= a < t.len() && 0 <= b < t.len() && t[a].0@ == t[b].0@ implies a
                        == b by {
                        let a2 = if a < i { a } else { a + 1 };
                        let b2 = if b < i { b } else { b + 1 };
                        assert(t[a] == s[a2] && t[b] == s[b2]);
                    }
                    let m = old(self)@.remove(uuid@);
                    assert forall|k: Seq<char>| #[trigger] self@.contains_key(k) <==> m.contains_key(k) by {
                        if m.contains_key(k) {
                            let j = choose|j: int| 0 <= j < s.len() && s[j].0@ == k;
                            let j2 = if j < i { j } else { j - 1 };
                            assert(t[j2].0@ == k);
                        }
                        if self@.contains_key(k) {
                            let j = choose|j: int| 0 <= j < t.len() && t[j].0@ == k;
                            let j2 = if j < i { j } else { j + 1 };
                            assert(s[j2].0@ == k);
                        }
                    }
                    assert forall|k: Seq<char>| #[trigger] self@.contains_key(k) implies self@[k]
                        == m[k] by {
                        let j = choose|j: int| 0 <= j < t.len() && t[j].0@ == k;
                        self.lemma_at(j);
                        let j2 = if j < i { j } else { j + 1 };
                        old(self).lemma_at(j2);
                    }
                    assert(self@ =~= m);
                }
                Some(data)
            },
            None => {
                assert(old(self)@.remove(uuid@) =~= old(self)@);
                None
            },
        }
    }

    /// Opens a challenge for session `uuid`, unless one is open already, in
    /// which case the open one stays.
    pub fn insert_if_absent(&mut self, uuid: String, data: ChallengeData)
        requires
            old(self).wf(),
        ensures
            final(self).wf(),
            final(self)@ == (if old(self)@.contains_key(uuid@) {
                old(self)@
            } else {
                old(self)@.insert(uuid@, data)
            }),
    {
        match self.find(&uuid) {
            Some(i) => {},
            None => {
                let ghost s = self.entries@;
                let ghost k = uuid@;
                self.entries.push((uuid, data));
                proof {
                    let t = self.entries@;
                    assert forall|a: int, b: int|
                        0 <= a < t.len() && 0 <= b < t.len() && t[a].0@ == t[b].0@ implies a
                        == b by {
                        if a < s.len() && b == s.len() {
                            assert(old(self)@.contains_key(s[a].0@));
                        }
                        if b < s.len() && a == s.len() {
                            assert(old(self)@.contains_key(s[b].0@));
                        }
                    }
                    let m = old(self)@.insert(k, data);
                    assert forall|q: Seq<char>| #[trigger] self@.contains_key(q) <==> m.contains_key(q) by {
                        if m.contains_key(q) && q != k {
                            let j = choose|j: int| 0 <= j < s.len() && s[j].0@ == q;
                            assert(t[j].0@ == q);
                        }
                        if q == k {
                            assert(t[s.len() as int].0@ == q);
                        }
                        if self@.contains_key(q) && q != k {
                            let j = choose|j: int| 0 <= j < t.len() && t[j].0@ == q;
                            assert(s[j].0@ == q);
                        }
                    }
                    assert forall|q: Seq<char>| #[trigger] self@.contains_key(q) implies self@[q]
                        == m[q] by {
                        let j = choose|j: int| 0 <= j < t.len() && t[j].0@ == q;
                        self.lemma_at(j);
                        if j < s.len() {
                            old(self).lemma_at(j);
                        }
                    }
                    assert(self@ =~= m);
                }
            },
        }
    }
}


/// The session id issued for each public key that has logged in.
pub struct Identities {
    entries: Vec<([u8; 32], String)>,
}

/// The map that a list of (key, session id) entries stands for.
pub open spec fn identity_map(s: Seq<([u8; 32], String)>) -> Map<Seq<u8>, Seq<char>> {
    Map::new(
        |k: Seq<u8>| exists|i: int| 0 <= i < s.len() && s[i].0@ == k,
        |k: Seq<u8>| s[choose|i: int| 0 <= i < s.len() && s[i].0@ == k].1@,
    )
}

impl View for Identities {
    type V = Map<Seq<u8>, Seq<char>>;

    closed spec fn view(&self) -> Map<Seq<u8>, Seq<char>> {
        identity_map(self.entries@)
    }
}

fn same_key(a: &[u8; 32], b: &[u8; 32]) -> (r: bool)
    ensures
        r == (a@ == b@),
{
    let mut i: usize = 0;
    while i < 32
        invariant
            i <= 32,
            forall|j: int| 0 <= j < i ==> a@[j] == b@[j],
        decreases 32 - i,
    {
        if a[i] != b[i] {
            return false;
        }
        i = i + 1;
    }
    assert(a@ =~= b@);
    true
}

impl Identities {
    /// Keys are distinct.
    pub closed spec fn wf(&self) -> bool {
        forall|i: int, j: int|
            0 <= i < self.entries@.len() && 0 <= j < self.entries@.len() && self.entries@[i].0@
                == self.entries@[j].0@ ==> i == j
    }

    /// Nobody has logged in yet.
    pub fn new() -> (ids: Self)
        ensures
            ids.wf(),
            ids@ == Map::<Seq<u8>, Seq<char>>::empty(),
    {
        let ids = Identities { entries: Vec::new() };
        assert(ids@ =~= Map::<Seq<u8>, Seq<char>>::empty());
        ids
    }

    /// The keys that have logged in, each with its session id.
    pub fn entries(&self) -> (v: Vec<([u8; 32], String)>)
        requires
            self.wf(),
        ensures
            identity_map(v@) == self@,
            forall|k: Seq<u8>| #[trigger] self@.contains_key(k) ==> exists|i: int| 0 <= i < v@.len() && v@[i].0@ == k,
            v@.len() == self@.dom().len(),
    {
        let mut v: Vec<([u8; 32], String)> = Vec::new();
        let mut i: usize = 0;
        while i < self.entries.len()
            invariant
                i <= self.entries@.len(),
                v@.len() == i,
                forall|j: int| 0 <= j < i ==> (#[trigger] v@[j]).0@ == self.entries@[j].0@ && v@[j].1@ == self.entries@[j].1@,
            decreases self.entries@.len() - i,
        {
            let k = self.entries[i].0;
            let u = self.entries[i].1.clone();
            v.push((k, u));
            i = i + 1;
        }
        proof {
            assert forall|k: Seq<u8>| #[trigger] identity_map(v@).contains_key(k) <==> self@.contains_key(k) by {
                if identity_map(v@).contains_key(k) {
                    let j = choose|j: int| 0 <= j < v@.len() && v@[j].0@ == k;
                    assert(self.entries@[j].0@ == k);
                }
                if self@.contains_key(k) {
                    let j = choose|j: int| 0 <= j < self.entries@.len() && self.entries@[j].0@ == k;
                    assert(v@[j].0@ == k);
                }
            }
            assert forall|k: Seq<u8>| #[trigger] identity_map(v@).contains_key(k) implies identity_map(v@)[k]
                == self@[k] by {
                let a = choose|j: int| 0 <= j < v@.len() && v@[j].0@ == k;
                let b = choose|j: int| 0 <= j < self.entries@.len() && self.entries@[j].0@ == k;
                assert(self.entries@[a].0@ == k);
            }
            assert(identity_map(v@) =~= self@);
            self.lemma_len();
        }
        v
    }

    proof fn lemma_len(&self)
        requires
            self.wf(),
        ensures
            self@.dom().len() == self.entries@.len(),
            self@.dom() == self.entries@.map_values(|e: ([u8; 32], String)| e.0@).to_set(),
    {
        let ks = self.entries@.map_values(|e: ([u8; 32], String)| e.0@);
        assert forall|a: int, b: int| 0 <= a < ks.len() && 0 <= b < ks.len() && a != b implies ks[a] != ks[b] by {}
        assert(ks.no_duplicates());
        assert forall|k: Seq<u8>| #[trigger] self@.dom().contains(k) <==> ks.to_set().contains(k) by {
            if self@.dom().contains(k) {
                let j = choose|j: int| 0 <= j < self.entries@.len() && self.entries@[j].0@ == k;
                assert(ks[j] == k);
            }
            if ks.to_set().contains(k) {
                let j = choose|j: int| 0 <= j < ks.len() && ks[j] == k;
                assert(self.entries@[j].0@ == k);
            }
        }
        assert(self@.dom() =~= ks.to_set());
        ks.unique_seq_to_set();
    }

    fn find_key(&self, key: &[u8; 32]) -> (r: Option<usize>)
        requires
            self.wf(),
        ensures
            r matches Some(i) ==> i < self.entries@.len() && self.entries@[i as int].0@ == key@
                && self@.contains_key(key@) && self@[key@] == self.entries@[i as int].1@,
            r is None ==> !self@.contains_key(key@),
    {
        let mut i: usize = 0;
        while i < self.entries.len()
            invariant
                i <= self.entries@.len(),
                self.wf(),
                forall|j: int| 0 <= j < i ==> self.entries@[j].0@ != key@,
            decreases self.entries@.len() - i,
        {
            if same_key(&self.entries[i].0, key) {
                proof {
                    let k = key@;
                    assert(exists|j: int| 0 <= j < self.entries@.len() && self.entries@[j].0@ == k);
                    let c = choose|j: int| 0 <= j < self.entries@.len() && self.entries@[j].0@ == k;
                    assert(c == i);
                }
                return Some(i);
            }
            i = i + 1;
        }
        None
    }

    /// The session id of a client that proved it holds `key`: the one issued
    /// to that key before, or else `fresh`, which is then kept for the key.
    pub fn login_identity(&mut self, key: &[u8; 32], fresh: String) -> (uuid: String)
        requires
            old(self).wf(),
        ensures
            final(self).wf(),
            old(self)@.contains_key(key@) ==> uuid@ == old(self)@[key@] && final(self)@ == old(self)@,
            !old(self)@.contains_key(key@) ==> uuid@ == fresh@ && final(self)@ == old(self)@.insert(
                key@,
                fresh@,
            ),
    {
        match self.find_key(key) {
            Some(i) => self.entries[i].1.clone(),
            None => {
                let ghost s = self.entries@;
                let u = fresh.clone();
                self.entries.push((*key, fresh));
                proof {
                    let t = self.entries@;
                    let k = key@;
                    assert forall|a: int, b: int|
                        0 <= a < t.len() && 0 <= b < t.len() && t[a].0@ == t[b].0@ implies a == b by {
                        if a < s.len() && b == s.len() {
                            assert(old(self)@.contains_key(s[a].0@));
                        }
                        if b < s.len() && a == s.len() {
                            assert(old(self)@.contains_key(s[b].0@));
                        }
                    }
                    let m = old(self)@.insert(k, u@);
                    assert forall|q: Seq<u8>| #[trigger] self@.contains_key(q) <==> m.contains_key(q) by {
                        if m.contains_key(q) && q != k {
                            let j = choose|j: int| 0 <= j < s.len() && s[j].0@ == q;
                            assert(t[j].0@ == q);
                        }
                        if q == k {
                            assert(t[s.len() as int].0@ == q);
                        }
                        if self@.contains_key(q) && q != k {
                            let j = choose|j: int| 0 <= j < t.len() && t[j].0@ == q;
                            assert(s[j].0@ == q);
                        }
                    }
                    assert forall|q: Seq<u8>| #[trigger] self@.contains_key(q) implies self@[q] == m[q] by {
                        let j = choose|j: int| 0 <= j < t.len() && t[j].0@ == q;
                        let c = choose|j: int| 0 <= j < t.len() && t[j].0@ == q;
                        if q == k {
                            assert(t[s.len() as int].0@ == q);
                        } else {
                            let j0 = choose|j: int| 0 <= j < s.len() && s[j].0@ == q;
                            assert(t[j0].0@ == q);
                        }
                    }
                    assert(self@ =~= m);
                }
                u
            },
        }
    }
}

/// The character of the standard base64 alphabet for the six-bit value `v`.
pub open spec fn b64_symbol(v: u8) -> char {
    if v < 26 {
        (65 + v) as char
    } else if v < 52 {
        (97 + v - 26) as char
    } else if v < 62 {
        (48 + v - 52) as char
    } else if v == 62 {
        '+'
    } else {
        '/'
    }
}

/// Standard base64 (RFC 4648, with padding) of `s`: every three bytes
/// become four characters; a last group of one or two bytes is padded with
/// `=`.
pub open spec fn base64_encode(s: Seq<u8>) -> Seq<char>
    decreases s.len(),
{
    if s.len() == 0 {
        seq![]
    } else if s.len() == 1 {
        seq![b64_symbol(s[0] >> 2u8), b64_symbol((s[0] & 3u8) << 4u8), '=', '=']
    } else if s.len() == 2 {
        seq![
            b64_symbol(s[0] >> 2u8),
            b64_symbol(((s[0] & 3u8) << 4u8) | (s[1] >> 4u8)),
            b64_symbol((s[1] & 15u8) << 2u8),
            '=',
        ]
    } else {
        seq![
            b64_symbol(s[0] >> 2u8),
            b64_symbol(((s[0] & 3u8) << 4u8) | (s[1] >> 4u8)),
            b64_symbol(((s[1] & 15u8) << 2u8) | (s[2] >> 6u8)),
            b64_symbol(s[2] & 63u8),
        ] + base64_encode(s.subrange(3, s.len() as int))
    }
}

/// Calls `encode` of `base64`'s `STANDARD` engine, which implements the
/// standard alphabet with padding of RFC 4648.
#[verifier::external_body]
fn encode_base64(bytes: &[u8; 30]) -> (s: String)
    ensures
        s@ == base64_encode(bytes@),
{
    base64::engine::general_purpose::STANDARD.encode(bytes)
}

/// Whether `signature` is a valid Ed25519 signature of `message` under the
/// public key `key`, as `ed25519-dalek` decides it: the verdict of its three
/// calls together, decoding the key, decoding the signature and verifying.
pub uninterp spec fn ed25519_verify(key: Seq<u8>, message: Seq<u8>, signature: Seq<u8>) -> bool;

/// Calls `PublicKey::from_bytes`, `Signature::from_bytes` and
/// `Verifier::verify` of `ed25519-dalek`: true exactly when the key and the
/// signature decode and the signature verifies. The verdict is named, not
/// described.
#[verifier::external_body]
fn verify_signature(key: &[u8; 32], message: &[u8; 30], signature: &[u8; 64]) -> (ok: bool)
    ensures
        ok == ed25519_verify(key@, message@, signature@),
{
    match ed25519_dalek::PublicKey::from_bytes(key) {
        Ok(pk) => match ed25519_dalek::Signature::from_bytes(signature) {
            Ok(sig) => ed25519_dalek::Verifier::verify(&pk, message, &sig).is_ok(),
            Err(_) => false,
        },
        Err(_) => false,
    }
}

/// Calls `rand::thread_rng().gen::<u8>()`: a random byte, about which
/// nothing is promised.
#[verifier::external_body]
fn random_byte() -> (b: u8) {
    rand::thread_rng().gen::<u8>()
}

/// Thirty random bytes for a client to sign.
pub fn generate_challenge() -> (bytes: [u8; 30]) {
    let mut bytes = [0u8; 30];
    let mut i: usize = 0;
    while i < 30
        invariant
            i <= 30,
        decreases 30 - i,
    {
        bytes[i] = random_byte();
        i = i + 1;
    }
    bytes
}

/// Whether the answer `signed` passes the challenge open in `challenges`
/// for its session: a challenge is open and the signature of its bytes
/// verifies under the key the client claimed.
pub open spec fn answer_accepted(challenges: Map<Seq<char>, ChallengeData>, signed: SignedChallenge) -> bool {
    challenges.contains_key(signed.uuid@) && ed25519_verify(
        challenges[signed.uuid@].key@,
        challenges[signed.uuid@].bytes@,
        signed.sign@,
    )
}

/// Checks a client's answer to its challenge and hands back the key the
/// client proved to hold. The challenge of the session is used up whatever
/// the outcome.
pub fn accepted_key(challenges: &mut Challenges, signed: &SignedChallenge) -> (key: Option<[u8; 32]>)
    requires
        old(challenges).wf(),
    ensures
        final(challenges).wf(),
        final(challenges)@ == old(challenges)@.remove(signed.uuid@),
        key is Some == answer_accepted(old(challenges)@, *signed),
        key matches Some(k) ==> k == old(challenges)@[signed.uuid@].key,
{
    match challenges.remove(&signed.uuid) {
        Some(entry) => {
            if verify_signature(&entry.key, &entry.bytes, &signed.sign) {
                Some(entry.key)
            } else {
                None
            }
        },
        None => None,
    }
}

/// Checks a client's answer to its challenge. The challenge of the session
/// is used up whatever the outcome; the client is accepted exactly when a
/// challenge was open for the session and the signature of its bytes
/// verifies under the key the client claimed.
pub fn challenge(challenges: &mut Challenges, signed: &SignedChallenge) -> (accepted: bool)
    requires
        old(challenges).wf(),
    ensures
        final(challenges).wf(),
        final(challenges)@ == old(challenges)@.remove(signed.uuid@),
        accepted == answer_accepted(old(challenges)@, *signed),
{
    accepted_key(challenges, signed).is_some()
}

/// Logs a client in with its answer to the challenge: when the answer is
/// accepted, the client gets the session id already issued to its key, or
/// `fresh` if the key is new (which is then kept for it); otherwise
/// `None`, and the known keys stay as they were. The challenge is used up
/// either way.
pub fn login(
    challenges: &mut Challenges,
    identities: &mut Identities,
    signed: &SignedChallenge,
    fresh: String,
) -> (uuid: Option<String>)
    requires
        old(challenges).wf(),
        old(identities).wf(),
    ensures
        final(challenges).wf(),
        final(identities).wf(),
        final(challenges)@ == old(challenges)@.remove(signed.uuid@),
        uuid is Some == answer_accepted(old(challenges)@, *signed),
        !answer_accepted(old(challenges)@, *signed) ==> final(identities)@ == old(identities)@,
        answer_accepted(old(challenges)@, *signed) ==> ({
            let k = old(challenges)@[signed.uuid@].key@;
            &&& old(identities)@.contains_key(k) ==> uuid->Some_0@ == old(identities)@[k]
                && final(identities)@ == old(identities)@
            &&& !old(identities)@.contains_key(k) ==> uuid->Some_0@ == fresh@ && final(identities)@
                == old(identities)@.insert(k, fresh@)
        }),
{
    match accepted_key(challenges, signed) {
        Some(key) => Some(identities.login_identity(&key, fresh)),
        None => None,
    }
}

/// Opens a challenge with `bytes` for the session and key of `welcome`
/// (keeping a challenge already open for that session) and returns the
/// bytes in base64, to be sent to the client.
pub fn register_challenge(challenges: &mut Challenges, welcome: Welcome, bytes: [u8; 30]) -> (reply: String)
    requires
        old(challenges).wf(),
    ensures
        final(challenges).wf(),
        final(challenges)@ == (if old(challenges)@.contains_key(welcome.uuid@) {
            old(challenges)@
        } else {
            old(challenges)@.insert(welcome.uuid@, ChallengeData { bytes, key: welcome.key })
        }),
        reply@ == base64_encode(bytes@),
{
    let data = ChallengeData { bytes, key: welcome.key };
    challenges.insert_if_absent(welcome.uuid, data);
    encode_base64(&bytes)
}

/// Answers a client's first message: draws thirty random bytes, opens a
/// challenge with them for the client's session (unless one is open) and
/// returns them in base64.
pub fn public_key(challenges: &mut Challenges, welcome: Welcome) -> (reply: String)
    requires
        old(challenges).wf(),
    ensures
        final(challenges).wf(),
        final(challenges)@.dom() == old(challenges)@.dom().insert(welcome.uuid@),
        old(challenges)@.contains_key(welcome.uuid@) ==> final(challenges)@ == old(challenges)@,
        !old(challenges)@.contains_key(welcome.uuid@) ==> final(challenges)@
            == old(challenges)@.insert(welcome.uuid@, final(challenges)@[welcome.uuid@])
            && final(challenges)@[welcome.uuid@].key == welcome.key && reply@ == base64_encode(
            final(challenges)@[welcome.uuid@].bytes@,
        ),
        exists|b: Seq<u8>| b.len() == 30 && reply@ == #[trigger] base64_encode(b),
        reply@.len() == 40,
{
    let bytes = generate_challenge();
    let ghost uuid = welcome.uuid@;
    let reply = register_challenge(challenges, welcome, bytes);
    proof {
        assert(bytes@.len() == 30 && reply@ == base64_encode(bytes@));
        lemma_base64_len(bytes@);
        if !old(challenges)@.contains_key(uuid) {
            assert(final(challenges)@.dom() =~= old(challenges)@.dom().insert(uuid));
        } else {
            assert(old(challenges)@.dom() =~= old(challenges)@.dom().insert(uuid));
        }
    }
    reply
}

/// Base64 turns every three bytes into four characters.
pub proof fn lemma_base64_len(s: Seq<u8>)
    requires
        s.len() % 3 == 0,
    ensures
        base64_encode(s).len() == s.len() / 3 * 4,
    decreases s.len(),
{
    if s.len() > 0 {
        lemma_base64_len(s.subrange(3, s.len() as int));
    }
}

} // verus!
