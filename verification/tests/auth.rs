use base64::Engine;
use biorite::auth::{
    login, Identities,
    accept_payload_chunk, challenge, generate_challenge, public_key, register_challenge, ChallengeData, Challenges,
    PayloadError, SignedChallenge, Welcome, MAX_SIZE,
};
use ed25519_dalek::{Keypair, PublicKey, SecretKey, Signer};

fn keypair(seed: u8) -> Keypair {
    let secret = SecretKey::from_bytes(&[seed; 32]).unwrap();
    let public = PublicKey::from(&secret);
    Keypair { secret, public }
}

fn decode(s: &str) -> Vec<u8> {
    base64::engine::general_purpose::STANDARD.decode(s).unwrap()
}

#[test]
fn payload_is_collected_up_to_the_limit() {
    let mut body = Vec::new();
    assert_eq!(accept_payload_chunk(&mut body, &[1, 2, 3]), Ok(()));
    assert_eq!(body, vec![1, 2, 3]);
    let rest = vec![0u8; MAX_SIZE - 3];
    assert_eq!(accept_payload_chunk(&mut body, &rest), Ok(()));
    assert_eq!(body.len(), MAX_SIZE);
    assert_eq!(accept_payload_chunk(&mut body, &[9]), Err(PayloadError::Overflow));
    assert_eq!(body.len(), MAX_SIZE);
}

#[test]
fn oversized_piece_is_refused_whole() {
    let mut body = vec![7u8; 10];
    let big = vec![0u8; MAX_SIZE - 9];
    assert_eq!(accept_payload_chunk(&mut body, &big), Err(PayloadError::Overflow));
    assert_eq!(body, vec![7u8; 10]);
}

#[test]
fn register_replies_with_base64_of_the_bytes() {
    let mut c = Challenges::default();
    let mut bytes = [0u8; 30];
    for (i, b) in bytes.iter_mut().enumerate() {
        *b = i as u8 * 7;
    }
    let reply = register_challenge(&mut c, Welcome { key: [1; 32], uuid: "a".to_string() }, bytes);
    assert_eq!(reply, base64::engine::general_purpose::STANDARD.encode(bytes));
    assert_eq!(reply.len(), 40);
    let zeros = register_challenge(&mut c, Welcome { key: [1; 32], uuid: "b".to_string() }, [0u8; 30]);
    assert_eq!(zeros, "A".repeat(40));
    let open = c.remove(&"a".to_string()).expect("open challenge");
    assert_eq!(open.bytes, bytes);
    assert_eq!(open.key, [1; 32]);
}

#[test]
fn a_second_welcome_keeps_the_first_challenge() {
    let mut c = Challenges::default();
    register_challenge(&mut c, Welcome { key: [1; 32], uuid: "s".to_string() }, [5u8; 30]);
    register_challenge(&mut c, Welcome { key: [2; 32], uuid: "s".to_string() }, [6u8; 30]);
    let open: ChallengeData = c.remove(&"s".to_string()).unwrap();
    assert_eq!(open.bytes, [5u8; 30]);
    assert_eq!(open.key, [1; 32]);
    assert!(c.remove(&"s".to_string()).is_none());
}

#[test]
fn signed_challenge_is_accepted_once() {
    let kp = keypair(3);
    let mut c = Challenges::default();
    let reply = public_key(&mut c, Welcome { key: kp.public.to_bytes(), uuid: "u1".to_string() });
    let bytes = decode(&reply);
    assert_eq!(bytes.len(), 30);
    let sign = kp.sign(&bytes).to_bytes();
    let answer = SignedChallenge { uuid: "u1".to_string(), sign };
    assert!(challenge(&mut c, &answer));
    assert!(!challenge(&mut c, &answer));
}

#[test]
fn wrong_signature_is_refused_and_uses_up_the_challenge() {
    let kp = keypair(4);
    let other = keypair(5);
    let mut c = Challenges::default();
    let reply = public_key(&mut c, Welcome { key: kp.public.to_bytes(), uuid: "u2".to_string() });
    let bytes = decode(&reply);
    let bad = SignedChallenge { uuid: "u2".to_string(), sign: other.sign(&bytes).to_bytes() };
    assert!(!challenge(&mut c, &bad));
    let good = SignedChallenge { uuid: "u2".to_string(), sign: kp.sign(&bytes).to_bytes() };
    assert!(!challenge(&mut c, &good));
}

#[test]
fn unknown_session_is_refused() {
    let mut c = Challenges::default();
    let answer = SignedChallenge { uuid: "nobody".to_string(), sign: [0; 64] };
    assert!(!challenge(&mut c, &answer));
}

#[test]
fn challenges_are_thirty_bytes() {
    let a = generate_challenge();
    assert_eq!(a.len(), 30);
}

#[test]
fn a_key_keeps_its_session_id_across_logins() {
    let kp = keypair(6);
    let mut c = Challenges::default();
    let mut ids = Identities::new();
    let attempt = |c: &mut Challenges, ids: &mut Identities, session: &str, fresh: &str| {
        let reply = public_key(c, Welcome { key: kp.public.to_bytes(), uuid: session.to_string() });
        let sign = kp.sign(&decode(&reply)).to_bytes();
        login(c, ids, &SignedChallenge { uuid: session.to_string(), sign }, fresh.to_string())
    };
    assert_eq!(attempt(&mut c, &mut ids, "s1", "first"), Some("first".to_string()));
    assert_eq!(attempt(&mut c, &mut ids, "s2", "second"), Some("first".to_string()));
    let entries = ids.entries();
    assert_eq!(entries.len(), 1);
    assert_eq!(entries[0], (kp.public.to_bytes(), "first".to_string()));
    let bad = SignedChallenge { uuid: "nobody".to_string(), sign: [0; 64] };
    assert_eq!(login(&mut c, &mut ids, &bad, "third".to_string()), None);
    assert_eq!(ids.entries().len(), 1);
}
