use biorite::protocol::{
    chunk_batches, client_send_input, Channel, ClientMessage, EntityPosition, PlayerInput,
    ServerChunkMessage, ServerMessage, UserData, MAX_USER_NAME_BYTES, NETCODE_USER_DATA_BYTES,
};
use biorite::blocks::BlockType;
use biorite::pos::IVec3;

#[test]
fn channel_ids_follow_the_transport_defaults() {
    assert_eq!(Channel::Reliable.id(), renet::ReliableChannelConfig::default().channel_id);
    assert_eq!(Channel::Unreliable.id(), renet::UnreliableChannelConfig::default().channel_id);
    assert_eq!(Channel::Chunk.id(), renet::ChunkChannelConfig::default().channel_id);
    assert_eq!((Channel::Reliable.id(), Channel::Unreliable.id(), Channel::Chunk.id()), (0, 1, 2));
}

#[test]
fn user_data_size_matches_the_transport() {
    assert_eq!(NETCODE_USER_DATA_BYTES, renet::NETCODE_USER_DATA_BYTES);
    assert_eq!(MAX_USER_NAME_BYTES, NETCODE_USER_DATA_BYTES - 8);
}

#[test]
fn user_data_layout() {
    let data = UserData("abc".to_string()).to_netcode_user_data();
    assert_eq!(&data[0..8], &3u64.to_le_bytes());
    assert_eq!(&data[8..11], b"abc");
    assert!(data[11..].iter().all(|b| *b == 0));
}

#[test]
fn user_data_round_trips() {
    for name in ["", "steve", "zażółć gęślą jaźń", "0123456789abcdef-uuid"] {
        let data = UserData(name.to_string()).to_netcode_user_data();
        assert_eq!(UserData::from_user_data(&data).0, name);
    }
    let long = "x".repeat(MAX_USER_NAME_BYTES);
    let data = UserData(long.clone()).to_netcode_user_data();
    assert_eq!(UserData::from_user_data(&data).0, long);
}

#[test]
fn stored_length_is_capped() {
    let mut data = [b'a'; 256];
    data[0..8].copy_from_slice(&1000u64.to_le_bytes());
    assert_eq!(UserData::from_user_data(&data).0.len(), 248);
}

#[test]
fn entity_sync_goes_unreliably() {
    let sync = ServerMessage::EntitySync(vec![EntityPosition { id: 1, x: 0, y: 0, z: 0 }]);
    assert_eq!(sync.send_channel(), Channel::Unreliable);
    assert_eq!(ServerMessage::PlayerSpawn(3).send_channel(), Channel::Reliable);
    let delta = ServerMessage::BlockDelta { pos: IVec3::zero(), block: BlockType::Stone };
    assert_eq!(delta.send_channel(), Channel::Reliable);
}

fn batch_sizes(n: usize) -> Vec<usize> {
    let chunks: Vec<Vec<u8>> = (0..n).map(|i| vec![i as u8]).collect();
    chunk_batches(&chunks)
        .iter()
        .map(|m| match m {
            ServerChunkMessage::ChunkBatch(v) => v.len(),
            _ => panic!("not a batch"),
        })
        .collect()
}

#[test]
fn chunks_travel_in_batches_of_five() {
    assert_eq!(batch_sizes(0), Vec::<usize>::new());
    assert_eq!(batch_sizes(3), vec![3]);
    assert_eq!(batch_sizes(5), vec![5]);
    assert_eq!(batch_sizes(6), vec![5, 1]);
    assert_eq!(batch_sizes(12), vec![5, 5, 2]);
}

#[test]
fn batches_keep_order() {
    let chunks: Vec<Vec<u8>> = (0..7u8).map(|i| vec![i, i]).collect();
    let mut flat = Vec::new();
    for m in chunk_batches(&chunks) {
        if let ServerChunkMessage::ChunkBatch(v) = m {
            flat.extend(v);
        }
    }
    assert_eq!(flat, chunks);
}

fn input(forward: f32, sideways: f32, jumping: bool) -> PlayerInput {
    PlayerInput { forward: forward.to_bits(), sideways: sideways.to_bits(), jumping }
}

#[test]
fn input_is_sent_while_active_and_once_after() {
    let mut moving = false;
    assert!(client_send_input(&input(0.0, 0.0, false), &mut moving).is_none());
    assert!(!moving);
    let sent = client_send_input(&input(0.5, 0.5, false), &mut moving);
    assert!(matches!(sent, Some(ClientMessage::PlayerInput(p)) if p == input(0.5, 0.5, false)));
    assert!(moving);
    let sent = client_send_input(&input(1.0, 0.0, false), &mut moving);
    assert!(matches!(sent, Some(ClientMessage::PlayerInput(p)) if p == input(1.0, 0.0, false)));
    assert!(moving);
    assert!(client_send_input(&input(-0.0, 0.25, false), &mut moving).is_some());
    assert!(moving);
    let stop = client_send_input(&input(0.0, -0.0, false), &mut moving);
    assert!(matches!(stop, Some(ClientMessage::PlayerInput(_))));
    assert!(!moving);
    assert!(client_send_input(&input(-0.0, 0.0, false), &mut moving).is_none());
    assert!(client_send_input(&input(0.0, 0.0, true), &mut moving).is_some());
    assert!(moving);
    assert_eq!(PlayerInput::default(), input(0.0, 0.0, false));
}
