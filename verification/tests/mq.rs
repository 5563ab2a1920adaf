use phala_core::mq::{IngressState, MessageQueue, MqError, OutboundQueue};
use phala_core::types::{Message, MessageOrigin, SignedMessage};

use sp_core::Pair;

fn worker_pair() -> (sp_core::ecdsa::Pair, Vec<u8>) {
    let pair = sp_core::ecdsa::Pair::from_seed(&[7u8; 32]);
    let public: Vec<u8> = pair.public().0.to_vec();
    assert_eq!(public.len(), 33);
    (pair, public)
}

fn signed_from_worker(
    pair: &sp_core::ecdsa::Pair,
    public: &[u8],
    destination: &[u8],
    payload: &[u8],
    sequence: u64,
) -> SignedMessage {
    let message = Message::new(
        MessageOrigin::Worker(public.to_vec()),
        destination.to_vec(),
        payload.to_vec(),
    );
    let mut signed = SignedMessage { message, sequence, signature: Vec::new() };
    let digest = signed.data_be_signed();
    let sig: Vec<u8> = pair.sign(&digest).0.to_vec();
    assert_eq!(sig.len(), 65);
    signed.signature = sig;
    signed
}

#[test]
fn canonical_signing_encoding_is_exact() {
    let message = Message::new(MessageOrigin::Gatekeeper, b"t".to_vec(), b"p".to_vec());
    let signed = SignedMessage { message, sequence: 1, signature: b"junk".to_vec() };
    let expected: Vec<u8> = vec![
        5, // gatekeeper tag
        1, 0, 0, 0, 0, 0, 0, 0, b't', // destination, length prefixed
        1, 0, 0, 0, 0, 0, 0, 0, b'p', // payload, length prefixed
        1, 0, 0, 0, 0, 0, 0, 0, // sequence
    ];
    assert_eq!(signed.data_be_signed(), expected);
}

#[test]
fn signature_is_not_covered_by_the_digest() {
    let m1 = Message::new(MessageOrigin::Gatekeeper, b"t".to_vec(), b"p".to_vec());
    let m2 = Message::new(MessageOrigin::Gatekeeper, b"t".to_vec(), b"p".to_vec());
    let a = SignedMessage { message: m1, sequence: 9, signature: vec![1, 2, 3] };
    let b = SignedMessage { message: m2, sequence: 9, signature: vec![9, 9, 9, 9] };
    assert_eq!(a.data_be_signed(), b.data_be_signed());
}

#[test]
fn origin_encoding_distinguishes_variants() {
    let a = MessageOrigin::Contract(vec![1; 32]).encoded();
    let b = MessageOrigin::AccountId(vec![1; 32]).encoded();
    assert_ne!(a, b);
}

#[test]
fn sequencer_admits_in_strict_order() {
    let (pair, public) = worker_pair();
    let mut state = IngressState::new();
    for seq in 0u64..3 {
        let signed = signed_from_worker(&pair, &public, b"topic", b"payload", seq);
        assert_eq!(state.accept(&signed), Ok(()));
    }
    let sender = MessageOrigin::Worker(public.clone());
    assert_eq!(state.get_expected_sequence(&sender), 3);
}

#[test]
fn replay_and_gap_are_rejected_without_moving_the_counter() {
    let (pair, public) = worker_pair();
    let mut state = IngressState::new();
    let first = signed_from_worker(&pair, &public, b"topic", b"payload", 0);
    assert_eq!(state.accept(&first), Ok(()));

    let sender = MessageOrigin::Worker(public.clone());
    // replay of sequence 0
    assert_eq!(state.accept(&first), Err(MqError::BadSequence));
    assert_eq!(state.get_expected_sequence(&sender), 1);
    // gap: sequence 2 while 1 is expected
    let gap = signed_from_worker(&pair, &public, b"topic", b"payload", 2);
    assert_eq!(state.accept(&gap), Err(MqError::BadSequence));
    assert_eq!(state.get_expected_sequence(&sender), 1);
}

#[test]
fn bad_sender_and_bad_destination_are_rejected_first() {
    let mut state = IngressState::new();
    let onchain = SignedMessage {
        message: Message::new(
            MessageOrigin::Pallet(b"PhalaMq".to_vec()),
            b"topic".to_vec(),
            b"p".to_vec(),
        ),
        sequence: 0,
        signature: Vec::new(),
    };
    assert_eq!(state.accept(&onchain), Err(MqError::BadSender));

    let (pair, public) = worker_pair();
    let bad_dest = signed_from_worker(&pair, &public, b"~reserved", b"p", 0);
    assert_eq!(state.accept(&bad_dest), Err(MqError::BadDestination));
    let sender = MessageOrigin::Worker(public);
    assert_eq!(state.get_expected_sequence(&sender), 0);
}

#[test]
fn tampered_signature_is_rejected() {
    let (pair, public) = worker_pair();
    let mut state = IngressState::new();
    let mut signed = signed_from_worker(&pair, &public, b"topic", b"payload", 0);
    signed.signature[0] ^= 0xff;
    assert_eq!(state.accept(&signed), Err(MqError::BadSignature));
    let sender = MessageOrigin::Worker(public);
    assert_eq!(state.get_expected_sequence(&sender), 0);
}

#[test]
fn tampered_payload_is_rejected() {
    let (pair, public) = worker_pair();
    let mut state = IngressState::new();
    let mut signed = signed_from_worker(&pair, &public, b"topic", b"payload", 0);
    signed.message.payload[0] ^= 1;
    assert_eq!(state.accept(&signed), Err(MqError::BadSignature));
}

#[test]
fn dispatch_emits_only_offchain_visible_events() {
    let mut q = OutboundQueue::new();
    q.dispatch_message(Message::new(
        MessageOrigin::Gatekeeper,
        b"visible".to_vec(),
        b"1".to_vec(),
    ));
    q.dispatch_message(Message::new(
        MessageOrigin::Gatekeeper,
        b"^onchain only".to_vec(),
        b"2".to_vec(),
    ));
    q.dispatch_message(Message::new(
        MessageOrigin::Gatekeeper,
        b"~invalid".to_vec(),
        b"3".to_vec(),
    ));
    assert_eq!(q.event_count(), 1);
    assert_eq!(q.event_at(0).payload.as_slice(), b"1");
}

#[test]
fn queued_messages_flush_on_block_initialization() {
    let mut q = OutboundQueue::new();
    q.enqueue(Message::new(MessageOrigin::Gatekeeper, b"a".to_vec(), b"1".to_vec()));
    q.enqueue(Message::new(MessageOrigin::Gatekeeper, b"^b".to_vec(), b"2".to_vec()));
    q.enqueue(Message::new(MessageOrigin::Gatekeeper, b"c".to_vec(), b"3".to_vec()));
    assert_eq!(q.queued_count(), 3);
    assert_eq!(q.event_count(), 0);
    q.on_initialize();
    assert_eq!(q.queued_count(), 0);
    assert_eq!(q.event_count(), 2);
    assert_eq!(q.event_at(0).payload.as_slice(), b"1");
    assert_eq!(q.event_at(1).payload.as_slice(), b"3");
}

#[test]
fn sync_offchain_message_admits_and_dispatches() {
    let (pair, public) = worker_pair();
    let mut mq = MessageQueue::new();
    let signed = signed_from_worker(&pair, &public, b"topic", b"payload", 0);
    assert_eq!(mq.sync_offchain_message(&signed), Ok(()));
    assert_eq!(mq.outbound.event_count(), 1);
    assert_eq!(mq.outbound.event_at(0).payload.as_slice(), b"payload");
    // the same message replayed is refused and emits nothing
    assert_eq!(mq.sync_offchain_message(&signed), Err(MqError::BadSequence));
    assert_eq!(mq.outbound.event_count(), 1);
}

#[test]
fn transport_encoding_round_trips() {
    let message = Message::new(
        MessageOrigin::Worker(vec![2; 33]),
        b"some/topic".to_vec(),
        b"payload bytes".to_vec(),
    );
    let signed = SignedMessage { message, sequence: 42, signature: vec![9; 65] };
    let bytes = signed.encoded();
    let back = SignedMessage::decode(&bytes).expect("a fresh encoding must decode");
    assert_eq!(back.sequence, 42);
    assert_eq!(back.signature, vec![9; 65]);
    assert_eq!(back.message.destination.path().as_slice(), b"some/topic");
    assert_eq!(back.message.payload.as_slice(), b"payload bytes");
    assert!(back.message.sender.origin_eq(&MessageOrigin::Worker(vec![2; 33])));
}

#[test]
fn gatekeeper_transport_round_trips() {
    let message = Message::new(MessageOrigin::Gatekeeper, b"t".to_vec(), Vec::new());
    let signed = SignedMessage { message, sequence: 0, signature: Vec::new() };
    let back = SignedMessage::decode(&signed.encoded()).expect("decodes");
    assert!(back.message.sender.origin_eq(&MessageOrigin::Gatekeeper));
    assert_eq!(back.sequence, 0);
    assert!(back.signature.is_empty());
}

#[test]
fn damaged_transport_records_are_rejected() {
    let message = Message::new(MessageOrigin::Gatekeeper, b"t".to_vec(), b"p".to_vec());
    let signed = SignedMessage { message, sequence: 3, signature: vec![1, 2] };
    let bytes = signed.encoded();
    assert!(SignedMessage::decode(&Vec::new()).is_none());
    let mut truncated = bytes.clone();
    truncated.pop();
    assert!(SignedMessage::decode(&truncated).is_none());
    let mut padded = bytes.clone();
    padded.push(0);
    assert!(SignedMessage::decode(&padded).is_none());
    let mut bad_tag = bytes.clone();
    bad_tag[0] = 200;
    assert!(SignedMessage::decode(&bad_tag).is_none());
}
