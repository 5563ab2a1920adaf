use phala_core::types::{Message, MessageOrigin, Topic};

const RESERVED: &[u8] = b"~!@#$%&*_+-=|<>?,./;:'";

#[test]
fn empty_topic_is_invalid() {
    let t = Topic::new(Vec::new());
    assert!(!t.is_valid());
    assert!(!t.is_offchain());
}

#[test]
fn every_reserved_first_byte_is_invalid() {
    for &b in RESERVED {
        let t = Topic::new(vec![b, b'x']);
        assert!(!t.is_valid(), "byte {} should be reserved", b as char);
        assert!(!t.is_offchain());
    }
}

#[test]
fn normal_topic_is_valid_and_offchain() {
    let t = Topic::new(b"topic path".to_vec());
    assert!(t.is_valid());
    assert!(t.is_offchain());
}

#[test]
fn caret_topic_is_valid_but_onchain_only() {
    let t = Topic::new(b"^topic path".to_vec());
    assert!(t.is_valid());
    assert!(!t.is_offchain());
}

#[test]
fn reserved_byte_after_first_is_fine() {
    let t = Topic::new(b"a/b.c".to_vec());
    assert!(t.is_valid());
    assert!(t.is_offchain());
}

#[test]
fn topic_path_round_trip() {
    let t = Topic::new(b"phala/lottery/event".to_vec());
    assert_eq!(t.path().as_slice(), b"phala/lottery/event");
}

#[test]
fn origin_classification() {
    assert!(MessageOrigin::Contract(vec![0; 32]).is_offchain());
    assert!(MessageOrigin::Worker(vec![0; 33]).is_offchain());
    assert!(!MessageOrigin::Pallet(b"PhalaMq".to_vec()).is_offchain());
    assert!(!MessageOrigin::AccountId(vec![1; 32]).is_offchain());
    assert!(!MessageOrigin::MultiLocation(vec![]).is_offchain());
    assert!(!MessageOrigin::Gatekeeper.is_offchain());
    assert!(MessageOrigin::Pallet(b"PhalaMq".to_vec()).is_pallet());
    assert!(!MessageOrigin::Gatekeeper.is_pallet());
}

#[test]
fn native_contract_id_layout() {
    let o = MessageOrigin::native_contract(0x01020304);
    match o {
        MessageOrigin::Contract(bytes) => {
            assert_eq!(bytes.len(), 32);
            assert_eq!(&bytes[..28], &[0u8; 28]);
            assert_eq!(&bytes[28..], &[1, 2, 3, 4]);
        }
        _ => panic!("expected a contract origin"),
    }
}

#[test]
fn origin_equality_is_structural() {
    let a = MessageOrigin::AccountId(vec![7; 32]);
    let b = MessageOrigin::AccountId(vec![7; 32]);
    let c = MessageOrigin::AccountId(vec![8; 32]);
    let d = MessageOrigin::Contract(vec![7; 32]);
    assert!(a.origin_eq(&b));
    assert!(!a.origin_eq(&c));
    assert!(!a.origin_eq(&d));
    assert!(MessageOrigin::Gatekeeper.origin_eq(&MessageOrigin::Gatekeeper));
}

#[test]
fn message_construction_keeps_parts() {
    let m = Message::new(MessageOrigin::Gatekeeper, b"topic".to_vec(), b"payload".to_vec());
    assert!(m.destination.is_valid());
    assert_eq!(m.payload.as_slice(), b"payload");
}
