use permanode_storage::api::{
    get_ed25519_outputs, get_message_by_index, get_message_children, get_milestone,
    parse_hashed_index, Milestone, MAX_RESULTS,
};
use permanode_storage::error::AccessError;
use permanode_storage::ids::{Ed25519Address, MessageId, OutputId, TransactionId};

#[test]
fn hex_index_is_parsed() {
    let text = "00ff".repeat(16);
    let h = parse_hashed_index(&text).unwrap();
    for (i, b) in h.0.iter().enumerate() {
        assert_eq!(*b, if i % 2 == 0 { 0x00 } else { 0xff });
    }
    let upper = parse_hashed_index(&"AB".repeat(32)).unwrap();
    assert_eq!(upper.0, [0xab; 32]);
}

#[test]
fn bad_hex_index() {
    assert_eq!(parse_hashed_index("abc"), Err(AccessError::InvalidHex));
    assert_eq!(parse_hashed_index(&"zz".repeat(32)), Err(AccessError::InvalidHex));
    assert_eq!(parse_hashed_index("éé"), Err(AccessError::InvalidHex));
}

#[test]
fn short_hex_index() {
    assert_eq!(parse_hashed_index("00ff"), Err(AccessError::InvalidIndexLength));
    assert_eq!(parse_hashed_index(""), Err(AccessError::InvalidIndexLength));
}

#[test]
fn children_are_capped() {
    let children: Vec<MessageId> = (0..1001u32).map(|i| MessageId([(i % 251) as u8; 32])).collect();
    let r = get_message_children(MessageId([9; 32]), children.clone());
    assert_eq!(r.count, 1001);
    assert_eq!(r.max_results, MAX_RESULTS);
    assert_eq!(r.children_message_ids.len(), 1000);
    assert_eq!(r.children_message_ids[..], children[..1000]);
}

#[test]
fn few_results_are_all_listed() {
    let ids = vec![MessageId([1; 32]), MessageId([2; 32])];
    let r = get_message_by_index("ab".to_string(), ids.clone());
    assert_eq!(r.count, 2);
    assert_eq!(r.message_ids, ids);
    assert_eq!(r.index, "ab");
    let outs = vec![OutputId::new(TransactionId([1; 32]), 0)];
    let r = get_ed25519_outputs(Ed25519Address([4; 32]), outs.clone());
    assert_eq!(r.address_type, 1);
    assert_eq!(r.output_ids, outs);
    assert_eq!(r.count, 1);
    let r = get_ed25519_outputs(Ed25519Address([4; 32]), vec![]);
    assert_eq!(r.count, 0);
    assert!(r.output_ids.is_empty());
}

#[test]
fn milestone_lookup() {
    let m = Milestone { message_id: MessageId([3; 32]), timestamp: 1_600_000_000 };
    let r = get_milestone(42, Some(m)).unwrap();
    assert_eq!(r.milestone_index, 42);
    assert_eq!(r.message_id, MessageId([3; 32]));
    assert_eq!(r.timestamp, 1_600_000_000);
    assert_eq!(get_milestone(42, None), Err(AccessError::NotFound));
}
