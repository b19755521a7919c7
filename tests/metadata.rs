use permanode_storage::error::AccessError;
use permanode_storage::ids::MessageId;
use permanode_storage::metadata::{
    message_row_to_response, Message, MessageFlags, MessageMetadata, MessageRow, Payload,
};
use permanode_storage::records::LedgerInclusionState;

fn row(payload: Option<Payload>, metadata: Option<MessageMetadata>) -> MessageRow {
    MessageRow {
        id: MessageId([1; 32]),
        message: Some(Message { parents: vec![MessageId([2; 32]), MessageId([3; 32])], payload }),
        metadata,
    }
}

fn md(milestone_index: Option<u32>, solid: bool, milestone: bool, conflict: u8) -> MessageMetadata {
    MessageMetadata { milestone_index, flags: MessageFlags { solid, milestone }, conflict }
}

#[test]
fn referenced_transaction_is_included() {
    let r = message_row_to_response(row(Some(Payload::Transaction), Some(md(Some(100), false, false, 0))))
        .unwrap();
    assert!(r.is_solid);
    assert_eq!(r.referenced_by_milestone_index, Some(100));
    assert_eq!(r.milestone_index, None);
    assert_eq!(r.ledger_inclusion_state, Some(LedgerInclusionState::Included));
    assert_eq!(r.conflict_reason, None);
    assert_eq!(r.should_promote, None);
    assert_eq!(r.should_reattach, None);
    assert_eq!(r.message_id, MessageId([1; 32]));
    assert_eq!(r.parent_message_ids, vec![MessageId([2; 32]), MessageId([3; 32])]);
}

#[test]
fn referenced_conflicting_transaction() {
    let r = message_row_to_response(row(Some(Payload::Transaction), Some(md(Some(100), false, false, 3))))
        .unwrap();
    assert!(r.is_solid);
    assert_eq!(r.ledger_inclusion_state, Some(LedgerInclusionState::Conflicting));
    assert_eq!(r.conflict_reason, Some(3));
}

#[test]
fn referenced_milestone_message() {
    let r = message_row_to_response(row(Some(Payload::Milestone), Some(md(Some(7), true, true, 0))))
        .unwrap();
    assert_eq!(r.milestone_index, Some(7));
    assert_eq!(r.referenced_by_milestone_index, Some(7));
    assert_eq!(r.ledger_inclusion_state, Some(LedgerInclusionState::NoTransaction));
    assert_eq!(r.conflict_reason, None);
}

#[test]
fn referenced_without_payload_has_no_transaction() {
    let r = message_row_to_response(row(None, Some(md(Some(7), false, false, 4)))).unwrap();
    assert_eq!(r.ledger_inclusion_state, Some(LedgerInclusionState::NoTransaction));
    assert_eq!(r.conflict_reason, None);
}

#[test]
fn solid_but_unreferenced() {
    let r = message_row_to_response(row(Some(Payload::Transaction), Some(md(None, true, false, 0))))
        .unwrap();
    assert!(r.is_solid);
    assert_eq!(r.referenced_by_milestone_index, None);
    assert_eq!(r.milestone_index, None);
    assert_eq!(r.ledger_inclusion_state, None);
    assert_eq!(r.conflict_reason, None);
    assert_eq!(r.should_promote, None);
    assert_eq!(r.should_reattach, None);
}

#[test]
fn neither_solid_nor_referenced() {
    let r = message_row_to_response(row(Some(Payload::Indexation), Some(md(None, false, true, 2))))
        .unwrap();
    assert!(!r.is_solid);
    assert_eq!(r.referenced_by_milestone_index, None);
    assert_eq!(r.milestone_index, None);
    assert_eq!(r.ledger_inclusion_state, None);
    assert_eq!(r.conflict_reason, None);
}

#[test]
fn missing_metadata() {
    assert_eq!(message_row_to_response(row(None, None)), Err(AccessError::NoMetadata));
    let no_both = MessageRow { id: MessageId([1; 32]), message: None, metadata: None };
    assert_eq!(message_row_to_response(no_both), Err(AccessError::NoMetadata));
}

#[test]
fn missing_message() {
    let r = MessageRow { id: MessageId([1; 32]), message: None, metadata: Some(md(Some(1), true, false, 0)) };
    assert_eq!(message_row_to_response(r), Err(AccessError::NoMessageData));
}
