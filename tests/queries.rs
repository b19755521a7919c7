use permanode_storage::codec::to_bytes;
use permanode_storage::dispatch::{decode_rows, query, query_one, StoreEvent};
use permanode_storage::error::AccessError;
use permanode_storage::ids::{MessageId, OutputId, TransactionId};
use permanode_storage::records::ParentRecord;
use permanode_storage::transaction::{Input, Output, TransactionRecord, UnlockBlock};
use permanode_storage::ids::Ed25519Address;
use permanode_storage::outputs::get_output;
use permanode_storage::wrappers::Record;

fn msg(b: u8) -> MessageId {
    MessageId([b; 32])
}

fn payload<T: permanode_storage::codec::Codec>(rows: &[T]) -> Vec<u8> {
    let mut p = (rows.len() as u32).to_be_bytes().to_vec();
    for r in rows {
        p.extend_from_slice(&to_bytes(r));
    }
    p
}

#[test]
fn response_with_a_row_is_ok() {
    let row = ParentRecord::new(3, msg(1), None);
    let event = StoreEvent::Response { payload: payload(&[row]) };
    assert_eq!(query_one::<ParentRecord>(Some(event)), Ok(row));
}

#[test]
fn response_with_rows_keeps_their_order() {
    let rows = [ParentRecord::new(3, msg(1), None), ParentRecord::new(4, msg(2), None)];
    let event = StoreEvent::Response { payload: payload(&rows) };
    assert_eq!(query::<ParentRecord>(Some(event)), Ok(rows.to_vec()));
}

#[test]
fn error_event_is_worker_error() {
    let event = StoreEvent::Error { kind: "timeout".to_string() };
    assert_eq!(
        query_one::<ParentRecord>(Some(event)),
        Err(AccessError::WorkerError("timeout".to_string()))
    );
}

#[test]
fn closed_channel_is_no_response() {
    assert_eq!(query_one::<ParentRecord>(None), Err(AccessError::NoResponse));
}

#[test]
fn empty_row_set_is_empty_result() {
    let event = StoreEvent::Response { payload: vec![0, 0, 0, 0] };
    assert_eq!(query::<ParentRecord>(Some(event)), Err(AccessError::EmptyResult));
}

#[test]
fn malformed_payload_is_decode_error() {
    let event = StoreEvent::Response { payload: vec![0, 0, 0, 1, 1, 2] };
    assert_eq!(query_one::<ParentRecord>(Some(event)), Err(AccessError::DecodeError));
    let event = StoreEvent::Response { payload: vec![0, 0] };
    assert_eq!(query_one::<ParentRecord>(Some(event)), Err(AccessError::DecodeError));
}

#[test]
fn rows_are_wrapped_in_records() {
    let rows = [ParentRecord::new(3, msg(1), None), ParentRecord::new(4, msg(2), None)];
    let recs = Record::<ParentRecord>::rows_iter(&payload(&rows)).unwrap();
    assert_eq!(recs.len(), 2);
    assert_eq!(*recs[0].inner(), rows[0]);
    assert_eq!(recs.into_iter().nth(1).unwrap().into_inner(), rows[1]);
    assert_eq!(decode_rows::<ParentRecord>(&[0, 0, 0, 0]), Some(vec![]));
    assert!(Record::<ParentRecord>::decode(&to_bytes(&rows[0])).is_some());
}

fn output_id() -> OutputId {
    OutputId::new(TransactionId([8; 32]), 1)
}

fn body() -> Output {
    Output { address: Ed25519Address([5; 32]), amount: 1_000_000 }
}

#[test]
fn output_then_unlock_is_spent() {
    let rows = vec![
        TransactionRecord::output(msg(0xA), body()),
        TransactionRecord::unlock(msg(0xB), UnlockBlock::Reference(0)),
    ];
    let r = get_output(output_id(), rows).unwrap();
    assert_eq!(r.message_id, msg(0xA));
    assert!(r.is_spent);
    assert_eq!(r.output, body());
    assert_eq!(r.transaction_id, TransactionId([8; 32]));
    assert_eq!(r.output_index, 1);
}

#[test]
fn unlock_then_output_is_spent() {
    let rows = vec![
        TransactionRecord::unlock(msg(0xB), UnlockBlock::Reference(0)),
        TransactionRecord::output(msg(0xA), body()),
    ];
    let r = get_output(output_id(), rows).unwrap();
    assert_eq!(r.message_id, msg(0xA));
    assert!(r.is_spent);
    assert_eq!(r.output, body());
}

#[test]
fn output_alone_is_unspent() {
    let rows = vec![
        TransactionRecord::input(msg(0xC), Input { output_id: output_id() }),
        TransactionRecord::output(msg(0xA), body()),
    ];
    let r = get_output(output_id(), rows).unwrap();
    assert!(!r.is_spent);
}

#[test]
fn last_output_row_wins() {
    let other = Output { address: Ed25519Address([6; 32]), amount: 2 };
    let rows = vec![
        TransactionRecord::output(msg(0xA), body()),
        TransactionRecord::output(msg(0xD), other),
    ];
    let r = get_output(output_id(), rows).unwrap();
    assert_eq!(r.message_id, msg(0xD));
    assert_eq!(r.output, other);
}

#[test]
fn inputs_only_is_not_found() {
    let rows = vec![TransactionRecord::input(msg(0xC), Input { output_id: output_id() })];
    assert_eq!(get_output(output_id(), rows), Err(AccessError::NotFound));
}

#[test]
fn no_rows_is_not_found() {
    assert_eq!(get_output(output_id(), vec![]), Err(AccessError::NotFound));
}
