use permanode_storage::codec::{from_bytes, to_bytes};
use permanode_storage::error::AccessError;
use permanode_storage::ids::{Ed25519Address, HashedIndex, MessageId, OutputId, TransactionId};
use permanode_storage::records::{AddressRecord, HashedIndexRecord, LedgerInclusionState, ParentRecord};
use permanode_storage::transaction::{
    Input, Output, TransactionRecord, TransactionVariant, UnlockBlock,
};
use permanode_storage::wrappers::{
    partition_id_of, Hint, HintVariant, Partition, Partitioned, MAX_TTL, TTL,
};

fn msg(b: u8) -> MessageId {
    MessageId([b; 32])
}

fn tx(b: u8) -> TransactionId {
    TransactionId([b; 32])
}

#[test]
fn u32_is_big_endian() {
    assert_eq!(to_bytes(&0x0102_0304u32), vec![1, 2, 3, 4]);
    assert_eq!(to_bytes(&0x0102u16), vec![1, 2]);
    assert_eq!(to_bytes(&0x0102_0304_0506_0708u64), vec![1, 2, 3, 4, 5, 6, 7, 8]);
    assert_eq!(from_bytes::<u32>(&[0, 0, 1, 0, 99]), Some(256));
    assert_eq!(from_bytes::<u32>(&[0, 0, 1]), None);
}

#[test]
fn address_record_round_trip() {
    let r = AddressRecord::new(
        u32::MAX,
        tx(7),
        3,
        u64::MAX,
        1,
        Some(LedgerInclusionState::Conflicting),
    );
    let bytes = to_bytes(&r);
    assert_eq!(bytes.len(), 4 + 32 + 2 + 8 + 1 + 2);
    assert_eq!(from_bytes::<AddressRecord>(&bytes), Some(r));
    let r2 = AddressRecord::from((0, tx(0), 0, 0, 0, None));
    assert_eq!(from_bytes::<AddressRecord>(&to_bytes(&r2)), Some(r2));
}

#[test]
fn decode_ignores_trailing_bytes() {
    let r = ParentRecord::new(100, msg(1), Some(LedgerInclusionState::Included));
    let mut bytes = to_bytes(&r);
    bytes.extend_from_slice(&[9, 9, 9]);
    assert_eq!(from_bytes::<ParentRecord>(&bytes), Some(r));
}

#[test]
fn index_records_round_trip() {
    let h = HashedIndexRecord::new(5, msg(2), None);
    assert_eq!(from_bytes::<HashedIndexRecord>(&to_bytes(&h)), Some(h));
    let p = ParentRecord::new(6, msg(3), Some(LedgerInclusionState::NoTransaction));
    assert_eq!(from_bytes::<ParentRecord>(&to_bytes(&p)), Some(p));
}

#[test]
fn truncated_record_does_not_decode() {
    let h = HashedIndexRecord::new(5, msg(2), Some(LedgerInclusionState::Included));
    let bytes = to_bytes(&h);
    assert_eq!(from_bytes::<HashedIndexRecord>(&bytes[..bytes.len() - 1]), None);
}

#[test]
fn transaction_records_round_trip() {
    let output_id = OutputId::new(tx(4), 2);
    let rows = vec![
        TransactionRecord::input(msg(1), Input { output_id }),
        TransactionRecord::output(msg(2), Output { address: Ed25519Address([5; 32]), amount: 42 }),
        TransactionRecord::unlock(
            msg(3),
            UnlockBlock::Signature { public_key: [6; 32], signature: [7; 64] },
        ),
        TransactionRecord::unlock(msg(4), UnlockBlock::Reference(0)),
    ];
    for row in rows {
        assert_eq!(from_bytes::<TransactionRecord>(&to_bytes(&row)), Some(row));
    }
}

#[test]
fn unlock_record_is_tagged_unlock() {
    let row = TransactionRecord::unlock(msg(3), UnlockBlock::Reference(1));
    assert_eq!(row.variant, TransactionVariant::Unlock);
    let bytes = to_bytes(&row);
    assert_eq!(&bytes[..10], &[0, 0, 0, 6, b'u', b'n', b'l', b'o', b'c', b'k']);
}

#[test]
fn variant_encoding_is_length_prefixed_text() {
    let mut buffer = Vec::new();
    TransactionVariant::Input.encode(&mut buffer);
    assert_eq!(buffer, vec![0, 0, 0, 5, b'i', b'n', b'p', b'u', b't']);
    let mut buffer = Vec::new();
    TransactionVariant::Output.encode(&mut buffer);
    assert_eq!(buffer, vec![0, 0, 0, 6, b'o', b'u', b't', b'p', b'u', b't']);
}

#[test]
fn variant_round_trip() {
    for v in [TransactionVariant::Input, TransactionVariant::Output, TransactionVariant::Unlock] {
        let mut buffer = Vec::new();
        v.encode(&mut buffer);
        assert_eq!(TransactionVariant::decode(&buffer), Ok(v));
    }
}

#[test]
fn unknown_variant_is_malformed() {
    assert_eq!(
        TransactionVariant::decode(&[0, 0, 0, 5, b's', b'p', b'e', b'n', b't']),
        Err(AccessError::MalformedVariant)
    );
    assert_eq!(TransactionVariant::decode(&[0, 0, 0, 0]), Err(AccessError::MalformedVariant));
    assert_eq!(
        TransactionVariant::decode(&[0, 0, 0, 2, 0xff, 0xfe]),
        Err(AccessError::MalformedVariant)
    );
}

#[test]
fn cut_variant_is_decode_error() {
    assert_eq!(TransactionVariant::decode(&[0, 0, 0]), Err(AccessError::DecodeError));
    assert_eq!(
        TransactionVariant::decode(&[0, 0, 0, 6, b'o', b'u']),
        Err(AccessError::DecodeError)
    );
    assert_eq!(TransactionVariant::decode(&[0xff, 0, 0, 0]), Err(AccessError::DecodeError));
}

#[test]
fn ttl_at_bound_is_kept() {
    let t = TTL::new(7u32, MAX_TTL);
    assert_eq!(t.ttl(), MAX_TTL);
    assert_eq!(MAX_TTL, 630_720_000);
    let t0 = TTL::new(7u32, 0);
    assert_eq!(t0.ttl(), 0);
}

#[test]
fn ttl_over_bound_is_clamped() {
    let t = TTL::new(7u32, MAX_TTL + 1);
    assert_eq!(t.ttl(), MAX_TTL);
    let t = TTL::new(7u32, u32::MAX);
    assert_eq!(t.ttl(), MAX_TTL);
}

#[test]
fn ttl_round_trip_at_bounds() {
    let row = ParentRecord::new(1, msg(1), None);
    for ttl in [0, MAX_TTL] {
        let t = TTL::new(row, ttl);
        let back = from_bytes::<TTL<ParentRecord>>(&to_bytes(&t)).unwrap();
        assert_eq!(back.ttl(), ttl);
        assert_eq!(back.into_inner(), row);
    }
}

#[test]
fn stored_ttl_over_bound_does_not_decode() {
    let mut bytes = to_bytes(&5u32);
    bytes.extend_from_slice(&(MAX_TTL + 1).to_be_bytes());
    assert!(from_bytes::<TTL<u32>>(&bytes).is_none());
}

#[test]
fn partition_round_trip() {
    let p = Partition::new(12, 345);
    let back = from_bytes::<Partition>(&to_bytes(&p)).unwrap();
    assert_eq!(*back.id(), 12);
    assert_eq!(*back.milestone_index(), 345);
    assert_eq!(back, p);
    assert_eq!(to_bytes(&p), vec![0, 12, 0, 0, 1, 89]);
}

#[test]
fn partitioned_round_trip() {
    let v = Partitioned::new(msg(9), 513);
    let bytes = to_bytes(&v);
    assert_eq!(&bytes[32..], &[2, 1]);
    let back = from_bytes::<Partitioned<MessageId>>(&bytes).unwrap();
    assert_eq!(back.partition_id(), 513);
    assert_eq!(back.into_inner(), msg(9));
}

#[test]
fn partition_id_is_deterministic() {
    let key = [1u8, 2];
    // (1 * 31 + 2) % 10
    assert_eq!(partition_id_of(&key, 10), 3);
    let address = Ed25519Address([200; 32]);
    let a = partition_id_of(address.as_bytes(), 256);
    let b = partition_id_of(&Ed25519Address([200; 32]).0, 256);
    assert_eq!(a, b);
    assert!(a < 256);
    let tagged = Partitioned::for_key(address, address.as_bytes(), 256);
    assert_eq!(tagged.partition_id(), a);
    assert_eq!(partition_id_of(&[], 7), 0);
}

#[test]
fn hints_round_trip() {
    let a = Hint::new(Ed25519Address([1; 32]));
    let bytes = to_bytes(&a);
    assert_eq!(&bytes[..11], &[0, 0, 0, 7, b'a', b'd', b'd', b'r', b'e', b's', b's']);
    let back = from_bytes::<Hint<Ed25519Address>>(&bytes).unwrap();
    assert_eq!(*back.get_inner(), Ed25519Address([1; 32]));
    let p = Hint::new(msg(2));
    assert_eq!(*from_bytes::<Hint<MessageId>>(&to_bytes(&p)).unwrap().get_inner(), msg(2));
    let i = Hint::new(HashedIndex([3; 32]));
    assert_eq!(
        *from_bytes::<Hint<HashedIndex>>(&to_bytes(&i)).unwrap().get_inner(),
        HashedIndex([3; 32])
    );
}

#[test]
fn hint_of_other_category_does_not_decode() {
    let p = Hint::new(msg(2));
    assert!(from_bytes::<Hint<HashedIndex>>(&to_bytes(&p)).is_none());
}

#[test]
fn hint_variants() {
    assert_eq!(Ed25519Address::variant(), "address");
    assert_eq!(MessageId::variant(), "parent");
    assert_eq!(HashedIndex::variant(), "index");
    assert_eq!(msg(4).as_bytes(), &[4u8; 32][..]);
}
