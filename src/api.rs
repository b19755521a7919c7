//! What the lookups by message, index, address and milestone answer, once
//! their rows are fetched.
use vstd::prelude::*;

use crate::codec::read_array;
use crate::error::AccessError;
use crate::ids::{
    Ed25519Address, HashedIndex, MessageId, MilestoneIndex, OutputId, HASHED_INDEX_LENGTH,
};

verus! {

/// Most ids that one answer lists; `count` still gives the total.
pub const MAX_RESULTS: usize = 1000;

/// The value of a hexadecimal digit, in either case.
pub open spec fn hex_digit(c: char) -> Option<u8> {
    let x = c as u32;
    if 48 <= x <= 57 {
        Some((x - 48) as u8)
    } else if 97 <= x <= 102 {
        Some((x - 87) as u8)
    } else if 65 <= x <= 70 {
        Some((x - 55) as u8)
    } else {
        None
    }
}

/// An even number of hexadecimal digits.
pub open spec fn is_hex(s: Seq<char>) -> bool {
    s.len() % 2 == 0 && forall|i: int| 0 <= i < s.len() ==> (#[trigger] hex_digit(s[i])) is Some
}

/// The bytes that pairs of digits stand for, high digit first.
pub open spec fn hex_bytes(s: Seq<char>) -> Seq<u8> {
    Seq::new(
        s.len() / 2,
        |i: int| (hex_digit(s[2 * i])->0 * 16 + hex_digit(s[2 * i + 1])->0) as u8,
    )
}

/// Relies on hex::decode: an even number of hexadecimal digits of either case
/// gives one byte per pair, high digit first; any other text is an error.
#[verifier::external_body]
fn hex_decode(s: &str) -> (r: Option<Vec<u8>>)
    ensures
        r is Some <==> is_hex(s@),
        r matches Some(b) ==> b@ == hex_bytes(s@),
{
    hex::decode(s).ok()
}

/// Reads a hashed index written as hexadecimal text.
pub fn parse_hashed_index(index: &str) -> (r: Result<HashedIndex, AccessError>)
    ensures
        !is_hex(index@) ==> r == Err::<HashedIndex, AccessError>(AccessError::InvalidHex),
        is_hex(index@) && hex_bytes(index@).len() != HASHED_INDEX_LENGTH ==> r == Err::<
            HashedIndex,
            AccessError,
        >(AccessError::InvalidIndexLength),
        is_hex(index@) && hex_bytes(index@).len() == HASHED_INDEX_LENGTH ==> (r matches Ok(
            h,
        ) && h.0@ == hex_bytes(index@)),
{
    match hex_decode(index) {
        None => Err(AccessError::InvalidHex),
        Some(bytes) => {
            if bytes.len() != HASHED_INDEX_LENGTH {
                Err(AccessError::InvalidIndexLength)
            } else {
                let a: [u8; 32] = read_array::<32>(bytes.as_slice(), 0);
                assert(bytes@.subrange(0, 32) =~= bytes@);
                Ok(HashedIndex(a))
            }
        },
    }
}

/// How many of `n` results one answer lists.
pub open spec fn listed(n: nat) -> int {
    if n < MAX_RESULTS {
        n as int
    } else {
        MAX_RESULTS as int
    }
}

/// The first `MAX_RESULTS` of `rows`.
pub fn first_results<T: Copy>(rows: &Vec<T>) -> (r: Vec<T>)
    ensures
        r@ == rows@.take(listed(rows@.len())),
{
    let n = if rows.len() < MAX_RESULTS {
        rows.len()
    } else {
        MAX_RESULTS
    };
    let mut out: Vec<T> = Vec::new();
    let mut i: usize = 0;
    while i < n
        invariant
            n == listed(rows@.len()),
            n <= rows@.len(),
            i <= n,
            out@ == rows@.take(i as int),
        decreases n - i,
    {
        out.push(rows[i]);
        i += 1;
        assert(out@ =~= rows@.take(i as int));
    }
    out
}

#[derive(Clone, PartialEq, Eq, Debug)]
pub struct MessageChildrenResponse {
    pub message_id: MessageId,
    pub max_results: usize,
    pub count: usize,
    pub children_message_ids: Vec<MessageId>,
}

/// The children of a message: their number, and the first `MAX_RESULTS`.
pub fn get_message_children(message_id: MessageId, children: Vec<MessageId>) -> (r:
    MessageChildrenResponse)
    ensures
        r.message_id == message_id,
        r.max_results == MAX_RESULTS,
        r.count == children@.len(),
        r.children_message_ids@ == children@.take(listed(children@.len())),
{
    let listed = first_results(&children);
    MessageChildrenResponse {
        message_id,
        max_results: MAX_RESULTS,
        count: children.len(),
        children_message_ids: listed,
    }
}

#[derive(Clone, PartialEq, Eq, Debug)]
pub struct MessagesForIndexResponse {
    pub index: String,
    pub max_results: usize,
    pub count: usize,
    pub message_ids: Vec<MessageId>,
}

/// The messages filed under an index: their number, and the first
/// `MAX_RESULTS`.
pub fn get_message_by_index(index: String, messages: Vec<MessageId>) -> (r:
    MessagesForIndexResponse)
    ensures
        r.index == index,
        r.max_results == MAX_RESULTS,
        r.count == messages@.len(),
        r.message_ids@ == messages@.take(listed(messages@.len())),
{
    let listed = first_results(&messages);
    MessagesForIndexResponse {
        index,
        max_results: MAX_RESULTS,
        count: messages.len(),
        message_ids: listed,
    }
}

/// The kind of address that the ledger numbers 1: Ed25519.
pub const ED25519_ADDRESS_TYPE: u8 = 1;

#[derive(Clone, PartialEq, Eq, Debug)]
pub struct OutputsForAddressResponse {
    pub address_type: u8,
    pub address: Ed25519Address,
    pub max_results: usize,
    pub count: usize,
    pub output_ids: Vec<OutputId>,
}

/// The outputs held by an Ed25519 address: their number, and the first
/// `MAX_RESULTS`.
pub fn get_ed25519_outputs(address: Ed25519Address, outputs: Vec<OutputId>) -> (r:
    OutputsForAddressResponse)
    ensures
        r.address_type == ED25519_ADDRESS_TYPE,
        r.address == address,
        r.max_results == MAX_RESULTS,
        r.count == outputs@.len(),
        r.output_ids@ == outputs@.take(listed(outputs@.len())),
{
    let listed = first_results(&outputs);
    OutputsForAddressResponse {
        address_type: ED25519_ADDRESS_TYPE,
        address,
        max_results: MAX_RESULTS,
        count: outputs.len(),
        output_ids: listed,
    }
}

/// A stored milestone: the message that issued it and its timestamp.
#[derive(Clone, Copy, PartialEq, Eq, Debug)]
pub struct Milestone {
    pub message_id: MessageId,
    pub timestamp: u64,
}

#[derive(Clone, Copy, PartialEq, Eq, Debug)]
pub struct MilestoneResponse {
    pub milestone_index: MilestoneIndex,
    pub message_id: MessageId,
    pub timestamp: u64,
}

/// The milestone at `index`, if the store holds one.
pub fn get_milestone(index: MilestoneIndex, milestone: Option<Milestone>) -> (r: Result<
    MilestoneResponse,
    AccessError,
>)
    ensures
        r == match milestone {
            None => Err(AccessError::NotFound),
            Some(m) => Ok(
                MilestoneResponse {
                    milestone_index: index,
                    message_id: m.message_id,
                    timestamp: m.timestamp,
                },
            ),
        },
{
    match milestone {
        None => Err(AccessError::NotFound),
        Some(m) => Ok(
            MilestoneResponse {
                milestone_index: index,
                message_id: m.message_id,
                timestamp: m.timestamp,
            },
        ),
    }
}

} // verus!
