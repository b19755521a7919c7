//! Fixed-length ledger identifiers.
use vstd::prelude::*;

use crate::codec::Codec;

verus! {

/// Length in bytes of a hashed indexation key.
pub const HASHED_INDEX_LENGTH: usize = 32;

/// Index of a milestone, the ledger's epoch counter.
pub type MilestoneIndex = u32;

#[derive(Clone, Copy, PartialEq, Eq, Debug)]
pub struct MessageId(pub [u8; 32]);

#[derive(Clone, Copy, PartialEq, Eq, Debug)]
pub struct TransactionId(pub [u8; 32]);

#[derive(Clone, Copy, PartialEq, Eq, Debug)]
pub struct Ed25519Address(pub [u8; 32]);

/// The hash of an indexation payload's index.
#[derive(Clone, Copy, PartialEq, Eq, Debug)]
pub struct HashedIndex(pub [u8; 32]);

/// An output: the transaction that created it and its position there.
#[derive(Clone, Copy, PartialEq, Eq, Debug)]
pub struct OutputId {
    pub transaction_id: TransactionId,
    pub index: u16,
}

impl OutputId {
    pub fn new(transaction_id: TransactionId, index: u16) -> (r: OutputId)
        ensures
            r.transaction_id == transaction_id,
            r.index == index,
    {
        OutputId { transaction_id, index }
    }

    pub fn transaction_id(&self) -> (r: TransactionId)
        ensures
            r == self.transaction_id,
    {
        self.transaction_id
    }

    pub fn index(&self) -> (r: u16)
        ensures
            r == self.index,
    {
        self.index
    }
}

impl Codec for MessageId {
    open spec fn valid(self) -> bool {
        true
    }

    open spec fn encoding(self) -> Seq<u8> {
        self.0.encoding()
    }

    open spec fn parse(bytes: Seq<u8>) -> Option<(MessageId, nat)> {
        match <[u8; 32]>::parse(bytes) {
            None => None,
            Some((a, n)) => Some((MessageId(a), n)),
        }
    }

    proof fn lemma_round_trip(self, rest: Seq<u8>) {
        self.0.lemma_round_trip(rest);
    }

    proof fn lemma_parse_valid(bytes: Seq<u8>) {
    }

    fn encode(&self, buffer: &mut Vec<u8>) {
        self.0.encode(buffer);
    }

    fn decode_at(bytes: &[u8], pos: usize) -> (r: Option<(MessageId, usize)>) {
        match <[u8; 32]>::decode_at(bytes, pos) {
            None => None,
            Some((a, p)) => Some((MessageId(a), p)),
        }
    }
}

impl Codec for TransactionId {
    open spec fn valid(self) -> bool {
        true
    }

    open spec fn encoding(self) -> Seq<u8> {
        self.0.encoding()
    }

    open spec fn parse(bytes: Seq<u8>) -> Option<(TransactionId, nat)> {
        match <[u8; 32]>::parse(bytes) {
            None => None,
            Some((a, n)) => Some((TransactionId(a), n)),
        }
    }

    proof fn lemma_round_trip(self, rest: Seq<u8>) {
        self.0.lemma_round_trip(rest);
    }

    proof fn lemma_parse_valid(bytes: Seq<u8>) {
    }

    fn encode(&self, buffer: &mut Vec<u8>) {
        self.0.encode(buffer);
    }

    fn decode_at(bytes: &[u8], pos: usize) -> (r: Option<(TransactionId, usize)>) {
        match <[u8; 32]>::decode_at(bytes, pos) {
            None => None,
            Some((a, p)) => Some((TransactionId(a), p)),
        }
    }
}

impl Codec for Ed25519Address {
    open spec fn valid(self) -> bool {
        true
    }

    open spec fn encoding(self) -> Seq<u8> {
        self.0.encoding()
    }

    open spec fn parse(bytes: Seq<u8>) -> Option<(Ed25519Address, nat)> {
        match <[u8; 32]>::parse(bytes) {
            None => None,
            Some((a, n)) => Some((Ed25519Address(a), n)),
        }
    }

    proof fn lemma_round_trip(self, rest: Seq<u8>) {
        self.0.lemma_round_trip(rest);
    }

    proof fn lemma_parse_valid(bytes: Seq<u8>) {
    }

    fn encode(&self, buffer: &mut Vec<u8>) {
        self.0.encode(buffer);
    }

    fn decode_at(bytes: &[u8], pos: usize) -> (r: Option<(Ed25519Address, usize)>) {
        match <[u8; 32]>::decode_at(bytes, pos) {
            None => None,
            Some((a, p)) => Some((Ed25519Address(a), p)),
        }
    }
}

impl Codec for HashedIndex {
    open spec fn valid(self) -> bool {
        true
    }

    open spec fn encoding(self) -> Seq<u8> {
        self.0.encoding()
    }

    open spec fn parse(bytes: Seq<u8>) -> Option<(HashedIndex, nat)> {
        match <[u8; 32]>::parse(bytes) {
            None => None,
            Some((a, n)) => Some((HashedIndex(a), n)),
        }
    }

    proof fn lemma_round_trip(self, rest: Seq<u8>) {
        self.0.lemma_round_trip(rest);
    }

    proof fn lemma_parse_valid(bytes: Seq<u8>) {
    }

    fn encode(&self, buffer: &mut Vec<u8>) {
        self.0.encode(buffer);
    }

    fn decode_at(bytes: &[u8], pos: usize) -> (r: Option<(HashedIndex, usize)>) {
        match <[u8; 32]>::decode_at(bytes, pos) {
            None => None,
            Some((a, p)) => Some((HashedIndex(a), p)),
        }
    }
}

/// An output id is its transaction id followed by its big-endian index.
impl Codec for OutputId {
    open spec fn valid(self) -> bool {
        true
    }

    open spec fn encoding(self) -> Seq<u8> {
        (self.transaction_id, self.index).encoding()
    }

    open spec fn parse(bytes: Seq<u8>) -> Option<(OutputId, nat)> {
        match <(TransactionId, u16)>::parse(bytes) {
            None => None,
            Some((t, n)) => Some((OutputId { transaction_id: t.0, index: t.1 }, n)),
        }
    }

    proof fn lemma_round_trip(self, rest: Seq<u8>) {
        (self.transaction_id, self.index).lemma_round_trip(rest);
    }

    proof fn lemma_parse_valid(bytes: Seq<u8>) {
    }

    fn encode(&self, buffer: &mut Vec<u8>) {
        (self.transaction_id, self.index).encode(buffer);
    }

    fn decode_at(bytes: &[u8], pos: usize) -> (r: Option<(OutputId, usize)>) {
        match <(TransactionId, u16)>::decode_at(bytes, pos) {
            None => None,
            Some((t, p)) => Some((OutputId { transaction_id: t.0, index: t.1 }, p)),
        }
    }
}

} // verus!
