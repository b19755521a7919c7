//! Rows of the secondary indexes.
use vstd::prelude::*;

use crate::codec::Codec;
use crate::ids::{MessageId, MilestoneIndex, TransactionId};

verus! {

/// Whether a transaction's effects were accepted by the ledger.
#[derive(Clone, Copy, PartialEq, Eq, Debug)]
pub enum LedgerInclusionState {
    Included,
    Conflicting,
    NoTransaction,
}

/// Stored as one byte: zero included, one conflicting, two no transaction.
impl Codec for LedgerInclusionState {
    open spec fn valid(self) -> bool {
        true
    }

    open spec fn encoding(self) -> Seq<u8> {
        match self {
            LedgerInclusionState::Included => seq![0u8],
            LedgerInclusionState::Conflicting => seq![1u8],
            LedgerInclusionState::NoTransaction => seq![2u8],
        }
    }

    open spec fn parse(bytes: Seq<u8>) -> Option<(LedgerInclusionState, nat)> {
        if bytes.len() < 1 {
            None
        } else if bytes[0] == 0 {
            Some((LedgerInclusionState::Included, 1))
        } else if bytes[0] == 1 {
            Some((LedgerInclusionState::Conflicting, 1))
        } else if bytes[0] == 2 {
            Some((LedgerInclusionState::NoTransaction, 1))
        } else {
            None
        }
    }

    proof fn lemma_round_trip(self, rest: Seq<u8>) {
    }

    proof fn lemma_parse_valid(bytes: Seq<u8>) {
    }

    fn encode(&self, buffer: &mut Vec<u8>) {
        let b: u8 = match self {
            LedgerInclusionState::Included => 0,
            LedgerInclusionState::Conflicting => 1,
            LedgerInclusionState::NoTransaction => 2,
        };
        buffer.push(b);
        assert(buffer@ =~= old(buffer)@ + self.encoding());
    }

    fn decode_at(bytes: &[u8], pos: usize) -> (r: Option<(LedgerInclusionState, usize)>) {
        if bytes.len() - pos < 1 {
            None
        } else if bytes[pos] == 0 {
            Some((LedgerInclusionState::Included, pos + 1))
        } else if bytes[pos] == 1 {
            Some((LedgerInclusionState::Conflicting, pos + 1))
        } else if bytes[pos] == 2 {
            Some((LedgerInclusionState::NoTransaction, pos + 1))
        } else {
            None
        }
    }
}

/// One ledger movement against an address.
#[derive(Clone, Copy, PartialEq, Eq, Debug)]
pub struct AddressRecord {
    pub milestone_index: MilestoneIndex,
    pub transaction_id: TransactionId,
    pub index: u16,
    pub amount: u64,
    pub address_type: u8,
    pub ledger_inclusion_state: Option<LedgerInclusionState>,
}

pub type AddressFields = (
    MilestoneIndex,
    (TransactionId, (u16, (u64, (u8, Option<LedgerInclusionState>)))),
);

impl AddressRecord {
    pub fn new(
        milestone_index: MilestoneIndex,
        transaction_id: TransactionId,
        index: u16,
        amount: u64,
        address_type: u8,
        ledger_inclusion_state: Option<LedgerInclusionState>,
    ) -> (r: AddressRecord)
        ensures
            r == (AddressRecord {
                milestone_index,
                transaction_id,
                index,
                amount,
                address_type,
                ledger_inclusion_state,
            }),
    {
        AddressRecord {
            milestone_index,
            transaction_id,
            index,
            amount,
            address_type,
            ledger_inclusion_state,
        }
    }

    pub open spec fn fields(self) -> AddressFields {
        (
            self.milestone_index,
            (
                self.transaction_id,
                (self.index, (self.amount, (self.address_type, self.ledger_inclusion_state))),
            ),
        )
    }

    pub open spec fn from_fields(f: AddressFields) -> AddressRecord {
        AddressRecord {
            milestone_index: f.0,
            transaction_id: f.1.0,
            index: f.1.1.0,
            amount: f.1.1.1.0,
            address_type: f.1.1.1.1.0,
            ledger_inclusion_state: f.1.1.1.1.1,
        }
    }

    fn to_fields(&self) -> (r: AddressFields)
        ensures
            r == self.fields(),
    {
        (
            self.milestone_index,
            (
                self.transaction_id,
                (self.index, (self.amount, (self.address_type, self.ledger_inclusion_state))),
            ),
        )
    }
}

pub type AddressColumns = (
    MilestoneIndex,
    TransactionId,
    u16,
    u64,
    u8,
    Option<LedgerInclusionState>,
);

/// Builds a record from its columns in declaration order.
impl From<AddressColumns> for AddressRecord {
    fn from(columns: AddressColumns) -> (r: AddressRecord) {
        let (milestone_index, transaction_id, index, amount, address_type, ledger_inclusion_state) =
            columns;
        AddressRecord::new(
            milestone_index,
            transaction_id,
            index,
            amount,
            address_type,
            ledger_inclusion_state,
        )
    }
}

impl vstd::std_specs::convert::FromSpecImpl<AddressColumns> for AddressRecord {
    open spec fn obeys_from_spec() -> bool {
        true
    }

    open spec fn from_spec(columns: AddressColumns) -> AddressRecord {
        AddressRecord {
            milestone_index: columns.0,
            transaction_id: columns.1,
            index: columns.2,
            amount: columns.3,
            address_type: columns.4,
            ledger_inclusion_state: columns.5,
        }
    }
}

/// The columns in declaration order.
impl Codec for AddressRecord {
    open spec fn valid(self) -> bool {
        true
    }

    open spec fn encoding(self) -> Seq<u8> {
        self.fields().encoding()
    }

    open spec fn parse(bytes: Seq<u8>) -> Option<(AddressRecord, nat)> {
        match AddressFields::parse(bytes) {
            None => None,
            Some((f, n)) => Some((AddressRecord::from_fields(f), n)),
        }
    }

    proof fn lemma_round_trip(self, rest: Seq<u8>) {
        self.fields().lemma_round_trip(rest);
    }

    proof fn lemma_parse_valid(bytes: Seq<u8>) {
        AddressFields::lemma_parse_valid(bytes);
    }

    fn encode(&self, buffer: &mut Vec<u8>) {
        self.to_fields().encode(buffer);
    }

    fn decode_at(bytes: &[u8], pos: usize) -> (r: Option<(AddressRecord, usize)>) {
        match AddressFields::decode_at(bytes, pos) {
            None => None,
            Some((f, p)) => {
                let (milestone_index, (transaction_id, (index, (amount, (address_type, state))))) =
                    f;
                Some(
                    (
                        AddressRecord::new(
                            milestone_index,
                            transaction_id,
                            index,
                            amount,
                            address_type,
                            state,
                        ),
                        p,
                    ),
                )
            },
        }
    }
}

pub type IndexFields = (MilestoneIndex, (MessageId, Option<LedgerInclusionState>));

/// A message found under an indexation hash.
#[derive(Clone, Copy, PartialEq, Eq, Debug)]
pub struct HashedIndexRecord {
    pub milestone_index: MilestoneIndex,
    pub message_id: MessageId,
    pub ledger_inclusion_state: Option<LedgerInclusionState>,
}

impl HashedIndexRecord {
    pub fn new(
        milestone_index: MilestoneIndex,
        message_id: MessageId,
        ledger_inclusion_state: Option<LedgerInclusionState>,
    ) -> (r: HashedIndexRecord)
        ensures
            r == (HashedIndexRecord { milestone_index, message_id, ledger_inclusion_state }),
    {
        HashedIndexRecord { milestone_index, message_id, ledger_inclusion_state }
    }
}

impl Codec for HashedIndexRecord {
    open spec fn valid(self) -> bool {
        true
    }

    open spec fn encoding(self) -> Seq<u8> {
        (self.milestone_index, (self.message_id, self.ledger_inclusion_state)).encoding()
    }

    open spec fn parse(bytes: Seq<u8>) -> Option<(HashedIndexRecord, nat)> {
        match IndexFields::parse(bytes) {
            None => None,
            Some((f, n)) => Some(
                (
                    HashedIndexRecord {
                        milestone_index: f.0,
                        message_id: f.1.0,
                        ledger_inclusion_state: f.1.1,
                    },
                    n,
                ),
            ),
        }
    }

    proof fn lemma_round_trip(self, rest: Seq<u8>) {
        (self.milestone_index, (self.message_id, self.ledger_inclusion_state)).lemma_round_trip(
            rest,
        );
    }

    proof fn lemma_parse_valid(bytes: Seq<u8>) {
        IndexFields::lemma_parse_valid(bytes);
    }

    fn encode(&self, buffer: &mut Vec<u8>) {
        (self.milestone_index, (self.message_id, self.ledger_inclusion_state)).encode(buffer);
    }

    fn decode_at(bytes: &[u8], pos: usize) -> (r: Option<(HashedIndexRecord, usize)>) {
        match IndexFields::decode_at(bytes, pos) {
            None => None,
            Some((f, p)) => {
                let (milestone_index, (message_id, state)) = f;
                Some((HashedIndexRecord::new(milestone_index, message_id, state), p))
            },
        }
    }
}

/// A message found under one of its parents.
#[derive(Clone, Copy, PartialEq, Eq, Debug)]
pub struct ParentRecord {
    pub milestone_index: MilestoneIndex,
    pub message_id: MessageId,
    pub ledger_inclusion_state: Option<LedgerInclusionState>,
}

impl ParentRecord {
    pub fn new(
        milestone_index: MilestoneIndex,
        message_id: MessageId,
        ledger_inclusion_state: Option<LedgerInclusionState>,
    ) -> (r: ParentRecord)
        ensures
            r == (ParentRecord { milestone_index, message_id, ledger_inclusion_state }),
    {
        ParentRecord { milestone_index, message_id, ledger_inclusion_state }
    }
}

impl Codec for ParentRecord {
    open spec fn valid(self) -> bool {
        true
    }

    open spec fn encoding(self) -> Seq<u8> {
        (self.milestone_index, (self.message_id, self.ledger_inclusion_state)).encoding()
    }

    open spec fn parse(bytes: Seq<u8>) -> Option<(ParentRecord, nat)> {
        match IndexFields::parse(bytes) {
            None => None,
            Some((f, n)) => Some(
                (
                    ParentRecord {
                        milestone_index: f.0,
                        message_id: f.1.0,
                        ledger_inclusion_state: f.1.1,
                    },
                    n,
                ),
            ),
        }
    }

    proof fn lemma_round_trip(self, rest: Seq<u8>) {
        (self.milestone_index, (self.message_id, self.ledger_inclusion_state)).lemma_round_trip(
            rest,
        );
    }

    proof fn lemma_parse_valid(bytes: Seq<u8>) {
        IndexFields::lemma_parse_valid(bytes);
    }

    fn encode(&self, buffer: &mut Vec<u8>) {
        (self.milestone_index, (self.message_id, self.ledger_inclusion_state)).encode(buffer);
    }

    fn decode_at(bytes: &[u8], pos: usize) -> (r: Option<(ParentRecord, usize)>) {
        match IndexFields::decode_at(bytes, pos) {
            None => None,
            Some((f, p)) => {
                let (milestone_index, (message_id, state)) = f;
                Some((ParentRecord::new(milestone_index, message_id, state), p))
            },
        }
    }
}

} // verus!
