//! Ledger state of a message, derived from its stored metadata.
use vstd::prelude::*;

use crate::error::AccessError;
use crate::ids::{MessageId, MilestoneIndex};
use crate::records::LedgerInclusionState;

verus! {

/// The kind of payload that a message carries.
#[derive(Clone, Copy, PartialEq, Eq, Debug)]
pub enum Payload {
    Transaction,
    Milestone,
    Indexation,
}

/// The parts of a message that its metadata view needs.
#[derive(Clone, PartialEq, Eq, Debug)]
pub struct Message {
    pub parents: Vec<MessageId>,
    pub payload: Option<Payload>,
}

/// Flags that the node keeps for a message.
#[derive(Clone, Copy, PartialEq, Eq, Debug)]
pub struct MessageFlags {
    /// The message's whole past is available.
    pub solid: bool,
    /// The message is itself a milestone.
    pub milestone: bool,
}

/// Raw metadata of a message as stored.
#[derive(Clone, Copy, PartialEq, Eq, Debug)]
pub struct MessageMetadata {
    /// The milestone that references the message, if any.
    pub milestone_index: Option<MilestoneIndex>,
    pub flags: MessageFlags,
    /// Why the ledger rejected the message's transaction; zero if it did not.
    pub conflict: u8,
}

/// A message row: the id with the message and its metadata, either of which
/// may be missing.
#[derive(Clone, PartialEq, Eq, Debug)]
pub struct MessageRow {
    pub id: MessageId,
    pub message: Option<Message>,
    pub metadata: Option<MessageMetadata>,
}

/// What a caller sees of a message's ledger state.
#[derive(Clone, PartialEq, Eq, Debug)]
pub struct MessageMetadataResponse {
    pub message_id: MessageId,
    pub parent_message_ids: Vec<MessageId>,
    pub is_solid: bool,
    pub referenced_by_milestone_index: Option<MilestoneIndex>,
    pub milestone_index: Option<MilestoneIndex>,
    pub ledger_inclusion_state: Option<LedgerInclusionState>,
    pub conflict_reason: Option<u8>,
    /// Left unset: promotion needs the solid milestone's depth.
    pub should_promote: Option<bool>,
    /// Left unset: reattachment needs the solid milestone's depth.
    pub should_reattach: Option<bool>,
}

/// The view of a message with its metadata. A message that a milestone
/// references is solid, and its transaction, if it has one, was included or
/// conflicting; one that no milestone references is only solid or not.
pub open spec fn metadata_view(
    id: MessageId,
    message: Message,
    metadata: MessageMetadata,
) -> MessageMetadataResponse {
    let referenced = metadata.milestone_index is Some;
    let has_transaction = message.payload == Some(Payload::Transaction);
    MessageMetadataResponse {
        message_id: id,
        parent_message_ids: message.parents,
        is_solid: referenced || metadata.flags.solid,
        referenced_by_milestone_index: metadata.milestone_index,
        milestone_index: if referenced && metadata.flags.milestone {
            metadata.milestone_index
        } else {
            None
        },
        ledger_inclusion_state: if !referenced {
            None
        } else if !has_transaction {
            Some(LedgerInclusionState::NoTransaction)
        } else if metadata.conflict != 0 {
            Some(LedgerInclusionState::Conflicting)
        } else {
            Some(LedgerInclusionState::Included)
        },
        conflict_reason: if referenced && has_transaction && metadata.conflict != 0 {
            Some(metadata.conflict)
        } else {
            None
        },
        should_promote: None,
        should_reattach: None,
    }
}

/// Derives the ledger state of a message row. Missing metadata is reported
/// before a missing message.
pub fn message_row_to_response(row: MessageRow) -> (r: Result<
    MessageMetadataResponse,
    AccessError,
>)
    ensures
        r == match (row.metadata, row.message) {
            (None, _) => Err(AccessError::NoMetadata),
            (Some(_), None) => Err(AccessError::NoMessageData),
            (Some(md), Some(m)) => Ok(metadata_view(row.id, m, md)),
        },
{
    let MessageRow { id: message_id, message, metadata } = row;
    let metadata = match metadata {
        None => {
            return Err(AccessError::NoMetadata);
        },
        Some(md) => md,
    };
    let message = match message {
        None => {
            return Err(AccessError::NoMessageData);
        },
        Some(m) => m,
    };
    let is_solid;
    let referenced_by_milestone_index;
    let milestone_index;
    let ledger_inclusion_state;
    let conflict_reason;
    if let Some(milestone) = metadata.milestone_index {
        // referenced by a milestone
        is_solid = true;
        referenced_by_milestone_index = Some(milestone);
        milestone_index = if metadata.flags.milestone {
            Some(milestone)
        } else {
            None
        };
        let has_transaction = match message.payload {
            Some(Payload::Transaction) => true,
            _ => false,
        };
        if has_transaction {
            if metadata.conflict != 0 {
                conflict_reason = Some(metadata.conflict);
                ledger_inclusion_state = Some(LedgerInclusionState::Conflicting);
            } else {
                conflict_reason = None;
                ledger_inclusion_state = Some(LedgerInclusionState::Included);
            }
        } else {
            conflict_reason = None;
            ledger_inclusion_state = Some(LedgerInclusionState::NoTransaction);
        }
    } else {
        // not referenced: solid or not, nothing else is known yet
        is_solid = metadata.flags.solid;
        referenced_by_milestone_index = None;
        milestone_index = None;
        ledger_inclusion_state = None;
        conflict_reason = None;
    }
    Ok(MessageMetadataResponse {
        message_id,
        parent_message_ids: message.parents,
        is_solid,
        referenced_by_milestone_index,
        milestone_index,
        ledger_inclusion_state,
        conflict_reason,
        should_promote: None,
        should_reattach: None,
    })
}

} // verus!
