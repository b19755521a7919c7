//! Rows of the per-output transaction index.
use vstd::prelude::*;

use crate::codec::{
    bytes_equal, parse_prefixed, prefixed, push_prefixed, read_prefixed, Codec,
    lemma_prefixed_round_trip,
};
use crate::error::AccessError;
use crate::ids::{Ed25519Address, MessageId, OutputId};

verus! {

/// Which part of a transaction a row of the index holds.
#[derive(Clone, Copy, PartialEq, Eq, Debug)]
pub enum TransactionVariant {
    Input,
    Output,
    Unlock,
}

/// The text that names a variant in the store.
pub open spec fn variant_tag(v: TransactionVariant) -> Seq<u8> {
    match v {
        TransactionVariant::Input => seq![105u8, 110u8, 112u8, 117u8, 116u8],
        TransactionVariant::Output => seq![111u8, 117u8, 116u8, 112u8, 117u8, 116u8],
        TransactionVariant::Unlock => seq![117u8, 110u8, 108u8, 111u8, 99u8, 107u8],
    }
}

/// Reads a variant column: a length-prefixed tag. A frame that is cut short
/// is a decode error; a well-framed tag that names no variant is malformed.
pub open spec fn parse_variant(bytes: Seq<u8>) -> Result<(TransactionVariant, nat), AccessError> {
    match parse_prefixed(bytes) {
        None => Err(AccessError::DecodeError),
        Some((tag, n)) => if tag == variant_tag(TransactionVariant::Input) {
            Ok((TransactionVariant::Input, n))
        } else if tag == variant_tag(TransactionVariant::Output) {
            Ok((TransactionVariant::Output, n))
        } else if tag == variant_tag(TransactionVariant::Unlock) {
            Ok((TransactionVariant::Unlock, n))
        } else {
            Err(AccessError::MalformedVariant)
        },
    }
}

impl TransactionVariant {
    /// The tag's bytes.
    pub fn tag(&self) -> (r: Vec<u8>)
        ensures
            r@ == variant_tag(*self),
    {
        let r = match self {
            // "input"
            TransactionVariant::Input => vec![105u8, 110, 112, 117, 116],
            // "output"
            TransactionVariant::Output => vec![111u8, 117, 116, 112, 117, 116],
            // "unlock"
            TransactionVariant::Unlock => vec![117u8, 110, 108, 111, 99, 107],
        };
        assert(r@ =~= variant_tag(*self));
        r
    }

    /// Appends the tag behind its length as a big-endian `i32`.
    pub fn encode(&self, buffer: &mut Vec<u8>)
        ensures
            final(buffer)@ == old(buffer)@ + prefixed(variant_tag(*self)),
    {
        let tag = self.tag();
        push_prefixed(buffer, tag.as_slice());
    }

    /// Reads a variant column from the front of `slice`; bytes after it are
    /// ignored.
    pub fn decode(slice: &[u8]) -> (r: Result<TransactionVariant, AccessError>)
        ensures
            r == match parse_variant(slice@) {
                Ok((v, _)) => Ok::<TransactionVariant, AccessError>(v),
                Err(e) => Err(e),
            },
    {
        assert(slice@.skip(0) =~= slice@);
        match Self::decode_tag(slice, 0) {
            Ok((v, _)) => Ok(v),
            Err(e) => Err(e),
        }
    }

    fn decode_tag(bytes: &[u8], pos: usize) -> (r: Result<(TransactionVariant, usize), AccessError>)
        requires
            pos <= bytes@.len(),
        ensures
            match parse_variant(bytes@.skip(pos as int)) {
                Ok((v, n)) => r == Ok::<(TransactionVariant, usize), AccessError>(
                    (v, (pos + n) as usize),
                ),
                Err(e) => r == Err::<(TransactionVariant, usize), AccessError>(e),
            },
    {
        match read_prefixed(bytes, pos) {
            None => Err(AccessError::DecodeError),
            Some((start, end)) => {
                let input = TransactionVariant::Input.tag();
                let output = TransactionVariant::Output.tag();
                let unlock = TransactionVariant::Unlock.tag();
                if bytes_equal(bytes, start, end, input.as_slice()) {
                    Ok((TransactionVariant::Input, end))
                } else if bytes_equal(bytes, start, end, output.as_slice()) {
                    Ok((TransactionVariant::Output, end))
                } else if bytes_equal(bytes, start, end, unlock.as_slice()) {
                    Ok((TransactionVariant::Unlock, end))
                } else {
                    Err(AccessError::MalformedVariant)
                }
            },
        }
    }
}

/// Encoding a variant and decoding the result gives the same variant, and
/// a well-framed tag other than the three names is reported as malformed,
/// never read as some default variant.
pub proof fn lemma_variant_round_trip(v: TransactionVariant, rest: Seq<u8>, tag: Seq<u8>)
    requires
        tag.len() <= crate::codec::MAX_PREFIXED_LEN,
        tag != variant_tag(TransactionVariant::Input),
        tag != variant_tag(TransactionVariant::Output),
        tag != variant_tag(TransactionVariant::Unlock),
    ensures
        parse_variant(prefixed(variant_tag(v)) + rest) == Ok::<(TransactionVariant, nat), AccessError>(
            (v, prefixed(variant_tag(v)).len()),
        ),
        parse_variant(prefixed(tag) + rest) == Err::<(TransactionVariant, nat), AccessError>(
            AccessError::MalformedVariant,
        ),
{
    lemma_prefixed_round_trip(variant_tag(v), rest);
    lemma_prefixed_round_trip(tag, rest);
    assert(variant_tag(TransactionVariant::Input) != variant_tag(TransactionVariant::Output));
    assert(variant_tag(TransactionVariant::Input)[0] != variant_tag(TransactionVariant::Unlock)[0]);
    assert(variant_tag(TransactionVariant::Output)[0] != variant_tag(TransactionVariant::Unlock)[0]);
}

impl Codec for TransactionVariant {
    open spec fn valid(self) -> bool {
        true
    }

    open spec fn encoding(self) -> Seq<u8> {
        prefixed(variant_tag(self))
    }

    open spec fn parse(bytes: Seq<u8>) -> Option<(TransactionVariant, nat)> {
        match parse_variant(bytes) {
            Ok(p) => Some(p),
            Err(_) => None,
        }
    }

    proof fn lemma_round_trip(self, rest: Seq<u8>) {
        lemma_prefixed_round_trip(variant_tag(self), rest);
        assert(variant_tag(TransactionVariant::Input) != variant_tag(TransactionVariant::Output));
        assert(variant_tag(TransactionVariant::Input)[0] != variant_tag(TransactionVariant::Unlock)[0]);
        assert(variant_tag(TransactionVariant::Output)[0] != variant_tag(TransactionVariant::Unlock)[0]);
    }

    proof fn lemma_parse_valid(bytes: Seq<u8>) {
    }

    fn encode(&self, buffer: &mut Vec<u8>) {
        TransactionVariant::encode(self, buffer);
    }

    fn decode_at(bytes: &[u8], pos: usize) -> (r: Option<(TransactionVariant, usize)>) {
        match Self::decode_tag(bytes, pos) {
            Ok(p) => Some(p),
            Err(_) => None,
        }
    }
}


/// A transaction input: the output that it spends.
#[derive(Clone, Copy, PartialEq, Eq, Debug)]
pub struct Input {
    pub output_id: OutputId,
}

/// A transaction output: an amount locked to an Ed25519 address.
#[derive(Clone, Copy, PartialEq, Eq, Debug)]
pub struct Output {
    pub address: Ed25519Address,
    pub amount: u64,
}

/// What unlocks an input: a signature, or a reference to the unlock block
/// at another position of the same transaction.
#[derive(Clone, Copy, PartialEq, Eq, Debug)]
pub enum UnlockBlock {
    Signature { public_key: [u8; 32], signature: [u8; 64] },
    Reference(u16),
}

impl Codec for Input {
    open spec fn valid(self) -> bool {
        true
    }

    open spec fn encoding(self) -> Seq<u8> {
        self.output_id.encoding()
    }

    open spec fn parse(bytes: Seq<u8>) -> Option<(Input, nat)> {
        match OutputId::parse(bytes) {
            None => None,
            Some((o, n)) => Some((Input { output_id: o }, n)),
        }
    }

    proof fn lemma_round_trip(self, rest: Seq<u8>) {
        self.output_id.lemma_round_trip(rest);
    }

    proof fn lemma_parse_valid(bytes: Seq<u8>) {
        OutputId::lemma_parse_valid(bytes);
    }

    fn encode(&self, buffer: &mut Vec<u8>) {
        self.output_id.encode(buffer);
    }

    fn decode_at(bytes: &[u8], pos: usize) -> (r: Option<(Input, usize)>) {
        match OutputId::decode_at(bytes, pos) {
            None => None,
            Some((o, p)) => Some((Input { output_id: o }, p)),
        }
    }
}

impl Codec for Output {
    open spec fn valid(self) -> bool {
        true
    }

    open spec fn encoding(self) -> Seq<u8> {
        (self.address, self.amount).encoding()
    }

    open spec fn parse(bytes: Seq<u8>) -> Option<(Output, nat)> {
        match <(Ed25519Address, u64)>::parse(bytes) {
            None => None,
            Some((t, n)) => Some((Output { address: t.0, amount: t.1 }, n)),
        }
    }

    proof fn lemma_round_trip(self, rest: Seq<u8>) {
        (self.address, self.amount).lemma_round_trip(rest);
    }

    proof fn lemma_parse_valid(bytes: Seq<u8>) {
        <(Ed25519Address, u64)>::lemma_parse_valid(bytes);
    }

    fn encode(&self, buffer: &mut Vec<u8>) {
        (self.address, self.amount).encode(buffer);
    }

    fn decode_at(bytes: &[u8], pos: usize) -> (r: Option<(Output, usize)>) {
        match <(Ed25519Address, u64)>::decode_at(bytes, pos) {
            None => None,
            Some((t, p)) => Some((Output { address: t.0, amount: t.1 }, p)),
        }
    }
}

/// An unlock block is a kind byte (zero: signature, one: reference) and its
/// fields.
impl Codec for UnlockBlock {
    open spec fn valid(self) -> bool {
        true
    }

    open spec fn encoding(self) -> Seq<u8> {
        match self {
            UnlockBlock::Signature { public_key, signature } => seq![0u8] + (
            public_key,
            signature,
            ).encoding(),
            UnlockBlock::Reference(i) => seq![1u8] + i.encoding(),
        }
    }

    open spec fn parse(bytes: Seq<u8>) -> Option<(UnlockBlock, nat)> {
        if bytes.len() >= 1 && bytes[0] == 0 {
            match <([u8; 32], [u8; 64])>::parse(bytes.skip(1)) {
                None => None,
                Some((t, n)) => Some(
                    (UnlockBlock::Signature { public_key: t.0, signature: t.1 }, n + 1),
                ),
            }
        } else if bytes.len() >= 1 && bytes[0] == 1 {
            match u16::parse(bytes.skip(1)) {
                None => None,
                Some((i, n)) => Some((UnlockBlock::Reference(i), n + 1)),
            }
        } else {
            None
        }
    }

    proof fn lemma_round_trip(self, rest: Seq<u8>) {
        match self {
            UnlockBlock::Signature { public_key, signature } => {
                let body = (public_key, signature).encoding();
                assert((self.encoding() + rest).skip(1) =~= body + rest);
                (public_key, signature).lemma_round_trip(rest);
            },
            UnlockBlock::Reference(i) => {
                assert((self.encoding() + rest).skip(1) =~= i.encoding() + rest);
                i.lemma_round_trip(rest);
            },
        }
    }

    proof fn lemma_parse_valid(bytes: Seq<u8>) {
        <([u8; 32], [u8; 64])>::lemma_parse_valid(bytes.skip(1));
    }

    fn encode(&self, buffer: &mut Vec<u8>) {
        match self {
            UnlockBlock::Signature { public_key, signature } => {
                buffer.push(0u8);
                (*public_key, *signature).encode(buffer);
            },
            UnlockBlock::Reference(i) => {
                buffer.push(1u8);
                i.encode(buffer);
            },
        }
        assert(buffer@ =~= old(buffer)@ + self.encoding());
    }

    fn decode_at(bytes: &[u8], pos: usize) -> (r: Option<(UnlockBlock, usize)>) {
        if bytes.len() - pos < 1 {
            return None;
        }
        let kind = bytes[pos];
        assert(bytes@.skip(pos as int).skip(1) =~= bytes@.skip(pos + 1));
        if kind == 0 {
            match <([u8; 32], [u8; 64])>::decode_at(bytes, pos + 1) {
                None => None,
                Some((t, p)) => Some((UnlockBlock::Signature { public_key: t.0, signature: t.1 }, p)),
            }
        } else if kind == 1 {
            match u16::decode_at(bytes, pos + 1) {
                None => None,
                Some((i, p)) => Some((UnlockBlock::Reference(i), p)),
            }
        } else {
            None
        }
    }
}

/// The payload of a row of the transaction index.
#[derive(Clone, Copy, PartialEq, Eq, Debug)]
pub enum TransactionData {
    Input(Input),
    Output(Output),
    Unlock(UnlockBlock),
}

impl TransactionData {
    pub open spec fn variant(self) -> TransactionVariant {
        match self {
            TransactionData::Input(_) => TransactionVariant::Input,
            TransactionData::Output(_) => TransactionVariant::Output,
            TransactionData::Unlock(_) => TransactionVariant::Unlock,
        }
    }

    /// The payload is stored without a kind: the row's variant column says
    /// which it is.
    pub open spec fn encoding(self) -> Seq<u8> {
        match self {
            TransactionData::Input(i) => i.encoding(),
            TransactionData::Output(o) => o.encoding(),
            TransactionData::Unlock(u) => u.encoding(),
        }
    }

    pub open spec fn parse(v: TransactionVariant, bytes: Seq<u8>) -> Option<(TransactionData, nat)> {
        match v {
            TransactionVariant::Input => match Input::parse(bytes) {
                None => None,
                Some((i, n)) => Some((TransactionData::Input(i), n)),
            },
            TransactionVariant::Output => match Output::parse(bytes) {
                None => None,
                Some((o, n)) => Some((TransactionData::Output(o), n)),
            },
            TransactionVariant::Unlock => match UnlockBlock::parse(bytes) {
                None => None,
                Some((u, n)) => Some((TransactionData::Unlock(u), n)),
            },
        }
    }

    proof fn lemma_round_trip(self, rest: Seq<u8>)
        ensures
            TransactionData::parse(self.variant(), self.encoding() + rest) == Some(
                (self, self.encoding().len()),
            ),
    {
        match self {
            TransactionData::Input(i) => i.lemma_round_trip(rest),
            TransactionData::Output(o) => o.lemma_round_trip(rest),
            TransactionData::Unlock(u) => u.lemma_round_trip(rest),
        }
    }

    proof fn lemma_parse_valid(v: TransactionVariant, bytes: Seq<u8>)
        ensures
            TransactionData::parse(v, bytes) matches Some((d, n)) ==> d.variant() == v && n
                <= bytes.len(),
    {
        Input::lemma_parse_valid(bytes);
        Output::lemma_parse_valid(bytes);
        UnlockBlock::lemma_parse_valid(bytes);
    }

    fn encode(&self, buffer: &mut Vec<u8>)
        ensures
            final(buffer)@ == old(buffer)@ + self.encoding(),
    {
        match self {
            TransactionData::Input(i) => i.encode(buffer),
            TransactionData::Output(o) => o.encode(buffer),
            TransactionData::Unlock(u) => u.encode(buffer),
        }
    }

    fn decode_at(v: TransactionVariant, bytes: &[u8], pos: usize) -> (r: Option<
        (TransactionData, usize),
    >)
        requires
            pos <= bytes@.len(),
        ensures
            match TransactionData::parse(v, bytes@.skip(pos as int)) {
                None => r is None,
                Some((d, n)) => r == Some((d, (pos + n) as usize)),
            },
    {
        match v {
            TransactionVariant::Input => match Input::decode_at(bytes, pos) {
                None => None,
                Some((i, p)) => Some((TransactionData::Input(i), p)),
            },
            TransactionVariant::Output => match Output::decode_at(bytes, pos) {
                None => None,
                Some((o, p)) => Some((TransactionData::Output(o), p)),
            },
            TransactionVariant::Unlock => match UnlockBlock::decode_at(bytes, pos) {
                None => None,
                Some((u, p)) => Some((TransactionData::Unlock(u), p)),
            },
        }
    }
}

/// One row of the per-output index. `variant` repeats the case of `data`,
/// as a text column of the store.
#[derive(Clone, Copy, PartialEq, Eq, Debug)]
pub struct TransactionRecord {
    pub variant: TransactionVariant,
    pub message_id: MessageId,
    pub data: TransactionData,
}

impl TransactionRecord {
    pub fn input(message_id: MessageId, data: Input) -> (r: TransactionRecord)
        ensures
            r == (TransactionRecord {
                variant: TransactionVariant::Input,
                message_id,
                data: TransactionData::Input(data),
            }),
    {
        TransactionRecord {
            variant: TransactionVariant::Input,
            message_id,
            data: TransactionData::Input(data),
        }
    }

    pub fn output(message_id: MessageId, data: Output) -> (r: TransactionRecord)
        ensures
            r == (TransactionRecord {
                variant: TransactionVariant::Output,
                message_id,
                data: TransactionData::Output(data),
            }),
    {
        TransactionRecord {
            variant: TransactionVariant::Output,
            message_id,
            data: TransactionData::Output(data),
        }
    }

    pub fn unlock(message_id: MessageId, data: UnlockBlock) -> (r: TransactionRecord)
        ensures
            r == (TransactionRecord {
                variant: TransactionVariant::Unlock,
                message_id,
                data: TransactionData::Unlock(data),
            }),
    {
        TransactionRecord {
            variant: TransactionVariant::Unlock,
            message_id,
            data: TransactionData::Unlock(data),
        }
    }
}

/// A row is its variant column, its message id and its payload.
impl Codec for TransactionRecord {
    open spec fn valid(self) -> bool {
        self.variant == self.data.variant()
    }

    open spec fn encoding(self) -> Seq<u8> {
        (self.variant, self.message_id).encoding() + self.data.encoding()
    }

    open spec fn parse(bytes: Seq<u8>) -> Option<(TransactionRecord, nat)> {
        match <(TransactionVariant, MessageId)>::parse(bytes) {
            None => None,
            Some((h, n)) => match TransactionData::parse(h.0, bytes.skip(n as int)) {
                None => None,
                Some((d, m)) => Some(
                    (TransactionRecord { variant: h.0, message_id: h.1, data: d }, n + m),
                ),
            },
        }
    }

    proof fn lemma_round_trip(self, rest: Seq<u8>) {
        let head = (self.variant, self.message_id);
        let s = self.encoding() + rest;
        assert(s =~= head.encoding() + (self.data.encoding() + rest));
        head.lemma_round_trip(self.data.encoding() + rest);
        assert(s.skip(head.encoding().len() as int) =~= self.data.encoding() + rest);
        self.data.lemma_round_trip(rest);
    }

    proof fn lemma_parse_valid(bytes: Seq<u8>) {
        <(TransactionVariant, MessageId)>::lemma_parse_valid(bytes);
        if let Some((h, n)) = <(TransactionVariant, MessageId)>::parse(bytes) {
            TransactionData::lemma_parse_valid(h.0, bytes.skip(n as int));
        }
    }

    fn encode(&self, buffer: &mut Vec<u8>) {
        (self.variant, self.message_id).encode(buffer);
        self.data.encode(buffer);
        assert(buffer@ =~= old(buffer)@ + self.encoding());
    }

    fn decode_at(bytes: &[u8], pos: usize) -> (r: Option<(TransactionRecord, usize)>) {
        let len = bytes.len();
        proof {
            <(TransactionVariant, MessageId)>::lemma_parse_valid(bytes@.skip(pos as int));
        }
        match <(TransactionVariant, MessageId)>::decode_at(bytes, pos) {
            None => None,
            Some((h, p)) => {
                assert(pos <= p <= len);
                assert(bytes@.skip(pos as int).skip(p - pos) =~= bytes@.skip(p as int));
                proof {
                    TransactionData::lemma_parse_valid(h.0, bytes@.skip(p as int));
                }
                match TransactionData::decode_at(h.0, bytes, p) {
                    None => None,
                    Some((d, q)) => Some(
                        (TransactionRecord { variant: h.0, message_id: h.1, data: d }, q),
                    ),
                }
            },
        }
    }
}

} // verus!
