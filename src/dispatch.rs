//! Single-reply query protocol: what a lookup returns, given the one event
//! (or none) that arrived on its reply channel.
//!
//! A reply payload is a row set: the number of rows as a big-endian signed
//! 32-bit integer, then each row's encoding.
use vstd::prelude::*;

use crate::codec::{be_u32, read_u32, Codec, MAX_PREFIXED_LEN};
use crate::error::AccessError;
use crate::wrappers::Record;

verus! {

/// The terminal event that the store sends on a reply channel.
#[derive(Clone, PartialEq, Eq, Debug)]
pub enum StoreEvent {
    Response { payload: Vec<u8> },
    Error { kind: String },
}

/// `count` rows read one after another from the front of `bytes`.
pub open spec fn parse_rows<T: Codec>(bytes: Seq<u8>, count: nat) -> Option<Seq<T>>
    decreases count,
{
    if count == 0 {
        Some(Seq::empty())
    } else {
        match T::parse(bytes) {
            None => None,
            Some((v, n)) => match parse_rows::<T>(bytes.skip(n as int), (count - 1) as nat) {
                None => None,
                Some(rest) => Some(seq![v] + rest),
            },
        }
    }
}

/// The rows of a reply payload; none where the payload is malformed.
pub open spec fn parse_row_set<T: Codec>(payload: Seq<u8>) -> Option<Seq<T>> {
    if payload.len() < 4 || be_u32(payload) > MAX_PREFIXED_LEN {
        None
    } else {
        parse_rows::<T>(payload.skip(4), be_u32(payload) as nat)
    }
}

/// The outcome of a lookup whose reply channel delivered `event` (none: the
/// channel closed without an event).
pub open spec fn query_result<T: Codec>(event: Option<StoreEvent>) -> Result<Seq<T>, AccessError> {
    match event {
        None => Err(AccessError::NoResponse),
        Some(StoreEvent::Error { kind }) => Err(AccessError::WorkerError(kind)),
        Some(StoreEvent::Response { payload }) => match parse_row_set::<T>(payload@) {
            None => Err(AccessError::DecodeError),
            Some(rows) => if rows.len() == 0 {
                Err(AccessError::EmptyResult)
            } else {
                Ok(rows)
            },
        },
    }
}

/// Decodes the rows of a reply payload.
pub fn decode_rows<T: Codec>(payload: &[u8]) -> (r: Option<Vec<T>>)
    ensures
        match parse_row_set::<T>(payload@) {
            None => r is None,
            Some(rows) => r matches Some(v) && v@ == rows,
        },
{
    let len = payload.len();
    if len < 4 {
        return None;
    }
    let count = read_u32(payload, 0);
    assert(payload@.skip(0) =~= payload@);
    if count > MAX_PREFIXED_LEN {
        return None;
    }
    let mut rows: Vec<T> = Vec::new();
    let mut pos: usize = 4;
    let mut i: u32 = 0;
    while i < count
        invariant
            len == payload@.len(),
            4 <= pos <= len,
            i <= count,
            count == be_u32(payload@),
            count <= MAX_PREFIXED_LEN,
            parse_row_set::<T>(payload@) == match parse_rows::<T>(
                payload@.skip(pos as int),
                (count - i) as nat,
            ) {
                None => None,
                Some(rest) => Some(rows@ + rest),
            },
        decreases count - i,
    {
        proof {
            T::lemma_parse_valid(payload@.skip(pos as int));
        }
        match T::decode_at(payload, pos) {
            None => {
                return None;
            },
            Some((v, p)) => {
                let ghost old_rows = rows@;
                let ghost n = (T::parse(payload@.skip(pos as int))->0).1;
                assert(pos + n <= len);
                assert(payload@.skip(pos as int).skip(n as int) =~= payload@.skip(p as int));
                rows.push(v);
                proof {
                    match parse_rows::<T>(payload@.skip(p as int), (count - i - 1) as nat) {
                        None => {},
                        Some(rest) => {
                            assert(old_rows + (seq![v] + rest) =~= rows@ + rest);
                        },
                    }
                }
                pos = p;
                i = i + 1;
            },
        }
    }
    assert(rows@ + Seq::<T>::empty() =~= rows@);
    Some(rows)
}

/// Decides a lookup from the one event that its reply channel delivered, or
/// from none when the channel closed first. A reply with no row is
/// `EmptyResult`, a malformed one `DecodeError`; a store failure is passed
/// on verbatim.
pub fn query<T: Codec>(event: Option<StoreEvent>) -> (r: Result<Vec<T>, AccessError>)
    ensures
        match query_result::<T>(event) {
            Ok(rows) => r matches Ok(v) && v@ == rows,
            Err(e) => r == Err::<Vec<T>, AccessError>(e),
        },
{
    match event {
        None => Err(AccessError::NoResponse),
        Some(StoreEvent::Error { kind }) => Err(AccessError::WorkerError(kind)),
        Some(StoreEvent::Response { payload }) => match decode_rows::<T>(payload.as_slice()) {
            None => Err(AccessError::DecodeError),
            Some(rows) => if rows.len() == 0 {
                Err(AccessError::EmptyResult)
            } else {
                Ok(rows)
            },
        },
    }
}

/// Like `query`, for a lookup that wants one value: the first row.
pub fn query_one<T: Codec>(event: Option<StoreEvent>) -> (r: Result<T, AccessError>)
    ensures
        match query_result::<T>(event) {
            Ok(rows) => r == Ok::<T, AccessError>(rows[0]),
            Err(e) => r == Err::<T, AccessError>(e),
        },
{
    match query::<T>(event) {
        Ok(rows) => {
            let mut rows = rows;
            Ok(rows.swap_remove(0))
        },
        Err(e) => Err(e),
    }
}

impl<T: Codec> Record<T> {
    /// Decodes every row of a reply payload.
    pub fn rows_iter(payload: &[u8]) -> (r: Option<Vec<Record<T>>>)
        ensures
            match parse_row_set::<T>(payload@) {
                None => r is None,
                Some(rows) => r matches Some(v) && v@.len() == rows.len() && forall|i: int|
                    0 <= i < rows.len() ==> #[trigger] v@[i].spec_inner() == rows[i],
            },
    {
        match decode_rows::<T>(payload) {
            None => None,
            Some(rows) => {
                let mut out: Vec<Record<T>> = Vec::new();
                let mut rows = rows;
                let ghost all = rows@;
                let n = rows.len();
                // Taken from the back, then put in order.
                while rows.len() > 0
                    invariant
                        n == all.len(),
                        rows@ == all.take(rows@.len() as int),
                        out@.len() == n - rows@.len(),
                        forall|j: int|
                            0 <= j < out@.len() ==> #[trigger] out@[j].spec_inner() == all[n - 1
                                - j],
                    decreases rows@.len(),
                {
                    let v = rows.pop().unwrap();
                    out.push(Record::new(v));
                    assert(rows@ =~= all.take(rows@.len() as int));
                }
                let mut ordered: Vec<Record<T>> = Vec::new();
                while out.len() > 0
                    invariant
                        out@.len() + ordered@.len() == n,
                        forall|j: int|
                            0 <= j < out@.len() ==> #[trigger] out@[j].spec_inner() == all[n - 1
                                - j],
                        forall|j: int|
                            0 <= j < ordered@.len() ==> #[trigger] ordered@[j].spec_inner()
                                == all[j],
                    decreases out@.len(),
                {
                    let rec = out.pop().unwrap();
                    ordered.push(rec);
                }
                Some(ordered)
            },
        }
    }
}

} // verus!
