//! Whether an output was spent, from the rows of the transaction index.
use vstd::prelude::*;

use crate::error::AccessError;
use crate::ids::{MessageId, OutputId, TransactionId};
use crate::transaction::{Output, TransactionData, TransactionRecord};

verus! {

/// A created output and whether it was spent.
#[derive(Clone, Copy, PartialEq, Eq, Debug)]
pub struct OutputResponse {
    pub message_id: MessageId,
    pub transaction_id: TransactionId,
    pub output_index: u16,
    pub is_spent: bool,
    pub output: Output,
}

/// The last output row of `rows`, with the message that holds it.
pub open spec fn last_output(rows: Seq<TransactionRecord>) -> Option<(MessageId, Output)>
    decreases rows.len(),
{
    if rows.len() == 0 {
        None
    } else {
        match rows.last().data {
            TransactionData::Output(o) => Some((rows.last().message_id, o)),
            _ => last_output(rows.drop_last()),
        }
    }
}

/// Some row of `rows` unlocks the output.
pub open spec fn has_unlock(rows: Seq<TransactionRecord>) -> bool {
    exists|i: int| 0 <= i < rows.len() && (#[trigger] rows[i]).data is Unlock
}

/// What `get_output` returns for `rows`.
pub open spec fn output_view(output_id: OutputId, rows: Seq<TransactionRecord>) -> Result<
    OutputResponse,
    AccessError,
> {
    match last_output(rows) {
        None => Err(AccessError::NotFound),
        Some((message_id, output)) => Ok(
            OutputResponse {
                message_id,
                transaction_id: output_id.transaction_id,
                output_index: output_id.index,
                is_spent: has_unlock(rows),
                output,
            },
        ),
    }
}

/// Reconciles every index row of an output, in any order: the output row
/// (the last one, if several) gives the creating message and the output,
/// and any unlock row marks it spent. Input rows change nothing.
pub fn get_output(output_id: OutputId, outputs: Vec<TransactionRecord>) -> (r: Result<
    OutputResponse,
    AccessError,
>)
    ensures
        r == output_view(output_id, outputs@),
{
    let mut output: Option<(MessageId, Output)> = None;
    let mut is_spent = false;
    let mut i: usize = 0;
    while i < outputs.len()
        invariant
            i <= outputs@.len(),
            output == last_output(outputs@.take(i as int)),
            is_spent == has_unlock(outputs@.take(i as int)),
        decreases outputs@.len() - i,
    {
        let row = outputs[i];
        let ghost prefix = outputs@.take(i as int);
        let ghost next = outputs@.take(i + 1);
        assert(next.drop_last() =~= prefix);
        assert(next.last() == row);
        match row.data {
            TransactionData::Input(_) => {},
            TransactionData::Output(o) => {
                output = Some((row.message_id, o));
            },
            TransactionData::Unlock(_) => {
                is_spent = true;
            },
        }
        proof {
            if has_unlock(next) && !(row.data is Unlock) {
                let k = choose|k: int| 0 <= k < next.len() && (#[trigger] next[k]).data is Unlock;
                assert(prefix[k] == next[k]);
            }
            if has_unlock(prefix) {
                let k = choose|k: int| 0 <= k < prefix.len() && (#[trigger] prefix[k]).data is Unlock;
                assert(next[k] == prefix[k]);
            }
            if row.data is Unlock {
                assert(next[i as int] == row);
            }
        }
        i += 1;
    }
    assert(outputs@.take(i as int) =~= outputs@);
    match output {
        None => Err(AccessError::NotFound),
        Some((message_id, o)) => Ok(
            OutputResponse {
                message_id,
                transaction_id: output_id.transaction_id,
                output_index: output_id.index,
                is_spent,
                output: o,
            },
        ),
    }
}

proof fn lemma_last_output_skips_unlock(
    a: Seq<TransactionRecord>,
    u: TransactionRecord,
    b: Seq<TransactionRecord>,
)
    requires
        u.data is Unlock,
    ensures
        last_output(a + seq![u] + b) == last_output(a + b),
    decreases b.len(),
{
    if b.len() == 0 {
        assert((a + seq![u] + b).drop_last() =~= a);
        assert(a + b =~= a);
    } else {
        let b0 = b.drop_last();
        assert((a + seq![u] + b).drop_last() =~= a + seq![u] + b0);
        assert((a + b).drop_last() =~= a + b0);
        assert((a + seq![u] + b).last() == b.last());
        assert((a + b).last() == b.last());
        lemma_last_output_skips_unlock(a, u, b0);
    }
}

/// Where an unlock row stands among the rows does not matter: with it
/// anywhere, the output is reported spent, and the creating message and
/// output are those found without it.
pub proof fn lemma_unlock_anywhere(
    output_id: OutputId,
    before: Seq<TransactionRecord>,
    unlock: TransactionRecord,
    after: Seq<TransactionRecord>,
)
    requires
        unlock.data is Unlock,
    ensures
        output_view(output_id, before + seq![unlock] + after) matches Ok(v) ==> v.is_spent,
        last_output(before + seq![unlock] + after) == last_output(before + after),
        output_view(output_id, before + seq![unlock] + after) is Ok <==> output_view(
            output_id,
            before + after,
        ) is Ok,
{
    lemma_last_output_skips_unlock(before, unlock, after);
    let all = before + seq![unlock] + after;
    assert(all[before.len() as int] == unlock);
}

} // verus!
