//! The transaction rows of a block, before any is decoded.

use crate::models::Transaction;
use vstd::prelude::*;

verus! {

/// The transaction rows to start a block with: none.
pub fn init_transaction_with_txs() -> (rows: Vec<Transaction>)
    ensures
        rows@ == Seq::<Transaction>::empty(),
{
    Vec::new()
}

} // verus!
