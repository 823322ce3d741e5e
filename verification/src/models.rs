//! The rows that one block is stored as.

use crate::bytes::Bytes32;
use vstd::prelude::*;

verus! {

/// The row of a block: its header, field by field.
#[derive(Clone, Debug, PartialEq, Eq)]
pub struct Block {
    pub id: Bytes32,
    pub height: u64,
    pub da_height: u64,
    pub time: u64,
}

/// The reward of a block and who received it.
#[derive(Clone, Debug, PartialEq, Eq)]
pub struct Coinbase {
    pub block_id: Bytes32,
    pub height: u64,
    /// Hash of the mint transaction.
    pub transaction_id: Bytes32,
    pub receiver: Bytes32,
    pub amount: u64,
    pub asset_id: Bytes32,
}

/// The three kinds of transaction that are stored.
#[derive(Clone, Copy, Debug, PartialEq, Eq)]
pub enum TransactionKind {
    Create,
    Mint,
    Script,
}

/// The row of a transaction.
#[derive(Clone, Debug, PartialEq, Eq)]
pub struct Transaction {
    pub id: Bytes32,
    pub block_id: Bytes32,
    pub height: u64,
    pub kind: TransactionKind,
    /// Owner of the last signed coin among the inputs; never set for a mint.
    pub sender: Option<Bytes32>,
    /// Absent for a mint.
    pub gas_price: Option<u64>,
    /// Absent for a mint.
    pub gas_limit: Option<u64>,
    /// The serialized inputs.
    pub input: String,
    /// The serialized outputs.
    pub output: String,
    /// Key under which the script's bytecode is kept (the transaction's
    /// hash), where the script is not empty.
    pub script: Option<Bytes32>,
    /// Key under which the script's data is kept (the transaction's hash),
    /// where the data is not empty.
    pub script_data: Option<Bytes32>,
}

/// The row of a deployed contract. The bytecode is not held here: it is the
/// witness `bytecode_witness_index` of transaction `transaction_id`.
#[derive(Clone, Debug, PartialEq, Eq)]
pub struct Contract {
    pub contract_id: Bytes32,
    pub transaction_id: Bytes32,
    pub height: u64,
    pub sender: Option<Bytes32>,
    pub bytecode_witness_index: u8,
}

/// What a call row stands for.
#[derive(Clone, Copy, Debug, PartialEq, Eq)]
pub enum CallKind {
    /// A contract was invoked.
    Invocation,
    /// Value moved from one contract to another.
    Transfer,
    /// Value moved from a contract to an address.
    TransferOut,
}

/// The row of an invocation or of a value transfer.
#[derive(Clone, Debug, PartialEq, Eq)]
pub struct Call {
    /// Hash of the script transaction whose receipt this was.
    pub transaction_id: Bytes32,
    pub height: u64,
    pub kind: CallKind,
    /// Who signed the transaction, where an input says so.
    pub sender: Option<Bytes32>,
    /// The context the value leaves.
    pub from: Bytes32,
    /// The address that receives the value of a `TransferOut`.
    pub receiver: Option<Bytes32>,
    /// The contract invoked, or the one a `Transfer` pays.
    pub contract: Option<Bytes32>,
    pub amount: u64,
    pub asset_id: Bytes32,
}

/// One balance row: what `owner` holds of `asset_id` as transaction
/// `transaction_id` leaves it. The amount is counted from what the change
/// leaves untouched, so that the rows of a block can be made without
/// knowing what was held before it. A changed balance is never written
/// over: a row to delete names, by its owner and asset, the balance whose
/// stored rows are stale, and the row to insert beside it is the new row of
/// that balance.
#[derive(Clone, Debug, PartialEq, Eq)]
pub struct Asset {
    pub owner: Bytes32,
    pub asset_id: Bytes32,
    pub amount: u64,
    pub transaction_id: Bytes32,
    pub height: u64,
}

/// A participant, keyed by address.
#[derive(Clone, Debug, PartialEq, Eq)]
pub struct Account {
    pub address: Bytes32,
}

} // verus!
