//! What the chain node hands out, as plain values: headers, transaction
//! bodies and receipts, reduced to the fields that decoding reads.

use crate::bytes::Bytes32;
use vstd::prelude::*;

verus! {

/// The header of one block.
#[derive(Clone, Debug, PartialEq, Eq)]
pub struct Header {
    /// Hash that identifies the block.
    pub id: Bytes32,
    /// Height of the block on this chain.
    pub height: u64,
    /// Height of the settlement layer at the time of the block.
    pub da_height: u64,
    /// Time of the block, as the node reports it.
    pub time: u64,
}

/// One input of a transaction.
#[derive(Clone, Debug, PartialEq, Eq)]
pub enum Input {
    /// A coin spent under a signature; `owner` signed for it.
    CoinSigned { owner: Bytes32, amount: u64, asset_id: Bytes32 },
    /// A contract that the transaction touches.
    Contract { contract_id: Bytes32 },
    /// Any other input (predicates, messages).
    Other,
}

/// One output of a transaction.
#[derive(Clone, Debug, PartialEq, Eq)]
pub enum Output {
    /// A coin paid to `to`.
    Coin { to: Bytes32, amount: u64, asset_id: Bytes32 },
    /// Any other output (change, variable, contract state).
    Other,
}

/// The part of a transaction that depends on its kind.
#[derive(Clone, Debug, PartialEq, Eq)]
pub enum Payload {
    /// Deploys a contract whose bytecode is the witness at
    /// `bytecode_witness_index`.
    Create { gas_price: u64, gas_limit: u64, bytecode_witness_index: u8 },
    /// The system transaction that credits the block reward.
    Mint,
    /// Runs a script: a transfer or a contract invocation.
    Script { gas_price: u64, gas_limit: u64, script: Vec<u8>, script_data: Vec<u8> },
    /// A kind that this library does not know.
    Other,
}

/// A transaction body as the node returned it.
#[derive(Clone, Debug, PartialEq, Eq)]
pub struct TransactionResponse {
    pub payload: Payload,
    pub inputs: Vec<Input>,
    pub outputs: Vec<Output>,
    /// The inputs in serialized form, stored with the row as they are.
    pub input: String,
    /// The outputs in serialized form, stored with the row as they are.
    pub output: String,
}

/// One record of what a transaction did when it ran.
#[derive(Clone, Debug, PartialEq, Eq)]
pub enum Receipt {
    /// Contract `to` was invoked from context `id`, with `amount` forwarded.
    Call { id: Bytes32, to: Bytes32, amount: u64, asset_id: Bytes32 },
    /// Contract `id` moved `amount` to contract `to`.
    Transfer { id: Bytes32, to: Bytes32, amount: u64, asset_id: Bytes32 },
    /// Contract `id` moved `amount` out to address `to`.
    TransferOut { id: Bytes32, to: Bytes32, amount: u64, asset_id: Bytes32 },
    /// Any other receipt (returns, logs, results).
    Other,
}

/// One transaction of a block: its hash, its body and its receipts, each of
/// the two absent where the node had none.
pub type BlockBody = (Bytes32, Option<TransactionResponse>, Option<Vec<Receipt>>);

/// The transactions of one block, in the node's order.
pub type BlockBodies = Vec<BlockBody>;

/// A batch of blocks, ascending by height.
pub type Blocks = Vec<(Header, BlockBodies)>;

} // verus!
