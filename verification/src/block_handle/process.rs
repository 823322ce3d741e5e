//! The decoder: from a block's header and transactions to the rows that the
//! block is stored as.

use crate::bytes::Bytes32;
use crate::chain::{BlockBodies, BlockBody, Header, Input, Output, Payload, Receipt};
use crate::models::{
    Asset, Block, Call, CallKind, Coinbase, Contract, Transaction, TransactionKind,
};
use vstd::prelude::*;
use vstd::string::StringExecFns;

verus! {

/// Why a block cannot be decoded.
#[derive(Clone, Debug, PartialEq, Eq)]
pub enum ProcessError {
    /// The node had no body for the transaction with this hash.
    MissingTransaction(Bytes32),
    /// The transaction with this hash is of none of the three kinds that
    /// are stored.
    UnknownKind(Bytes32),
}

impl ProcessError {
    /// The error in words.
    pub open spec fn text(self) -> Seq<char> {
        match self {
            ProcessError::MissingTransaction(_) => "transaction body is missing"@,
            ProcessError::UnknownKind(_) => "unrecognized transaction kind"@,
        }
    }

    /// The error in words.
    pub fn message(&self) -> (text: String)
        ensures
            text@ == self.text(),
    {
        match self {
            ProcessError::MissingTransaction(_) => String::from_str("transaction body is missing"),
            ProcessError::UnknownKind(_) => String::from_str("unrecognized transaction kind"),
        }
    }
}

/// All the rows of one block: its block row, its coinbase, its transactions,
/// contracts and calls, and the balance rows to delete and to insert.
pub type BlockRows = (
    Block,
    Option<Coinbase>,
    Vec<Transaction>,
    Vec<Contract>,
    Vec<Call>,
    (Vec<Asset>, Vec<Asset>),
);

/// The owner of the last signed coin among the inputs.
pub open spec fn sender_of(inputs: Seq<Input>) -> Option<Bytes32>
    decreases inputs.len(),
{
    if inputs.len() == 0 {
        None
    } else {
        match inputs.last() {
            Input::CoinSigned { owner, .. } => Some(owner),
            _ => sender_of(inputs.drop_last()),
        }
    }
}

/// The contract of the last contract input.
pub open spec fn contract_of(inputs: Seq<Input>) -> Option<Bytes32>
    decreases inputs.len(),
{
    if inputs.len() == 0 {
        None
    } else {
        match inputs.last() {
            Input::Contract { contract_id } => Some(contract_id),
            _ => contract_of(inputs.drop_last()),
        }
    }
}

/// The last coin output: who is paid, how much, and of which asset.
pub open spec fn reward_of(outputs: Seq<Output>) -> Option<(Bytes32, u64, Bytes32)>
    decreases outputs.len(),
{
    if outputs.len() == 0 {
        None
    } else {
        match outputs.last() {
            Output::Coin { to, amount, asset_id } => Some((to, amount, asset_id)),
            _ => reward_of(outputs.drop_last()),
        }
    }
}

/// Why one transaction cannot be decoded, if it cannot.
pub open spec fn decode_failure(body: BlockBody) -> Option<ProcessError> {
    match body.1 {
        None => Some(ProcessError::MissingTransaction(body.0)),
        Some(tx) => match tx.payload {
            Payload::Other => Some(ProcessError::UnknownKind(body.0)),
            _ => None,
        },
    }
}

/// The failure of the first transaction of the block that cannot be decoded.
pub open spec fn first_decode_failure(bodies: Seq<BlockBody>) -> Option<ProcessError>
    decreases bodies.len(),
{
    if bodies.len() == 0 {
        None
    } else {
        match decode_failure(bodies[0]) {
            Some(e) => Some(e),
            None => first_decode_failure(bodies.drop_first()),
        }
    }
}

/// The row of a block.
pub open spec fn block_row(header: Header) -> Block {
    Block { id: header.id, height: header.height, da_height: header.da_height, time: header.time }
}

/// The row of a transaction that can be decoded.
pub open spec fn transaction_row(header: Header, body: BlockBody) -> Transaction {
    let tx = body.1->Some_0;
    Transaction {
        id: body.0,
        block_id: header.id,
        height: header.height,
        kind: match tx.payload {
            Payload::Create { .. } => TransactionKind::Create,
            Payload::Mint => TransactionKind::Mint,
            _ => TransactionKind::Script,
        },
        sender: match tx.payload {
            Payload::Mint => None,
            _ => sender_of(tx.inputs@),
        },
        gas_price: match tx.payload {
            Payload::Create { gas_price, .. } => Some(gas_price),
            Payload::Script { gas_price, .. } => Some(gas_price),
            _ => None,
        },
        gas_limit: match tx.payload {
            Payload::Create { gas_limit, .. } => Some(gas_limit),
            Payload::Script { gas_limit, .. } => Some(gas_limit),
            _ => None,
        },
        input: tx.input,
        output: tx.output,
        script: match tx.payload {
            Payload::Script { script, .. } => if script@.len() > 0 {
                Some(body.0)
            } else {
                None
            },
            _ => None,
        },
        script_data: match tx.payload {
            Payload::Script { script_data, .. } => if script_data@.len() > 0 {
                Some(body.0)
            } else {
                None
            },
            _ => None,
        },
    }
}

/// The transaction rows of a block: one per transaction, in the block's
/// order.
pub open spec fn transaction_rows(header: Header, bodies: Seq<BlockBody>) -> Seq<Transaction> {
    bodies.map_values(|body: BlockBody| transaction_row(header, body))
}

/// The contract row of a transaction: one where it is a `Create` with a
/// contract input, none otherwise.
pub open spec fn contract_rows_of(header: Header, body: BlockBody) -> Seq<Contract> {
    match body.1 {
        Some(tx) => match tx.payload {
            Payload::Create { bytecode_witness_index, .. } => match contract_of(tx.inputs@) {
                Some(contract_id) => seq![
                    Contract {
                        contract_id,
                        transaction_id: body.0,
                        height: header.height,
                        sender: sender_of(tx.inputs@),
                        bytecode_witness_index,
                    },
                ],
                None => Seq::empty(),
            },
            _ => Seq::empty(),
        },
        None => Seq::empty(),
    }
}

/// The contract rows of a block, in the block's order.
pub open spec fn contract_rows(header: Header, bodies: Seq<BlockBody>) -> Seq<Contract>
    decreases bodies.len(),
{
    if bodies.len() == 0 {
        Seq::empty()
    } else {
        contract_rows(header, bodies.drop_last()) + contract_rows_of(header, bodies.last())
    }
}

/// The coinbase that a transaction gives: one where it is a `Mint` with a
/// coin output, whose recipient is the receiver.
pub open spec fn coinbase_row_of(header: Header, body: BlockBody) -> Option<Coinbase> {
    match body.1 {
        Some(tx) => match tx.payload {
            Payload::Mint => match reward_of(tx.outputs@) {
                Some(reward) => Some(
                    Coinbase {
                        block_id: header.id,
                        height: header.height,
                        transaction_id: body.0,
                        receiver: reward.0,
                        amount: reward.1,
                        asset_id: reward.2,
                    },
                ),
                None => None,
            },
            _ => None,
        },
        None => None,
    }
}

/// The coinbase of a block: that of its last transaction that gives one.
pub open spec fn coinbase_row(header: Header, bodies: Seq<BlockBody>) -> Option<Coinbase>
    decreases bodies.len(),
{
    if bodies.len() == 0 {
        None
    } else {
        match coinbase_row_of(header, bodies.last()) {
            Some(c) => Some(c),
            None => coinbase_row(header, bodies.drop_last()),
        }
    }
}

/// The call row that a receipt gives, if it gives one, for a transaction
/// with hash `id` that `sender` signed.
pub open spec fn call_of(header: Header, id: Bytes32, sender: Option<Bytes32>, receipt: Receipt)
    -> Option<Call> {
    match receipt {
        Receipt::Call { id: from, to, amount, asset_id } => Some(
            Call {
                transaction_id: id,
                height: header.height,
                kind: CallKind::Invocation,
                sender,
                from,
                receiver: None,
                contract: Some(to),
                amount,
                asset_id,
            },
        ),
        Receipt::Transfer { id: from, to, amount, asset_id } => Some(
            Call {
                transaction_id: id,
                height: header.height,
                kind: CallKind::Transfer,
                sender,
                from,
                receiver: None,
                contract: Some(to),
                amount,
                asset_id,
            },
        ),
        Receipt::TransferOut { id: from, to, amount, asset_id } => Some(
            Call {
                transaction_id: id,
                height: header.height,
                kind: CallKind::TransferOut,
                sender,
                from,
                receiver: Some(to),
                contract: None,
                amount,
                asset_id,
            },
        ),
        Receipt::Other => None,
    }
}

/// The call rows of a transaction's receipts, in the receipts' order.
pub open spec fn calls_of_receipts(
    header: Header,
    id: Bytes32,
    sender: Option<Bytes32>,
    receipts: Seq<Receipt>,
) -> Seq<Call>
    decreases receipts.len(),
{
    if receipts.len() == 0 {
        Seq::empty()
    } else {
        let before = calls_of_receipts(header, id, sender, receipts.drop_last());
        match call_of(header, id, sender, receipts.last()) {
            Some(call) => before.push(call),
            None => before,
        }
    }
}

/// The call rows of a transaction: those of its receipts where it is a
/// `Script` that has receipts, none otherwise.
pub open spec fn calls_of(header: Header, body: BlockBody) -> Seq<Call> {
    match body.1 {
        Some(tx) => match tx.payload {
            Payload::Script { .. } => match body.2 {
                Some(receipts) => calls_of_receipts(
                    header,
                    body.0,
                    sender_of(tx.inputs@),
                    receipts@,
                ),
                None => Seq::empty(),
            },
            _ => Seq::empty(),
        },
        None => Seq::empty(),
    }
}

/// The call rows of a block, in the order of its transactions and, within
/// one, of its receipts.
pub open spec fn call_rows(header: Header, bodies: Seq<BlockBody>) -> Seq<Call>
    decreases bodies.len(),
{
    if bodies.len() == 0 {
        Seq::empty()
    } else {
        call_rows(header, bodies.drop_last()) + calls_of(header, bodies.last())
    }
}

/// Who holds the value after a call: the receiver, else the contract, else
/// the context it came from.
pub open spec fn payee(call: Call) -> Bytes32 {
    match call.receiver {
        Some(address) => address,
        None => match call.contract {
            Some(contract) => contract,
            None => call.from,
        },
    }
}

/// Whether a call changes balances: it moves an amount above zero, and not
/// to the context that the amount comes from.
pub open spec fn changes_balances(call: Call) -> bool {
    call.amount > 0 && call.from != payee(call)
}

/// The balance row of `owner` for the asset of a call, holding `amount`.
pub open spec fn balance_row(call: Call, owner: Bytes32, amount: u64) -> Asset {
    Asset {
        owner,
        asset_id: call.asset_id,
        amount,
        transaction_id: call.transaction_id,
        height: call.height,
    }
}

/// The two balance rows that a call makes stale, each counted from what the
/// call leaves untouched: the payer holds the amount, the payee nothing.
pub open spec fn stale_rows(call: Call) -> Seq<Asset> {
    seq![balance_row(call, call.from, call.amount), balance_row(call, payee(call), 0)]
}

/// The two balance rows that a call brings, for the same two owners in the
/// same order and counted in the same way: the payer holds nothing, the
/// payee the amount.
pub open spec fn fresh_rows(call: Call) -> Seq<Asset> {
    seq![balance_row(call, call.from, 0), balance_row(call, payee(call), call.amount)]
}

/// The balance rows to delete: the stale rows of each call that changes
/// balances, in the calls' order.
pub open spec fn asset_deletes(calls: Seq<Call>) -> Seq<Asset>
    decreases calls.len(),
{
    if calls.len() == 0 {
        Seq::empty()
    } else {
        let before = asset_deletes(calls.drop_last());
        if changes_balances(calls.last()) {
            before + stale_rows(calls.last())
        } else {
            before
        }
    }
}

/// The balance rows to insert: the fresh rows of each call that changes
/// balances, in the calls' order.
pub open spec fn asset_inserts(calls: Seq<Call>) -> Seq<Asset>
    decreases calls.len(),
{
    if calls.len() == 0 {
        Seq::empty()
    } else {
        let before = asset_inserts(calls.drop_last());
        if changes_balances(calls.last()) {
            before + fresh_rows(calls.last())
        } else {
            before
        }
    }
}

/// Whether the balance rows come in pairs: as many to insert as to delete,
/// and at each place the row to insert is the new row of the very balance
/// whose old row is deleted there: the same owner and the same asset, by
/// the same transaction.
pub open spec fn paired(deletes: Seq<Asset>, inserts: Seq<Asset>) -> bool {
    &&& deletes.len() == inserts.len()
    &&& forall|k: int|
        #![trigger deletes[k]]
        #![trigger inserts[k]]
        0 <= k < deletes.len() ==> {
            &&& inserts[k].owner == deletes[k].owner
            &&& inserts[k].asset_id == deletes[k].asset_id
            &&& inserts[k].transaction_id == deletes[k].transaction_id
            &&& inserts[k].height == deletes[k].height
        }
}

/// What decoding a block comes to: the failure of the first transaction that
/// cannot be decoded, or else all the rows.
pub open spec fn decoded(header: Header, bodies: Seq<BlockBody>, r: Result<BlockRows, ProcessError>)
    -> bool {
    match first_decode_failure(bodies) {
        Some(e) => r == Err::<BlockRows, _>(e),
        None => {
            &&& r is Ok
            &&& r->Ok_0.0 == block_row(header)
            &&& r->Ok_0.1 == coinbase_row(header, bodies)
            &&& r->Ok_0.2@ == transaction_rows(header, bodies)
            &&& r->Ok_0.3@ == contract_rows(header, bodies)
            &&& r->Ok_0.4@ == call_rows(header, bodies)
            &&& r->Ok_0.5.0@ == asset_deletes(r->Ok_0.4@)
            &&& r->Ok_0.5.1@ == asset_inserts(r->Ok_0.4@)
        },
    }
}

/// Where no transaction before `i` fails, the first failure is the first
/// one from `i` on.
proof fn lemma_first_decode_failure_skip(bodies: Seq<BlockBody>, i: int)
    requires
        0 <= i <= bodies.len(),
        forall|j: int| 0 <= j < i ==> decode_failure(#[trigger] bodies[j]) is None,
    ensures
        first_decode_failure(bodies) == first_decode_failure(bodies.skip(i)),
    decreases i,
{
    if i == 0 {
        assert(bodies.skip(0) =~= bodies);
    } else {
        let rest = bodies.drop_first();
        assert(decode_failure(bodies[0]) is None);
        assert forall|j: int| 0 <= j < i - 1 implies decode_failure(#[trigger] rest[j]) is None by {
            assert(rest[j] == bodies[j + 1]);
        }
        lemma_first_decode_failure_skip(rest, i - 1);
        assert(rest.skip(i - 1) =~= bodies.skip(i));
    }
}

/// The owner of the last signed coin among the inputs.
pub fn sender(inputs: &Vec<Input>) -> (found: Option<Bytes32>)
    ensures
        found == sender_of(inputs@),
{
    let mut found: Option<Bytes32> = None;
    let mut i: usize = 0;
    while i < inputs.len()
        invariant
            i <= inputs.len(),
            found == sender_of(inputs@.take(i as int)),
        decreases inputs.len() - i,
    {
        match &inputs[i] {
            Input::CoinSigned { owner, .. } => {
                found = Some(*owner);
            },
            _ => {},
        }
        proof {
            assert(inputs@.take(i + 1).drop_last() =~= inputs@.take(i as int));
        }
        i += 1;
    }
    proof {
        assert(inputs@.take(inputs.len() as int) =~= inputs@);
    }
    found
}

/// The contract of the last contract input.
pub fn deployed_contract(inputs: &Vec<Input>) -> (found: Option<Bytes32>)
    ensures
        found == contract_of(inputs@),
{
    let mut found: Option<Bytes32> = None;
    let mut i: usize = 0;
    while i < inputs.len()
        invariant
            i <= inputs.len(),
            found == contract_of(inputs@.take(i as int)),
        decreases inputs.len() - i,
    {
        match &inputs[i] {
            Input::Contract { contract_id } => {
                found = Some(*contract_id);
            },
            _ => {},
        }
        proof {
            assert(inputs@.take(i + 1).drop_last() =~= inputs@.take(i as int));
        }
        i += 1;
    }
    proof {
        assert(inputs@.take(inputs.len() as int) =~= inputs@);
    }
    found
}

/// The last coin output: who is paid, how much, and of which asset.
pub fn reward(outputs: &Vec<Output>) -> (found: Option<(Bytes32, u64, Bytes32)>)
    ensures
        found == reward_of(outputs@),
{
    let mut found: Option<(Bytes32, u64, Bytes32)> = None;
    let mut i: usize = 0;
    while i < outputs.len()
        invariant
            i <= outputs.len(),
            found == reward_of(outputs@.take(i as int)),
        decreases outputs.len() - i,
    {
        match &outputs[i] {
            Output::Coin { to, amount, asset_id } => {
                found = Some((*to, *amount, *asset_id));
            },
            _ => {},
        }
        proof {
            assert(outputs@.take(i + 1).drop_last() =~= outputs@.take(i as int));
        }
        i += 1;
    }
    proof {
        assert(outputs@.take(outputs.len() as int) =~= outputs@);
    }
    found
}

/// The call row that a receipt gives, if it gives one.
pub fn decode_receipt(header: &Header, id: Bytes32, sender: Option<Bytes32>, receipt: &Receipt)
    -> (call: Option<Call>)
    ensures
        call == call_of(*header, id, sender, *receipt),
{
    match receipt {
        Receipt::Call { id: from, to, amount, asset_id } => Some(
            Call {
                transaction_id: id,
                height: header.height,
                kind: CallKind::Invocation,
                sender,
                from: *from,
                receiver: None,
                contract: Some(*to),
                amount: *amount,
                asset_id: *asset_id,
            },
        ),
        Receipt::Transfer { id: from, to, amount, asset_id } => Some(
            Call {
                transaction_id: id,
                height: header.height,
                kind: CallKind::Transfer,
                sender,
                from: *from,
                receiver: None,
                contract: Some(*to),
                amount: *amount,
                asset_id: *asset_id,
            },
        ),
        Receipt::TransferOut { id: from, to, amount, asset_id } => Some(
            Call {
                transaction_id: id,
                height: header.height,
                kind: CallKind::TransferOut,
                sender,
                from: *from,
                receiver: Some(*to),
                contract: None,
                amount: *amount,
                asset_id: *asset_id,
            },
        ),
        Receipt::Other => None,
    }
}

/// Appends to `calls` the call rows of a transaction's receipts.
pub fn decode_receipts(
    header: &Header,
    id: Bytes32,
    sender: Option<Bytes32>,
    receipts: &Vec<Receipt>,
    calls: &mut Vec<Call>,
)
    ensures
        final(calls)@ == old(calls)@ + calls_of_receipts(*header, id, sender, receipts@),
{
    let mut i: usize = 0;
    while i < receipts.len()
        invariant
            i <= receipts.len(),
            calls@ == old(calls)@ + calls_of_receipts(
                *header,
                id,
                sender,
                receipts@.take(i as int),
            ),
        decreases receipts.len() - i,
    {
        proof {
            assert(receipts@.take(i + 1).drop_last() =~= receipts@.take(i as int));
        }
        match decode_receipt(header, id, sender, &receipts[i]) {
            Some(call) => {
                calls.push(call);
            },
            None => {},
        }
        i += 1;
    }
    proof {
        assert(receipts@.take(receipts.len() as int) =~= receipts@);
    }
}

/// The balance rows that the calls bring: first those to delete, then
/// those to insert. Each call that changes balances gives two rows of each,
/// one for the payer and one for the payee.
pub fn asset_delta(calls: &Vec<Call>) -> (delta: (Vec<Asset>, Vec<Asset>))
    ensures
        delta.0@ == asset_deletes(calls@),
        delta.1@ == asset_inserts(calls@),
        paired(delta.0@, delta.1@),
{
    let mut deletes: Vec<Asset> = Vec::new();
    let mut inserts: Vec<Asset> = Vec::new();
    let mut i: usize = 0;
    while i < calls.len()
        invariant
            i <= calls.len(),
            deletes@ == asset_deletes(calls@.take(i as int)),
            inserts@ == asset_inserts(calls@.take(i as int)),
        decreases calls.len() - i,
    {
        proof {
            assert(calls@.take(i + 1).drop_last() =~= calls@.take(i as int));
        }
        let call = &calls[i];
        let to = match call.receiver {
            Some(address) => address,
            None => match call.contract {
                Some(contract) => contract,
                None => call.from,
            },
        };
        if call.amount > 0 && !call.from.same(&to) {
            let ghost stale = deletes@;
            let ghost fresh = inserts@;
            deletes.push(balance(call, call.from, call.amount));
            deletes.push(balance(call, to, 0));
            inserts.push(balance(call, call.from, 0));
            inserts.push(balance(call, to, call.amount));
            proof {
                assert(deletes@ =~= stale + stale_rows(*call));
                assert(inserts@ =~= fresh + fresh_rows(*call));
            }
        }
        i += 1;
    }
    proof {
        assert(calls@.take(calls.len() as int) =~= calls@);
        lemma_asset_pairing(calls@);
    }
    (deletes, inserts)
}

/// The balance row of `owner` for the asset of a call, holding `amount`.
fn balance(call: &Call, owner: Bytes32, amount: u64) -> (row: Asset)
    ensures
        row == balance_row(*call, owner, amount),
{
    Asset {
        owner,
        asset_id: call.asset_id,
        amount,
        transaction_id: call.transaction_id,
        height: call.height,
    }
}

/// Decodes one block.
///
/// The block fails as a whole on its first transaction that has no body or
/// is of none of the three kinds. Otherwise: the block row copies the
/// header; every transaction gives a transaction row; a `Create` with a
/// contract input gives a contract row; a `Mint` with a coin output gives
/// the coinbase; each receipt of a `Script` that is an invocation or a
/// transfer gives a call row; and each call row that changes balances
/// gives, for the payer and for the payee, one balance row to delete and
/// one to insert for the same owner and asset.
pub fn process(header: &Header, bodies: &BlockBodies) -> (r: Result<BlockRows, ProcessError>)
    ensures
        decoded(*header, bodies@, r),
        r is Ok ==> paired(r->Ok_0.5.0@, r->Ok_0.5.1@),
{
    let block = Block {
        id: header.id,
        height: header.height,
        da_height: header.da_height,
        time: header.time,
    };
    let mut coinbase: Option<Coinbase> = None;
    let mut transactions: Vec<Transaction> = Vec::new();
    let mut contracts: Vec<Contract> = Vec::new();
    let mut calls: Vec<Call> = Vec::new();
    let mut i: usize = 0;
    while i < bodies.len()
        invariant
            i <= bodies.len(),
            forall|j: int| 0 <= j < i ==> decode_failure(#[trigger] bodies@[j]) is None,
            coinbase == coinbase_row(*header, bodies@.take(i as int)),
            transactions@.len() == i,
            forall|j: int|
                0 <= j < i ==> #[trigger] transactions@[j] == transaction_row(*header, bodies@[j]),
            contracts@ == contract_rows(*header, bodies@.take(i as int)),
            calls@ == call_rows(*header, bodies@.take(i as int)),
        decreases bodies.len() - i,
    {
        proof {
            lemma_first_decode_failure_skip(bodies@, i as int);
            assert(bodies@.skip(i as int)[0] == bodies@[i as int]);
            assert(bodies@.take(i + 1).drop_last() =~= bodies@.take(i as int));
        }
        let body = &bodies[i];
        let id = body.0;
        let tx = match &body.1 {
            Some(tx) => tx,
            None => {
                return Err(ProcessError::MissingTransaction(id));
            },
        };
        match &tx.payload {
            Payload::Other => {
                return Err(ProcessError::UnknownKind(id));
            },
            Payload::Create { gas_price, gas_limit, bytecode_witness_index } => {
                let from = sender(&tx.inputs);
                transactions.push(
                    Transaction {
                        id,
                        block_id: header.id,
                        height: header.height,
                        kind: TransactionKind::Create,
                        sender: from,
                        gas_price: Some(*gas_price),
                        gas_limit: Some(*gas_limit),
                        input: tx.input.clone(),
                        output: tx.output.clone(),
                        script: None,
                        script_data: None,
                    },
                );
                match deployed_contract(&tx.inputs) {
                    Some(contract_id) => {
                        contracts.push(
                            Contract {
                                contract_id,
                                transaction_id: id,
                                height: header.height,
                                sender: from,
                                bytecode_witness_index: *bytecode_witness_index,
                            },
                        );
                    },
                    None => {},
                }
            },
            Payload::Mint => {
                transactions.push(
                    Transaction {
                        id,
                        block_id: header.id,
                        height: header.height,
                        kind: TransactionKind::Mint,
                        sender: None,
                        gas_price: None,
                        gas_limit: None,
                        input: tx.input.clone(),
                        output: tx.output.clone(),
                        script: None,
                        script_data: None,
                    },
                );
                match reward(&tx.outputs) {
                    Some(paid) => {
                        coinbase = Some(
                            Coinbase {
                                block_id: header.id,
                                height: header.height,
                                transaction_id: id,
                                receiver: paid.0,
                                amount: paid.1,
                                asset_id: paid.2,
                            },
                        );
                    },
                    None => {},
                }
            },
            Payload::Script { gas_price, gas_limit, script, script_data } => {
                let from = sender(&tx.inputs);
                transactions.push(
                    Transaction {
                        id,
                        block_id: header.id,
                        height: header.height,
                        kind: TransactionKind::Script,
                        sender: from,
                        gas_price: Some(*gas_price),
                        gas_limit: Some(*gas_limit),
                        input: tx.input.clone(),
                        output: tx.output.clone(),
                        script: if script.len() > 0 {
                            Some(id)
                        } else {
                            None
                        },
                        script_data: if script_data.len() > 0 {
                            Some(id)
                        } else {
                            None
                        },
                    },
                );
                match &body.2 {
                    Some(receipts) => {
                        decode_receipts(header, id, from, receipts, &mut calls);
                    },
                    None => {},
                }
            },
        }
        i += 1;
    }
    proof {
        lemma_first_decode_failure_skip(bodies@, bodies@.len() as int);
        assert(bodies@.take(bodies@.len() as int) =~= bodies@);
        assert(transactions@ =~= transaction_rows(*header, bodies@));
    }
    let delta = asset_delta(&calls);
    Ok((block, coinbase, transactions, contracts, calls, delta))
}

/// No balance row is deleted alone. The rows come in pairs: at each place
/// the row to insert is for the owner and the asset of the row to delete.
/// Each call that changes balances gives two pairs, so that the value that
/// leaves the first owner is the value that reaches the second: what the
/// two rows to delete hold together, the two rows to insert hold together.
pub proof fn lemma_asset_pairing(calls: Seq<Call>)
    ensures
        paired(asset_deletes(calls), asset_inserts(calls)),
        asset_deletes(calls).len() % 2 == 0,
        asset_deletes(calls).len() <= 2 * calls.len(),
        forall|k: int|
            #![trigger asset_deletes(calls)[2 * k]]
            0 <= k && 2 * k + 1 < asset_deletes(calls).len() ==> {
                &&& asset_deletes(calls)[2 * k].owner != asset_deletes(calls)[2 * k + 1].owner
                &&& asset_deletes(calls)[2 * k].asset_id == asset_deletes(calls)[2 * k
                    + 1].asset_id
                &&& asset_deletes(calls)[2 * k].amount + asset_deletes(calls)[2 * k + 1].amount
                    == asset_inserts(calls)[2 * k].amount + asset_inserts(calls)[2 * k + 1].amount
                &&& asset_deletes(calls)[2 * k].amount > 0
                &&& asset_inserts(calls)[2 * k + 1].amount == asset_deletes(calls)[2 * k].amount
            },
    decreases calls.len(),
{
    if calls.len() > 0 {
        let front = calls.drop_last();
        lemma_asset_pairing(front);
        let deletes = asset_deletes(calls);
        let inserts = asset_inserts(calls);
        let n = asset_deletes(front).len() as int;
        assert forall|k: int| 0 <= k < deletes.len() implies {
            &&& (#[trigger] inserts[k]).owner == deletes[k].owner
            &&& inserts[k].asset_id == deletes[k].asset_id
            &&& inserts[k].transaction_id == deletes[k].transaction_id
            &&& inserts[k].height == deletes[k].height
        } by {
            if k < n {
                assert(deletes[k] == asset_deletes(front)[k]);
                assert(inserts[k] == asset_inserts(front)[k]);
            } else {
                assert(deletes[k] == stale_rows(calls.last())[k - n]);
                assert(inserts[k] == fresh_rows(calls.last())[k - n]);
            }
        }
        assert forall|k: int| 0 <= k && 2 * k + 1 < deletes.len() implies {
            &&& (#[trigger] deletes[2 * k]).owner != deletes[2 * k + 1].owner
            &&& deletes[2 * k].asset_id == deletes[2 * k + 1].asset_id
            &&& deletes[2 * k].amount + deletes[2 * k + 1].amount == inserts[2 * k].amount
                + inserts[2 * k + 1].amount
            &&& deletes[2 * k].amount > 0
            &&& inserts[2 * k + 1].amount == deletes[2 * k].amount
        } by {
            if 2 * k + 1 < n {
                assert(deletes[2 * k] == asset_deletes(front)[2 * k]);
                assert(deletes[2 * k + 1] == asset_deletes(front)[2 * k + 1]);
                assert(inserts[2 * k] == asset_inserts(front)[2 * k]);
                assert(inserts[2 * k + 1] == asset_inserts(front)[2 * k + 1]);
            } else {
                assert(2 * k == n);
                assert(deletes[2 * k] == stale_rows(calls.last())[0]);
                assert(deletes[2 * k + 1] == stale_rows(calls.last())[1]);
                assert(inserts[2 * k] == fresh_rows(calls.last())[0]);
                assert(inserts[2 * k + 1] == fresh_rows(calls.last())[1]);
            }
        }
    }
}

/// The kind of a transaction that can be decoded.
pub open spec fn kind_of(body: BlockBody) -> Option<TransactionKind> {
    match body.1 {
        Some(tx) => match tx.payload {
            Payload::Create { .. } => Some(TransactionKind::Create),
            Payload::Mint => Some(TransactionKind::Mint),
            Payload::Script { .. } => Some(TransactionKind::Script),
            Payload::Other => None,
        },
        None => None,
    }
}

/// Whether the block holds a transaction of this kind with this hash.
pub open spec fn holds_kind(bodies: Seq<BlockBody>, id: Bytes32, kind: TransactionKind) -> bool {
    exists|i: int|
        0 <= i < bodies.len() && (#[trigger] bodies[i]).0 == id && kind_of(bodies[i]) == Some(kind)
}

/// Every call row of a transaction's receipts names that transaction.
proof fn lemma_calls_name_their_transaction(
    header: Header,
    id: Bytes32,
    sender: Option<Bytes32>,
    receipts: Seq<Receipt>,
)
    ensures
        forall|k: int|
            0 <= k < calls_of_receipts(header, id, sender, receipts).len() ==> (
            #[trigger] calls_of_receipts(header, id, sender, receipts)[k]).transaction_id == id,
        calls_of_receipts(header, id, sender, receipts).len() <= receipts.len(),
    decreases receipts.len(),
{
    if receipts.len() > 0 {
        lemma_calls_name_their_transaction(header, id, sender, receipts.drop_last());
    }
}

/// A transaction found in the front of a block is found in the block.
proof fn lemma_holds_kind_grows(bodies: Seq<BlockBody>, id: Bytes32, kind: TransactionKind)
    requires
        bodies.len() > 0,
        holds_kind(bodies.drop_last(), id, kind),
    ensures
        holds_kind(bodies, id, kind),
{
    let front = bodies.drop_last();
    let i = choose|i: int|
        0 <= i < front.len() && (#[trigger] front[i]).0 == id && kind_of(front[i]) == Some(kind);
    assert(bodies[i] == front[i]);
}

/// Each row comes from a transaction of its kind: a contract row from a
/// `Create`, a call row from a `Script`, the coinbase from a `Mint`, each
/// naming the transaction by its hash. A transaction gives at most one
/// contract row.
pub proof fn lemma_rows_come_from_their_kind(header: Header, bodies: Seq<BlockBody>)
    ensures
        forall|k: int|
            0 <= k < contract_rows(header, bodies).len() ==> holds_kind(
                bodies,
                (#[trigger] contract_rows(header, bodies)[k]).transaction_id,
                TransactionKind::Create,
            ),
        forall|k: int|
            0 <= k < call_rows(header, bodies).len() ==> holds_kind(
                bodies,
                (#[trigger] call_rows(header, bodies)[k]).transaction_id,
                TransactionKind::Script,
            ),
        coinbase_row(header, bodies) is Some ==> holds_kind(
            bodies,
            coinbase_row(header, bodies)->Some_0.transaction_id,
            TransactionKind::Mint,
        ),
        contract_rows(header, bodies).len() <= bodies.len(),
    decreases bodies.len(),
{
    if bodies.len() > 0 {
        let front = bodies.drop_last();
        let last = bodies.last();
        lemma_rows_come_from_their_kind(header, front);
        assert(bodies[bodies.len() - 1] == last);
        let contracts = contract_rows(header, bodies);
        assert forall|k: int| 0 <= k < contracts.len() implies holds_kind(
            bodies,
            (#[trigger] contracts[k]).transaction_id,
            TransactionKind::Create,
        ) by {
            if k < contract_rows(header, front).len() {
                assert(contracts[k] == contract_rows(header, front)[k]);
                lemma_holds_kind_grows(bodies, contracts[k].transaction_id, TransactionKind::Create);
            } else {
                assert(contracts[k] == contract_rows_of(header, last)[k - contract_rows(
                    header,
                    front,
                ).len()]);
            }
        }
        let calls = call_rows(header, bodies);
        assert forall|k: int| 0 <= k < calls.len() implies holds_kind(
            bodies,
            (#[trigger] calls[k]).transaction_id,
            TransactionKind::Script,
        ) by {
            if k < call_rows(header, front).len() {
                assert(calls[k] == call_rows(header, front)[k]);
                lemma_holds_kind_grows(bodies, calls[k].transaction_id, TransactionKind::Script);
            } else {
                let j = k - call_rows(header, front).len();
                assert(calls[k] == calls_of(header, last)[j]);
                if last.1 is Some && last.1->Some_0.payload is Script && last.2 is Some {
                    lemma_calls_name_their_transaction(
                        header,
                        last.0,
                        sender_of(last.1->Some_0.inputs@),
                        last.2->Some_0@,
                    );
                }
            }
        }
        if coinbase_row(header, bodies) is Some {
            if coinbase_row_of(header, last) is Some {
            } else {
                lemma_holds_kind_grows(
                    bodies,
                    coinbase_row(header, bodies)->Some_0.transaction_id,
                    TransactionKind::Mint,
                );
            }
        }
    }
}

} // verus!
