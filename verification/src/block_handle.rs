//! The persister: what is written for a block, in which order, and what
//! follows each outcome. The connection, the transaction and the writes
//! themselves are the caller's, and so are the channel and the sleeps.

pub mod account;
pub mod process;
pub mod transactions;

use crate::block_handle::account::{account_rows, process_account};
use crate::block_handle::process::{
    asset_deletes, asset_inserts, block_row, call_rows, coinbase_row, contract_rows,
    first_decode_failure, lemma_asset_pairing, paired, process, transaction_rows, ProcessError,
};
use crate::chain::{BlockBodies, BlockBody, Blocks, Header};
use crate::models::{Account, Asset, Block, Call, Coinbase, Contract, Transaction};
use vstd::prelude::*;
use vstd::string::StringExecFns;

verus! {

/// The chain that is indexed.
pub const CHAIN_ID: u64 = 0;

/// How long to wait, in milliseconds, before a block that failed is tried
/// again.
pub const RETRY_DELAY_MILLIS: u64 = 1000;

/// Why the attempt to store a block failed. Each text is the message of
/// what failed underneath.
#[derive(Debug, PartialEq, Eq)]
pub enum BlockHandlerError {
    /// The block row or the coinbase row was refused.
    InsertHeaderDb(String),
    /// The transaction rows were refused.
    InsertTransactionDb(String),
    /// The contract rows were refused.
    InsertContract(String),
    /// The call rows were refused.
    InsertCalls(String),
    /// The balance rows, to delete or to insert, were refused.
    InsertAssets(String),
    /// The account rows were refused.
    InsertAccounts(String),
    /// The transaction itself failed, at its start or at its commit.
    InsertDb(String),
    /// No connection could be had from the pool.
    GetPgSqlPoolFailed(String),
    /// The block could not be decoded.
    DataProcessError(String),
}

impl BlockHandlerError {
    /// What the error says before the message it holds.
    pub open spec fn headline(self) -> Seq<char> {
        match self {
            BlockHandlerError::InsertHeaderDb(_) => "failed to insert header into db: "@,
            BlockHandlerError::InsertTransactionDb(_) => "failed to insert transaction into db: "@,
            BlockHandlerError::InsertContract(_) => "insert contracts failed: "@,
            BlockHandlerError::InsertCalls(_) => "insert calls failed: "@,
            BlockHandlerError::InsertAssets(_) => "insert assets failed: "@,
            BlockHandlerError::InsertAccounts(_) => "insert accounts failed: "@,
            BlockHandlerError::InsertDb(_) => "failed to insert into db: "@,
            BlockHandlerError::GetPgSqlPoolFailed(_) => "failed to insert into db: "@,
            BlockHandlerError::DataProcessError(_) => "process data error: "@,
        }
    }

    /// The message that the error holds.
    pub open spec fn cause(self) -> Seq<char> {
        match self {
            BlockHandlerError::InsertHeaderDb(text) => text@,
            BlockHandlerError::InsertTransactionDb(text) => text@,
            BlockHandlerError::InsertContract(text) => text@,
            BlockHandlerError::InsertCalls(text) => text@,
            BlockHandlerError::InsertAssets(text) => text@,
            BlockHandlerError::InsertAccounts(text) => text@,
            BlockHandlerError::InsertDb(text) => text@,
            BlockHandlerError::GetPgSqlPoolFailed(text) => text@,
            BlockHandlerError::DataProcessError(text) => text@,
        }
    }

    /// The error in words: the headline, then the message it holds.
    pub fn message(&self) -> (text: String)
        ensures
            text@ == self.headline() + self.cause(),
    {
        let (headline, cause) = match self {
            BlockHandlerError::InsertHeaderDb(text) => ("failed to insert header into db: ", text),
            BlockHandlerError::InsertTransactionDb(text) => (
                "failed to insert transaction into db: ",
                text,
            ),
            BlockHandlerError::InsertContract(text) => ("insert contracts failed: ", text),
            BlockHandlerError::InsertCalls(text) => ("insert calls failed: ", text),
            BlockHandlerError::InsertAssets(text) => ("insert assets failed: ", text),
            BlockHandlerError::InsertAccounts(text) => ("insert accounts failed: ", text),
            BlockHandlerError::InsertDb(text) => ("failed to insert into db: ", text),
            BlockHandlerError::GetPgSqlPoolFailed(text) => ("failed to insert into db: ", text),
            BlockHandlerError::DataProcessError(text) => ("process data error: ", text),
        };
        let mut text = String::from_str(headline);
        text.append(cause.as_str());
        text
    }
}

#[verifier::external_type_specification]
#[verifier::external_body]
pub struct ExDieselError(diesel::result::Error);

/// The message of a database error: what diesel's `Display` writes for it.
pub uninterp spec fn diesel_error_text(e: diesel::result::Error) -> Seq<char>;

/// Calls `to_string` on a `diesel::result::Error`, which goes through
/// diesel's `Display` for it. The contract only gives that text its name.
#[verifier::external_body]
fn diesel_error_message(e: &diesel::result::Error) -> (text: String)
    ensures
        text@ == diesel_error_text(*e),
{
    e.to_string()
}

impl From<diesel::result::Error> for BlockHandlerError {
    /// The error that a failure of the transaction itself gives: `InsertDb`
    /// with the database error's message.
    fn from(e: diesel::result::Error) -> (r: BlockHandlerError)
        ensures
            r is InsertDb,
            r->InsertDb_0@ == diesel_error_text(e),
    {
        BlockHandlerError::InsertDb(diesel_error_message(&e))
    }
}

impl vstd::std_specs::convert::FromSpecImpl<diesel::result::Error> for BlockHandlerError {
    open spec fn obeys_from_spec() -> bool {
        false
    }

    open spec fn from_spec(e: diesel::result::Error) -> BlockHandlerError {
        arbitrary()
    }
}

/// One write of the transaction that stores a block.
#[derive(Clone, Copy, Debug, PartialEq, Eq)]
pub enum WriteStep {
    InsertBlock,
    InsertCoinbase,
    InsertTransactions,
    InsertContracts,
    InsertCalls,
    DeleteAssets,
    InsertAssets,
    InsertAccounts,
}

/// The writes for a block, in the order in which they are made. The
/// coinbase is written only where the block has one.
pub open spec fn write_steps(has_coinbase: bool) -> Seq<WriteStep> {
    if has_coinbase {
        seq![
            WriteStep::InsertBlock,
            WriteStep::InsertCoinbase,
            WriteStep::InsertTransactions,
            WriteStep::InsertContracts,
            WriteStep::InsertCalls,
            WriteStep::DeleteAssets,
            WriteStep::InsertAssets,
            WriteStep::InsertAccounts,
        ]
    } else {
        seq![
            WriteStep::InsertBlock,
            WriteStep::InsertTransactions,
            WriteStep::InsertContracts,
            WriteStep::InsertCalls,
            WriteStep::DeleteAssets,
            WriteStep::InsertAssets,
            WriteStep::InsertAccounts,
        ]
    }
}

/// The error that a refused write gives.
pub open spec fn step_failure(step: WriteStep, text: String) -> BlockHandlerError {
    match step {
        WriteStep::InsertBlock => BlockHandlerError::InsertHeaderDb(text),
        WriteStep::InsertCoinbase => BlockHandlerError::InsertHeaderDb(text),
        WriteStep::InsertTransactions => BlockHandlerError::InsertTransactionDb(text),
        WriteStep::InsertContracts => BlockHandlerError::InsertContract(text),
        WriteStep::InsertCalls => BlockHandlerError::InsertCalls(text),
        WriteStep::DeleteAssets => BlockHandlerError::InsertAssets(text),
        WriteStep::InsertAssets => BlockHandlerError::InsertAssets(text),
        WriteStep::InsertAccounts => BlockHandlerError::InsertAccounts(text),
    }
}

/// The error that a refused write gives; `text` is the database's message.
pub fn step_error(step: WriteStep, text: String) -> (e: BlockHandlerError)
    ensures
        e == step_failure(step, text),
{
    match step {
        WriteStep::InsertBlock => BlockHandlerError::InsertHeaderDb(text),
        WriteStep::InsertCoinbase => BlockHandlerError::InsertHeaderDb(text),
        WriteStep::InsertTransactions => BlockHandlerError::InsertTransactionDb(text),
        WriteStep::InsertContracts => BlockHandlerError::InsertContract(text),
        WriteStep::InsertCalls => BlockHandlerError::InsertCalls(text),
        WriteStep::DeleteAssets => BlockHandlerError::InsertAssets(text),
        WriteStep::InsertAssets => BlockHandlerError::InsertAssets(text),
        WriteStep::InsertAccounts => BlockHandlerError::InsertAccounts(text),
    }
}

/// All that is written for one block.
#[derive(Debug)]
pub struct WriteSet {
    pub block: Block,
    pub coinbase: Option<Coinbase>,
    pub transactions: Vec<Transaction>,
    pub contracts: Vec<Contract>,
    pub calls: Vec<Call>,
    pub assets_delete: Vec<Asset>,
    pub assets_insert: Vec<Asset>,
    pub accounts: Vec<Account>,
}

impl WriteSet {
    /// Whether these are the rows of the block: the decoded rows, and the
    /// accounts of its calls.
    pub open spec fn holds(self, header: Header, bodies: Seq<BlockBody>) -> bool {
        &&& self.block == block_row(header)
        &&& self.coinbase == coinbase_row(header, bodies)
        &&& self.transactions@ == transaction_rows(header, bodies)
        &&& self.contracts@ == contract_rows(header, bodies)
        &&& self.calls@ == call_rows(header, bodies)
        &&& self.assets_delete@ == asset_deletes(self.calls@)
        &&& self.assets_insert@ == asset_inserts(self.calls@)
        &&& self.accounts@ == account_rows(self.calls@)
    }

    /// Decodes the block and derives its accounts. Fails where decoding
    /// fails, with the same error.
    pub fn prepare(header: &Header, bodies: &BlockBodies) -> (r: Result<WriteSet, ProcessError>)
        ensures
            match first_decode_failure(bodies@) {
                Some(e) => r == Err::<WriteSet, _>(e),
                None => r is Ok && r->Ok_0.holds(*header, bodies@),
            },
            r is Ok ==> paired(r->Ok_0.assets_delete@, r->Ok_0.assets_insert@),
    {
        match process(header, bodies) {
            Err(e) => Err(e),
            Ok(rows) => {
                let (block, coinbase, transactions, contracts, calls, delta) = rows;
                let (assets_delete, assets_insert) = delta;
                let accounts = process_account(&calls);
                Ok(
                    WriteSet {
                        block,
                        coinbase,
                        transactions,
                        contracts,
                        calls,
                        assets_delete,
                        assets_insert,
                        accounts,
                    },
                )
            },
        }
    }

    /// The writes to make for these rows, in order.
    pub fn steps(&self) -> (steps: Vec<WriteStep>)
        ensures
            steps@ == write_steps(self.coinbase is Some),
    {
        let mut steps: Vec<WriteStep> = Vec::new();
        steps.push(WriteStep::InsertBlock);
        if self.coinbase.is_some() {
            steps.push(WriteStep::InsertCoinbase);
        }
        steps.push(WriteStep::InsertTransactions);
        steps.push(WriteStep::InsertContracts);
        steps.push(WriteStep::InsertCalls);
        steps.push(WriteStep::DeleteAssets);
        steps.push(WriteStep::InsertAssets);
        steps.push(WriteStep::InsertAccounts);
        proof {
            assert(steps@ =~= write_steps(self.coinbase is Some));
        }
        steps
    }
}

/// What to do next inside the transaction of an attempt.
#[derive(Clone, Copy, Debug, PartialEq, Eq)]
pub enum WriteAction {
    /// Make this write.
    Run(WriteStep),
    /// Every write was made: commit.
    Commit,
    /// A write was refused: leave the transaction without committing.
    Rollback,
}

/// One attempt to store one block, inside one transaction: the rows, and
/// how far the writes have come.
#[derive(Debug)]
pub struct Attempt {
    rows: WriteSet,
    steps: Vec<WriteStep>,
    done: usize,
    failed: bool,
}

/// What an [`Attempt`] stands for.
pub struct AttemptState {
    /// The rows to write.
    pub rows: WriteSet,
    /// The writes to make, in order.
    pub steps: Seq<WriteStep>,
    /// How many of them have been made.
    pub done: nat,
    /// Whether a write was refused.
    pub failed: bool,
}

impl AttemptState {
    /// What to do next.
    pub open spec fn action(self) -> WriteAction {
        if self.failed {
            WriteAction::Rollback
        } else if self.done < self.steps.len() {
            WriteAction::Run(self.steps[self.done as int])
        } else {
            WriteAction::Commit
        }
    }

    /// The attempt once the outcome of the write asked for is known. An
    /// outcome that comes when no write was asked for changes nothing.
    pub open spec fn recorded(self, outcome: Result<(), String>) -> AttemptState {
        if self.action() is Run {
            match outcome {
                Ok(_) => AttemptState { done: self.done + 1, ..self },
                Err(_) => AttemptState { failed: true, ..self },
            }
        } else {
            self
        }
    }

    /// What the outcome of the write asked for means for the attempt: the
    /// error of the write that was refused, or nothing.
    pub open spec fn verdict(self, outcome: Result<(), String>) -> Result<(), BlockHandlerError> {
        match outcome {
            Err(text) if self.action() is Run => Err(
                step_failure(self.steps[self.done as int], text),
            ),
            _ => Ok(()),
        }
    }

    /// The writes that last when the transaction is ended as
    /// [`AttemptState::action`] says: all of them after a commit, none of
    /// them otherwise.
    pub open spec fn kept(self) -> Seq<WriteStep> {
        if self.action() is Commit {
            self.steps
        } else {
            Seq::empty()
        }
    }
}

impl View for Attempt {
    type V = AttemptState;

    closed spec fn view(&self) -> AttemptState {
        AttemptState {
            rows: self.rows,
            steps: self.steps@,
            done: self.done as nat,
            failed: self.failed,
        }
    }
}

impl Attempt {
    #[verifier::type_invariant]
    spec fn well_formed(&self) -> bool {
        &&& self.steps@ == write_steps(self.rows.coinbase is Some)
        &&& self.done <= self.steps@.len()
    }

    /// The rows to write.
    pub fn rows(&self) -> (rows: &WriteSet)
        ensures
            *rows == self@.rows,
    {
        &self.rows
    }

    /// What to do next.
    pub fn action(&self) -> (action: WriteAction)
        ensures
            action == self@.action(),
            self@.steps == write_steps(self@.rows.coinbase is Some),
            self@.done <= self@.steps.len(),
    {
        proof {
            use_type_invariant(self);
        }
        if self.failed {
            WriteAction::Rollback
        } else if self.done < self.steps.len() {
            WriteAction::Run(self.steps[self.done])
        } else {
            WriteAction::Commit
        }
    }

    /// Takes the outcome of the write that [`Attempt::action`] asked for;
    /// `Err` holds the database's message. A write that went through moves
    /// the attempt on by one. A write that was refused ends the attempt:
    /// from then on the action is `Rollback`, and the error of that write
    /// comes back.
    pub fn record(&mut self, outcome: Result<(), String>) -> (r: Result<(), BlockHandlerError>)
        ensures
            final(self)@ == old(self)@.recorded(outcome),
            r == old(self)@.verdict(outcome),
    {
        proof {
            use_type_invariant(&*self);
        }
        if self.failed || self.done >= self.steps.len() {
            return Ok(());
        }
        match outcome {
            Ok(_) => {
                self.done = self.done + 1;
                Ok(())
            },
            Err(text) => {
                self.failed = true;
                Err(step_error(self.steps[self.done], text))
            },
        }
    }
}

/// The phases of the persister.
#[derive(Clone, Copy, Debug, PartialEq, Eq)]
pub enum Phase {
    /// No block in hand: waiting for the next batch or for shutdown.
    Idle,
    /// A block of the batch is being attempted.
    Writing,
    /// The attempt failed: waiting before the same block is tried again.
    Backoff,
    /// Shutdown was seen: nothing more is taken.
    Stopped,
}

/// What the caller does next.
#[derive(Clone, Copy, Debug, PartialEq, Eq)]
pub enum HandlerAction {
    /// Wait for the next batch or for shutdown, whichever comes first.
    Receive,
    /// Attempt the block at this place of the batch: see
    /// [`BlockHandler::current`] and [`BlockHandler::insert_header_and_txs`].
    Attempt { index: usize },
    /// Sleep that long.
    Sleep { millis: u64 },
    /// Return.
    Stop,
}

/// What happened.
#[derive(Debug)]
pub enum HandlerEvent {
    /// A batch arrived.
    Received(Blocks),
    /// Shutdown was requested.
    Shutdown,
    /// The attempt that was asked for has ended: committed, or failed.
    Attempted(Result<(), BlockHandlerError>),
    /// The sleep that was asked for is over.
    Slept,
}

/// The persister's state: the batch in hand, the place of the block that
/// is next to be committed, and the phase.
#[derive(Debug)]
pub struct BlockHandler {
    batch: Blocks,
    position: usize,
    phase: Phase,
}

/// What a [`BlockHandler`] stands for.
pub struct HandlerState {
    /// The batch in hand.
    pub batch: Seq<(Header, BlockBodies)>,
    /// How many blocks of the batch have been committed.
    pub position: nat,
    pub phase: Phase,
}

impl HandlerState {
    /// Whether a block is in hand in every phase that works on one.
    pub open spec fn well_formed(self) -> bool {
        &&& self.position <= self.batch.len()
        &&& (self.phase is Writing || self.phase is Backoff) ==> self.position < self.batch.len()
    }

    /// What the phase calls for.
    pub open spec fn action(self) -> HandlerAction {
        match self.phase {
            Phase::Idle => HandlerAction::Receive,
            Phase::Writing => HandlerAction::Attempt { index: self.position as usize },
            Phase::Backoff => HandlerAction::Sleep { millis: RETRY_DELAY_MILLIS },
            Phase::Stopped => HandlerAction::Stop,
        }
    }

    /// The state after an event. An event that the phase does not wait for
    /// changes nothing.
    ///
    /// Waiting, a batch that is not empty starts the writing at its first
    /// block, and shutdown stops. Writing, a committed attempt moves to the
    /// next block of the batch, or back to waiting after the last one, and
    /// a failed attempt leads to the pause. After the pause the same block
    /// is attempted again. Once stopped, nothing changes.
    pub open spec fn next(self, event: HandlerEvent) -> HandlerState {
        match self.phase {
            Phase::Idle => match event {
                HandlerEvent::Received(blocks) => if blocks@.len() > 0 {
                    HandlerState { batch: blocks@, position: 0, phase: Phase::Writing }
                } else {
                    self
                },
                HandlerEvent::Shutdown => HandlerState { phase: Phase::Stopped, ..self },
                _ => self,
            },
            Phase::Writing => match event {
                HandlerEvent::Attempted(Ok(_)) => HandlerState {
                    position: self.position + 1,
                    phase: if self.position + 1 < self.batch.len() {
                        Phase::Writing
                    } else {
                        Phase::Idle
                    },
                    ..self
                },
                HandlerEvent::Attempted(Err(_)) => HandlerState { phase: Phase::Backoff, ..self },
                _ => self,
            },
            Phase::Backoff => match event {
                HandlerEvent::Slept => HandlerState { phase: Phase::Writing, ..self },
                _ => self,
            },
            Phase::Stopped => self,
        }
    }
}

impl View for BlockHandler {
    type V = HandlerState;

    closed spec fn view(&self) -> HandlerState {
        HandlerState { batch: self.batch@, position: self.position as nat, phase: self.phase }
    }
}

impl BlockHandler {
    #[verifier::type_invariant]
    spec fn well_formed(&self) -> bool {
        self@.well_formed()
    }

    /// A persister that waits for its first batch.
    pub fn new() -> (handler: BlockHandler)
        ensures
            handler@ == (HandlerState { batch: Seq::empty(), position: 0, phase: Phase::Idle }),
    {
        BlockHandler { batch: Vec::new(), position: 0, phase: Phase::Idle }
    }

    /// What the persister asks for as it stands: for a new one, the first
    /// batch.
    pub fn start(&self) -> (action: HandlerAction)
        ensures
            action == self@.action(),
            self@.well_formed(),
    {
        proof {
            use_type_invariant(self);
        }
        match self.phase {
            Phase::Idle => HandlerAction::Receive,
            Phase::Writing => HandlerAction::Attempt { index: self.position },
            Phase::Backoff => HandlerAction::Sleep { millis: RETRY_DELAY_MILLIS },
            Phase::Stopped => HandlerAction::Stop,
        }
    }

    /// The block to attempt, while one is being written.
    pub fn current(&self) -> (block: Option<&(Header, BlockBodies)>)
        ensures
            self@.phase is Writing ==> block == Some(&self@.batch[self@.position as int]),
            !(self@.phase is Writing) ==> block is None,
    {
        proof {
            use_type_invariant(self);
        }
        match self.phase {
            Phase::Writing => Some(&self.batch[self.position]),
            _ => None,
        }
    }

    /// Takes an event and says what to do next.
    pub fn step(&mut self, event: HandlerEvent) -> (action: HandlerAction)
        ensures
            final(self)@ == old(self)@.next(event),
            action == final(self)@.action(),
            final(self)@.well_formed(),
    {
        proof {
            use_type_invariant(&*self);
        }
        match self.phase {
            Phase::Idle => match event {
                HandlerEvent::Received(blocks) => {
                    if blocks.len() > 0 {
                        *self = BlockHandler { batch: blocks, position: 0, phase: Phase::Writing };
                    }
                },
                HandlerEvent::Shutdown => {
                    self.phase = Phase::Stopped;
                },
                _ => {},
            },
            Phase::Writing => match event {
                HandlerEvent::Attempted(Ok(_)) => {
                    let len = self.batch.len();
                    if self.position + 1 >= len {
                        self.phase = Phase::Idle;
                    }
                    self.position = self.position + 1;
                },
                HandlerEvent::Attempted(Err(_)) => {
                    self.phase = Phase::Backoff;
                },
                _ => {},
            },
            Phase::Backoff => match event {
                HandlerEvent::Slept => {
                    self.phase = Phase::Writing;
                },
                _ => {},
            },
            Phase::Stopped => {},
        }
        self.start()
    }

    /// Begins one attempt to store a block. `connection` says whether a
    /// connection could be had from the pool; `Err` holds the pool's
    /// message.
    ///
    /// Without a connection the attempt fails with `GetPgSqlPoolFailed`.
    /// With one, the block is decoded and its accounts derived; a block
    /// that cannot be decoded fails with `DataProcessError`, which holds the
    /// decoder's error in words. Otherwise the attempt stands before its
    /// first write.
    pub fn insert_header_and_txs(
        header: &Header,
        bodies: &BlockBodies,
        connection: Result<(), String>,
    ) -> (r: Result<Attempt, BlockHandlerError>)
        ensures
            match connection {
                Err(text) => r is Err && r->Err_0 == BlockHandlerError::GetPgSqlPoolFailed(text),
                Ok(_) => match first_decode_failure(bodies@) {
                    Some(e) => {
                        &&& r is Err
                        &&& r->Err_0 is DataProcessError
                        &&& r->Err_0->DataProcessError_0@ == e.text()
                    },
                    None => {
                        &&& r is Ok
                        &&& r->Ok_0@.rows.holds(*header, bodies@)
                        &&& paired(r->Ok_0@.rows.assets_delete@, r->Ok_0@.rows.assets_insert@)
                        &&& r->Ok_0@.steps == write_steps(r->Ok_0@.rows.coinbase is Some)
                        &&& r->Ok_0@.done == 0
                        &&& !r->Ok_0@.failed
                    },
                },
            },
    {
        match connection {
            Err(text) => {
                return Err(BlockHandlerError::GetPgSqlPoolFailed(text));
            },
            Ok(_) => {},
        }
        match WriteSet::prepare(header, bodies) {
            Err(e) => Err(BlockHandlerError::DataProcessError(e.message())),
            Ok(rows) => {
                let steps = rows.steps();
                Ok(Attempt { rows, steps, done: 0, failed: false })
            },
        }
    }
}

/// No balance row is deleted alone: the rows of a block hold, for every
/// balance row to delete, the row to insert for the same owner and asset at
/// the same place, so that where one is deleted one is inserted.
pub proof fn lemma_no_lone_deletions(rows: WriteSet, header: Header, bodies: Seq<BlockBody>)
    requires
        rows.holds(header, bodies),
    ensures
        paired(rows.assets_delete@, rows.assets_insert@),
        rows.assets_delete@.len() > 0 ==> rows.assets_insert@.len() > 0,
{
    lemma_asset_pairing(rows.calls@);
}

/// The attempt after the outcomes of its writes, one after the other.
pub open spec fn replayed(attempt: AttemptState, outcomes: Seq<Result<(), String>>) -> AttemptState
    decreases outcomes.len(),
{
    if outcomes.len() == 0 {
        attempt
    } else {
        replayed(attempt, outcomes.drop_last()).recorded(outcomes.last())
    }
}

/// The state after the events, one after the other.
pub open spec fn run(state: HandlerState, events: Seq<HandlerEvent>) -> HandlerState
    decreases events.len(),
{
    if events.len() == 0 {
        state
    } else {
        run(state, events.drop_last()).next(events.last())
    }
}

/// How many of the events report a committed attempt.
pub open spec fn commits(events: Seq<HandlerEvent>) -> nat
    decreases events.len(),
{
    if events.len() == 0 {
        0
    } else {
        let before = commits(events.drop_last());
        match events.last() {
            HandlerEvent::Attempted(Ok(_)) => before + 1,
            _ => before,
        }
    }
}

/// While every write goes through, the attempt asks for the writes in their
/// order, and it asks for the commit exactly when all of them are made.
pub proof fn lemma_writes_in_order(attempt: AttemptState, outcomes: Seq<Result<(), String>>)
    requires
        attempt.done == 0,
        !attempt.failed,
        outcomes.len() <= attempt.steps.len(),
        forall|i: int| 0 <= i < outcomes.len() ==> (#[trigger] outcomes[i]) is Ok,
    ensures
        replayed(attempt, outcomes) == (AttemptState { done: outcomes.len(), ..attempt }),
        outcomes.len() < attempt.steps.len() ==> replayed(attempt, outcomes).action()
            == WriteAction::Run(attempt.steps[outcomes.len() as int]) && replayed(
            attempt,
            outcomes,
        ).kept() == Seq::<WriteStep>::empty(),
        outcomes.len() == attempt.steps.len() ==> replayed(attempt, outcomes).action()
            == WriteAction::Commit && replayed(attempt, outcomes).kept() == attempt.steps,
    decreases outcomes.len(),
{
    if outcomes.len() > 0 {
        let front = outcomes.drop_last();
        assert forall|i: int| 0 <= i < front.len() implies (#[trigger] front[i]) is Ok by {
            assert(front[i] == outcomes[i]);
        }
        lemma_writes_in_order(attempt, front);
        assert(outcomes.last() == outcomes[outcomes.len() - 1]);
    }
}

/// An attempt is all or nothing. Where a write is refused after any number
/// of writes that went through, the error of that write comes back, the
/// attempt asks for the rollback, none of its writes last, and no later
/// outcome changes that.
pub proof fn lemma_refused_write_rolls_back(
    attempt: AttemptState,
    outcomes: Seq<Result<(), String>>,
    k: int,
)
    requires
        attempt.done == 0,
        !attempt.failed,
        0 <= k < outcomes.len(),
        k < attempt.steps.len(),
        forall|i: int| 0 <= i < k ==> (#[trigger] outcomes[i]) is Ok,
        outcomes[k] is Err,
    ensures
        replayed(attempt, outcomes.take(k)).verdict(outcomes[k]) == Err::<(), _>(
            step_failure(attempt.steps[k], outcomes[k]->Err_0),
        ),
        replayed(attempt, outcomes).action() == WriteAction::Rollback,
        replayed(attempt, outcomes).kept() == Seq::<WriteStep>::empty(),
        replayed(attempt, outcomes).rows == attempt.rows,
    decreases outcomes.len(),
{
    let front = outcomes.drop_last();
    if k == outcomes.len() - 1 {
        assert(front =~= outcomes.take(k));
        lemma_writes_in_order(attempt, front);
    } else {
        assert(front.take(k) =~= outcomes.take(k));
        lemma_refused_write_rolls_back(attempt, front, k);
    }
}

/// Every state that the persister reaches is well formed.
pub proof fn lemma_next_well_formed(state: HandlerState, event: HandlerEvent)
    requires
        state.well_formed(),
    ensures
        state.next(event).well_formed(),
{
}

/// A failed attempt is tried again, unchanged: after the failure the
/// persister asks for the fixed pause, with the batch and the place as they
/// were, and after the pause it stands exactly where it stood before the
/// attempt, asking for the same block.
pub proof fn lemma_failed_attempt_is_retried(state: HandlerState, error: BlockHandlerError)
    requires
        state.phase is Writing,
    ensures
        state.next(HandlerEvent::Attempted(Err(error))).action() == (HandlerAction::Sleep {
            millis: RETRY_DELAY_MILLIS,
        }),
        state.next(HandlerEvent::Attempted(Err(error))).batch == state.batch,
        state.next(HandlerEvent::Attempted(Err(error))).position == state.position,
        state.next(HandlerEvent::Attempted(Err(error))).next(HandlerEvent::Slept) == state,
{
}

/// Shutdown is seen only between batches: while a block is in hand, a
/// request to shut down changes nothing, and neither does a batch that
/// arrives.
pub proof fn lemma_block_in_hand_comes_first(state: HandlerState, event: HandlerEvent)
    requires
        state.phase is Writing || state.phase is Backoff,
        event is Shutdown || event is Received,
    ensures
        state.next(event) == state,
{
}

/// One step keeps the order of the batch: the batch in hand changes only
/// when a batch is taken while waiting, and the place within it moves only
/// when the attempt at that place has been committed, and then by one.
pub proof fn lemma_one_block_at_a_time(state: HandlerState, event: HandlerEvent)
    requires
        state.well_formed(),
    ensures
        state.next(event).action() is Attempt <==> state.next(event).phase is Writing,
        state.next(event).phase is Writing ==> state.next(event).position < state.next(
            event,
        ).batch.len(),
        !(state.phase is Idle && event is Received) ==> state.next(event).batch == state.batch,
        !(state.phase is Idle && event is Received) ==> state.next(event).position
            == state.position + (if state.phase is Writing
            && event matches HandlerEvent::Attempted(Ok(_)) {
            1nat
        } else {
            0nat
        }),
{
}

/// Blocks are committed in the batch's order. While no new batch is taken,
/// the place never goes back, and it is never further on than the number
/// of attempts that were committed: the block at a place is begun only
/// after each block before it has been committed.
pub proof fn lemma_commits_in_order(state: HandlerState, events: Seq<HandlerEvent>)
    requires
        state.well_formed(),
        forall|i: int| 0 <= i < events.len() ==> !((#[trigger] events[i]) is Received),
    ensures
        run(state, events).well_formed(),
        run(state, events).batch == state.batch,
        state.position <= run(state, events).position <= state.position + commits(events),
    decreases events.len(),
{
    if events.len() > 0 {
        let front = events.drop_last();
        assert forall|i: int| 0 <= i < front.len() implies !((#[trigger] front[i]) is Received) by {
            assert(front[i] == events[i]);
        }
        lemma_commits_in_order(state, front);
        assert(events.last() == events[events.len() - 1]);
        lemma_one_block_at_a_time(run(state, front), events.last());
    }
}

} // verus!
