//! The fetcher: which heights to ask the node for, what a height's answers
//! amount to, and how the window and the cursor move once a window has been
//! answered. The requests themselves, the channel and the sleeps are the
//! caller's.

use crate::bytes::Bytes32;
use crate::chain::{BlockBodies, BlockBody, Blocks, Header, Receipt, TransactionResponse};
use crate::text::{append_decimal, decimal};
use rayon::iter::{IntoParallelIterator, ParallelIterator};
use vstd::prelude::*;
use vstd::string::StringExecFns;

verus! {

/// Why a height produced no block for the current window.
#[derive(Debug, PartialEq, Eq)]
pub enum BlockReaderError {
    /// The node has not produced a block at this height yet.
    HeightBlock(u64),
    /// A request to the node failed; the text is the node client's message.
    ReadFromRpc(String),
    /// The batch could not be handed on; the text is the channel's message.
    SendToHandler(String),
}

impl BlockReaderError {
    /// The error in words.
    pub open spec fn text(self) -> Seq<char> {
        match self {
            BlockReaderError::HeightBlock(height) => "The latest height block: "@ + decimal(
                height as nat,
            ),
            BlockReaderError::ReadFromRpc(text) => "Read block info from rpc failed: "@ + text@,
            BlockReaderError::SendToHandler(text) =>
                "Sender failed the Handler channel maybe closed: "@ + text@,
        }
    }

    /// The error in words.
    pub fn message(&self) -> (text: String)
        ensures
            text@ == self.text(),
    {
        match self {
            BlockReaderError::HeightBlock(height) => {
                let mut text = String::from_str("The latest height block: ");
                append_decimal(&mut text, *height);
                text
            },
            BlockReaderError::ReadFromRpc(inner) => {
                let mut text = String::from_str("Read block info from rpc failed: ");
                text.append(inner.as_str());
                text
            },
            BlockReaderError::SendToHandler(inner) => {
                let mut text = String::from_str("Sender failed the Handler channel maybe closed: ");
                text.append(inner.as_str());
                text
            },
        }
    }
}

/// What one height came to: the block with its transactions, or why not.
pub type FetchBlockResult = Result<(Header, BlockBodies), BlockReaderError>;

/// The node's two answers for one transaction, and the hash asked for.
pub type TransactionReply = (
    Result<Option<TransactionResponse>, String>,
    Result<Option<Vec<Receipt>>, String>,
    Bytes32,
);

/// How long to wait, in milliseconds, before asking again for a window that
/// yielded nothing.
pub const TIP_WAIT_MILLIS: u64 = 1000;

/// How long to wait, in milliseconds, after a batch has been handed on.
pub const PACING_MILLIS: u64 = 100;

/// What the caller does next.
#[derive(Debug)]
pub enum ReaderAction {
    /// Nothing came: sleep that long, then ask for the same window again.
    Wait { millis: u64 },
    /// Hand this batch on, waiting while the channel is full; then see
    /// [`BlockReader::forwarded`].
    Forward { blocks: Blocks },
}

/// The fetcher's state: the next height to ask for and how many heights to
/// ask for at once.
#[derive(Debug)]
pub struct BlockReader {
    batch_fetch_size: u64,
    height: u64,
}

/// The two numbers a [`BlockReader`] stands for.
pub struct ReaderState {
    pub height: u64,
    pub batch_fetch_size: u64,
}

impl View for BlockReader {
    type V = ReaderState;

    closed spec fn view(&self) -> ReaderState {
        ReaderState { height: self.height, batch_fetch_size: self.batch_fetch_size }
    }
}

impl ReaderState {
    /// How many heights the next window holds: the window size, cut where
    /// heights would pass the largest `u64`.
    pub open spec fn window_len(self) -> int {
        if self.batch_fetch_size <= u64::MAX - self.height {
            self.batch_fetch_size as int
        } else {
            u64::MAX - self.height
        }
    }

    /// The state after a window has yielded `n` blocks. None: nothing
    /// moves. Otherwise the cursor goes forward by `n`, and a window wider
    /// than `n` shrinks to `n`.
    pub open spec fn after(self, n: int) -> ReaderState {
        if n <= 0 {
            self
        } else {
            ReaderState {
                height: (self.height + n) as u64,
                batch_fetch_size: if n < self.batch_fetch_size {
                    n as u64
                } else {
                    self.batch_fetch_size
                },
            }
        }
    }
}

/// The text of the first of a transaction's two answers that failed.
pub open spec fn reply_failure(reply: TransactionReply) -> Option<String> {
    match reply.0 {
        Err(text) => Some(text),
        Ok(_) => match reply.1 {
            Err(text) => Some(text),
            Ok(_) => None,
        },
    }
}

/// The text of the first failure among the answers, in the block's order.
pub open spec fn first_failure(replies: Seq<TransactionReply>) -> Option<String>
    decreases replies.len(),
{
    if replies.len() == 0 {
        None
    } else {
        match reply_failure(replies[0]) {
            Some(text) => Some(text),
            None => first_failure(replies.drop_first()),
        }
    }
}

/// The entry of a block's transaction list that an answer without failure
/// makes.
pub open spec fn body_of(reply: TransactionReply) -> BlockBody {
    (reply.2, reply.0->Ok_0, reply.1->Ok_0)
}

/// What a height comes to, from the node's answer for the block and its
/// answers for each of the block's transactions.
pub open spec fn fetch_outcome(
    height: u64,
    block: Result<Option<Header>, String>,
    replies: Seq<TransactionReply>,
    r: FetchBlockResult,
) -> bool {
    match block {
        Err(text) => r == Err::<(Header, BlockBodies), _>(BlockReaderError::ReadFromRpc(text)),
        Ok(None) => r == Err::<(Header, BlockBodies), _>(BlockReaderError::HeightBlock(height)),
        Ok(Some(header)) => match first_failure(replies) {
            Some(text) => r == Err::<(Header, BlockBodies), _>(
                BlockReaderError::ReadFromRpc(text),
            ),
            None => {
                &&& r is Ok
                &&& r->Ok_0.0 == header
                &&& r->Ok_0.1@ == replies.map_values(|reply: TransactionReply| body_of(reply))
            },
        },
    }
}

/// Where no answer before `i` failed, the first failure is the first one
/// from `i` on.
proof fn lemma_first_failure_skip(replies: Seq<TransactionReply>, i: int)
    requires
        0 <= i <= replies.len(),
        forall|j: int| 0 <= j < i ==> reply_failure(#[trigger] replies[j]) is None,
    ensures
        first_failure(replies) == first_failure(replies.skip(i)),
    decreases i,
{
    if i == 0 {
        assert(replies.skip(0) =~= replies);
    } else {
        let rest = replies.drop_first();
        assert(reply_failure(replies[0]) is None);
        assert forall|j: int| 0 <= j < i - 1 implies reply_failure(#[trigger] rest[j]) is None by {
            assert(rest[j] == replies[j + 1]);
        }
        lemma_first_failure_skip(rest, i - 1);
        assert(rest.skip(i - 1) =~= replies.skip(i));
    }
}

/// The blocks among the outcomes of a window, in the window's order.
pub open spec fn fetched(outcomes: Seq<FetchBlockResult>) -> Seq<(Header, BlockBodies)>
    decreases outcomes.len(),
{
    if outcomes.len() == 0 {
        Seq::empty()
    } else {
        let before = fetched(outcomes.drop_last());
        match outcomes.last() {
            Ok(block) => before.push(block),
            Err(_) => before,
        }
    }
}

/// A window yields at most one block per outcome.
pub proof fn lemma_fetched_len(outcomes: Seq<FetchBlockResult>)
    ensures
        fetched(outcomes).len() <= outcomes.len(),
    decreases outcomes.len(),
{
    if outcomes.len() > 0 {
        lemma_fetched_len(outcomes.drop_last());
    }
}

/// The block of an outcome, if it is one.
pub fn block_of(outcome: FetchBlockResult) -> (block: Option<(Header, BlockBodies)>)
    ensures
        block == match outcome {
            Ok(b) => Some(b),
            Err(_) => None::<(Header, BlockBodies)>,
        },
{
    outcome.ok()
}

/// Keeps the blocks among the outcomes, on rayon's thread pool:
/// `into_par_iter`, `filter_map` with [`block_of`], and `collect` into a
/// `Vec`. The contract claims what rayon documents of the three together:
/// the items for which the closure gives `Some`, in the order of the input.
#[verifier::external_body]
fn keep_fetched(outcomes: Vec<FetchBlockResult>) -> (blocks: Blocks)
    ensures
        blocks@ == fetched(outcomes@),
{
    outcomes.into_par_iter().filter_map(|outcome| block_of(outcome)).collect::<Vec<_>>()
}

impl BlockReader {
    /// A fetcher that asks for `batch_fetch_size` heights at once. Its
    /// cursor stands at 0 until [`BlockReader::start`] sets it.
    pub fn new(batch_fetch_size: u64) -> (reader: BlockReader)
        ensures
            reader@ == (ReaderState { height: 0, batch_fetch_size }),
    {
        BlockReader { batch_fetch_size, height: 0 }
    }

    /// The next height to ask for.
    pub fn height(&self) -> (h: u64)
        ensures
            h == self@.height,
    {
        self.height
    }

    /// How many heights are asked for at once.
    pub fn batch_fetch_size(&self) -> (n: u64)
        ensures
            n == self@.batch_fetch_size,
    {
        self.batch_fetch_size
    }

    /// The window to ask for now: its first height and how many heights,
    /// one after the other, it holds.
    pub fn window(&self) -> (w: (u64, u64))
        ensures
            w.0 == self@.height,
            w.1 == self@.window_len(),
    {
        let room: u64 = u64::MAX - self.height;
        if self.batch_fetch_size <= room {
            (self.height, self.batch_fetch_size)
        } else {
            (self.height, room)
        }
    }

    /// Sets the cursor to `height` and gives the first window to ask for.
    /// The window size stays as it is.
    pub fn start(&mut self, height: u64) -> (w: (u64, u64))
        ensures
            final(self)@ == (ReaderState {
                height,
                batch_fetch_size: old(self)@.batch_fetch_size,
            }),
            w.0 == height,
            w.1 == final(self)@.window_len(),
    {
        self.height = height;
        self.window()
    }

    /// What one height comes to. `block` is the node's answer for the
    /// height, `replies` its answers for the block's transactions, in the
    /// block's order (none where the block is absent).
    ///
    /// A failed request for the block gives `ReadFromRpc` with its text; an
    /// absent block gives `HeightBlock` with the height; otherwise the first
    /// answer that failed, a transaction's body before its receipts, gives
    /// `ReadFromRpc` with its text; and with no failure the block comes
    /// back with one entry per transaction.
    #[verifier::loop_isolation(false)]
    pub fn fetch_block(
        height: u64,
        block: Result<Option<Header>, String>,
        replies: Vec<TransactionReply>,
    ) -> (r: FetchBlockResult)
        ensures
            fetch_outcome(height, block, replies@, r),
    {
        let header = match block {
            Err(text) => {
                return Err(BlockReaderError::ReadFromRpc(text));
            },
            Ok(None) => {
                return Err(BlockReaderError::HeightBlock(height));
            },
            Ok(Some(header)) => header,
        };
        let ghost all = replies@;
        let mut transactions: BlockBodies = Vec::new();
        for reply in it: replies
            invariant
                it.seq() == all,
                transactions@.len() == it.index(),
                forall|j: int|
                    0 <= j < it.index() ==> reply_failure(#[trigger] all[j]) is None
                        && transactions@[j] == body_of(all[j]),
        {
            let ghost i = it.index() as int;
            proof {
                lemma_first_failure_skip(all, i);
                assert(all.skip(i)[0] == all[i]);
            }
            let (tx, receipts, hash) = reply;
            let tx = match tx {
                Ok(tx) => tx,
                Err(text) => {
                    return Err(BlockReaderError::ReadFromRpc(text));
                },
            };
            let receipts = match receipts {
                Ok(receipts) => receipts,
                Err(text) => {
                    return Err(BlockReaderError::ReadFromRpc(text));
                },
            };
            transactions.push((hash, tx, receipts));
        }
        proof {
            lemma_first_failure_skip(all, all.len() as int);
            assert(transactions@ =~= all.map_values(|reply: TransactionReply| body_of(reply)));
        }
        Ok((header, transactions))
    }

    /// Takes the outcomes of the window last asked for, one per height in
    /// ascending order, and moves on.
    ///
    /// Outcomes that are no block are dropped. Where none is left, nothing
    /// changes and the caller is told to wait [`TIP_WAIT_MILLIS`] before
    /// asking again. Otherwise the cursor goes forward by the number of
    /// blocks, a window wider than that number shrinks to it, and the
    /// blocks are handed out in the order they came in.
    pub fn advance(&mut self, outcomes: Vec<FetchBlockResult>) -> (action: ReaderAction)
        requires
            outcomes@.len() <= old(self)@.window_len(),
        ensures
            final(self)@ == old(self)@.after(fetched(outcomes@).len() as int),
            fetched(outcomes@).len() == 0 ==> action == (ReaderAction::Wait {
                millis: TIP_WAIT_MILLIS,
            }),
            fetched(outcomes@).len() > 0 ==> action is Forward && action->blocks@ == fetched(
                outcomes@,
            ),
    {
        proof {
            lemma_fetched_len(outcomes@);
        }
        let blocks = keep_fetched(outcomes);
        if blocks.len() == 0 {
            return ReaderAction::Wait { millis: TIP_WAIT_MILLIS };
        }
        let count: u64 = blocks.len() as u64;
        if count < self.batch_fetch_size {
            self.batch_fetch_size = count;
        }
        self.height = self.height + count;
        ReaderAction::Forward { blocks }
    }

    /// What follows the handing on of a batch: the pause before the next
    /// window, or, where the channel refused the batch, the error that ends
    /// the fetcher.
    pub fn forwarded(sent: Result<(), String>) -> (r: Result<u64, BlockReaderError>)
        ensures
            r == match sent {
                Ok(_) => Ok::<u64, BlockReaderError>(PACING_MILLIS),
                Err(text) => Err::<u64, _>(BlockReaderError::SendToHandler(text)),
            },
    {
        match sent {
            Ok(_) => Ok(PACING_MILLIS),
            Err(text) => Err(BlockReaderError::SendToHandler(text)),
        }
    }
}

/// How many blocks a window yields from a node that answers every request
/// and has produced exactly the heights up to `tip`.
pub open spec fn yield_below(state: ReaderState, tip: int) -> int {
    if tip < state.height {
        0
    } else if tip + 1 - state.height < state.window_len() {
        tip + 1 - state.height
    } else {
        state.window_len()
    }
}

/// Whether the outcomes are those of a node that answers every request of
/// the window and has produced exactly the heights up to `tip`.
pub open spec fn answered_up_to(state: ReaderState, tip: int, outcomes: Seq<FetchBlockResult>)
    -> bool {
    &&& outcomes.len() == state.window_len()
    &&& forall|i: int|
        0 <= i < outcomes.len() ==> ((#[trigger] outcomes[i]) is Ok <==> state.height + i <= tip)
}

/// The state after `rounds` windows, each answered by a node that answers
/// every request and has produced exactly the heights up to `tip`.
pub open spec fn settled(state: ReaderState, tip: int, rounds: nat) -> ReaderState
    decreases rounds,
{
    if rounds == 0 {
        state
    } else {
        let before = settled(state, tip, (rounds - 1) as nat);
        before.after(yield_below(before, tip))
    }
}

/// The cursor never goes back and the window never grows, whatever a
/// window yields.
pub proof fn lemma_cursor_never_rewinds(state: ReaderState, n: int)
    requires
        n <= state.window_len(),
    ensures
        state.after(n).height >= state.height,
        state.after(n).height == state.height + (if n > 0 { n } else { 0 }),
        state.after(n).batch_fetch_size <= state.batch_fetch_size,
        n > 0 ==> state.after(n).batch_fetch_size >= 1,
{
}

/// A window that yields nothing leaves the state as it is.
pub proof fn lemma_nothing_fetched_nothing_moves(state: ReaderState, outcomes: Seq<FetchBlockResult>)
    requires
        forall|i: int| 0 <= i < outcomes.len() ==> (#[trigger] outcomes[i]) is Err,
    ensures
        fetched(outcomes).len() == 0,
        state.after(fetched(outcomes).len() as int) == state,
    decreases outcomes.len(),
{
    if outcomes.len() > 0 {
        let front = outcomes.drop_last();
        assert forall|i: int| 0 <= i < front.len() implies (#[trigger] front[i]) is Err by {
            assert(front[i] == outcomes[i]);
        }
        lemma_nothing_fetched_nothing_moves(state, front);
    }
}

/// Whether the block is the block of one of the outcomes.
pub open spec fn came(outcomes: Seq<FetchBlockResult>, block: (Header, BlockBodies)) -> bool {
    exists|i: int|
        0 <= i < outcomes.len() && (#[trigger] outcomes[i]) is Ok && outcomes[i]->Ok_0 == block
}

/// What a window hands on is what came, no more and no less: every block
/// handed on is the block of one of the outcomes, and the block of every
/// outcome that is one is handed on.
pub proof fn lemma_fetched_keeps_the_blocks(outcomes: Seq<FetchBlockResult>)
    ensures
        forall|k: int|
            0 <= k < fetched(outcomes).len() ==> came(outcomes, #[trigger] fetched(outcomes)[k]),
        forall|i: int|
            0 <= i < outcomes.len() && (#[trigger] outcomes[i]) is Ok ==> fetched(
                outcomes,
            ).contains(outcomes[i]->Ok_0),
    decreases outcomes.len(),
{
    if outcomes.len() > 0 {
        let front = outcomes.drop_last();
        let last = outcomes.last();
        let before = fetched(front);
        let all = fetched(outcomes);
        lemma_fetched_keeps_the_blocks(front);
        assert(outcomes[outcomes.len() - 1] == last);
        assert forall|k: int| 0 <= k < all.len() implies came(outcomes, #[trigger] all[k]) by {
            if k < before.len() {
                assert(all[k] == before[k]);
                assert(came(front, before[k]));
                let i = choose|i: int|
                    0 <= i < front.len() && (#[trigger] front[i]) is Ok && front[i]->Ok_0
                        == before[k];
                assert(outcomes[i] == front[i]);
            }
        }
        assert forall|i: int| 0 <= i < outcomes.len() && (#[trigger] outcomes[i]) is Ok implies all.contains(
            outcomes[i]->Ok_0,
        ) by {
            if i < front.len() {
                assert(front[i] == outcomes[i]);
                assert(before.contains(front[i]->Ok_0));
                let k = choose|k: int| 0 <= k < before.len() && before[k] == front[i]->Ok_0;
                assert(all[k] == before[k]);
            } else {
                assert(all[all.len() - 1] == last->Ok_0);
            }
        }
    }
}

/// Where the first `k` outcomes are blocks and the others are not, the
/// window hands on exactly those `k` blocks, each at its place.
pub proof fn lemma_fetched_prefix(outcomes: Seq<FetchBlockResult>, k: int)
    requires
        0 <= k <= outcomes.len(),
        forall|i: int| 0 <= i < outcomes.len() ==> ((#[trigger] outcomes[i]) is Ok <==> i < k),
    ensures
        fetched(outcomes).len() == k,
        forall|j: int| 0 <= j < k ==> (#[trigger] fetched(outcomes)[j]) == outcomes[j]->Ok_0,
    decreases outcomes.len(),
{
    if outcomes.len() > 0 {
        let front = outcomes.drop_last();
        let kk = if k == outcomes.len() {
            k - 1
        } else {
            k
        };
        assert forall|i: int| 0 <= i < front.len() implies ((#[trigger] front[i]) is Ok <==> i
            < kk) by {
            assert(front[i] == outcomes[i]);
        }
        lemma_fetched_prefix(front, kk);
        assert(outcomes[outcomes.len() - 1] == outcomes.last());
        assert forall|j: int| 0 <= j < k implies (#[trigger] fetched(outcomes)[j])
            == outcomes[j]->Ok_0 by {
            if j < kk {
                assert(fetched(outcomes)[j] == fetched(front)[j]);
                assert(front[j] == outcomes[j]);
            }
        }
    }
}

/// From a node that answers every request and has produced exactly the
/// heights up to `tip`, a window yields its heights up to `tip`.
pub proof fn lemma_yield_of_answers(state: ReaderState, tip: int, outcomes: Seq<FetchBlockResult>)
    requires
        answered_up_to(state, tip, outcomes),
    ensures
        fetched(outcomes).len() == yield_below(state, tip),
{
    let k = yield_below(state, tip);
    assert forall|i: int| 0 <= i < outcomes.len() implies ((#[trigger] outcomes[i]) is Ok <==> i
        < k) by {}
    lemma_fetched_prefix(outcomes, k);
}

/// While the node answers, the cursor passes every height that the node
/// has produced: from a window of at least one height, the cursor stands
/// above height `h` after at most as many windows as there are heights from
/// the cursor to `h`.
pub proof fn lemma_cursor_passes_produced(state: ReaderState, tip: int, h: int)
    requires
        state.batch_fetch_size >= 1,
        state.height <= h <= tip < u64::MAX,
    ensures
        settled(state, tip, (h - state.height + 1) as nat).height > h,
{
    lemma_settled_progress(state, tip, (h - state.height + 1) as nat);
}

/// After `rounds` answered windows the window still holds a height, and the
/// cursor has moved by at least `rounds` or stands just above the tip.
proof fn lemma_settled_progress(state: ReaderState, tip: int, rounds: nat)
    requires
        state.batch_fetch_size >= 1,
        state.height <= tip + 1,
        tip < u64::MAX,
    ensures
        settled(state, tip, rounds).batch_fetch_size >= 1,
        settled(state, tip, rounds).height <= tip + 1,
        settled(state, tip, rounds).height >= state.height + rounds || settled(
            state,
            tip,
            rounds,
        ).height == tip + 1,
    decreases rounds,
{
    if rounds > 0 {
        lemma_settled_progress(state, tip, (rounds - 1) as nat);
        let before = settled(state, tip, (rounds - 1) as nat);
        lemma_cursor_never_rewinds(before, yield_below(before, tip));
    }
}

/// A batch ascends by height: where each block among the outcomes is the
/// one of its height in a window that starts at `from`, the blocks that are
/// handed on have heights of the window, each above the one before.
pub proof fn lemma_batch_ascends(from: int, outcomes: Seq<FetchBlockResult>)
    requires
        forall|i: int|
            0 <= i < outcomes.len() && (#[trigger] outcomes[i]) is Ok
                ==> outcomes[i]->Ok_0.0.height == from + i,
    ensures
        forall|k: int|
            0 <= k < fetched(outcomes).len() ==> from <= (#[trigger] fetched(
                outcomes,
            )[k]).0.height < from + outcomes.len(),
        forall|j: int, k: int|
            #![trigger fetched(outcomes)[j], fetched(outcomes)[k]]
            0 <= j < k < fetched(outcomes).len() ==> fetched(outcomes)[j].0.height < fetched(
                outcomes,
            )[k].0.height,
    decreases outcomes.len(),
{
    if outcomes.len() > 0 {
        let front = outcomes.drop_last();
        assert forall|i: int| 0 <= i < front.len() && (#[trigger] front[i]) is Ok implies front[i]->Ok_0.0.height
            == from + i by {
            assert(front[i] == outcomes[i]);
        }
        lemma_batch_ascends(from, front);
        assert(outcomes.last() == outcomes[outcomes.len() - 1]);
        let before = fetched(front);
        let all = fetched(outcomes);
        assert forall|k: int| 0 <= k < all.len() implies from <= (#[trigger] all[k]).0.height < from
            + outcomes.len() by {
            if k < before.len() {
                assert(all[k] == before[k]);
            }
        }
        assert forall|j: int, k: int| 0 <= j < k < all.len() implies all[j].0.height
            < all[k].0.height by {
            assert(all[j] == before[j]);
            if k < before.len() {
                assert(all[k] == before[k]);
            }
        }
    }
}

/// The outcomes of window `i`.
pub open spec fn outcomes_of(answers: spec_fn(nat) -> Seq<FetchBlockResult>, i: nat) -> Seq<
    FetchBlockResult,
> {
    answers(i)
}

/// How many blocks window `i` yields.
pub open spec fn yield_of(answers: spec_fn(nat) -> Seq<FetchBlockResult>, i: nat) -> nat {
    fetched(outcomes_of(answers, i)).len()
}

/// The state after the first `rounds` windows, whatever their outcomes
/// were: window `i` came to `answers(i)`.
pub open spec fn after_rounds(
    state: ReaderState,
    answers: spec_fn(nat) -> Seq<FetchBlockResult>,
    rounds: nat,
) -> ReaderState
    decreases rounds,
{
    if rounds == 0 {
        state
    } else {
        let before = after_rounds(state, answers, (rounds - 1) as nat);
        before.after(yield_of(answers, (rounds - 1) as nat) as int)
    }
}

/// How many blocks the first `rounds` windows hand on together.
pub open spec fn forwarded_blocks(answers: spec_fn(nat) -> Seq<FetchBlockResult>, rounds: nat)
    -> nat
    decreases rounds,
{
    if rounds == 0 {
        0
    } else {
        forwarded_blocks(answers, (rounds - 1) as nat) + yield_of(answers, (rounds - 1) as nat)
    }
}

/// Whether every window is answered by at most one outcome for each of its
/// heights.
pub open spec fn answers_fit(state: ReaderState, answers: spec_fn(nat) -> Seq<FetchBlockResult>)
    -> bool {
    forall|i: nat|
        outcomes_of(answers, i).len() <= (#[trigger] after_rounds(state, answers, i)).window_len()
}

/// Whether fetching succeeds in the end, as often as it may fail before:
/// at whatever window the cursor stands at or below `h`, that window or a
/// later one yields a block.
pub open spec fn keeps_yielding(
    state: ReaderState,
    answers: spec_fn(nat) -> Seq<FetchBlockResult>,
    h: int,
) -> bool {
    forall|i: nat|
        (#[trigger] after_rounds(state, answers, i)).height <= h ==> exists|j: nat|
            j >= i && #[trigger] yield_of(answers, j) > 0
}

/// A window in which the fetch of any one height succeeds yields a block.
/// So fetching keeps yielding wherever the fetch of a height that the node
/// has produced succeeds in the end.
pub proof fn lemma_one_success_yields(outcomes: Seq<FetchBlockResult>, i: int)
    requires
        0 <= i < outcomes.len(),
        outcomes[i] is Ok,
    ensures
        fetched(outcomes).len() > 0,
{
    lemma_fetched_keeps_the_blocks(outcomes);
    assert(fetched(outcomes).contains(outcomes[i]->Ok_0));
}

/// Over any windows the cursor never goes back, the window never grows,
/// and the cursor has moved by exactly the number of blocks handed on.
pub proof fn lemma_rounds_never_rewind(
    state: ReaderState,
    answers: spec_fn(nat) -> Seq<FetchBlockResult>,
    i: nat,
    j: nat,
)
    requires
        answers_fit(state, answers),
        i <= j,
    ensures
        after_rounds(state, answers, i).height <= after_rounds(state, answers, j).height,
        after_rounds(state, answers, j).batch_fetch_size <= after_rounds(
            state,
            answers,
            i,
        ).batch_fetch_size,
        after_rounds(state, answers, j).height == state.height + forwarded_blocks(answers, j),
    decreases j,
{
    if j > 0 {
        let before = after_rounds(state, answers, (j - 1) as nat);
        lemma_rounds_never_rewind(state, answers, if i < j { i } else { (j - 1) as nat }, (j - 1) as nat);
        lemma_fetched_len(outcomes_of(answers, (j - 1) as nat));
        lemma_cursor_never_rewinds(before, yield_of(answers, (j - 1) as nat) as int);
    }
}

/// From window `i` on, a window `k` comes after which the cursor stands
/// above `h`.
proof fn lemma_passes_from(
    state: ReaderState,
    answers: spec_fn(nat) -> Seq<FetchBlockResult>,
    h: int,
    i: nat,
) -> (k: nat)
    requires
        answers_fit(state, answers),
        keeps_yielding(state, answers, h),
    ensures
        k >= i,
        after_rounds(state, answers, k).height > h,
    decreases h - after_rounds(state, answers, i).height + 1,
{
    let here = after_rounds(state, answers, i);
    if here.height > h {
        i
    } else {
        let j = choose|j: nat| j >= i && #[trigger] yield_of(answers, j) > 0;
        lemma_rounds_never_rewind(state, answers, i, j);
        let there = after_rounds(state, answers, j);
        lemma_fetched_len(outcomes_of(answers, j));
        lemma_cursor_never_rewinds(there, yield_of(answers, j) as int);
        let next = after_rounds(state, answers, j + 1);
        assert(next == there.after(yield_of(answers, j) as int));
        if next.height > h {
            j + 1
        } else {
            lemma_passes_from(state, answers, h, j + 1)
        }
    }
}

/// The cursor passes every height for which fetching succeeds in the end.
/// However often fetches fail before they succeed, there is a window after
/// which the cursor stands above `h`; it stays above `h` from then on; and
/// by then more blocks than there are heights from the start up to `h` have
/// been handed on, unless the cursor started above `h`.
pub proof fn lemma_cursor_passes_eventually(
    state: ReaderState,
    answers: spec_fn(nat) -> Seq<FetchBlockResult>,
    h: int,
) -> (k: nat)
    requires
        answers_fit(state, answers),
        keeps_yielding(state, answers, h),
    ensures
        forall|m: nat| m >= k ==> (#[trigger] after_rounds(state, answers, m)).height > h,
        forwarded_blocks(answers, k) > h - state.height,
{
    let k = lemma_passes_from(state, answers, h, 0);
    lemma_rounds_never_rewind(state, answers, k, k);
    assert forall|m: nat| m >= k implies (#[trigger] after_rounds(state, answers, m)).height
        > h by {
        lemma_rounds_never_rewind(state, answers, k, m);
    }
    k
}

} // verus!
