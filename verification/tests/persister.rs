use fuelscan::block_handle::{
    step_error, Attempt, BlockHandler, BlockHandlerError, HandlerAction, HandlerEvent, WriteAction,
    WriteSet, WriteStep, CHAIN_ID, RETRY_DELAY_MILLIS,
};
use fuelscan::bytes::Bytes32;
use fuelscan::chain::{BlockBodies, Blocks, Header, Input, Output, Payload, Receipt, TransactionResponse};

fn id(n: u8) -> Bytes32 {
    Bytes32 { bytes: [n; 32] }
}

fn header(height: u64) -> Header {
    Header { id: id(height as u8), height, da_height: 1, time: 1_700_000_000 + height }
}

fn body(payload: Payload, inputs: Vec<Input>, outputs: Vec<Output>) -> TransactionResponse {
    TransactionResponse { payload, inputs, outputs, input: String::from("i"), output: String::from("o") }
}

fn mint(to: u8) -> TransactionResponse {
    body(Payload::Mint, vec![], vec![Output::Coin { to: id(to), amount: 1, asset_id: id(0) }])
}

fn script() -> TransactionResponse {
    body(
        Payload::Script { gas_price: 1, gas_limit: 10, script: vec![1], script_data: vec![] },
        vec![Input::CoinSigned { owner: id(0xaa), amount: 3, asset_id: id(0) }],
        vec![],
    )
}

fn transfer_block() -> BlockBodies {
    vec![
        (id(1), Some(mint(0x77)), None),
        (
            id(2),
            Some(script()),
            Some(vec![Receipt::TransferOut { id: id(0xc1), to: id(0xdd), amount: 5, asset_id: id(0) }]),
        ),
    ]
}

fn batch(heights: &[u64]) -> Blocks {
    heights.iter().map(|h| (header(*h), transfer_block())).collect()
}

fn begin(bodies: &BlockBodies) -> Attempt {
    BlockHandler::insert_header_and_txs(&header(200), bodies, Ok(())).unwrap()
}

const WITH_COINBASE: [WriteStep; 8] = [
    WriteStep::InsertBlock,
    WriteStep::InsertCoinbase,
    WriteStep::InsertTransactions,
    WriteStep::InsertContracts,
    WriteStep::InsertCalls,
    WriteStep::DeleteAssets,
    WriteStep::InsertAssets,
    WriteStep::InsertAccounts,
];

#[test]
fn chain_id_is_zero() {
    assert_eq!(CHAIN_ID, 0);
}

#[test]
fn write_set_holds_the_rows_and_the_accounts() {
    let rows = WriteSet::prepare(&header(200), &transfer_block()).unwrap();
    assert_eq!(rows.block.height, 200);
    assert_eq!(rows.coinbase.as_ref().unwrap().receiver, id(0x77));
    assert_eq!(rows.transactions.len(), 2);
    assert!(rows.contracts.is_empty());
    assert_eq!(rows.calls.len(), 1);
    assert_eq!(rows.assets_delete.len(), 2);
    assert_eq!(rows.assets_insert.len(), 2);
    let held = |row: &fuelscan::models::Asset| (row.owner, row.amount);
    assert_eq!(held(&rows.assets_delete[0]), (id(0xc1), 5));
    assert_eq!(held(&rows.assets_insert[0]), (id(0xc1), 0));
    assert_eq!(held(&rows.assets_delete[1]), (id(0xdd), 0));
    assert_eq!(held(&rows.assets_insert[1]), (id(0xdd), 5));
    let accounts: Vec<Bytes32> = rows.accounts.iter().map(|a| a.address).collect();
    assert_eq!(accounts, vec![id(0xaa), id(0xdd)]);
}

#[test]
fn writes_come_in_the_fixed_order() {
    let rows = WriteSet::prepare(&header(200), &transfer_block()).unwrap();
    assert_eq!(rows.steps(), WITH_COINBASE.to_vec());
}

#[test]
fn coinbase_is_written_only_where_there_is_one() {
    let bodies: BlockBodies = vec![(id(2), Some(script()), None)];
    let rows = WriteSet::prepare(&header(200), &bodies).unwrap();
    assert_eq!(
        rows.steps(),
        vec![
            WriteStep::InsertBlock,
            WriteStep::InsertTransactions,
            WriteStep::InsertContracts,
            WriteStep::InsertCalls,
            WriteStep::DeleteAssets,
            WriteStep::InsertAssets,
            WriteStep::InsertAccounts,
        ]
    );
}

#[test]
fn attempt_runs_every_write_and_then_commits() {
    let bodies = transfer_block();
    let mut attempt = begin(&bodies);
    assert_eq!(attempt.rows().transactions.len(), 2);
    for step in WITH_COINBASE {
        assert_eq!(attempt.action(), WriteAction::Run(step));
        assert!(attempt.record(Ok(())).is_ok());
    }
    assert_eq!(attempt.action(), WriteAction::Commit);
    assert!(attempt.record(Ok(())).is_ok());
    assert_eq!(attempt.action(), WriteAction::Commit);
}

#[test]
fn refused_account_rows_roll_the_attempt_back() {
    let bodies = transfer_block();
    let mut attempt = begin(&bodies);
    for _ in 0..7 {
        assert!(attempt.record(Ok(())).is_ok());
    }
    assert_eq!(attempt.action(), WriteAction::Run(WriteStep::InsertAccounts));
    match attempt.record(Err(String::from("duplicate key"))) {
        Err(BlockHandlerError::InsertAccounts(text)) => assert_eq!(text, "duplicate key"),
        other => panic!("expected InsertAccounts, got {:?}", other),
    }
    assert_eq!(attempt.action(), WriteAction::Rollback);
    assert!(attempt.record(Ok(())).is_ok());
    assert_eq!(attempt.action(), WriteAction::Rollback);
    assert!(attempt.record(Err(String::from("again"))).is_ok());
    assert_eq!(attempt.action(), WriteAction::Rollback);
}

#[test]
fn refused_first_write_rolls_the_attempt_back() {
    let bodies = transfer_block();
    let mut attempt = begin(&bodies);
    match attempt.record(Err(String::from("height exists"))) {
        Err(BlockHandlerError::InsertHeaderDb(text)) => assert_eq!(text, "height exists"),
        other => panic!("expected InsertHeaderDb, got {:?}", other),
    }
    assert_eq!(attempt.action(), WriteAction::Rollback);
}

#[test]
fn each_write_has_its_error() {
    let text = || String::from("m");
    assert!(matches!(step_error(WriteStep::InsertBlock, text()), BlockHandlerError::InsertHeaderDb(t) if t == "m"));
    assert!(matches!(step_error(WriteStep::InsertCoinbase, text()), BlockHandlerError::InsertHeaderDb(t) if t == "m"));
    assert!(matches!(step_error(WriteStep::InsertTransactions, text()), BlockHandlerError::InsertTransactionDb(t) if t == "m"));
    assert!(matches!(step_error(WriteStep::InsertContracts, text()), BlockHandlerError::InsertContract(t) if t == "m"));
    assert!(matches!(step_error(WriteStep::InsertCalls, text()), BlockHandlerError::InsertCalls(t) if t == "m"));
    assert!(matches!(step_error(WriteStep::DeleteAssets, text()), BlockHandlerError::InsertAssets(t) if t == "m"));
    assert!(matches!(step_error(WriteStep::InsertAssets, text()), BlockHandlerError::InsertAssets(t) if t == "m"));
    assert!(matches!(step_error(WriteStep::InsertAccounts, text()), BlockHandlerError::InsertAccounts(t) if t == "m"));
}

#[test]
fn database_error_becomes_insert_db_with_its_message() {
    match BlockHandlerError::from(diesel::result::Error::NotFound) {
        BlockHandlerError::InsertDb(text) => assert_eq!(text, "Record not found"),
        other => panic!("expected InsertDb, got {:?}", other),
    }
    match BlockHandlerError::from(diesel::result::Error::RollbackTransaction) {
        BlockHandlerError::InsertDb(text) => {
            assert_eq!(text, "You have asked diesel to rollback the transaction")
        }
        other => panic!("expected InsertDb, got {:?}", other),
    }
}

#[test]
fn no_connection_fails_before_decoding() {
    let bodies: BlockBodies = vec![(id(1), None, None)];
    match BlockHandler::insert_header_and_txs(&header(1), &bodies, Err(String::from("pool timed out"))) {
        Err(BlockHandlerError::GetPgSqlPoolFailed(text)) => assert_eq!(text, "pool timed out"),
        other => panic!("expected GetPgSqlPoolFailed, got {:?}", other),
    }
}

#[test]
fn undecodable_block_fails_the_attempt() {
    let bodies: BlockBodies = vec![(id(1), Some(body(Payload::Other, vec![], vec![])), None)];
    match BlockHandler::insert_header_and_txs(&header(1), &bodies, Ok(())) {
        Err(BlockHandlerError::DataProcessError(text)) => {
            assert_eq!(text, "unrecognized transaction kind")
        }
        other => panic!("expected DataProcessError, got {:?}", other),
    }
    let bodies: BlockBodies = vec![(id(1), None, None)];
    match BlockHandler::insert_header_and_txs(&header(1), &bodies, Ok(())) {
        Err(BlockHandlerError::DataProcessError(text)) => assert_eq!(text, "transaction body is missing"),
        other => panic!("expected DataProcessError, got {:?}", other),
    }
}

#[test]
fn new_handler_waits_for_a_batch() {
    let handler = BlockHandler::new();
    assert_eq!(handler.start(), HandlerAction::Receive);
    assert!(handler.current().is_none());
}

#[test]
fn blocks_are_committed_in_the_order_of_the_batch() {
    let mut handler = BlockHandler::new();
    let mut begun: Vec<u64> = vec![];
    let mut action = handler.step(HandlerEvent::Received(batch(&[200, 201, 202])));
    for index in 0..3 {
        assert_eq!(action, HandlerAction::Attempt { index });
        begun.push(handler.current().unwrap().0.height);
        // A batch for later heights arrives early: it has to wait.
        assert_eq!(handler.step(HandlerEvent::Received(batch(&[203]))), HandlerAction::Attempt { index });
        assert_eq!(handler.current().unwrap().0.height, 200 + index as u64);
        action = handler.step(HandlerEvent::Attempted(Ok(())));
    }
    assert_eq!(begun, vec![200, 201, 202]);
    assert_eq!(action, HandlerAction::Receive);
    assert!(handler.current().is_none());
    assert_eq!(handler.step(HandlerEvent::Received(batch(&[203]))), HandlerAction::Attempt { index: 0 });
    assert_eq!(handler.current().unwrap().0.height, 203);
}

#[test]
fn failed_block_is_tried_again_unchanged_after_the_pause() {
    let mut handler = BlockHandler::new();
    handler.step(HandlerEvent::Received(batch(&[200, 201])));
    let before = handler.current().unwrap().clone();
    let failure = BlockHandlerError::InsertAccounts(String::from("refused"));
    let action = handler.step(HandlerEvent::Attempted(Err(failure)));
    assert_eq!(action, HandlerAction::Sleep { millis: 1000 });
    assert_eq!(action, HandlerAction::Sleep { millis: RETRY_DELAY_MILLIS });
    assert!(handler.current().is_none());
    assert_eq!(handler.step(HandlerEvent::Slept), HandlerAction::Attempt { index: 0 });
    assert_eq!(*handler.current().unwrap(), before);
    // There is no limit to the number of attempts.
    for _ in 0..50 {
        let failure = BlockHandlerError::DataProcessError(String::from("unrecognized transaction kind"));
        assert_eq!(
            handler.step(HandlerEvent::Attempted(Err(failure))),
            HandlerAction::Sleep { millis: 1000 }
        );
        assert_eq!(handler.step(HandlerEvent::Slept), HandlerAction::Attempt { index: 0 });
    }
    assert_eq!(handler.step(HandlerEvent::Attempted(Ok(()))), HandlerAction::Attempt { index: 1 });
    assert_eq!(handler.current().unwrap().0.height, 201);
}

#[test]
fn shutdown_is_seen_only_between_batches() {
    let mut handler = BlockHandler::new();
    handler.step(HandlerEvent::Received(batch(&[200])));
    assert_eq!(handler.step(HandlerEvent::Shutdown), HandlerAction::Attempt { index: 0 });
    let failure = BlockHandlerError::InsertDb(String::from("serialization failure"));
    assert_eq!(handler.step(HandlerEvent::Attempted(Err(failure))), HandlerAction::Sleep { millis: 1000 });
    assert_eq!(handler.step(HandlerEvent::Shutdown), HandlerAction::Sleep { millis: 1000 });
    assert_eq!(handler.step(HandlerEvent::Slept), HandlerAction::Attempt { index: 0 });
    assert_eq!(handler.step(HandlerEvent::Attempted(Ok(()))), HandlerAction::Receive);
    assert_eq!(handler.step(HandlerEvent::Shutdown), HandlerAction::Stop);
    assert_eq!(handler.step(HandlerEvent::Received(batch(&[201]))), HandlerAction::Stop);
    assert_eq!(handler.start(), HandlerAction::Stop);
}

#[test]
fn empty_batch_keeps_waiting() {
    let mut handler = BlockHandler::new();
    assert_eq!(handler.step(HandlerEvent::Received(vec![])), HandlerAction::Receive);
    assert_eq!(handler.step(HandlerEvent::Slept), HandlerAction::Receive);
    assert_eq!(handler.step(HandlerEvent::Attempted(Ok(()))), HandlerAction::Receive);
}

#[test]
fn handler_errors_in_words() {
    let m = || String::from("m");
    assert_eq!(BlockHandlerError::InsertHeaderDb(m()).message(), "failed to insert header into db: m");
    assert_eq!(
        BlockHandlerError::InsertTransactionDb(m()).message(),
        "failed to insert transaction into db: m"
    );
    assert_eq!(BlockHandlerError::InsertContract(m()).message(), "insert contracts failed: m");
    assert_eq!(BlockHandlerError::InsertCalls(m()).message(), "insert calls failed: m");
    assert_eq!(BlockHandlerError::InsertAssets(m()).message(), "insert assets failed: m");
    assert_eq!(BlockHandlerError::InsertAccounts(m()).message(), "insert accounts failed: m");
    assert_eq!(BlockHandlerError::InsertDb(m()).message(), "failed to insert into db: m");
    assert_eq!(BlockHandlerError::GetPgSqlPoolFailed(m()).message(), "failed to insert into db: m");
    assert_eq!(BlockHandlerError::DataProcessError(m()).message(), "process data error: m");
    assert_eq!(BlockHandlerError::DataProcessError(String::new()).message(), "process data error: ");
}
