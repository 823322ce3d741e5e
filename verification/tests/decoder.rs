use fuelscan::block_handle::account::process_account;
use fuelscan::block_handle::process::{process, ProcessError};
use fuelscan::block_handle::transactions::init_transaction_with_txs;
use fuelscan::bytes::Bytes32;
use fuelscan::chain::{BlockBodies, Header, Input, Output, Payload, Receipt, TransactionResponse};
use fuelscan::models::{
    Account, Asset, Block, Call, CallKind, Coinbase, Contract, Transaction, TransactionKind,
};

fn id(n: u8) -> Bytes32 {
    Bytes32 { bytes: [n; 32] }
}

fn header() -> Header {
    Header { id: id(0xb1), height: 42, da_height: 9, time: 1_700_000_042 }
}

fn coin(owner: u8) -> Input {
    Input::CoinSigned { owner: id(owner), amount: 5, asset_id: id(0) }
}

fn body(payload: Payload, inputs: Vec<Input>, outputs: Vec<Output>) -> TransactionResponse {
    TransactionResponse {
        payload,
        inputs,
        outputs,
        input: String::from("inputs"),
        output: String::from("outputs"),
    }
}

fn script(inputs: Vec<Input>) -> TransactionResponse {
    body(
        Payload::Script { gas_price: 3, gas_limit: 1000, script: vec![0x24], script_data: vec![] },
        inputs,
        vec![],
    )
}

#[test]
fn create_with_signed_coin_and_contract_input() {
    let a = id(0xaa);
    let c = id(0xcc);
    let tx = body(
        Payload::Create { gas_price: 2, gas_limit: 500, bytecode_witness_index: 1 },
        vec![
            Input::CoinSigned { owner: a, amount: 10, asset_id: id(0) },
            Input::Contract { contract_id: c },
        ],
        vec![],
    );
    let bodies: BlockBodies = vec![(id(1), Some(tx), None)];
    let (block, coinbase, transactions, contracts, calls, (deletes, inserts)) =
        process(&header(), &bodies).unwrap();
    assert_eq!(block, Block { id: id(0xb1), height: 42, da_height: 9, time: 1_700_000_042 });
    assert_eq!(coinbase, None);
    assert_eq!(
        transactions,
        vec![Transaction {
            id: id(1),
            block_id: id(0xb1),
            height: 42,
            kind: TransactionKind::Create,
            sender: Some(a),
            gas_price: Some(2),
            gas_limit: Some(500),
            input: String::from("inputs"),
            output: String::from("outputs"),
            script: None,
            script_data: None,
        }]
    );
    assert_eq!(
        contracts,
        vec![Contract {
            contract_id: c,
            transaction_id: id(1),
            height: 42,
            sender: Some(a),
            bytecode_witness_index: 1,
        }]
    );
    assert!(calls.is_empty());
    assert!(deletes.is_empty());
    assert!(inserts.is_empty());
}

#[test]
fn mint_with_coin_output() {
    let r = id(0x77);
    let tx = body(
        Payload::Mint,
        vec![],
        vec![Output::Coin { to: r, amount: 600, asset_id: id(0) }],
    );
    let bodies: BlockBodies = vec![(id(2), Some(tx), Some(vec![]))];
    let (_, coinbase, transactions, contracts, calls, (deletes, inserts)) =
        process(&header(), &bodies).unwrap();
    assert_eq!(
        coinbase,
        Some(Coinbase {
            block_id: id(0xb1),
            height: 42,
            transaction_id: id(2),
            receiver: r,
            amount: 600,
            asset_id: id(0),
        })
    );
    assert_eq!(transactions.len(), 1);
    assert_eq!(transactions[0].kind, TransactionKind::Mint);
    assert_eq!(transactions[0].gas_price, None);
    assert_eq!(transactions[0].gas_limit, None);
    assert_eq!(transactions[0].sender, None);
    assert!(contracts.is_empty());
    assert!(calls.is_empty());
    assert!(deletes.is_empty());
    assert!(inserts.is_empty());
}

#[test]
fn mint_without_coin_output_gives_no_coinbase() {
    let tx = body(Payload::Mint, vec![], vec![Output::Other]);
    let bodies: BlockBodies = vec![(id(2), Some(tx), None)];
    let (_, coinbase, transactions, ..) = process(&header(), &bodies).unwrap();
    assert_eq!(coinbase, None);
    assert_eq!(transactions.len(), 1);
}

#[test]
fn mint_receipts_give_no_calls() {
    let tx = body(Payload::Mint, vec![], vec![Output::Coin { to: id(7), amount: 1, asset_id: id(0) }]);
    let receipts = vec![Receipt::Call { id: id(1), to: id(2), amount: 3, asset_id: id(0) }];
    let bodies: BlockBodies = vec![(id(2), Some(tx), Some(receipts))];
    let (_, _, _, _, calls, (deletes, inserts)) = process(&header(), &bodies).unwrap();
    assert!(calls.is_empty());
    assert!(deletes.is_empty());
    assert!(inserts.is_empty());
}

#[test]
fn create_without_contract_input_gives_no_contract() {
    let tx = body(
        Payload::Create { gas_price: 1, gas_limit: 1, bytecode_witness_index: 0 },
        vec![coin(0xaa)],
        vec![],
    );
    let bodies: BlockBodies = vec![(id(1), Some(tx), None)];
    let (_, _, transactions, contracts, ..) = process(&header(), &bodies).unwrap();
    assert_eq!(transactions.len(), 1);
    assert!(contracts.is_empty());
}

#[test]
fn last_signed_coin_is_the_sender() {
    let tx = script(vec![coin(1), Input::Other, coin(2), Input::Contract { contract_id: id(9) }]);
    let bodies: BlockBodies = vec![(id(3), Some(tx), None)];
    let (_, _, transactions, ..) = process(&header(), &bodies).unwrap();
    assert_eq!(transactions[0].sender, Some(id(2)));
}

#[test]
fn script_without_signed_coin_has_no_sender() {
    let tx = script(vec![Input::Other]);
    let bodies: BlockBodies = vec![(id(3), Some(tx), None)];
    let (_, _, transactions, ..) = process(&header(), &bodies).unwrap();
    assert_eq!(transactions[0].sender, None);
}

#[test]
fn script_bytecode_and_data_are_keyed_by_the_hash() {
    let with_data = body(
        Payload::Script { gas_price: 1, gas_limit: 2, script: vec![], script_data: vec![1, 2] },
        vec![],
        vec![],
    );
    let bodies: BlockBodies = vec![(id(3), Some(script(vec![])), None), (id(4), Some(with_data), None)];
    let (_, _, transactions, ..) = process(&header(), &bodies).unwrap();
    assert_eq!(transactions[0].kind, TransactionKind::Script);
    assert_eq!(transactions[0].gas_price, Some(3));
    assert_eq!(transactions[0].gas_limit, Some(1000));
    assert_eq!(transactions[0].script, Some(id(3)));
    assert_eq!(transactions[0].script_data, None);
    assert_eq!(transactions[1].script, None);
    assert_eq!(transactions[1].script_data, Some(id(4)));
}

#[test]
fn script_receipts_give_calls_and_balance_rows() {
    let a = id(0xaa);
    let receipts = vec![
        Receipt::Call { id: id(0), to: id(0xc1), amount: 0, asset_id: id(0) },
        Receipt::Other,
        Receipt::Transfer { id: id(0xc1), to: id(0xc2), amount: 25, asset_id: id(5) },
        Receipt::TransferOut { id: id(0xc2), to: id(0xdd), amount: 7, asset_id: id(5) },
    ];
    let bodies: BlockBodies = vec![(id(3), Some(script(vec![coin(0xaa)])), Some(receipts))];
    let (_, coinbase, transactions, contracts, calls, (deletes, inserts)) =
        process(&header(), &bodies).unwrap();
    assert_eq!(coinbase, None);
    assert_eq!(transactions.len(), 1);
    assert!(contracts.is_empty());
    assert_eq!(
        calls,
        vec![
            Call {
                transaction_id: id(3),
                height: 42,
                kind: CallKind::Invocation,
                sender: Some(a),
                from: id(0),
                receiver: None,
                contract: Some(id(0xc1)),
                amount: 0,
                asset_id: id(0),
            },
            Call {
                transaction_id: id(3),
                height: 42,
                kind: CallKind::Transfer,
                sender: Some(a),
                from: id(0xc1),
                receiver: None,
                contract: Some(id(0xc2)),
                amount: 25,
                asset_id: id(5),
            },
            Call {
                transaction_id: id(3),
                height: 42,
                kind: CallKind::TransferOut,
                sender: Some(a),
                from: id(0xc2),
                receiver: Some(id(0xdd)),
                contract: None,
                amount: 7,
                asset_id: id(5),
            },
        ]
    );
    let row = |owner: u8, amount: u64| Asset {
        owner: id(owner),
        asset_id: id(5),
        amount,
        transaction_id: id(3),
        height: 42,
    };
    assert_eq!(deletes, vec![row(0xc1, 25), row(0xc2, 0), row(0xc2, 7), row(0xdd, 0)]);
    assert_eq!(inserts, vec![row(0xc1, 0), row(0xc2, 25), row(0xc2, 0), row(0xdd, 7)]);
}

#[test]
fn no_balance_row_is_deleted_alone() {
    let receipts = vec![
        Receipt::Call { id: id(0), to: id(1), amount: 4, asset_id: id(0) },
        Receipt::Call { id: id(1), to: id(2), amount: 0, asset_id: id(0) },
        Receipt::TransferOut { id: id(2), to: id(3), amount: 9, asset_id: id(8) },
    ];
    let bodies: BlockBodies = vec![
        (id(3), Some(script(vec![coin(0xaa)])), Some(receipts.clone())),
        (id(4), Some(script(vec![])), Some(receipts)),
    ];
    let (_, _, _, _, calls, (deletes, inserts)) = process(&header(), &bodies).unwrap();
    assert_eq!(calls.len(), 6);
    assert_eq!(deletes.len(), 8);
    assert_eq!(inserts.len(), deletes.len());
    for (d, i) in deletes.iter().zip(inserts.iter()) {
        assert_eq!(d.owner, i.owner);
        assert_eq!(d.asset_id, i.asset_id);
        assert_eq!(d.transaction_id, i.transaction_id);
        assert_eq!(d.height, i.height);
    }
    for k in 0..deletes.len() / 2 {
        let (payer, payee) = (2 * k, 2 * k + 1);
        assert!(deletes[payer].owner != deletes[payee].owner);
        assert!(deletes[payer].amount > 0);
        assert_eq!(deletes[payee].amount, 0);
        assert_eq!(inserts[payer].amount, 0);
        assert_eq!(inserts[payee].amount, deletes[payer].amount);
    }
}

#[test]
fn transfer_out_pairs_the_rows_of_each_owner() {
    let (x, y) = (id(0xc1), id(0xdd));
    let receipts = vec![Receipt::TransferOut { id: x, to: y, amount: 5, asset_id: id(9) }];
    let bodies: BlockBodies = vec![(id(3), Some(script(vec![])), Some(receipts))];
    let (_, _, _, _, _, (deletes, inserts)) = process(&header(), &bodies).unwrap();
    let row = |owner: Bytes32, amount: u64| Asset {
        owner,
        asset_id: id(9),
        amount,
        transaction_id: id(3),
        height: 42,
    };
    assert_eq!(deletes, vec![row(x, 5), row(y, 0)]);
    assert_eq!(inserts, vec![row(x, 0), row(y, 5)]);
}

#[test]
fn value_that_stays_where_it_is_changes_no_balance() {
    let receipts = vec![
        Receipt::Transfer { id: id(0xc1), to: id(0xc1), amount: 5, asset_id: id(9) },
        Receipt::Call { id: id(0xc2), to: id(0xc2), amount: 1, asset_id: id(9) },
        Receipt::TransferOut { id: id(0xc3), to: id(0xc4), amount: 0, asset_id: id(9) },
    ];
    let bodies: BlockBodies = vec![(id(3), Some(script(vec![])), Some(receipts))];
    let (_, _, _, _, calls, (deletes, inserts)) = process(&header(), &bodies).unwrap();
    assert_eq!(calls.len(), 3);
    assert!(deletes.is_empty());
    assert!(inserts.is_empty());
}

#[test]
fn script_without_receipts_gives_no_calls() {
    let bodies: BlockBodies = vec![(id(3), Some(script(vec![coin(1)])), None)];
    let (_, _, transactions, _, calls, _) = process(&header(), &bodies).unwrap();
    assert_eq!(transactions.len(), 1);
    assert!(calls.is_empty());
}

#[test]
fn rows_keep_the_order_of_the_block() {
    let create = |c: u8| {
        body(
            Payload::Create { gas_price: 1, gas_limit: 1, bytecode_witness_index: 0 },
            vec![Input::Contract { contract_id: id(c) }],
            vec![],
        )
    };
    let mint = body(Payload::Mint, vec![], vec![Output::Coin { to: id(7), amount: 1, asset_id: id(0) }]);
    let bodies: BlockBodies = vec![
        (id(1), Some(create(0xc1)), None),
        (id(2), Some(script(vec![])), Some(vec![Receipt::Call { id: id(0), to: id(0xc1), amount: 1, asset_id: id(0) }])),
        (id(3), Some(create(0xc2)), None),
        (id(4), Some(mint), None),
    ];
    let (_, coinbase, transactions, contracts, calls, _) = process(&header(), &bodies).unwrap();
    let ids: Vec<Bytes32> = transactions.iter().map(|t| t.id).collect();
    assert_eq!(ids, vec![id(1), id(2), id(3), id(4)]);
    let deployed: Vec<Bytes32> = contracts.iter().map(|c| c.contract_id).collect();
    assert_eq!(deployed, vec![id(0xc1), id(0xc2)]);
    assert_eq!(calls.len(), 1);
    assert_eq!(coinbase.unwrap().receiver, id(7));
}

#[test]
fn empty_block_gives_only_the_block_row() {
    let bodies: BlockBodies = vec![];
    let (block, coinbase, transactions, contracts, calls, (deletes, inserts)) =
        process(&header(), &bodies).unwrap();
    assert_eq!(block.height, 42);
    assert_eq!(block.id, id(0xb1));
    assert_eq!(block.da_height, 9);
    assert_eq!(coinbase, None);
    assert!(transactions.is_empty() && contracts.is_empty() && calls.is_empty());
    assert!(deletes.is_empty() && inserts.is_empty());
}

#[test]
fn unknown_kind_fails_the_block() {
    let bodies: BlockBodies = vec![
        (id(1), Some(script(vec![])), None),
        (id(2), Some(body(Payload::Other, vec![], vec![])), None),
        (id(3), None, None),
    ];
    let e = process(&header(), &bodies).unwrap_err();
    assert_eq!(e, ProcessError::UnknownKind(id(2)));
    assert_eq!(e.message(), "unrecognized transaction kind");
}

#[test]
fn missing_body_fails_the_block() {
    let bodies: BlockBodies = vec![(id(1), None, Some(vec![])), (id(2), Some(body(Payload::Other, vec![], vec![])), None)];
    let e = process(&header(), &bodies).unwrap_err();
    assert_eq!(e, ProcessError::MissingTransaction(id(1)));
    assert_eq!(e.message(), "transaction body is missing");
}

fn call(sender: Option<u8>, receiver: Option<u8>, contract: Option<u8>) -> Call {
    Call {
        transaction_id: id(3),
        height: 42,
        kind: CallKind::Invocation,
        sender: sender.map(id),
        from: id(0),
        receiver: receiver.map(id),
        contract: contract.map(id),
        amount: 0,
        asset_id: id(0),
    }
}

fn addresses(accounts: Vec<Account>) -> Vec<Bytes32> {
    accounts.into_iter().map(|a| a.address).collect()
}

#[test]
fn accounts_of_no_calls() {
    assert!(process_account(&vec![]).is_empty());
}

#[test]
fn accounts_hold_each_participant_once_in_order_of_first_occurrence() {
    let calls = vec![
        call(Some(1), None, Some(2)),
        call(Some(1), Some(3), None),
        call(Some(4), Some(2), Some(1)),
        call(None, None, None),
        call(Some(5), Some(5), Some(5)),
    ];
    assert_eq!(addresses(process_account(&calls)), vec![id(1), id(2), id(3), id(4), id(5)]);
}

#[test]
fn accounts_take_sender_then_receiver_then_contract() {
    let calls = vec![call(Some(9), Some(8), Some(7))];
    assert_eq!(addresses(process_account(&calls)), vec![id(9), id(8), id(7)]);
}

#[test]
fn accounts_are_the_same_for_the_same_calls() {
    let calls = vec![call(Some(1), None, Some(2)), call(Some(2), Some(1), None)];
    assert_eq!(process_account(&calls), process_account(&calls.clone()));
}

#[test]
fn identifiers_compare_byte_by_byte() {
    let mut other = [7u8; 32];
    assert!(id(7).same(&Bytes32 { bytes: other }));
    other[31] = 8;
    assert!(!id(7).same(&Bytes32 { bytes: other }));
    other[31] = 7;
    other[0] = 6;
    assert!(!id(7).same(&Bytes32 { bytes: other }));
}

#[test]
fn a_block_starts_with_no_transaction_rows() {
    assert!(init_transaction_with_txs().is_empty());
}
