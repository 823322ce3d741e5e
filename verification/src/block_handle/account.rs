//! The accounts of a block: one row for each address that takes part in
//! one of its calls.

use crate::bytes::Bytes32;
use crate::models::{Account, Call};
use vstd::prelude::*;

verus! {

/// The address, where there is one.
pub open spec fn named(address: Option<Bytes32>) -> Seq<Bytes32> {
    match address {
        Some(a) => seq![a],
        None => Seq::empty(),
    }
}

/// Who takes part in a call: its sender, its receiver and its contract,
/// each where the call has one, in this order.
pub open spec fn participants_of(call: Call) -> Seq<Bytes32> {
    named(call.sender) + named(call.receiver) + named(call.contract)
}

/// Who takes part in the calls, call by call.
pub open spec fn participants(calls: Seq<Call>) -> Seq<Bytes32>
    decreases calls.len(),
{
    if calls.len() == 0 {
        Seq::empty()
    } else {
        participants(calls.drop_last()) + participants_of(calls.last())
    }
}

/// Whether one of the rows is keyed by the address.
pub open spec fn has_account(rows: Seq<Account>, address: Bytes32) -> bool {
    exists|k: int| 0 <= k < rows.len() && (#[trigger] rows[k]).address == address
}

/// The rows with the address noted: unchanged where one of them is keyed by
/// it, and with a row for it at the end otherwise.
pub open spec fn noted(rows: Seq<Account>, address: Bytes32) -> Seq<Account> {
    if has_account(rows, address) {
        rows
    } else {
        rows.push(Account { address })
    }
}

/// One row for each address among the given ones, in the order in which
/// the addresses first occur.
pub open spec fn account_rows_of(addresses: Seq<Bytes32>) -> Seq<Account>
    decreases addresses.len(),
{
    if addresses.len() == 0 {
        Seq::empty()
    } else {
        noted(account_rows_of(addresses.drop_last()), addresses.last())
    }
}

/// The account rows of a block's calls.
pub open spec fn account_rows(calls: Seq<Call>) -> Seq<Account> {
    account_rows_of(participants(calls))
}

/// Notes the address among the rows: adds a row for it unless one of them
/// is keyed by it.
pub fn note_account(accounts: &mut Vec<Account>, address: Bytes32)
    ensures
        final(accounts)@ == noted(old(accounts)@, address),
{
    let mut k: usize = 0;
    while k < accounts.len()
        invariant
            k <= accounts.len(),
            accounts@ == old(accounts)@,
            forall|j: int| 0 <= j < k ==> (#[trigger] accounts@[j]).address != address,
        decreases accounts.len() - k,
    {
        if accounts[k].address.same(&address) {
            assert(has_account(accounts@, address));
            return ;
        }
        k += 1;
    }
    accounts.push(Account { address });
}

/// Notes the address, where there is one.
fn note_participant(accounts: &mut Vec<Account>, address: Option<Bytes32>, seen: Ghost<Seq<Bytes32>>)
    requires
        old(accounts)@ == account_rows_of(seen@),
    ensures
        final(accounts)@ == account_rows_of(seen@ + named(address)),
{
    match address {
        Some(a) => {
            proof {
                assert((seen@ + named(address)).drop_last() =~= seen@);
            }
            note_account(accounts, a);
        },
        None => {
            proof {
                assert(seen@ + named(address) =~= seen@);
            }
        },
    }
}

/// The accounts of a block, from its calls: one row for each address that
/// is the sender, the receiver or the contract of a call, in the order in
/// which the addresses first occur.
pub fn process_account(calls: &Vec<Call>) -> (accounts: Vec<Account>)
    ensures
        accounts@ == account_rows(calls@),
{
    let mut accounts: Vec<Account> = Vec::new();
    let mut i: usize = 0;
    while i < calls.len()
        invariant
            i <= calls.len(),
            accounts@ == account_rows(calls@.take(i as int)),
        decreases calls.len() - i,
    {
        let call = &calls[i];
        let ghost before = participants(calls@.take(i as int));
        note_participant(&mut accounts, call.sender, Ghost(before));
        note_participant(&mut accounts, call.receiver, Ghost(before + named(call.sender)));
        note_participant(
            &mut accounts,
            call.contract,
            Ghost(before + named(call.sender) + named(call.receiver)),
        );
        proof {
            assert(calls@.take(i + 1).drop_last() =~= calls@.take(i as int));
            assert(before + named(call.sender) + named(call.receiver) + named(call.contract)
                =~= before + participants_of(*call));
        }
        i += 1;
    }
    proof {
        assert(calls@.take(calls.len() as int) =~= calls@);
    }
    accounts
}

/// Accounts are keyed by address: no two rows hold the same address, every
/// given address has a row, and every row holds one of the given addresses.
pub proof fn lemma_accounts_keyed_by_address(addresses: Seq<Bytes32>)
    ensures
        forall|j: int, k: int|
            #![trigger account_rows_of(addresses)[j], account_rows_of(addresses)[k]]
            0 <= j < k < account_rows_of(addresses).len() ==> account_rows_of(
                addresses,
            )[j].address != account_rows_of(addresses)[k].address,
        forall|i: int|
            0 <= i < addresses.len() ==> has_account(
                account_rows_of(addresses),
                #[trigger] addresses[i],
            ),
        forall|k: int|
            0 <= k < account_rows_of(addresses).len() ==> addresses.contains(
                (#[trigger] account_rows_of(addresses)[k]).address,
            ),
        account_rows_of(addresses).len() <= addresses.len(),
    decreases addresses.len(),
{
    if addresses.len() > 0 {
        let front = addresses.drop_last();
        let last = addresses.last();
        let before = account_rows_of(front);
        let rows = account_rows_of(addresses);
        lemma_accounts_keyed_by_address(front);
        assert forall|i: int| 0 <= i < addresses.len() implies has_account(
            rows,
            #[trigger] addresses[i],
        ) by {
            if i < front.len() {
                assert(addresses[i] == front[i]);
                assert(has_account(before, front[i]));
                let k = choose|k: int|
                    0 <= k < before.len() && (#[trigger] before[k]).address == front[i];
                assert(rows[k] == before[k]);
            } else {
                if has_account(before, last) {
                } else {
                    assert(rows[before.len() as int].address == last);
                }
            }
        }
        assert forall|k: int| 0 <= k < rows.len() implies addresses.contains(
            (#[trigger] rows[k]).address,
        ) by {
            if k < before.len() {
                assert(rows[k] == before[k]);
                assert(front.contains(before[k].address));
                let i = choose|i: int| 0 <= i < front.len() && front[i] == before[k].address;
                assert(addresses[i] == front[i]);
            } else {
                assert(rows[k].address == last);
                assert(addresses[addresses.len() - 1] == last);
            }
        }
        assert forall|j: int, k: int| 0 <= j < k < rows.len() implies rows[j].address
            != rows[k].address by {
            if k < before.len() {
                assert(rows[j] == before[j] && rows[k] == before[k]);
            } else {
                assert(!has_account(before, last));
                assert(rows[j] == before[j]);
            }
        }
    }
}

} // verus!
