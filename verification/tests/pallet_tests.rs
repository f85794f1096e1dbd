use multi_account::errors::Error;
use multi_account::events::Event;
use multi_account::pallet::Config;
use multi_account::pallet::Outcome;
use multi_account::pallet::Pallet;

const ALICE: u64 = 1337;
const BOB: u64 = 2000;
const CHARLIE: u64 = 3000;
const OSCAR: u64 = 10000;
const FREE_BALANCE: u64 = 10_000_000;

fn new_pallet() -> Pallet {
    Pallet::new(Config { max_signatories: 100 })
}

/// A minimal ledger standing in for the external executor's balances.
fn balance_of(balances: &Vec<(u64, u64)>, who: u64) -> u64 {
    for (account, amount) in balances.iter() {
        if *account == who {
            return *amount;
        }
    }
    0
}

fn set_balance(balances: &mut Vec<(u64, u64)>, who: u64, amount: u64) {
    for entry in balances.iter_mut() {
        if entry.0 == who {
            entry.1 = amount;
            return;
        }
    }
    balances.push((who, amount));
}

/// The canonical encoding of the one action the tests dispatch: a transfer
/// of `value` to `dest`, as destination and amount in little-endian bytes.
fn encode_transfer(dest: u64, value: u64) -> Vec<u8> {
    let mut call = Vec::new();
    call.extend_from_slice(&dest.to_le_bytes());
    call.extend_from_slice(&value.to_le_bytes());
    call
}

/// The external executor: decode the transfer and move the amount.
fn execute_transfer(balances: &mut Vec<(u64, u64)>, from: u64, call: &[u8]) {
    let dest = u64::from_le_bytes(call[0..8].try_into().unwrap());
    let value = u64::from_le_bytes(call[8..16].try_into().unwrap());
    let from_balance = balance_of(balances, from);
    let dest_balance = balance_of(balances, dest);
    set_balance(balances, from, from_balance - value);
    set_balance(balances, dest, dest_balance + value);
}

#[test]
fn it_should_create_an_account_in_database() {
    let mut pallet = new_pallet();
    let mut other_signatories = vec![2, 3, 4, 5, 6];
    let threshold = 2;
    let id = pallet
        .register_account(1, other_signatories.clone(), threshold)
        .expect("This should not fail under no circumstance");
    println!("id: {:?}", id);
    other_signatories.insert(0, 1);
    assert_eq!(id, Pallet::multi_account_id(&other_signatories, threshold));
    let event = Event::Account { id, signatories: other_signatories, threshold };
    let log = pallet.event_log();
    assert!(!log.is_empty(), "The genesis block has no events");
    assert!(log.contains(&event));
    assert_eq!(log.last(), Some(&event));
}

#[test]
fn it_should_create_a_call_succesfully_if_signatory() {
    let mut pallet = new_pallet();
    let other_signatories = vec![2, 3, 4, 5, 6];
    let threshold = 2;
    let id = pallet
        .register_account(1, other_signatories, threshold)
        .expect("This should not fail under no circumstance");
    println!("id: {:?}", id);
    let call = vec![42, 34, 23, 78];
    assert!(pallet.account_create_call(1, id, &call).is_ok());
}

#[test]
fn should_fail_to_create_a_call_if_not_signatory() {
    let mut pallet = new_pallet();
    let other_signatories = vec![2, 3, 4, 5, 6];
    let threshold = 2;
    let id = pallet
        .register_account(1, other_signatories, threshold)
        .expect("This should not fail under no circumstance");
    let call = vec![42, 34, 23, 78];
    let attacker = 89;
    assert!(pallet.account_create_call(attacker, id, &call).is_err());
    let events_before = pallet.event_log().len();
    assert_eq!(pallet.account_create_call(attacker, id, &call), Err(Error::SignerIsNotApproved));
    assert_eq!(pallet.event_log().len(), events_before);
}

#[test]
fn should_be_able_to_transfer_to_multi_sig_account() {
    let mut pallet = new_pallet();
    let mut other_signatories = vec![BOB, OSCAR, CHARLIE];
    other_signatories.sort();
    let threshold = 3;
    // register our multi sig account
    let id = pallet
        .register_account(ALICE, other_signatories, threshold)
        .expect("This should not have failed");

    // Set the balance of our multi account to 10,000,000
    let mut balances: Vec<(u64, u64)> = Vec::new();
    set_balance(&mut balances, id, FREE_BALANCE);

    // confirm that the multi account has the balance that was just set
    assert_eq!(balance_of(&balances, id), FREE_BALANCE);

    let transfer_amount = 50000_u64;
    // perform a transfer to another account
    let call = encode_transfer(BOB, transfer_amount);
    // create a call to transfer some balance to a BOB
    // first approval
    assert!(pallet.account_create_call(ALICE, id, &call).is_ok());
    // Alice created the call, so she should not be able to approve because
    // she approves automatically at the point of creation.
    assert_eq!(
        pallet.approve_or_dispatch_call(ALICE, id, &call),
        Err(Error::SenderInSignatories)
    );
    // second approval from bob
    match pallet.approve_or_dispatch_call(BOB, id, &call) {
        Ok(Outcome::Approved { approvals }) => assert_eq!(approvals, vec![ALICE, BOB]),
        other => panic!("expected a pending approval, got {:?}", other),
    }
    // Transaction should fail because bob has approved the call previously
    assert_eq!(
        pallet.approve_or_dispatch_call(BOB, id, &call),
        Err(Error::SenderInSignatories)
    );
    // Charlie approves a transaction to be dispatched
    match pallet.approve_or_dispatch_call(CHARLIE, id, &call) {
        Ok(Outcome::Dispatch { hash, signers }) => {
            assert_eq!(signers, vec![ALICE, BOB, CHARLIE]);
            execute_transfer(&mut balances, id, &call);
            pallet.record_dispatched(id, hash, signers);
        }
        other => panic!("expected a dispatch, got {:?}", other),
    }

    // Transaction should fail because the call has already been dispatched
    // regardless of the caller
    assert_eq!(
        pallet.approve_or_dispatch_call(BOB, id, &call),
        Err(Error::DispatchHasAlreadyOccured)
    );

    // Confirm that a transaction actually occured by checking bob's balance
    assert_eq!(balance_of(&balances, BOB), transfer_amount);
}
