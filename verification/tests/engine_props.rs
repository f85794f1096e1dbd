use multi_account::errors::Error;
use multi_account::events::Event;
use multi_account::ordering::ensure_sorted_and_insert;
use multi_account::pallet::Config;
use multi_account::pallet::Outcome;
use multi_account::pallet::Pallet;

fn new_pallet() -> Pallet {
    Pallet::new(Config { max_signatories: 100 })
}

#[test]
fn merge_inserts_at_the_sorted_position() {
    assert_eq!(ensure_sorted_and_insert(vec![1, 3, 5], 4), Ok(vec![1, 3, 4, 5]));
    assert_eq!(ensure_sorted_and_insert(vec![], 7), Ok(vec![7]));
    assert_eq!(ensure_sorted_and_insert(vec![2, 3], 1), Ok(vec![1, 2, 3]));
    assert_eq!(ensure_sorted_and_insert(vec![2, 3], 9), Ok(vec![2, 3, 9]));
}

#[test]
fn merge_rejects_duplicates_and_disorder() {
    assert_eq!(ensure_sorted_and_insert(vec![1, 3], 3), Err(Error::SenderInSignatories));
    assert_eq!(ensure_sorted_and_insert(vec![3, 1], 2), Err(Error::SignatoriesOutOfOrder));
    // equal neighbours count as disorder
    assert_eq!(ensure_sorted_and_insert(vec![4, 4], 9), Err(Error::SignatoriesOutOfOrder));
    // a duplicate seen before the disorder wins
    assert_eq!(ensure_sorted_and_insert(vec![2, 5, 3], 2), Err(Error::SenderInSignatories));
}

#[test]
fn register_rejects_malformed_input() {
    let mut pallet = new_pallet();
    // unsorted other members
    assert_eq!(
        pallet.register_account(1, vec![3000, 2000], 2),
        Err(Error::SignatoriesOutOfOrder)
    );
    // the caller duplicated in the list
    assert_eq!(
        pallet.register_account(2000, vec![2000, 3000], 2),
        Err(Error::SenderInSignatories)
    );
    // a zero threshold
    assert_eq!(pallet.register_account(1, vec![2000, 3000], 0), Err(Error::MinimumThreshold));
    // nothing was registered by the rejected attempts
    assert_eq!(pallet.get_account(1), Vec::<u64>::new());
    assert!(pallet.event_log().is_empty());
}

#[test]
fn register_rejects_oversized_member_lists() {
    let mut pallet = Pallet::new(Config { max_signatories: 2 });
    assert_eq!(
        pallet.register_account(1, vec![2, 3], 2),
        Err(Error::TooManySignatories)
    );
    // at the bound it still fits
    assert!(pallet.register_account(1, vec![2], 2).is_ok());
}

#[test]
fn repropose_same_call_rejected() {
    let mut pallet = new_pallet();
    let id = pallet.register_account(1, vec![2, 3], 2).expect("registration failed");
    let call = vec![42, 34, 23, 78];
    assert!(pallet.account_create_call(1, id, &call).is_ok());
    // the same call, proposed again by the same member
    assert_eq!(pallet.account_create_call(1, id, &call), Err(Error::CallHashAlreadyExists));
    // and by another member
    assert_eq!(pallet.account_create_call(2, id, &call), Err(Error::CallHashAlreadyExists));
    // a different call is fine
    assert!(pallet.account_create_call(1, id, &vec![42, 34, 23]).is_ok());
}

#[test]
fn proposer_implicit_endorsement_counts() {
    let mut pallet = new_pallet();
    let id = pallet.register_account(1, vec![2, 3], 3).expect("registration failed");
    let call = vec![9, 9, 9];
    let hash = pallet.account_create_call(1, id, &call).expect("proposal failed");
    // the proposer is already on the pending approval
    assert_eq!(pallet.get_call(id, &hash), vec![1]);
    // so endorsing again is a double vote
    assert_eq!(pallet.approve_or_dispatch_call(1, id, &call), Err(Error::SenderInSignatories));
}

#[test]
fn endorsement_counts_increment_then_terminal() {
    let mut pallet = new_pallet();
    let id = pallet.register_account(1, vec![2, 3, 4], 3).expect("registration failed");
    let call = vec![5, 5, 5];
    let hash = pallet.account_create_call(1, id, &call).expect("proposal failed");
    assert_eq!(pallet.get_call(id, &hash).len(), 1);
    // a non-member cannot endorse
    assert_eq!(pallet.approve_or_dispatch_call(99, id, &call), Err(Error::SignerIsNotApproved));
    assert_eq!(pallet.get_call(id, &hash).len(), 1);
    match pallet.approve_or_dispatch_call(2, id, &call) {
        Ok(Outcome::Approved { approvals }) => assert_eq!(approvals, vec![1, 2]),
        other => panic!("expected a pending approval, got {:?}", other),
    }
    assert_eq!(pallet.get_call(id, &hash).len(), 2);
    match pallet.approve_or_dispatch_call(3, id, &call) {
        Ok(Outcome::Dispatch { hash: h, signers }) => {
            assert_eq!(h, hash);
            assert_eq!(signers, vec![1, 2, 3]);
        }
        other => panic!("expected a dispatch, got {:?}", other),
    }
    assert_eq!(pallet.get_call(id, &hash).len(), 3);
    // the quorum is reached: every further attempt is rejected, also from
    // the member who never endorsed
    assert_eq!(
        pallet.approve_or_dispatch_call(4, id, &call),
        Err(Error::DispatchHasAlreadyOccured)
    );
    assert_eq!(
        pallet.approve_or_dispatch_call(2, id, &call),
        Err(Error::DispatchHasAlreadyOccured)
    );
}

#[test]
fn quorum_scenario() {
    let mut pallet = new_pallet();
    // register(caller=1337, others=[2000, 3000, 10000], threshold=3)
    let id = pallet
        .register_account(1337, vec![2000, 3000, 10000], 3)
        .expect("registration failed");
    // canonical members fold the caller in
    assert_eq!(pallet.get_account(id), vec![1337, 2000, 3000, 10000]);
    assert_eq!(id, Pallet::multi_account_id(&vec![1337, 2000, 3000, 10000], 3));
    // propose transfer(to=2000, amount=50000) as an encoded action
    let mut call = Vec::new();
    call.extend_from_slice(&2000u64.to_le_bytes());
    call.extend_from_slice(&50000u64.to_le_bytes());
    let hash = pallet.account_create_call(1337, id, &call).expect("proposal failed");
    assert_eq!(pallet.get_call(id, &hash), vec![1337]);
    // the proposer cannot endorse again
    assert_eq!(
        pallet.approve_or_dispatch_call(1337, id, &call),
        Err(Error::SenderInSignatories)
    );
    // 2000 endorses: two of three, no execution
    match pallet.approve_or_dispatch_call(2000, id, &call) {
        Ok(Outcome::Approved { approvals }) => assert_eq!(approvals, vec![1337, 2000]),
        other => panic!("expected a pending approval, got {:?}", other),
    }
    assert_eq!(pallet.get_call(id, &hash), vec![1337, 2000]);
    // 2000 endorsing again is a double vote
    assert_eq!(
        pallet.approve_or_dispatch_call(2000, id, &call),
        Err(Error::SenderInSignatories)
    );
    // 3000 completes the quorum: the call is handed out for dispatch once
    match pallet.approve_or_dispatch_call(3000, id, &call) {
        Ok(Outcome::Dispatch { hash: h, signers }) => {
            assert_eq!(h, hash);
            pallet.record_dispatched(id, h, signers);
        }
        other => panic!("expected a dispatch, got {:?}", other),
    }
    // after the dispatch every attempt is rejected
    assert_eq!(
        pallet.approve_or_dispatch_call(2000, id, &call),
        Err(Error::DispatchHasAlreadyOccured)
    );
}

#[test]
fn endorsing_an_unproposed_call_seeds_it() {
    let mut pallet = new_pallet();
    let id = pallet.register_account(1, vec![2, 3], 2).expect("registration failed");
    let call = vec![8, 8];
    // no proposal was made; the endorsement itself seeds the pending set
    match pallet.approve_or_dispatch_call(2, id, &call) {
        Ok(Outcome::Approved { approvals }) => assert_eq!(approvals, vec![2]),
        other => panic!("expected a pending approval, got {:?}", other),
    }
}

#[test]
fn threshold_one_proposal_is_already_quorate() {
    let mut pallet = new_pallet();
    let id = pallet.register_account(1, vec![2, 3], 1).expect("registration failed");
    let call = vec![1, 2, 3];
    // the proposer's implicit endorsement already equals the quorum of one,
    // and the proposal itself hands nothing out for dispatch
    assert!(pallet.account_create_call(1, id, &call).is_ok());
    assert_eq!(
        pallet.approve_or_dispatch_call(2, id, &call),
        Err(Error::DispatchHasAlreadyOccured)
    );
}

#[test]
fn record_dispatched_appends_record_and_event() {
    let mut pallet = new_pallet();
    let id = pallet.register_account(1, vec![2], 2).expect("registration failed");
    let call = vec![7];
    let hash = pallet.account_create_call(1, id, &call).expect("proposal failed");
    match pallet.approve_or_dispatch_call(2, id, &call) {
        Ok(Outcome::Dispatch { hash: h, signers }) => {
            pallet.record_dispatched(id, h, signers);
        }
        other => panic!("expected a dispatch, got {:?}", other),
    }
    assert_eq!(pallet.executed_log(), &vec![hash]);
    assert_eq!(
        pallet.event_log().last(),
        Some(&Event::Call { id, hash, signatories: vec![1, 2] })
    );
}

#[test]
fn approval_events_are_emitted() {
    let mut pallet = new_pallet();
    let id = pallet.register_account(1, vec![2, 3], 3).expect("registration failed");
    let call = vec![6];
    let hash = pallet.account_create_call(1, id, &call).expect("proposal failed");
    assert_eq!(
        pallet.event_log().last(),
        Some(&Event::Approval { id, signer: 1, hash })
    );
    assert!(pallet.approve_or_dispatch_call(2, id, &call).is_ok());
    assert_eq!(
        pallet.event_log().last(),
        Some(&Event::Approval { id, signer: 2, hash })
    );
}
