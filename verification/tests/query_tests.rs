use std::sync::Arc;

use multi_account::connect::ConnectApi;
use multi_account::connect::ConnectPallet;
use multi_account::pallet::Config;
use multi_account::pallet::Pallet;
use multi_account::query::MultiAccountApi;
use multi_account::query::MultiAccountPallet;

#[test]
fn queries_project_the_registered_state() {
    let mut pallet = Pallet::new(Config { max_signatories: 100 });
    let id = pallet.register_account(1, vec![2, 3], 2).expect("registration failed");
    let call = vec![42, 34, 23, 78];
    let hash = pallet.account_create_call(1, id, &call).expect("proposal failed");
    let client = Arc::new(pallet);
    let queries = MultiAccountPallet::new(Arc::clone(&client));
    assert_eq!(queries.get_signatories_for_account(id), Some(vec![1, 2, 3]));
    assert_eq!(queries.get_threshold_for_account(id), Some(2));
    assert_eq!(queries.get_approvals_for_call(id, hash), Some(1));
    assert_eq!(queries.get_approval_accounts_for_call(id, hash), Some(vec![1]));
}

#[test]
fn queries_answer_nothing_for_the_unregistered() {
    let pallet = Pallet::new(Config { max_signatories: 100 });
    let client = Arc::new(pallet);
    let queries = MultiAccountPallet::new(Arc::clone(&client));
    assert_eq!(queries.get_signatories_for_account(5), None);
    assert_eq!(queries.get_threshold_for_account(5), None);
    assert_eq!(queries.get_approvals_for_call(5, [0u8; 32]), None);
    assert_eq!(queries.get_approval_accounts_for_call(5, [0u8; 32]), None);
}

#[test]
fn total_registered_counts_accounts() {
    let mut pallet = Pallet::new(Config { max_signatories: 100 });
    pallet.register_account(1, vec![2, 3], 2).expect("first registration failed");
    pallet.register_account(4, vec![5, 6], 2).expect("second registration failed");
    // registering the same members and threshold again derives the same
    // identity and overwrites, so the count stays at two
    pallet.register_account(1, vec![2, 3], 2).expect("repeated registration failed");
    let connect = ConnectPallet::new(Arc::new(pallet));
    assert_eq!(connect.total_registered(), 2);
}
