//! The read-only query surface for one account's registration and its
//! pending approvals. A thin handle over a shared snapshot of the engine;
//! its answers are pure projections of the state, and it can neither
//! trigger execution nor mutate approval state.

use std::sync::Arc;

use vstd::prelude::*;

use crate::model::StateView;
use crate::model::approval_accounts_query;
use crate::model::approvals_query;
use crate::model::signatories_query;
use crate::model::threshold_query;
use crate::pallet::Pallet;
use crate::pallet::opt_vec_view;

verus! {

/// A structured payload for a transport layer's custom responses.
pub struct Custom {
    pub code: u32,
    pub sum: u32,
}

/// What the per-account query surface answers, for any snapshot it is
/// asked over: the endorsement count and the endorsers of a call, the
/// member list and the quorum of an account. Pure projections of the
/// state; none of them can trigger execution or mutate approval state.
pub trait MultiAccountApi {
    /// The snapshot the answers project.
    spec fn state(&self) -> StateView;

    /// Whether the snapshot is well formed.
    spec fn snapshot_wf(&self) -> bool;

    /// Get the number of accounts that have approved a particular call
    /// hash.
    fn get_approvals_for_call(&self, id: u64, call_hash: [u8; 32]) -> (r: Option<u32>)
        requires
            self.snapshot_wf(),
        ensures
            r == approvals_query(self.state(), id, call_hash@),
    ;

    /// Get the signatories for an account.
    fn get_signatories_for_account(&self, id: u64) -> (r: Option<Vec<u64>>)
        requires
            self.snapshot_wf(),
        ensures
            opt_vec_view(r) == signatories_query(self.state(), id),
    ;

    /// Get the threshold required for a call to pass.
    fn get_threshold_for_account(&self, id: u64) -> (r: Option<u32>)
        requires
            self.snapshot_wf(),
        ensures
            r == threshold_query(self.state(), id),
    ;

    /// Get the accounts that have approved a particular call.
    fn get_approval_accounts_for_call(&self, id: u64, call_hash: [u8; 32]) -> (r: Option<
        Vec<u64>,
    >)
        requires
            self.snapshot_wf(),
        ensures
            opt_vec_view(r) == approval_accounts_query(self.state(), id, call_hash@),
    ;
}

/// A handle on a snapshot of the engine, answering per-account queries.
pub struct MultiAccountPallet {
    client: Arc<Pallet>,
}

impl View for MultiAccountPallet {
    type V = StateView;

    closed spec fn view(&self) -> StateView {
        (*self.client)@
    }
}

impl MultiAccountPallet {
    /// The handle is as well formed as the engine it snapshots.
    pub closed spec fn wf(self) -> bool {
        (*self.client).wf()
    }

    /// Create a new `MultiAccountPallet` with the given reference to the
    /// client.
    pub fn new(client: Arc<Pallet>) -> (r: Self)
        ensures
            r@ == (*client)@,
            r.wf() == (*client).wf(),
    {
        MultiAccountPallet { client }
    }

}

impl MultiAccountApi for MultiAccountPallet {
    closed spec fn state(&self) -> StateView {
        self@
    }

    closed spec fn snapshot_wf(&self) -> bool {
        self.wf()
    }

    fn get_approvals_for_call(&self, id: u64, call_hash: [u8; 32]) -> (r: Option<u32>) {
        self.client.approvals_count(id, &call_hash)
    }

    fn get_signatories_for_account(&self, id: u64) -> (r: Option<Vec<u64>>) {
        self.client.signatories_for(id)
    }

    fn get_threshold_for_account(&self, id: u64) -> (r: Option<u32>) {
        self.client.threshold_for(id)
    }

    fn get_approval_accounts_for_call(&self, id: u64, call_hash: [u8; 32]) -> (r: Option<
        Vec<u64>,
    >) {
        self.client.approval_accounts_for(id, &call_hash)
    }
}

} // verus!
