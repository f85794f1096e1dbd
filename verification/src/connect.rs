//! The read-only query surface for the overall registry: how many accounts
//! stand registered. A thin handle over a shared snapshot of the engine; it
//! can neither trigger execution nor mutate approval state.

use std::sync::Arc;

use vstd::prelude::*;

use crate::model::StateView;
use crate::pallet::Pallet;

verus! {

/// A structured payload for a transport layer's custom responses.
pub struct Custom {
    pub code: u32,
    pub sum: u32,
}

/// What the registry-count query surface answers, for any snapshot it is
/// asked over.
pub trait ConnectApi {
    /// The snapshot the answers project.
    spec fn state(&self) -> StateView;

    /// Whether the snapshot is well formed.
    spec fn snapshot_wf(&self) -> bool;

    /// How many accounts are registered, saturating at the counter width.
    fn total_registered(&self) -> (r: u32)
        requires
            self.snapshot_wf(),
        ensures
            self.state().registrations.dom().finite(),
            if self.state().registrations.dom().len() <= u32::MAX as nat {
                r as nat == self.state().registrations.dom().len()
            } else {
                r == u32::MAX
            },
    ;
}

/// A handle on a snapshot of the engine, answering the registry count.
pub struct ConnectPallet {
    client: Arc<Pallet>,
}

impl View for ConnectPallet {
    type V = StateView;

    closed spec fn view(&self) -> StateView {
        (*self.client)@
    }
}

impl ConnectPallet {
    /// The handle is as well formed as the engine it snapshots.
    pub closed spec fn wf(self) -> bool {
        (*self.client).wf()
    }

    /// Create a new `ConnectPallet` with the given reference to the client.
    pub fn new(client: Arc<Pallet>) -> (r: Self)
        ensures
            r@ == (*client)@,
            r.wf() == (*client).wf(),
    {
        ConnectPallet { client }
    }

}

impl ConnectApi for ConnectPallet {
    closed spec fn state(&self) -> StateView {
        self@
    }

    closed spec fn snapshot_wf(&self) -> bool {
        self.wf()
    }

    fn total_registered(&self) -> (r: u32) {
        self.client.registered_count()
    }
}

} // verus!
