//! Observable records the engine emits: registration of an account, a
//! recorded endorsement, and a completed dispatch. Events are appended,
//! never consumed internally.

use vstd::prelude::*;

verus! {

/// An emitted record, as a value.
#[derive(Clone, Debug, PartialEq, Eq)]
pub enum Event {
    /// A multisig account was registered.
    Account { id: u64, signatories: Vec<u64>, threshold: u16 },
    /// A signer endorsed the call with the given hash.
    Approval { id: u64, signer: u64, hash: [u8; 32] },
    /// The call with the given hash gathered its quorum and was handed out
    /// for dispatch.
    Call { id: u64, hash: [u8; 32], signatories: Vec<u64> },
}

/// An emitted record, as a mathematical value.
#[verifier::ext_equal]
pub enum EventView {
    Account { id: u64, signatories: Seq<u64>, threshold: u16 },
    Approval { id: u64, signer: u64, hash: Seq<u8> },
    Call { id: u64, hash: Seq<u8>, signatories: Seq<u64> },
}

impl View for Event {
    type V = EventView;

    open spec fn view(&self) -> EventView {
        match self {
            Event::Account { id, signatories, threshold } => EventView::Account {
                id: *id,
                signatories: signatories@,
                threshold: *threshold,
            },
            Event::Approval { id, signer, hash } => EventView::Approval {
                id: *id,
                signer: *signer,
                hash: hash@,
            },
            Event::Call { id, hash, signatories } => EventView::Call {
                id: *id,
                hash: hash@,
                signatories: signatories@,
            },
        }
    }
}

/// A whole event log as a mathematical value.
pub open spec fn events_view(evs: Seq<Event>) -> Seq<EventView> {
    evs.map_values(|e: Event| e@)
}

} // verus!
