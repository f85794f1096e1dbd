//! The mathematical model of the engine: its state as maps and sequences,
//! and one transition function per operation. The executable operations are
//! each proved to return and to change state exactly as the corresponding
//! transition says.

use vstd::prelude::*;

use crate::digest::blake2_of;
use crate::digest::id_of;
use crate::errors::Error;
use crate::events::EventView;
use crate::ordering::merge_spec;

verus! {

/// The most signatories one pending approval can record.
pub const MAX_PENDING_APPROVALS: usize = 100;

/// A registered multisig account: its canonical member list and the quorum
/// it requires.
#[verifier::ext_equal]
pub struct RegistrationView {
    pub signatories: Seq<u64>,
    pub threshold: u16,
}

/// The engine state: the registry of accounts, the pending approvals keyed
/// by account and call hash, the dispatched call hashes, and the event log.
#[verifier::ext_equal]
pub struct StateView {
    /// The most members one registration can hold.
    pub max_signatories: u32,
    pub registrations: Map<u64, RegistrationView>,
    pub approvals: Map<(u64, Seq<u8>), Seq<u64>>,
    pub executed: Seq<Seq<u8>>,
    pub events: Seq<EventView>,
}

/// What a successful endorsement hands back.
#[verifier::ext_equal]
pub enum OutcomeView {
    /// The quorum is not yet reached; the updated pending approval set.
    Approved { approvals: Seq<u64> },
    /// The endorsement completed the quorum: the call with this hash is to
    /// be dispatched once, on behalf of the account, by these signers.
    Dispatch { hash: Seq<u8>, signers: Seq<u64> },
}

/// The member list of `id`, empty when `id` is not registered.
pub open spec fn signatories_of(s: StateView, id: u64) -> Seq<u64> {
    if s.registrations.contains_key(id) {
        s.registrations[id].signatories
    } else {
        Seq::empty()
    }
}

/// The quorum of `id`, zero when `id` is not registered.
pub open spec fn threshold_of(s: StateView, id: u64) -> u16 {
    if s.registrations.contains_key(id) {
        s.registrations[id].threshold
    } else {
        0
    }
}

/// The endorsers recorded for the call `hash` under `id`, empty when none
/// were recorded.
pub open spec fn approvals_of(s: StateView, id: u64, hash: Seq<u8>) -> Seq<u64> {
    if s.approvals.contains_key((id, hash)) {
        s.approvals[(id, hash)]
    } else {
        Seq::empty()
    }
}

/// Registration. The threshold must be at least one; the caller is folded
/// into the supplied other members, which must come canonical; the canonical
/// list must fit the configured bound. The identity is then derived from the
/// canonical list and the threshold, the registration is recorded under it
/// (overwriting any previous holder of that identity), and a registration
/// event is appended.
pub open spec fn register_spec(s: StateView, who: u64, others: Seq<u64>, threshold: u16) -> (
    StateView,
    Result<u64, Error>,
) {
    if threshold < 1 {
        (s, Err(Error::MinimumThreshold))
    } else {
        match merge_spec(others, who) {
            Err(e) => (s, Err(e)),
            Ok(sigs) => if sigs.len() > s.max_signatories as nat {
                (s, Err(Error::TooManySignatories))
            } else {
                let id = id_of(sigs, threshold);
                (
                    StateView {
                        registrations: s.registrations.insert(
                            id,
                            RegistrationView { signatories: sigs, threshold },
                        ),
                        events: s.events.push(
                            EventView::Account { id, signatories: sigs, threshold },
                        ),
                        ..s
                    },
                    Ok(id),
                )
            },
        }
    }
}

/// Proposal. The caller must be a member of `id`; the call is identified by
/// the digest of its encoding; a call already pending under that hash is
/// rejected rather than merged. On success the pending approval is created
/// holding the proposer alone — the proposer's endorsement is implicit and
/// immediate — and an endorsement event is appended.
pub open spec fn propose_spec(s: StateView, who: u64, id: u64, call: Seq<u8>) -> (
    StateView,
    Result<Seq<u8>, Error>,
) {
    let sigs = signatories_of(s, id);
    if !sigs.contains(who) {
        (s, Err(Error::SignerIsNotApproved))
    } else {
        let h = blake2_of(call);
        if approvals_of(s, id, h).len() > 0 {
            (s, Err(Error::CallHashAlreadyExists))
        } else {
            (
                StateView {
                    approvals: s.approvals.insert((id, h), seq![who]),
                    events: s.events.push(EventView::Approval { id, signer: who, hash: h }),
                    ..s
                },
                Ok(h),
            )
        }
    }
}

/// Endorsement. The caller must be a member of `id`. A pending approval
/// whose size already equals the quorum is terminal: every further attempt
/// is rejected, whoever calls. Otherwise the caller is folded into the
/// recorded endorsers — a second endorsement by the same member is rejected
/// there — the merged set is written back and an endorsement event is
/// appended. When the merged set first reaches the quorum, the outcome asks
/// the host to dispatch the call exactly once; the recorded endorsement
/// stays even if that dispatch then fails.
pub open spec fn approve_spec(s: StateView, who: u64, id: u64, call: Seq<u8>) -> (
    StateView,
    Result<OutcomeView, Error>,
) {
    let sigs = signatories_of(s, id);
    if !sigs.contains(who) {
        (s, Err(Error::SignerIsNotApproved))
    } else {
        let thr = threshold_of(s, id);
        let h = blake2_of(call);
        let cur = approvals_of(s, id, h);
        if cur.len() == thr as nat {
            (s, Err(Error::DispatchHasAlreadyOccured))
        } else {
            match merge_spec(cur, who) {
                Err(e) => (s, Err(e)),
                Ok(merged) => if merged.len() > MAX_PENDING_APPROVALS as nat {
                    (s, Err(Error::TooManySignatories))
                } else {
                    let s2 = StateView {
                        approvals: s.approvals.insert((id, h), merged),
                        events: s.events.push(
                            EventView::Approval { id, signer: who, hash: h },
                        ),
                        ..s
                    };
                    if cur.len() + 1 == thr as nat {
                        (s2, Ok(OutcomeView::Dispatch { hash: h, signers: merged }))
                    } else {
                        (s2, Ok(OutcomeView::Approved { approvals: merged }))
                    }
                },
            }
        }
    }
}

/// What recording a completed dispatch does: the hash joins the executed
/// record — keyed by hash alone — and a completion event is appended.
pub open spec fn record_dispatch_spec(s: StateView, id: u64, hash: Seq<u8>, signers: Seq<u64>) -> StateView {
    StateView {
        executed: s.executed.push(hash),
        events: s.events.push(EventView::Call { id, hash, signatories: signers }),
        ..s
    }
}

/// The count of endorsements for `hash` under `id`, when any are recorded.
pub open spec fn approvals_query(s: StateView, id: u64, hash: Seq<u8>) -> Option<u32> {
    if s.approvals.contains_key((id, hash)) {
        Some(s.approvals[(id, hash)].len() as u32)
    } else {
        None
    }
}

/// The member list of `id`, when it is registered.
pub open spec fn signatories_query(s: StateView, id: u64) -> Option<Seq<u64>> {
    if s.registrations.contains_key(id) {
        Some(s.registrations[id].signatories)
    } else {
        None
    }
}

/// The quorum of `id`, when it is registered.
pub open spec fn threshold_query(s: StateView, id: u64) -> Option<u32> {
    if s.registrations.contains_key(id) {
        Some(s.registrations[id].threshold as u32)
    } else {
        None
    }
}

/// The endorsers recorded for `hash` under `id`, when any are recorded.
pub open spec fn approval_accounts_query(s: StateView, id: u64, hash: Seq<u8>) -> Option<
    Seq<u64>,
> {
    if s.approvals.contains_key((id, hash)) {
        Some(s.approvals[(id, hash)])
    } else {
        None
    }
}

} // verus!
