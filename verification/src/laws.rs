//! The engine's laws: properties that hold of every state and every input,
//! proved once here over the model's transitions.

use vstd::prelude::*;

use crate::digest::blake2_of;
use crate::digest::id_of;
use crate::errors::Error;
use crate::model::OutcomeView;
use crate::model::StateView;
use crate::model::approvals_of;
use crate::model::approve_spec;
use crate::model::propose_spec;
use crate::model::register_spec;
use crate::model::signatories_of;
use crate::model::threshold_of;
use crate::ordering::lemma_ascent_limit_bounds;
use crate::ordering::lemma_ascent_limit_full;
use crate::ordering::lemma_canonical_unique;
use crate::ordering::lemma_merge_duplicate;
use crate::ordering::lemma_merge_ok_props;
use crate::ordering::merge_spec;
use crate::ordering::strictly_ascending;

verus! {

/// The derived identity is a function of the canonical member set alone:
/// two canonical lists holding the same members derive the same identity,
/// so permuting the members before canonicalization cannot change it, and
/// two runs on the same inputs agree.
pub proof fn lemma_identity_canonical(a: Seq<u64>, b: Seq<u64>, threshold: u16)
    requires
        strictly_ascending(a),
        strictly_ascending(b),
        a.to_multiset() == b.to_multiset(),
    ensures
        id_of(a, threshold) == id_of(b, threshold),
{
    lemma_canonical_unique(a, b);
}

/// Registration validates its inputs: a zero threshold is rejected first;
/// a canonical other-member list already holding the caller is rejected as
/// a duplicate; an other-member list out of order, with the caller nowhere
/// on it, is rejected as out of order. In every rejection the state is left
/// unchanged.
pub proof fn lemma_register_rejections(s: StateView, who: u64, others: Seq<u64>, threshold: u16)
    ensures
        threshold == 0 ==> register_spec(s, who, others, threshold) == (
            s,
            Err::<u64, Error>(Error::MinimumThreshold),
        ),
        threshold >= 1 && strictly_ascending(others) && others.contains(who) ==> register_spec(
            s,
            who,
            others,
            threshold,
        ) == (s, Err::<u64, Error>(Error::SenderInSignatories)),
        threshold >= 1 && !strictly_ascending(others) && !others.contains(who) ==> register_spec(
            s,
            who,
            others,
            threshold,
        ) == (s, Err::<u64, Error>(Error::SignatoriesOutOfOrder)),
{
    if strictly_ascending(others) && others.contains(who) {
        lemma_merge_duplicate(others, who);
    }
    if !strictly_ascending(others) && !others.contains(who) {
        lemma_ascent_limit_full(others);
        lemma_ascent_limit_bounds(others);
        assert(merge_spec(others, who) == Err::<Seq<u64>, Error>(Error::SignatoriesOutOfOrder))
            by {
            assert(forall|k: int| 0 <= k < others.len() ==> others[k] != who);
        }
    }
}

/// Proposals are not idempotent: once a proposal of a call has succeeded
/// under an account, a second proposal of the same call under the same
/// account by any member is rejected with `CallHashAlreadyExists`. (A
/// non-member's attempt is rejected even earlier, as `SignerIsNotApproved`,
/// before the hash is ever looked at.)
pub proof fn lemma_repropose_rejected(s: StateView, who1: u64, who2: u64, id: u64, call: Seq<u8>)
    requires
        propose_spec(s, who1, id, call).1 is Ok,
        signatories_of(s, id).contains(who2),
    ensures
        propose_spec(propose_spec(s, who1, id, call).0, who2, id, call).1 == Err::<
            Seq<u8>,
            Error,
        >(Error::CallHashAlreadyExists),
{
    let s2 = propose_spec(s, who1, id, call).0;
    let h = blake2_of(call);
    assert(signatories_of(s2, id) == signatories_of(s, id));
    assert(approvals_of(s2, id, h) == seq![who1]);
}

/// The proposer's implicit endorsement counts: right after a successful
/// proposal, an endorsement by the proposer is rejected as a duplicate.
/// (With a quorum of one the pending approval is already quorate at
/// proposal time, and the attempt is rejected as already dispatched
/// instead, so that case is left out here.)
pub proof fn lemma_proposer_cannot_endorse(s: StateView, who: u64, id: u64, call: Seq<u8>)
    requires
        propose_spec(s, who, id, call).1 is Ok,
        threshold_of(s, id) != 1,
    ensures
        approve_spec(propose_spec(s, who, id, call).0, who, id, call).1 == Err::<
            OutcomeView,
            Error,
        >(Error::SenderInSignatories),
{
    let s2 = propose_spec(s, who, id, call).0;
    let h = blake2_of(call);
    assert(signatories_of(s2, id) == signatories_of(s, id));
    assert(threshold_of(s2, id) == threshold_of(s, id));
    assert(approvals_of(s2, id, h) == seq![who]);
    assert(strictly_ascending(seq![who]));
    assert(seq![who].contains(who)) by {
        assert(seq![who][0] == who);
    }
    lemma_merge_duplicate(seq![who], who);
}

/// Each successful endorsement records exactly one more endorser for the
/// call, and leaves every other part of the registry untouched.
pub proof fn lemma_endorsement_increments(s: StateView, who: u64, id: u64, call: Seq<u8>)
    requires
        approve_spec(s, who, id, call).1 is Ok,
    ensures
        approvals_of(approve_spec(s, who, id, call).0, id, blake2_of(call)).len() == approvals_of(
            s,
            id,
            blake2_of(call),
        ).len() + 1,
        approve_spec(s, who, id, call).0.registrations == s.registrations,
{
    let h = blake2_of(call);
    let cur = approvals_of(s, id, h);
    lemma_merge_ok_props(cur, who);
}

/// The dispatch outcome is handed out exactly when the endorsement that
/// just succeeded is the one completing the quorum; below it, the call
/// stays pending.
pub proof fn lemma_dispatch_exactly_at_quorum(s: StateView, who: u64, id: u64, call: Seq<u8>)
    requires
        approve_spec(s, who, id, call).1 is Ok,
    ensures
        (approve_spec(s, who, id, call).1->Ok_0 is Dispatch) <==> approvals_of(
            s,
            id,
            blake2_of(call),
        ).len() + 1 == threshold_of(s, id) as nat,
{
}

/// A pending approval standing at the quorum is terminal: every further
/// endorsement attempt by any member fails with
/// `DispatchHasAlreadyOccured` — also by members who never endorsed — and
/// the state is left unchanged.
pub proof fn lemma_quorate_is_terminal(s: StateView, who: u64, id: u64, call: Seq<u8>)
    requires
        signatories_of(s, id).contains(who),
        approvals_of(s, id, blake2_of(call)).len() == threshold_of(s, id) as nat,
    ensures
        approve_spec(s, who, id, call) == (
            s,
            Err::<OutcomeView, Error>(Error::DispatchHasAlreadyOccured),
        ),
{
}

/// After the endorsement that completes the quorum, the pending approval
/// stands at the quorum, so the terminal rejection above applies to every
/// later attempt.
pub proof fn lemma_after_dispatch_quorate(s: StateView, who: u64, id: u64, call: Seq<u8>)
    requires
        approve_spec(s, who, id, call).1 is Ok,
        approve_spec(s, who, id, call).1->Ok_0 is Dispatch,
    ensures
        approvals_of(approve_spec(s, who, id, call).0, id, blake2_of(call)).len() == threshold_of(
            approve_spec(s, who, id, call).0,
            id,
        ) as nat,
{
    let h = blake2_of(call);
    let cur = approvals_of(s, id, h);
    lemma_merge_ok_props(cur, who);
    assert(threshold_of(approve_spec(s, who, id, call).0, id) == threshold_of(s, id));
}

} // verus!
