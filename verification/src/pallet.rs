//! The engine itself: the account registry and the approval state machine,
//! held in one value and mutated only by the operations proved against the
//! transitions of the model.

use vstd::prelude::*;

use crate::digest::blake2_256;
use crate::digest::derive_account_id;
use crate::digest::id_of;
use crate::errors::Error;
use crate::events::Event;
use crate::events::EventView;
use crate::events::events_view;
use crate::model::MAX_PENDING_APPROVALS;
use crate::model::OutcomeView;
use crate::model::RegistrationView;
use crate::model::StateView;
use crate::model::approve_spec;
use crate::model::propose_spec;
use crate::model::record_dispatch_spec;
use crate::model::register_spec;
use crate::model::approval_accounts_query;
use crate::model::approvals_of;
use crate::model::approvals_query;
use crate::model::signatories_of;
use crate::model::signatories_query;
use crate::model::threshold_of;
use crate::model::threshold_query;
use crate::ordering::contains_sorted;
use crate::ordering::ensure_sorted_and_insert;
use crate::ordering::lemma_merge_ok_props;
use crate::ordering::merge_spec;
use crate::ordering::strictly_ascending;

verus! {

/// The parameters the engine depends on.
pub struct Config {
    /// The most members one registration can hold.
    pub max_signatories: u32,
}

/// A registered account: the derived identity, the canonical member list
/// and the quorum. Created once by registration, never mutated thereafter.
pub struct Registration {
    pub id: u64,
    pub signatories: Vec<u64>,
    pub threshold: u16,
}

/// The endorsers recorded so far for one call hash under one account.
pub struct PendingApproval {
    pub id: u64,
    pub hash: [u8; 32],
    pub approvals: Vec<u64>,
}

/// What a successful endorsement hands back.
#[derive(Clone, Debug, PartialEq, Eq)]
pub enum Outcome {
    /// The quorum is not yet reached; the updated pending approval set.
    Approved { approvals: Vec<u64> },
    /// The endorsement completed the quorum: the host must now dispatch the
    /// call with this hash once, on behalf of the account, and on success
    /// record the dispatch.
    Dispatch { hash: [u8; 32], signers: Vec<u64> },
}

impl View for Outcome {
    type V = OutcomeView;

    open spec fn view(&self) -> OutcomeView {
        match self {
            Outcome::Approved { approvals } => OutcomeView::Approved { approvals: approvals@ },
            Outcome::Dispatch { hash, signers } => OutcomeView::Dispatch {
                hash: hash@,
                signers: signers@,
            },
        }
    }
}

/// An endorsement result as a mathematical value.
pub open spec fn outcome_view(r: Result<Outcome, Error>) -> Result<OutcomeView, Error> {
    match r {
        Ok(o) => Ok(o@),
        Err(e) => Err(e),
    }
}

/// A proposal result as a mathematical value.
pub open spec fn hash_result_view(r: Result<[u8; 32], Error>) -> Result<Seq<u8>, Error> {
    match r {
        Ok(h) => Ok(h@),
        Err(e) => Err(e),
    }
}

/// An optional signatory list as a mathematical value.
pub open spec fn opt_vec_view(r: Option<Vec<u64>>) -> Option<Seq<u64>> {
    match r {
        Some(v) => Some(v@),
        None => None,
    }
}

/// A registration as a mathematical value.
pub open spec fn reg_view(r: Registration) -> RegistrationView {
    RegistrationView { signatories: r.signatories@, threshold: r.threshold }
}

/// The key one pending approval is stored under.
pub open spec fn appr_key(p: PendingApproval) -> (u64, Seq<u8>) {
    (p.id, p.hash@)
}

/// The registry rows as a map from identity to registration.
pub open spec fn regs_map(rs: Seq<Registration>) -> Map<u64, RegistrationView>
    decreases rs.len(),
{
    if rs.len() == 0 {
        Map::empty()
    } else {
        regs_map(rs.drop_last()).insert(rs.last().id, reg_view(rs.last()))
    }
}

/// The pending-approval rows as a map from key to endorser list.
pub open spec fn apprs_map(ps: Seq<PendingApproval>) -> Map<(u64, Seq<u8>), Seq<u64>>
    decreases ps.len(),
{
    if ps.len() == 0 {
        Map::empty()
    } else {
        apprs_map(ps.drop_last()).insert(appr_key(ps.last()), ps.last().approvals@)
    }
}

/// No identity is registered twice.
pub open spec fn unique_reg_ids(rs: Seq<Registration>) -> bool {
    forall|i: int, j: int| 0 <= i < j < rs.len() ==> rs[i].id != rs[j].id
}

/// No (identity, call hash) pair has two rows.
pub open spec fn unique_appr_keys(ps: Seq<PendingApproval>) -> bool {
    forall|i: int, j: int| 0 <= i < j < ps.len() ==> appr_key(ps[i]) != appr_key(ps[j])
}

/// Every registry row is well formed: identities unique, member lists
/// canonical and within the bound, quorum at least one.
pub open spec fn regs_wf(rs: Seq<Registration>, max: u32) -> bool {
    &&& unique_reg_ids(rs)
    &&& forall|i: int|
        0 <= i < rs.len() ==> {
            &&& strictly_ascending(#[trigger] rs[i].signatories@)
            &&& rs[i].threshold >= 1
            &&& rs[i].signatories@.len() <= max as nat
        }
}

/// Every pending-approval row is well formed: keys unique, endorser lists
/// canonical, never empty and within the fixed capacity.
pub open spec fn apprs_wf(ps: Seq<PendingApproval>) -> bool {
    &&& unique_appr_keys(ps)
    &&& forall|i: int|
        0 <= i < ps.len() ==> {
            &&& strictly_ascending(#[trigger] ps[i].approvals@)
            &&& 1 <= ps[i].approvals@.len() <= MAX_PENDING_APPROVALS as nat
        }
}

/// The engine: configuration, registry, pending approvals, dispatch record
/// and event log.
pub struct Pallet {
    config: Config,
    registrations: Vec<Registration>,
    approvals: Vec<PendingApproval>,
    executed: Vec<[u8; 32]>,
    events: Vec<Event>,
}

impl View for Pallet {
    type V = StateView;

    closed spec fn view(&self) -> StateView {
        StateView {
            max_signatories: self.config.max_signatories,
            registrations: regs_map(self.registrations@),
            approvals: apprs_map(self.approvals@),
            executed: self.executed@.map_values(|h: [u8; 32]| h@),
            events: events_view(self.events@),
        }
    }
}

impl Pallet {
    /// The internal invariant every operation preserves.
    pub closed spec fn wf(self) -> bool {
        &&& self.config.max_signatories < 0x40000000
        &&& regs_wf(self.registrations@, self.config.max_signatories)
        &&& apprs_wf(self.approvals@)
    }

    /// An engine with no accounts, no pending approvals, no record and no
    /// events. The configured bound must leave the member count encodable.
    pub fn new(config: Config) -> (r: Pallet)
        requires
            config.max_signatories < 0x40000000,
        ensures
            r.wf(),
            r@ == (StateView {
                max_signatories: config.max_signatories,
                registrations: Map::<u64, RegistrationView>::empty(),
                approvals: Map::<(u64, Seq<u8>), Seq<u64>>::empty(),
                executed: Seq::<Seq<u8>>::empty(),
                events: Seq::<EventView>::empty(),
            }),
    {
        let r = Pallet {
            config,
            registrations: Vec::new(),
            approvals: Vec::new(),
            executed: Vec::new(),
            events: Vec::new(),
        };
        proof {
            assert(r@ =~= (StateView {
                max_signatories: config.max_signatories,
                registrations: Map::<u64, RegistrationView>::empty(),
                approvals: Map::<(u64, Seq<u8>), Seq<u64>>::empty(),
                executed: Seq::<Seq<u8>>::empty(),
                events: Seq::<EventView>::empty(),
            }));
        }
        r
    }
}

impl Pallet {
    /// Derive a multi-account ID from the sorted list of accounts and the
    /// threshold that are required.
    ///
    /// NOTE: `who` must be sorted. If it is not, then you'll get the wrong
    /// answer.
    pub fn multi_account_id(who: &Vec<u64>, threshold: u16) -> (r: u64)
        requires
            who@.len() < 0x40000000,
        ensures
            r == id_of(who@, threshold),
    {
        derive_account_id(who, threshold)
    }

    /// Register the multisig account jointly controlled by the caller and
    /// `other_signatories`, requiring `threshold` endorsements per call.
    /// Returns the derived identity the registration is keyed by.
    pub fn register_account(
        &mut self,
        who: u64,
        other_signatories: Vec<u64>,
        threshold: u16,
    ) -> (r: Result<u64, Error>)
        requires
            old(self).wf(),
        ensures
            final(self).wf(),
            final(self)@ == register_spec(old(self)@, who, other_signatories@, threshold).0,
            r == register_spec(old(self)@, who, other_signatories@, threshold).1,
    {
        let ghost s0 = self@;
        let ghost others = other_signatories@;
        if threshold < 1 {
            return Err(Error::MinimumThreshold);
        }
        let signatories = match ensure_sorted_and_insert(other_signatories, who) {
            Ok(v) => v,
            Err(e) => {
                return Err(e);
            },
        };
        if signatories.len() > self.config.max_signatories as usize {
            return Err(Error::TooManySignatories);
        }
        proof {
            lemma_merge_ok_props(others, who);
        }
        let id = derive_account_id(&signatories, threshold);
        let sigs_copy = copy_u64s(&signatories);
        let ghost regs0 = self.registrations@;
        upsert_registration(
            &mut self.registrations,
            Registration { id, signatories: sigs_copy, threshold },
        );
        let ghost events0 = self.events@;
        self.events.push(Event::Account { id, signatories, threshold });
        proof {
            assert(events_view(self.events@) =~= events_view(events0).push(
                EventView::Account { id, signatories: merge_spec(others, who)->Ok_0, threshold },
            ));
            assert(self@ =~= register_spec(s0, who, others, threshold).0);
            assert forall|i: int|
                0 <= i < self.registrations@.len() implies {
                &&& strictly_ascending(#[trigger] self.registrations@[i].signatories@)
                &&& self.registrations@[i].threshold >= 1
                &&& self.registrations@[i].signatories@.len() <= self.config.max_signatories as nat
            } by {
                if regs0.contains(self.registrations@[i]) {
                    let k = choose|k: int| 0 <= k < regs0.len() && regs0[k] == self.registrations@[i];
                    assert(strictly_ascending(regs0[k].signatories@));
                }
            }
        }
        Ok(id)
    }

    /// Propose the action `call` (its canonical encoding) under the account
    /// `id`, as the member `who`. Creates the pending approval for the
    /// call's hash, seeded with the proposer's own implicit endorsement,
    /// and returns that hash.
    pub fn account_create_call(&mut self, who: u64, id: u64, call: &Vec<u8>) -> (r: Result<
        [u8; 32],
        Error,
    >)
        requires
            old(self).wf(),
        ensures
            final(self).wf(),
            final(self)@ == propose_spec(old(self)@, who, id, call@).0,
            hash_result_view(r) == propose_spec(old(self)@, who, id, call@).1,
    {
        let ghost s0 = self@;
        let is_member = match find_registration(&self.registrations, id) {
            Some(i) => {
                proof {
                    lemma_regs_map_at(self.registrations@, i as int);
                    assert(strictly_ascending(self.registrations@[i as int].signatories@));
                }
                contains_sorted(&self.registrations[i].signatories, who)
            },
            None => {
                proof {
                    lemma_regs_map_contains(self.registrations@);
                }
                false
            },
        };
        proof {
            assert(is_member == signatories_of(s0, id).contains(who));
        }
        if !is_member {
            return Err(Error::SignerIsNotApproved);
        }
        let hash = blake2_256(call);
        match find_approval(&self.approvals, id, &hash) {
            Some(j) => {
                proof {
                    lemma_apprs_map_at(self.approvals@, j as int);
                    assert(1 <= self.approvals@[j as int].approvals@.len());
                }
                return Err(Error::CallHashAlreadyExists);
            },
            None => {
                proof {
                    lemma_apprs_map_contains(self.approvals@);
                }
            },
        }
        let mut approvals: Vec<u64> = Vec::new();
        approvals.push(who);
        let ghost apprs0 = self.approvals@;
        upsert_approval(&mut self.approvals, PendingApproval { id, hash, approvals });
        let ghost events0 = self.events@;
        self.events.push(Event::Approval { id, signer: who, hash });
        proof {
            assert(Seq::<u64>::empty().push(who) =~= seq![who]);
            assert(events_view(self.events@) =~= events_view(events0).push(
                EventView::Approval { id, signer: who, hash: hash@ },
            ));
            assert(self@ =~= propose_spec(s0, who, id, call@).0);
            assert forall|i: int|
                0 <= i < self.approvals@.len() implies {
                &&& strictly_ascending(#[trigger] self.approvals@[i].approvals@)
                &&& 1 <= self.approvals@[i].approvals@.len() <= MAX_PENDING_APPROVALS as nat
            } by {
                if apprs0.contains(self.approvals@[i]) {
                    let k = choose|k: int| 0 <= k < apprs0.len() && apprs0[k] == self.approvals@[i];
                    assert(strictly_ascending(apprs0[k].approvals@));
                }
            }
        }
        Ok(hash)
    }

    /// Endorse the action `call` under the account `id`, as the member
    /// `who`, and report whether its quorum is now complete. A pending
    /// approval already at the quorum is terminal and rejects every further
    /// attempt. The endorsement written here stays even if the host's
    /// dispatch of a completed call then fails: the next attempt finds the
    /// quorum already reached and is rejected, and the call is not retried.
    pub fn approve_or_dispatch_call(&mut self, who: u64, id: u64, call: &Vec<u8>) -> (r: Result<
        Outcome,
        Error,
    >)
        requires
            old(self).wf(),
        ensures
            final(self).wf(),
            final(self)@ == approve_spec(old(self)@, who, id, call@).0,
            outcome_view(r) == approve_spec(old(self)@, who, id, call@).1,
    {
        let ghost s0 = self@;
        let is_member = match find_registration(&self.registrations, id) {
            Some(i) => {
                proof {
                    lemma_regs_map_at(self.registrations@, i as int);
                    assert(strictly_ascending(self.registrations@[i as int].signatories@));
                }
                contains_sorted(&self.registrations[i].signatories, who)
            },
            None => {
                proof {
                    lemma_regs_map_contains(self.registrations@);
                }
                false
            },
        };
        proof {
            assert(is_member == signatories_of(s0, id).contains(who));
        }
        if !is_member {
            return Err(Error::SignerIsNotApproved);
        }
        let approvals_needed: u16 = match find_registration(&self.registrations, id) {
            Some(i) => {
                proof {
                    lemma_regs_map_at(self.registrations@, i as int);
                }
                self.registrations[i].threshold
            },
            None => {
                proof {
                    lemma_regs_map_contains(self.registrations@);
                }
                0
            },
        };
        proof {
            assert(approvals_needed == threshold_of(s0, id));
        }
        let hash = blake2_256(call);
        let cur: Vec<u64> = match find_approval(&self.approvals, id, &hash) {
            Some(j) => {
                proof {
                    lemma_apprs_map_at(self.approvals@, j as int);
                    assert(strictly_ascending(self.approvals@[j as int].approvals@));
                    assert(1 <= self.approvals@[j as int].approvals@.len()
                        <= MAX_PENDING_APPROVALS as nat);
                }
                copy_u64s(&self.approvals[j].approvals)
            },
            None => {
                proof {
                    lemma_apprs_map_contains(self.approvals@);
                }
                Vec::new()
            },
        };
        proof {
            assert(cur@ == approvals_of(s0, id, hash@));
            assert(cur@.len() <= MAX_PENDING_APPROVALS as nat);
        }
        let ghost cur_v = cur@;
        let prior = cur.len();
        if prior as u16 == approvals_needed {
            return Err(Error::DispatchHasAlreadyOccured);
        }
        let merged = match ensure_sorted_and_insert(cur, who) {
            Ok(v) => v,
            Err(e) => {
                return Err(e);
            },
        };
        if merged.len() > MAX_PENDING_APPROVALS {
            return Err(Error::TooManySignatories);
        }
        proof {
            lemma_merge_ok_props(cur_v, who);
        }
        let merged_copy = copy_u64s(&merged);
        let ghost apprs0 = self.approvals@;
        upsert_approval(&mut self.approvals, PendingApproval { id, hash, approvals: merged_copy });
        let ghost events0 = self.events@;
        self.events.push(Event::Approval { id, signer: who, hash });
        proof {
            assert(events_view(self.events@) =~= events_view(events0).push(
                EventView::Approval { id, signer: who, hash: hash@ },
            ));
            assert(self@ =~= approve_spec(s0, who, id, call@).0);
            assert forall|i: int|
                0 <= i < self.approvals@.len() implies {
                &&& strictly_ascending(#[trigger] self.approvals@[i].approvals@)
                &&& 1 <= self.approvals@[i].approvals@.len() <= MAX_PENDING_APPROVALS as nat
            } by {
                if apprs0.contains(self.approvals@[i]) {
                    let k = choose|k: int| 0 <= k < apprs0.len() && apprs0[k] == self.approvals@[i];
                    assert(strictly_ascending(apprs0[k].approvals@));
                }
            }
        }
        if prior + 1 == approvals_needed as usize {
            Ok(Outcome::Dispatch { hash, signers: merged })
        } else {
            Ok(Outcome::Approved { approvals: merged })
        }
    }

    /// Record that the host dispatched the quorate call with this hash on
    /// behalf of `id`: the hash joins the executed record — keyed by the
    /// hash alone — and a completion event carrying the endorsers is
    /// appended.
    pub fn record_dispatched(&mut self, id: u64, hash: [u8; 32], signers: Vec<u64>)
        requires
            old(self).wf(),
        ensures
            final(self).wf(),
            final(self)@ == record_dispatch_spec(old(self)@, id, hash@, signers@),
    {
        let ghost s0 = self@;
        let ghost executed0 = self.executed@;
        let ghost events0 = self.events@;
        self.executed.push(hash);
        self.events.push(Event::Call { id, hash, signatories: signers });
        proof {
            assert(self.executed@.map_values(|h: [u8; 32]| h@) =~= executed0.map_values(
                |h: [u8; 32]| h@,
            ).push(hash@));
            assert(events_view(self.events@) =~= events_view(events0).push(
                EventView::Call { id, hash: hash@, signatories: signers@ },
            ));
            assert(self@ =~= record_dispatch_spec(s0, id, hash@, signers@));
        }
    }

    /// The member list registered for `id`, empty when `id` is not
    /// registered.
    pub fn get_account(&self, id: u64) -> (r: Vec<u64>)
        requires
            self.wf(),
        ensures
            r@ == signatories_of(self@, id),
    {
        match find_registration(&self.registrations, id) {
            Some(i) => {
                proof {
                    lemma_regs_map_at(self.registrations@, i as int);
                }
                copy_u64s(&self.registrations[i].signatories)
            },
            None => {
                proof {
                    lemma_regs_map_contains(self.registrations@);
                }
                Vec::new()
            },
        }
    }

    /// The quorum registered for `id`, zero when `id` is not registered.
    pub fn get_threshold(&self, id: u64) -> (r: u16)
        requires
            self.wf(),
        ensures
            r == threshold_of(self@, id),
    {
        match find_registration(&self.registrations, id) {
            Some(i) => {
                proof {
                    lemma_regs_map_at(self.registrations@, i as int);
                }
                self.registrations[i].threshold
            },
            None => {
                proof {
                    lemma_regs_map_contains(self.registrations@);
                }
                0
            },
        }
    }

    /// The endorsers recorded for the call `hash` under `id`, empty when
    /// none were recorded.
    pub fn get_call(&self, id: u64, hash: &[u8; 32]) -> (r: Vec<u64>)
        requires
            self.wf(),
        ensures
            r@ == approvals_of(self@, id, hash@),
    {
        match find_approval(&self.approvals, id, hash) {
            Some(j) => {
                proof {
                    lemma_apprs_map_at(self.approvals@, j as int);
                }
                copy_u64s(&self.approvals[j].approvals)
            },
            None => {
                proof {
                    lemma_apprs_map_contains(self.approvals@);
                }
                Vec::new()
            },
        }
    }

    /// How many accounts are registered, saturating at the counter width.
    pub fn registered_count(&self) -> (r: u32)
        requires
            self.wf(),
        ensures
            self@.registrations.dom().finite(),
            if self@.registrations.dom().len() <= u32::MAX as nat {
                r as nat == self@.registrations.dom().len()
            } else {
                r == u32::MAX
            },
    {
        proof {
            lemma_regs_map_len(self.registrations@);
        }
        if self.registrations.len() > u32::MAX as usize {
            u32::MAX
        } else {
            self.registrations.len() as u32
        }
    }

    /// The count of endorsements for `call_hash` under `id`, when any are
    /// recorded.
    pub fn approvals_count(&self, id: u64, call_hash: &[u8; 32]) -> (r: Option<u32>)
        requires
            self.wf(),
        ensures
            r == approvals_query(self@, id, call_hash@),
    {
        match find_approval(&self.approvals, id, call_hash) {
            Some(j) => {
                proof {
                    lemma_apprs_map_at(self.approvals@, j as int);
                    assert(1 <= self.approvals@[j as int].approvals@.len()
                        <= MAX_PENDING_APPROVALS as nat);
                }
                Some(self.approvals[j].approvals.len() as u32)
            },
            None => {
                proof {
                    lemma_apprs_map_contains(self.approvals@);
                }
                None
            },
        }
    }

    /// The member list of `id`, when it is registered.
    pub fn signatories_for(&self, id: u64) -> (r: Option<Vec<u64>>)
        requires
            self.wf(),
        ensures
            opt_vec_view(r) == signatories_query(self@, id),
    {
        match find_registration(&self.registrations, id) {
            Some(i) => {
                proof {
                    lemma_regs_map_at(self.registrations@, i as int);
                }
                Some(copy_u64s(&self.registrations[i].signatories))
            },
            None => {
                proof {
                    lemma_regs_map_contains(self.registrations@);
                }
                None
            },
        }
    }

    /// The quorum of `id`, when it is registered.
    pub fn threshold_for(&self, id: u64) -> (r: Option<u32>)
        requires
            self.wf(),
        ensures
            r == threshold_query(self@, id),
    {
        match find_registration(&self.registrations, id) {
            Some(i) => {
                proof {
                    lemma_regs_map_at(self.registrations@, i as int);
                }
                Some(self.registrations[i].threshold as u32)
            },
            None => {
                proof {
                    lemma_regs_map_contains(self.registrations@);
                }
                None
            },
        }
    }

    /// The endorsers recorded for `call_hash` under `id`, when any are
    /// recorded.
    pub fn approval_accounts_for(&self, id: u64, call_hash: &[u8; 32]) -> (r: Option<Vec<u64>>)
        requires
            self.wf(),
        ensures
            opt_vec_view(r) == approval_accounts_query(self@, id, call_hash@),
    {
        match find_approval(&self.approvals, id, call_hash) {
            Some(j) => {
                proof {
                    lemma_apprs_map_at(self.approvals@, j as int);
                }
                Some(copy_u64s(&self.approvals[j].approvals))
            },
            None => {
                proof {
                    lemma_apprs_map_contains(self.approvals@);
                }
                None
            },
        }
    }

    /// The events emitted so far, oldest first.
    pub fn event_log(&self) -> (r: &Vec<Event>)
        ensures
            events_view(r@) == self@.events,
    {
        &self.events
    }

    /// The hashes of the calls recorded as dispatched, oldest first.
    pub fn executed_log(&self) -> (r: &Vec<[u8; 32]>)
        ensures
            r@.map_values(|h: [u8; 32]| h@) == self@.executed,
    {
        &self.executed
    }
}

/// In the registry map stand exactly the identities of the rows.
proof fn lemma_regs_map_contains(rs: Seq<Registration>)
    ensures
        forall|k: u64|
            #[trigger] regs_map(rs).contains_key(k) <==> exists|i: int|
                0 <= i < rs.len() && rs[i].id == k,
    decreases rs.len(),
{
    if rs.len() > 0 {
        lemma_regs_map_contains(rs.drop_last());
        assert forall|k: u64| #[trigger]
            regs_map(rs).contains_key(k) implies exists|i: int|
            0 <= i < rs.len() && rs[i].id == k by {
            if k == rs.last().id {
                assert(rs[rs.len() - 1].id == k);
            } else {
                assert(regs_map(rs) == regs_map(rs.drop_last()).insert(
                    rs.last().id,
                    reg_view(rs.last()),
                ));
                assert(regs_map(rs).dom() == regs_map(rs.drop_last()).dom().insert(rs.last().id));
                assert(regs_map(rs.drop_last()).contains_key(k));
                let i = choose|i: int| 0 <= i < rs.drop_last().len() && rs.drop_last()[i].id == k;
                assert(rs.drop_last()[i] == rs[i]);
                assert(rs[i].id == k);
            }
        }
        assert forall|k: u64|
            (exists|i: int| 0 <= i < rs.len() && rs[i].id == k) implies #[trigger]
            regs_map(rs).contains_key(k) by {
            let i = choose|i: int| 0 <= i < rs.len() && rs[i].id == k;
            assert(regs_map(rs) == regs_map(rs.drop_last()).insert(
                rs.last().id,
                reg_view(rs.last()),
            ));
            assert(regs_map(rs).dom() == regs_map(rs.drop_last()).dom().insert(rs.last().id));
            if i == rs.len() - 1 {
                assert(k == rs.last().id);
            } else {
                assert(rs.drop_last()[i] == rs[i]);
                assert(rs.drop_last()[i].id == k);
                assert(regs_map(rs.drop_last()).contains_key(k));
            }
        }
    }
}

/// With unique identities, each row is what the registry map holds for its
/// identity.
proof fn lemma_regs_map_at(rs: Seq<Registration>, i: int)
    requires
        unique_reg_ids(rs),
        0 <= i < rs.len(),
    ensures
        regs_map(rs).contains_key(rs[i].id),
        regs_map(rs)[rs[i].id] == reg_view(rs[i]),
    decreases rs.len(),
{
    if i < rs.len() - 1 {
        assert(unique_reg_ids(rs.drop_last())) by {
            assert(forall|a: int, b: int|
                0 <= a < b < rs.drop_last().len() ==> rs.drop_last()[a] == rs[a]
                    && rs.drop_last()[b] == rs[b]);
        }
        lemma_regs_map_at(rs.drop_last(), i);
        assert(rs.last().id != rs[i].id);
        assert(rs.drop_last()[i] == rs[i]);
    }
}

/// The registry map is finite and, with unique identities, has one entry
/// per row.
proof fn lemma_regs_map_len(rs: Seq<Registration>)
    requires
        unique_reg_ids(rs),
    ensures
        regs_map(rs).dom().finite(),
        regs_map(rs).dom().len() == rs.len(),
    decreases rs.len(),
{
    if rs.len() > 0 {
        let head = rs.drop_last();
        assert(unique_reg_ids(head)) by {
            assert(forall|a: int, b: int|
                0 <= a < b < head.len() ==> head[a] == rs[a] && head[b] == rs[b]);
        }
        lemma_regs_map_len(head);
        lemma_regs_map_contains(head);
        assert(!regs_map(head).contains_key(rs.last().id)) by {
            if regs_map(head).contains_key(rs.last().id) {
                let i = choose|i: int| 0 <= i < head.len() && head[i].id == rs.last().id;
                assert(rs[i].id == rs[rs.len() - 1].id);
            }
        }
        assert(regs_map(rs).dom() =~= regs_map(head).dom().insert(rs.last().id));
    }
}

/// In the pending map stand exactly the keys of the rows.
proof fn lemma_apprs_map_contains(ps: Seq<PendingApproval>)
    ensures
        forall|k: (u64, Seq<u8>)|
            #[trigger] apprs_map(ps).contains_key(k) <==> exists|i: int|
                0 <= i < ps.len() && appr_key(ps[i]) == k,
    decreases ps.len(),
{
    if ps.len() > 0 {
        lemma_apprs_map_contains(ps.drop_last());
        assert forall|k: (u64, Seq<u8>)| #[trigger]
            apprs_map(ps).contains_key(k) implies exists|i: int|
            0 <= i < ps.len() && appr_key(ps[i]) == k by {
            if k == appr_key(ps.last()) {
                assert(appr_key(ps[ps.len() - 1]) == k);
            } else {
                assert(apprs_map(ps) == apprs_map(ps.drop_last()).insert(
                    appr_key(ps.last()),
                    ps.last().approvals@,
                ));
                assert(apprs_map(ps).dom() == apprs_map(ps.drop_last()).dom().insert(
                    appr_key(ps.last()),
                ));
                assert(apprs_map(ps.drop_last()).contains_key(k));
                let i = choose|i: int|
                    0 <= i < ps.drop_last().len() && appr_key(ps.drop_last()[i]) == k;
                assert(ps.drop_last()[i] == ps[i]);
                assert(appr_key(ps[i]) == k);
            }
        }
        assert forall|k: (u64, Seq<u8>)|
            (exists|i: int| 0 <= i < ps.len() && appr_key(ps[i]) == k) implies #[trigger]
            apprs_map(ps).contains_key(k) by {
            let i = choose|i: int| 0 <= i < ps.len() && appr_key(ps[i]) == k;
            assert(apprs_map(ps) == apprs_map(ps.drop_last()).insert(
                appr_key(ps.last()),
                ps.last().approvals@,
            ));
            assert(apprs_map(ps).dom() == apprs_map(ps.drop_last()).dom().insert(
                appr_key(ps.last()),
            ));
            if i == ps.len() - 1 {
                assert(k == appr_key(ps.last()));
            } else {
                assert(ps.drop_last()[i] == ps[i]);
                assert(appr_key(ps.drop_last()[i]) == k);
                assert(apprs_map(ps.drop_last()).contains_key(k));
            }
        }
    }
}

/// With unique keys, each row is what the pending map holds for its key.
proof fn lemma_apprs_map_at(ps: Seq<PendingApproval>, i: int)
    requires
        unique_appr_keys(ps),
        0 <= i < ps.len(),
    ensures
        apprs_map(ps).contains_key(appr_key(ps[i])),
        apprs_map(ps)[appr_key(ps[i])] == ps[i].approvals@,
    decreases ps.len(),
{
    if i < ps.len() - 1 {
        assert(unique_appr_keys(ps.drop_last())) by {
            assert(forall|a: int, b: int|
                0 <= a < b < ps.drop_last().len() ==> ps.drop_last()[a] == ps[a]
                    && ps.drop_last()[b] == ps[b]);
        }
        lemma_apprs_map_at(ps.drop_last(), i);
        assert(appr_key(ps.last()) != appr_key(ps[i]));
        assert(ps.drop_last()[i] == ps[i]);
    }
}

/// Overwriting a row in place is an insert on the registry map.
proof fn lemma_regs_map_update(rs: Seq<Registration>, i: int, r: Registration)
    requires
        unique_reg_ids(rs),
        0 <= i < rs.len(),
        rs[i].id == r.id,
    ensures
        regs_map(rs.update(i, r)) == regs_map(rs).insert(r.id, reg_view(r)),
    decreases rs.len(),
{
    let rs2 = rs.update(i, r);
    if i == rs.len() - 1 {
        assert(rs2.drop_last() =~= rs.drop_last());
        assert(rs2.last() == r);
        assert(regs_map(rs2) =~= regs_map(rs).insert(r.id, reg_view(r)));
    } else {
        assert(unique_reg_ids(rs.drop_last())) by {
            assert(forall|a: int, b: int|
                0 <= a < b < rs.drop_last().len() ==> rs.drop_last()[a] == rs[a]
                    && rs.drop_last()[b] == rs[b]);
        }
        assert(rs.drop_last()[i] == rs[i]);
        lemma_regs_map_update(rs.drop_last(), i, r);
        assert(rs2.drop_last() =~= rs.drop_last().update(i, r));
        assert(rs2.last() == rs.last());
        assert(rs.last().id != r.id);
        assert(regs_map(rs2) =~= regs_map(rs).insert(r.id, reg_view(r)));
    }
}

/// Appending a row with a fresh identity is an insert on the registry map.
proof fn lemma_regs_map_push(rs: Seq<Registration>, r: Registration)
    ensures
        regs_map(rs.push(r)) == regs_map(rs).insert(r.id, reg_view(r)),
{
    assert(rs.push(r).drop_last() =~= rs);
    assert(rs.push(r).last() == r);
}

/// Overwriting a row in place is an insert on the pending map.
proof fn lemma_apprs_map_update(ps: Seq<PendingApproval>, i: int, p: PendingApproval)
    requires
        unique_appr_keys(ps),
        0 <= i < ps.len(),
        appr_key(ps[i]) == appr_key(p),
    ensures
        apprs_map(ps.update(i, p)) == apprs_map(ps).insert(appr_key(p), p.approvals@),
    decreases ps.len(),
{
    let ps2 = ps.update(i, p);
    if i == ps.len() - 1 {
        assert(ps2.drop_last() =~= ps.drop_last());
        assert(ps2.last() == p);
        assert(apprs_map(ps2) =~= apprs_map(ps).insert(appr_key(p), p.approvals@));
    } else {
        assert(unique_appr_keys(ps.drop_last())) by {
            assert(forall|a: int, b: int|
                0 <= a < b < ps.drop_last().len() ==> ps.drop_last()[a] == ps[a]
                    && ps.drop_last()[b] == ps[b]);
        }
        assert(ps.drop_last()[i] == ps[i]);
        lemma_apprs_map_update(ps.drop_last(), i, p);
        assert(ps2.drop_last() =~= ps.drop_last().update(i, p));
        assert(ps2.last() == ps.last());
        assert(appr_key(ps.last()) != appr_key(p));
        assert(apprs_map(ps2) =~= apprs_map(ps).insert(appr_key(p), p.approvals@));
    }
}

/// Appending a row with a fresh key is an insert on the pending map.
proof fn lemma_apprs_map_push(ps: Seq<PendingApproval>, p: PendingApproval)
    ensures
        apprs_map(ps.push(p)) == apprs_map(ps).insert(appr_key(p), p.approvals@),
{
    assert(ps.push(p).drop_last() =~= ps);
    assert(ps.push(p).last() == p);
}

/// Find the registry row for `id`.
fn find_registration(regs: &Vec<Registration>, id: u64) -> (r: Option<usize>)
    ensures
        match r {
            Some(i) => i < regs@.len() && regs@[i as int].id == id,
            None => forall|i: int| 0 <= i < regs@.len() ==> regs@[i].id != id,
        },
{
    let mut i: usize = 0;
    while i < regs.len()
        invariant
            i <= regs@.len(),
            forall|k: int| 0 <= k < i ==> regs@[k].id != id,
        decreases regs@.len() - i,
    {
        if regs[i].id == id {
            return Some(i);
        }
        i += 1;
    }
    None
}

/// Whether two call hashes are the same digest.
fn hash_eq(a: &[u8; 32], b: &[u8; 32]) -> (r: bool)
    ensures
        r == (a@ == b@),
{
    let mut i: usize = 0;
    while i < 32
        invariant
            i <= 32,
            forall|k: int| 0 <= k < i ==> a@[k] == b@[k],
        decreases 32 - i,
    {
        if a[i] != b[i] {
            return false;
        }
        i += 1;
    }
    proof {
        assert(a@ =~= b@);
    }
    true
}

/// Find the pending row for (`id`, `hash`).
fn find_approval(ps: &Vec<PendingApproval>, id: u64, hash: &[u8; 32]) -> (r: Option<usize>)
    ensures
        match r {
            Some(i) => i < ps@.len() && appr_key(ps@[i as int]) == (id, hash@),
            None => forall|i: int| 0 <= i < ps@.len() ==> appr_key(ps@[i]) != (id, hash@),
        },
{
    let mut i: usize = 0;
    while i < ps.len()
        invariant
            i <= ps@.len(),
            forall|k: int| 0 <= k < i ==> appr_key(ps@[k]) != (id, hash@),
        decreases ps@.len() - i,
    {
        if ps[i].id == id && hash_eq(&ps[i].hash, hash) {
            return Some(i);
        }
        i += 1;
    }
    None
}

/// Copy a signatory list.
fn copy_u64s(v: &Vec<u64>) -> (r: Vec<u64>)
    ensures
        r@ == v@,
{
    let mut r: Vec<u64> = Vec::new();
    let mut i: usize = 0;
    while i < v.len()
        invariant
            i <= v@.len(),
            r@ == v@.take(i as int),
        decreases v@.len() - i,
    {
        r.push(v[i]);
        proof {
            assert(v@.take(i + 1) =~= v@.take(i as int).push(v@[i as int]));
        }
        i += 1;
    }
    proof {
        assert(v@.take(v@.len() as int) =~= v@);
    }
    r
}

/// Write the registry row for `r.id`, overwriting an earlier one.
fn upsert_registration(regs: &mut Vec<Registration>, r: Registration)
    requires
        unique_reg_ids(old(regs)@),
    ensures
        unique_reg_ids(final(regs)@),
        regs_map(final(regs)@) == regs_map(old(regs)@).insert(r.id, reg_view(r)),
        forall|i: int|
            0 <= i < final(regs)@.len() ==> final(regs)@[i] == r || old(regs)@.contains(
                #[trigger] final(regs)@[i],
            ),
{
    let ghost rs0 = regs@;
    match find_registration(regs, r.id) {
        Some(i) => {
            proof {
                lemma_regs_map_update(rs0, i as int, r);
            }
            regs[i] = r;
            proof {
                assert(forall|k: int|
                    0 <= k < regs@.len() && k != i ==> regs@[k] == rs0[k]);
                assert(unique_reg_ids(regs@));
                assert forall|k: int|
                    0 <= k < regs@.len() implies regs@[k] == r || rs0.contains(
                    #[trigger] regs@[k],
                ) by {
                    if k != i {
                        assert(rs0[k] == regs@[k]);
                    }
                }
            }
        },
        None => {
            proof {
                lemma_regs_map_push(rs0, r);
            }
            regs.push(r);
            proof {
                assert(forall|k: int| 0 <= k < rs0.len() ==> regs@[k] == rs0[k]);
                assert(unique_reg_ids(regs@));
                assert forall|k: int|
                    0 <= k < regs@.len() implies regs@[k] == r || rs0.contains(
                    #[trigger] regs@[k],
                ) by {
                    if k < rs0.len() {
                        assert(rs0[k] == regs@[k]);
                    }
                }
            }
        },
    }
}

/// Write the pending row for `appr_key(p)`, overwriting an earlier one.
fn upsert_approval(ps: &mut Vec<PendingApproval>, p: PendingApproval)
    requires
        unique_appr_keys(old(ps)@),
    ensures
        unique_appr_keys(final(ps)@),
        apprs_map(final(ps)@) == apprs_map(old(ps)@).insert(appr_key(p), p.approvals@),
        forall|i: int|
            0 <= i < final(ps)@.len() ==> final(ps)@[i] == p || old(ps)@.contains(
                #[trigger] final(ps)@[i],
            ),
{
    let ghost ps0 = ps@;
    let hash = p.hash;
    match find_approval(ps, p.id, &hash) {
        Some(i) => {
            proof {
                lemma_apprs_map_update(ps0, i as int, p);
            }
            ps[i] = p;
            proof {
                assert(forall|k: int| 0 <= k < ps@.len() && k != i ==> ps@[k] == ps0[k]);
                assert(unique_appr_keys(ps@));
                assert forall|k: int|
                    0 <= k < ps@.len() implies ps@[k] == p || ps0.contains(
                    #[trigger] ps@[k],
                ) by {
                    if k != i {
                        assert(ps0[k] == ps@[k]);
                    }
                }
            }
        },
        None => {
            proof {
                lemma_apprs_map_push(ps0, p);
            }
            ps.push(p);
            proof {
                assert(forall|k: int| 0 <= k < ps0.len() ==> ps@[k] == ps0[k]);
                assert(unique_appr_keys(ps@));
                assert forall|k: int|
                    0 <= k < ps@.len() implies ps@[k] == p || ps0.contains(
                    #[trigger] ps@[k],
                ) by {
                    if k < ps0.len() {
                        assert(ps0[k] == ps@[k]);
                    }
                }
            }
        },
    }
}

} // verus!
