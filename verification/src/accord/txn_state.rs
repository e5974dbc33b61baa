//! Per-transaction consensus state of one replica.

use vstd::prelude::*;

use crate::accord::types::{
    AcceptedBallot, BallotNumber, PromisedBallot, Timestamp, TxnId, TxnPhase, TxnSet,
};
use crate::text::copy_bytes;

verus! {

/// What a replica knows of a transaction.
#[derive(Debug)]
pub struct TxnState {
    /// The transaction.
    pub txn_id: TxnId,
    /// Timestamp at which it was proposed.
    pub t0: Timestamp,
    /// Execution timestamp agreed so far.
    pub t: Timestamp,
    /// Transactions that must be applied first.
    pub deps: TxnSet,
    /// Progress.
    pub phase: TxnPhase,
    /// Highest ballot promised.
    pub max_ballot_seen: PromisedBallot,
    /// Ballot of the last accepted value.
    pub accepted_ballot: AcceptedBallot,
    /// Result data, once applied.
    pub result: Option<Vec<u8>>,
    /// A pre-accept of it has been made durable.
    pub preaccept_logged: bool,
    /// The ballot promised now has been promised to a recovery, durably.
    pub promise_logged: bool,
}

/// The abstract state of a transaction.
#[verifier::ext_equal]
pub struct TxnStateView {
    pub txn_id: TxnId,
    pub t0: Timestamp,
    pub t: Timestamp,
    pub deps: Set<TxnId>,
    pub phase: TxnPhase,
    pub promised: nat,
    pub accepted: nat,
    pub result: Option<Seq<u8>>,
    pub preaccept_logged: bool,
    pub promise_logged: bool,
}

impl TxnStateView {
    /// A transaction that has only just been heard of.
    pub open spec fn fresh(txn_id: TxnId, t0: Timestamp) -> TxnStateView {
        TxnStateView {
            txn_id,
            t0,
            t: t0,
            deps: Set::empty(),
            phase: TxnPhase::PreAccepted,
            promised: 0,
            accepted: 0,
            result: None,
            preaccept_logged: false,
            promise_logged: false,
        }
    }

    /// After pre-accepting at `t` with dependencies `deps`.
    pub open spec fn pre_accepted(self, t: Timestamp, deps: Set<TxnId>) -> TxnStateView {
        TxnStateView { t, deps, phase: TxnPhase::PreAccepted, preaccept_logged: true, ..self }
    }

    /// After accepting `(t, deps)` at `ballot`.
    pub open spec fn accept_at(self, ballot: nat, t: Timestamp, deps: Set<TxnId>) -> TxnStateView {
        TxnStateView {
            t,
            deps,
            phase: TxnPhase::Accepted,
            promised: ballot,
            accepted: ballot,
            promise_logged: false,
            ..self
        }
    }

    /// After committing `(t, deps)`.
    pub open spec fn committed(self, t: Timestamp, deps: Set<TxnId>) -> TxnStateView {
        TxnStateView { t, deps, phase: TxnPhase::Committed, ..self }
    }

    /// After applying with `result`.
    pub open spec fn applied(self, result: Seq<u8>) -> TxnStateView {
        TxnStateView { phase: TxnPhase::Applied, result: Some(result), ..self }
    }

    /// After promising `ballot` to a recovery.
    pub open spec fn joined(self, ballot: nat) -> TxnStateView {
        TxnStateView { promised: ballot, promise_logged: true, ..self }
    }

    /// Committed or applied: the outcome is decided.
    pub open spec fn decided(self) -> bool {
        self.phase == TxnPhase::Committed || self.phase == TxnPhase::Applied
    }
}

/// The view of optional bytes.
pub open spec fn optional_bytes(v: Option<Vec<u8>>) -> Option<Seq<u8>> {
    match v {
        Some(b) => Some(b@),
        None => None,
    }
}

impl View for TxnState {
    type V = TxnStateView;

    open spec fn view(&self) -> TxnStateView {
        TxnStateView {
            txn_id: self.txn_id,
            t0: self.t0,
            t: self.t,
            deps: self.deps@,
            phase: self.phase,
            promised: self.max_ballot_seen.0.0 as nat,
            accepted: self.accepted_ballot.0.0 as nat,
            result: optional_bytes(self.result),
            preaccept_logged: self.preaccept_logged,
            promise_logged: self.promise_logged,
        }
    }
}

impl TxnState {
    /// The dependency set lists no transaction twice.
    pub open spec fn wf(&self) -> bool {
        self.deps.wf()
    }

    /// State of a transaction that has only just been heard of.
    pub fn new(txn_id: TxnId, t0: Timestamp) -> (s: TxnState)
        ensures
            s.wf(),
            s@ == TxnStateView::fresh(txn_id, t0),
    {
        let s = TxnState {
            txn_id,
            t0,
            t: t0,
            deps: TxnSet::new(),
            phase: TxnPhase::PreAccepted,
            max_ballot_seen: PromisedBallot(BallotNumber(0)),
            accepted_ballot: AcceptedBallot(BallotNumber(0)),
            result: None,
            preaccept_logged: false,
            promise_logged: false,
        };
        assert(s@ =~= TxnStateView::fresh(txn_id, t0));
        s
    }

    /// Pre-accept at `t` with dependencies `deps`, which is durable.
    pub fn pre_accept(&mut self, t: Timestamp, deps: TxnSet)
        requires
            old(self).wf(),
            deps.wf(),
        ensures
            final(self).wf(),
            final(self)@ == old(self)@.pre_accepted(t, deps@),
    {
        self.t = t;
        self.deps = deps;
        self.phase = TxnPhase::PreAccepted;
        self.preaccept_logged = true;
    }

    /// Accept `(t, deps)` at a ballot: it is both promised and accepted.
    pub fn accept(&mut self, ballot: AcceptedBallot, t: Timestamp, deps: TxnSet)
        requires
            old(self).wf(),
            deps.wf(),
        ensures
            final(self).wf(),
            final(self)@ == old(self)@.accept_at(ballot.0.0 as nat, t, deps@),
    {
        self.accepted_ballot = ballot;
        self.max_ballot_seen = PromisedBallot(ballot.0);
        self.t = t;
        self.deps = deps;
        self.phase = TxnPhase::Accepted;
        self.promise_logged = false;
    }

    /// Fix the final timestamp and dependencies.
    pub fn commit(&mut self, t: Timestamp, deps: TxnSet)
        requires
            old(self).wf(),
            deps.wf(),
        ensures
            final(self).wf(),
            final(self)@ == old(self)@.committed(t, deps@),
    {
        self.t = t;
        self.deps = deps;
        self.phase = TxnPhase::Committed;
    }

    /// Record that the transaction has been applied.
    pub fn apply(&mut self, result: Vec<u8>)
        requires
            old(self).wf(),
        ensures
            final(self).wf(),
            final(self)@ == old(self)@.applied(result@),
    {
        self.result = Some(result);
        self.phase = TxnPhase::Applied;
    }

    /// Promise a ballot to a recovery; the accepted ballot stays.
    pub fn join_ballot(&mut self, ballot: PromisedBallot)
        requires
            old(self).wf(),
        ensures
            final(self).wf(),
            final(self)@ == old(self)@.joined(ballot.0.0 as nat),
    {
        self.max_ballot_seen = ballot;
        self.promise_logged = true;
    }

    /// A copy of the state.
    pub fn copied(&self) -> (s: TxnState)
        requires
            self.wf(),
        ensures
            s.wf(),
            s@ == self@,
    {
        let result: Option<Vec<u8>> = match &self.result {
            Some(b) => Some(copy_bytes(b.as_slice())),
            None => None,
        };
        let s = TxnState {
            txn_id: self.txn_id,
            t0: self.t0,
            t: self.t,
            deps: self.deps.copied(),
            phase: self.phase,
            max_ballot_seen: self.max_ballot_seen,
            accepted_ballot: self.accepted_ballot,
            result,
            preaccept_logged: self.preaccept_logged,
            promise_logged: self.promise_logged,
        };
        assert(s@ =~= self@);
        s
    }
}

/// The state of a transaction is modelled by its parts, each in its own place.
pub proof fn models_say_what_is_known(s: TxnState)
    ensures
        s@.txn_id == s.txn_id && s@.t0 == s.t0 && s@.t == s.t,
        s@.deps == s.deps@,
        s@.phase == s.phase,
        s@.promised == s.max_ballot_seen.0.0,
        s@.accepted == s.accepted_ballot.0.0,
        s.result matches Some(b) ==> s@.result == Some(b@),
        s.result is None ==> s@.result is None,
        s@.preaccept_logged == s.preaccept_logged,
        s@.promise_logged == s.promise_logged,
{
}

/// A transaction that has only just been heard of is pre-accepted at its own proposal,
/// depends on nothing and has promised nothing. Each step sets what it is about and keeps
/// the rest.
pub proof fn steps_set_what_they_are_about(
    s: TxnStateView,
    id: TxnId,
    t0: Timestamp,
    ballot: nat,
    t: Timestamp,
    deps: Set<TxnId>,
    result: Seq<u8>,
)
    ensures
        ({
            let f = TxnStateView::fresh(id, t0);
            &&& f.txn_id == id && f.t0 == t0 && f.t == t0
            &&& f.deps == Set::<TxnId>::empty() && f.phase == TxnPhase::PreAccepted
            &&& f.promised == 0 && f.accepted == 0 && f.result is None
            &&& !f.preaccept_logged && !f.promise_logged
        }),
        ({
            let p = s.pre_accepted(t, deps);
            &&& p.t == t && p.deps == deps && p.phase == TxnPhase::PreAccepted && p.preaccept_logged
            &&& p.txn_id == s.txn_id && p.t0 == s.t0 && p.promised == s.promised
            &&& p.accepted == s.accepted && p.result == s.result
            &&& p.promise_logged == s.promise_logged
        }),
        ({
            let a = s.accept_at(ballot, t, deps);
            &&& a.t == t && a.deps == deps && a.phase == TxnPhase::Accepted
            &&& a.promised == ballot && a.accepted == ballot && !a.promise_logged
            &&& a.txn_id == s.txn_id && a.t0 == s.t0 && a.result == s.result
            &&& a.preaccept_logged == s.preaccept_logged
        }),
        ({
            let c = s.committed(t, deps);
            &&& c.t == t && c.deps == deps && c.phase == TxnPhase::Committed
            &&& c.txn_id == s.txn_id && c.t0 == s.t0 && c.promised == s.promised
            &&& c.accepted == s.accepted && c.result == s.result
            &&& c.preaccept_logged == s.preaccept_logged && c.promise_logged == s.promise_logged
        }),
        ({
            let a = s.applied(result);
            &&& a.phase == TxnPhase::Applied && a.result == Some(result)
            &&& a.txn_id == s.txn_id && a.t0 == s.t0 && a.t == s.t && a.deps == s.deps
            &&& a.promised == s.promised && a.accepted == s.accepted
            &&& a.preaccept_logged == s.preaccept_logged && a.promise_logged == s.promise_logged
        }),
        ({
            let j = s.joined(ballot);
            &&& j.promised == ballot && j.promise_logged
            &&& j.txn_id == s.txn_id && j.t0 == s.t0 && j.t == s.t && j.deps == s.deps
            &&& j.phase == s.phase && j.accepted == s.accepted && j.result == s.result
            &&& j.preaccept_logged == s.preaccept_logged
        }),
        s.decided() <==> s.phase == TxnPhase::Committed || s.phase == TxnPhase::Applied,
{
}

} // verus!
