//! The replica's protocol as functions on abstract states, and its laws.

use vstd::prelude::*;

use crate::accord::apply::MutationView;
use crate::accord::conflict_index::{ConflictIndexView, InFlightWrite, TxnStatus};
use crate::accord::txn_state::TxnStateView;
use crate::accord::types::{Timestamp, TxnId, TxnPhase};
use crate::text::decimal_bytes;

verus! {

/// The abstract state of a replica.
#[verifier::ext_equal]
pub struct ReplicaView {
    /// This replica.
    pub node_id: u64,
    /// What is known of each transaction.
    pub txns: Map<TxnId, TxnStateView>,
    /// Conflicts among in-flight transactions.
    pub index: ConflictIndexView,
    /// For a transaction, those that wait for it to commit.
    pub waiters: Map<TxnId, Seq<TxnId>>,
    /// Transactions committed here.
    pub committed: Set<TxnId>,
    /// Waiters woken by the last commit.
    pub notified: Seq<TxnId>,
    /// Records handed to the protocol log, with whether each became durable.
    pub log: Seq<(Seq<u8>, bool)>,
    /// Mutations handed to storage, with whether each was durably written.
    pub storage: Seq<(TxnId, MutationView, bool)>,
}

/// The abstract reply to a protocol message.
#[verifier::ext_equal]
pub enum ReplyView {
    PreAcceptOK { txn_id: TxnId, t: Timestamp, deps: Set<TxnId> },
    AcceptOK { txn_id: TxnId, ballot: nat, deps: Set<TxnId> },
    Nack { txn_id: TxnId, promised: nat },
    Silence,
}

/// UTF-8 bytes of a text.
pub open spec fn ascii(text: &str) -> Seq<u8> {
    vstd::utf8::encode_utf8(text@)
}

/// Log record of a pre-accept.
pub open spec fn preaccepted_record(id: TxnId, t: Timestamp) -> Seq<u8> {
    ascii("PreAccepted:") + decimal_bytes(id.0.time as nat) + ascii(":") + decimal_bytes(
        t.time as nat,
    )
}

/// Log record of an accept.
pub open spec fn accepted_record(id: TxnId, t: Timestamp, ballot: nat) -> Seq<u8> {
    ascii("Accepted:") + decimal_bytes(id.0.time as nat) + ascii(":") + decimal_bytes(
        t.time as nat,
    ) + ascii(":") + decimal_bytes(ballot)
}

/// Log record of a ballot promised to a recovery.
pub open spec fn promised_record(id: TxnId, ballot: nat) -> Seq<u8> {
    ascii("Promised:") + decimal_bytes(id.0.time as nat) + ascii(":") + decimal_bytes(ballot)
}

/// Log record of a commit.
pub open spec fn committed_record(id: TxnId, t: Timestamp) -> Seq<u8> {
    ascii("Committed:") + decimal_bytes(id.0.time as nat) + ascii(":") + decimal_bytes(
        t.time as nat,
    )
}

/// Log record of an apply.
pub open spec fn applied_record(id: TxnId) -> Seq<u8> {
    ascii("Applied:") + decimal_bytes(id.0.time as nat)
}

/// The execution timestamp a replica proposes: `t0`, or a timestamp of its own
/// past the latest conflicting proposal where that one is not before `t0`.
pub open spec fn execution_time(t0: Timestamp, latest: Option<Timestamp>, node: u64) -> Timestamp {
    match latest {
        Some(ct) => if !ct.precedes(t0) {
            ct.spec_past(node)
        } else {
            t0
        },
        None => t0,
    }
}

/// Whether the last attempt is new and succeeded.
pub open spec fn logged(before: Seq<(Seq<u8>, bool)>, after: Seq<(Seq<u8>, bool)>) -> bool {
    after.len() > before.len() && after.last().1
}

/// Whether the last mutation is new and was durably written.
pub open spec fn stored(
    before: Seq<(TxnId, MutationView, bool)>,
    after: Seq<(TxnId, MutationView, bool)>,
) -> bool {
    after.len() > before.len() && after.last().2
}

/// What a message about `id` leaves recorded, given what it leaves of the others.
proof fn lemma_recorded(s: ReplicaView, after: ReplicaView, id: TxnId)
    requires
        s.recorded(),
        after == s || exists|r: (Seq<u8>, bool)| after.log == #[trigger] s.log.push(r),
        forall|x: TxnId|
            x != id && #[trigger] after.txns.contains_key(x) ==> s.txns.contains_key(x)
                && after.txns[x] == s.txns[x],
        after.txns.contains_key(id) ==> after.in_log(id),
    ensures
        after.recorded(),
{
    if after != s {
        let r = choose|r: (Seq<u8>, bool)| after.log == #[trigger] s.log.push(r);
        lemma_log_grows(s.log, r);
        assert forall|x: TxnId| #[trigger] after.txns.contains_key(x) implies after.in_log(x) by {
            if x != id {
                assert(s.in_log(x));
            }
        }
    }
}

impl ReplicaView {
    /// What is known of a transaction, or its initial state.
    pub open spec fn known(self, id: TxnId, t0: Timestamp) -> TxnStateView {
        if self.txns.contains_key(id) {
            self.txns[id]
        } else {
            TxnStateView::fresh(id, t0)
        }
    }

    /// A pre-accept is refused: a higher ballot is promised, or the transaction
    /// is already accepted.
    pub open spec fn preaccept_refused(self, id: TxnId, ballot: nat) -> bool {
        self.txns.contains_key(id) && (ballot < self.txns[id].promised
            || self.txns[id].phase.spec_rank() >= 1)
    }

    /// A pre-accept repeats an earlier one, which is durable.
    pub open spec fn preaccept_repeated(self, id: TxnId, t0: Timestamp, ballot: nat) -> bool {
        self.txns.contains_key(id) && !self.preaccept_refused(id, ballot) && self.txns[id].t0 == t0
            && self.txns[id].preaccept_logged
    }

    /// Execution timestamp proposed for a transaction on `key`.
    pub open spec fn proposed_time(self, t0: Timestamp, key: Seq<u8>) -> Timestamp {
        execution_time(t0, self.index.latest(key), self.node_id)
    }

    /// State after a PreAccept; `ok` says whether the log record became durable.
    pub open spec fn preaccept(self, id: TxnId, t0: Timestamp, key: Seq<u8>, ballot: nat, ok: bool) -> ReplicaView {
        if self.preaccept_refused(id, ballot) || self.preaccept_repeated(id, t0, ballot) {
            self
        } else {
            let t = self.proposed_time(t0, key);
            let deps = self.index.deps_before(key, t0);
            let logged = ReplicaView { log: self.log.push((preaccepted_record(id, t), ok)), ..self };
            if !ok {
                logged
            } else {
                ReplicaView {
                    txns: self.txns.insert(id, self.known(id, t0).pre_accepted(t, deps)),
                    index: self.index.registered(
                        key,
                        InFlightWrite {
                            txn_id: id,
                            t0,
                            accord_ts: None,
                            status: TxnStatus::PreAccepted,
                        },
                    ),
                    ..logged
                }
            }
        }
    }

    /// Reply to a PreAccept.
    pub open spec fn preaccept_reply(self, id: TxnId, t0: Timestamp, key: Seq<u8>, ballot: nat, ok: bool) -> ReplyView {
        if self.preaccept_refused(id, ballot) {
            ReplyView::Nack { txn_id: id, promised: self.txns[id].promised }
        } else if self.preaccept_repeated(id, t0, ballot) {
            ReplyView::PreAcceptOK {
                txn_id: id,
                t: self.txns[id].t,
                deps: self.txns[id].deps,
            }
        } else if ok {
            ReplyView::PreAcceptOK {
                txn_id: id,
                t: self.proposed_time(t0, key),
                deps: self.index.deps_before(key, t0),
            }
        } else {
            ReplyView::Silence
        }
    }

    /// An accept comes after the outcome was decided.
    pub open spec fn is_decided(self, id: TxnId) -> bool {
        self.txns.contains_key(id) && self.txns[id].decided()
    }

    /// A higher ballot than `ballot` is promised.
    pub open spec fn outbid(self, id: TxnId, ballot: nat) -> bool {
        self.txns.contains_key(id) && ballot < self.txns[id].promised
    }

    /// An accept repeats the last one, which is durable: the same value at the
    /// same ballot.
    pub open spec fn accept_repeated(self, id: TxnId, t: Timestamp, deps: Set<TxnId>, ballot: nat) -> bool {
        self.txns.contains_key(id) && self.txns[id].phase == TxnPhase::Accepted
            && self.txns[id].accepted == ballot && self.txns[id].t == t && self.txns[id].deps
            == deps
    }

    /// State after an Accept; `ok` says whether the log record became durable.
    pub open spec fn accept(self, id: TxnId, t0: Timestamp, t: Timestamp, deps: Set<TxnId>, ballot: nat, ok: bool) -> ReplicaView {
        if self.outbid(id, ballot) || self.is_decided(id) || self.accept_repeated(
            id,
            t,
            deps,
            ballot,
        ) {
            self
        } else {
            let logged = ReplicaView {
                log: self.log.push((accepted_record(id, t, ballot), ok)),
                ..self
            };
            if !ok {
                logged
            } else {
                ReplicaView {
                    txns: self.txns.insert(id, self.known(id, t0).accept_at(ballot, t, deps)),
                    ..logged
                }
            }
        }
    }

    /// Reply to an Accept.
    pub open spec fn accept_reply(self, id: TxnId, t: Timestamp, deps: Set<TxnId>, ballot: nat, ok: bool) -> ReplyView {
        if self.outbid(id, ballot) {
            ReplyView::Nack { txn_id: id, promised: self.txns[id].promised }
        } else if self.is_decided(id) {
            ReplyView::AcceptOK { txn_id: id, ballot, deps: self.txns[id].deps }
        } else if ok || self.accept_repeated(id, t, deps, ballot) {
            ReplyView::AcceptOK { txn_id: id, ballot, deps }
        } else {
            ReplyView::Silence
        }
    }

    /// Transactions that wait for `id`.
    pub open spec fn waiting_for(self, id: TxnId) -> Seq<TxnId> {
        if self.waiters.contains_key(id) {
            self.waiters[id]
        } else {
            Seq::empty()
        }
    }

    /// State after a Commit.
    pub open spec fn commit(self, id: TxnId, t0: Timestamp, t: Timestamp, deps: Set<TxnId>, ok: bool) -> ReplicaView {
        if self.is_decided(id) {
            self
        } else if ok {
            ReplicaView {
                txns: self.txns.insert(id, self.known(id, t0).committed(t, deps)),
                committed: self.committed.insert(id),
                notified: self.waiting_for(id),
                waiters: self.waiters.remove(id),
                log: self.log.push((committed_record(id, t), true)),
                ..self
            }
        } else {
            ReplicaView {
                txns: self.txns.insert(id, self.known(id, t0)),
                log: self.log.push((committed_record(id, t), false)),
                ..self
            }
        }
    }

    /// There is something to apply.
    pub open spec fn can_apply(self, id: TxnId) -> bool {
        self.txns.contains_key(id) && self.txns[id].phase != TxnPhase::Applied
    }

    /// The mutation that applying `id` hands to storage.
    pub open spec fn mutation(self, id: TxnId, data: Seq<u8>) -> MutationView {
        MutationView { data, t: self.txns[id].t, deps: self.txns[id].deps }
    }

    /// State after an Apply; `ok` says whether the log record became durable and
    /// `kept` whether storage durably wrote the mutation.
    pub open spec fn apply(self, id: TxnId, data: Seq<u8>, ok: bool, kept: bool) -> ReplicaView {
        if !self.can_apply(id) {
            self
        } else if !ok {
            ReplicaView { log: self.log.push((applied_record(id), false)), ..self }
        } else if !kept {
            ReplicaView {
                log: self.log.push((applied_record(id), true)),
                storage: self.storage.push((id, self.mutation(id, data), false)),
                ..self
            }
        } else {
            ReplicaView {
                txns: self.txns.insert(id, self.txns[id].applied(data)),
                index: self.index.with_applied(id),
                log: self.log.push((applied_record(id), true)),
                storage: self.storage.push((id, self.mutation(id, data), true)),
                ..self
            }
        }
    }

    /// A recovery repeats an earlier one at the same ballot, which is durable.
    pub open spec fn recover_repeated(self, id: TxnId, ballot: nat) -> bool {
        self.txns.contains_key(id) && self.txns[id].promised == ballot
            && self.txns[id].promise_logged
    }

    /// State after a Recover; `ok` says whether the log record became durable.
    pub open spec fn recover(self, id: TxnId, t0: Timestamp, ballot: nat, ok: bool) -> ReplicaView {
        if self.outbid(id, ballot) || self.recover_repeated(id, ballot) {
            self
        } else {
            let logged = ReplicaView {
                log: self.log.push((promised_record(id, ballot), ok)),
                ..self
            };
            if !ok {
                logged
            } else {
                ReplicaView {
                    txns: self.txns.insert(id, self.known(id, t0).joined(ballot)),
                    ..logged
                }
            }
        }
    }

    /// Reply to a Recover: the state with the ballot promised, unless outbid or
    /// not durable.
    pub open spec fn recover_reply(self, id: TxnId, t0: Timestamp, ballot: nat, ok: bool) -> Option<TxnStateView> {
        if self.outbid(id, ballot) {
            None
        } else if ok || self.recover_repeated(id, ballot) {
            Some(self.known(id, t0).joined(ballot))
        } else {
            None
        }
    }

    /// Transactions that have been applied.
    pub open spec fn applied_ids(self) -> Set<TxnId> {
        Set::new(
            |id: TxnId| self.txns.contains_key(id) && self.txns[id].phase == TxnPhase::Applied,
        )
    }

    /// State after dropping what has been applied.
    pub open spec fn pruned(self) -> ReplicaView {
        ReplicaView {
            txns: self.txns.remove_keys(self.applied_ids()),
            committed: self.committed.difference(self.applied_ids()),
            waiters: self.waiters.remove_keys(self.applied_ids()),
            index: self.index.collected(),
            ..self
        }
    }

    /// A registered write has put its row in place at `t`: its transaction has been
    /// applied, with a commit timestamp not after `t`. One that is no longer known
    /// has been applied and forgotten; it counts unless it was proposed after `t`,
    /// since no transaction commits before it is proposed.
    pub open spec fn wrote_by(self, w: InFlightWrite, t: Timestamp) -> bool {
        if self.txns.contains_key(w.txn_id) {
            self.txns[w.txn_id].phase == TxnPhase::Applied && !t.precedes(self.txns[w.txn_id].t)
        } else {
            !t.precedes(w.t0)
        }
    }

    /// `INSERT IF NOT EXISTS` on `key` may proceed at `t`: no write registered on the
    /// key has put a row in place by then.
    pub open spec fn absent_at(self, key: Seq<u8>, t: Timestamp) -> bool {
        forall|i: int|
            0 <= i < self.index.writes_on(key).len() ==> !self.wrote_by(
                #[trigger] self.index.writes_on(key)[i],
                t,
            )
    }

    /// The protocol's invariant.
    pub open spec fn sound(self) -> bool {
        &&& forall|id: TxnId| #[trigger]
            self.txns.contains_key(id) ==> self.txns[id].txn_id == id
                && self.txns[id].accepted <= self.txns[id].promised
        &&& forall|id: TxnId| #[trigger]
            self.committed.contains(id) ==> self.is_decided(id)
    }

    /// What a replica knows of a transaction is in its log.
    pub open spec fn in_log(self, id: TxnId) -> bool {
        let x = self.txns[id];
        &&& x.phase == TxnPhase::PreAccepted && x.preaccept_logged ==> self.log.contains(
            (preaccepted_record(id, x.t), true),
        )
        &&& x.phase == TxnPhase::Accepted ==> self.log.contains(
            (accepted_record(id, x.t, x.accepted), true),
        )
        &&& x.phase == TxnPhase::Committed ==> self.log.contains(
            (committed_record(id, x.t), true),
        )
        &&& x.phase == TxnPhase::Applied ==> self.log.contains((applied_record(id), true))
        &&& x.promise_logged ==> self.log.contains((promised_record(id, x.promised), true))
    }

    /// Whatever step a replica has taken, its log has a durable record of it.
    pub open spec fn recorded(self) -> bool {
        forall|id: TxnId| #[trigger] self.txns.contains_key(id) ==> self.in_log(id)
    }

    /// Nothing that `self` knows is taken back in `later`: no transaction is
    /// forgotten, no phase or promise goes back, and a decided outcome stays.
    pub open spec fn advances_to(self, later: ReplicaView) -> bool {
        &&& self.node_id == later.node_id
        &&& self.committed.subset_of(later.committed)
        &&& forall|id: TxnId| #[trigger]
            self.txns.contains_key(id) ==> {
                &&& later.txns.contains_key(id)
                &&& later.txns[id].t0 == self.txns[id].t0
                &&& later.txns[id].phase.spec_rank() >= self.txns[id].phase.spec_rank()
                &&& later.txns[id].promised >= self.txns[id].promised
                &&& later.txns[id].accepted >= self.txns[id].accepted
                &&& self.txns[id].decided() ==> later.txns[id].t == self.txns[id].t
                    && later.txns[id].deps == self.txns[id].deps
                &&& self.txns[id].phase == TxnPhase::Applied ==> later.txns[id].result
                    == self.txns[id].result
            }
        &&& self.log.is_prefix_of(later.log)
        &&& self.storage.is_prefix_of(later.storage)
    }
}

/// Advancing is transitive.
pub proof fn advancing_is_transitive(a: ReplicaView, b: ReplicaView, c: ReplicaView)
    requires
        a.advances_to(b),
        b.advances_to(c),
    ensures
        a.advances_to(c),
{
    assert forall|id: TxnId| #[trigger] a.txns.contains_key(id) implies c.txns.contains_key(id) by {
        assert(b.txns.contains_key(id));
    }
    assert forall|id: TxnId| a.txns.contains_key(id) implies b.txns.contains_key(id) by {}
    assert(a.log =~= c.log.take(a.log.len() as int));
    assert(a.storage =~= c.storage.take(a.storage.len() as int));
}

/// Every message moves the replica forward only, and keeps it sound.
pub proof fn messages_only_advance(
    s: ReplicaView,
    id: TxnId,
    t0: Timestamp,
    t: Timestamp,
    deps: Set<TxnId>,
    key: Seq<u8>,
    data: Seq<u8>,
    ballot: nat,
    ok: bool,
    kept: bool,
)
    requires
        s.sound(),
    ensures
        s.advances_to(s.preaccept(id, t0, key, ballot, ok)),
        s.advances_to(s.accept(id, t0, t, deps, ballot, ok)),
        s.advances_to(s.commit(id, t0, t, deps, ok)),
        s.advances_to(s.apply(id, data, ok, kept)),
        s.advances_to(s.recover(id, t0, ballot, ok)),
        s.preaccept(id, t0, key, ballot, ok).sound(),
        s.accept(id, t0, t, deps, ballot, ok).sound(),
        s.commit(id, t0, t, deps, ok).sound(),
        s.apply(id, data, ok, kept).sound(),
        s.recover(id, t0, ballot, ok).sound(),
{
    let c = s.commit(id, t0, t, deps, ok);
    assert forall|x: TxnId| #[trigger] c.committed.contains(x) implies c.is_decided(x) by {
        if x != id {
            assert(s.committed.contains(x));
        }
    }
    let p = s.preaccept(id, t0, key, ballot, ok);
    assert forall|x: TxnId| #[trigger] p.committed.contains(x) implies p.is_decided(x) by {
        assert(s.committed.contains(x));
    }
    let a = s.accept(id, t0, t, deps, ballot, ok);
    assert forall|x: TxnId| #[trigger] a.committed.contains(x) implies a.is_decided(x) by {
        assert(s.committed.contains(x));
    }
    let y = s.apply(id, data, ok, kept);
    assert forall|x: TxnId| #[trigger] y.committed.contains(x) implies y.is_decided(x) by {
        assert(s.committed.contains(x));
    }
    let r = s.recover(id, t0, ballot, ok);
    assert forall|x: TxnId| #[trigger] r.committed.contains(x) implies r.is_decided(x) by {
        assert(s.committed.contains(x));
    }
}

/// Every step that a message makes a replica take is recorded durably.
pub proof fn steps_are_recorded(
    s: ReplicaView,
    id: TxnId,
    t0: Timestamp,
    t: Timestamp,
    deps: Set<TxnId>,
    key: Seq<u8>,
    data: Seq<u8>,
    ballot: nat,
    ok: bool,
    kept: bool,
)
    requires
        s.recorded(),
    ensures
        s.preaccept(id, t0, key, ballot, ok).recorded(),
        s.accept(id, t0, t, deps, ballot, ok).recorded(),
        s.commit(id, t0, t, deps, ok).recorded(),
        s.apply(id, data, ok, kept).recorded(),
        s.recover(id, t0, ballot, ok).recorded(),
        s.pruned().recorded(),
{
    lemma_log_grows(s.log, (preaccepted_record(id, s.proposed_time(t0, key)), ok));
    lemma_log_grows(s.log, (accepted_record(id, t, ballot), ok));
    lemma_log_grows(s.log, (committed_record(id, t), ok));
    lemma_log_grows(s.log, (applied_record(id), ok));
    lemma_log_grows(s.log, (promised_record(id, ballot), ok));
    if s.txns.contains_key(id) {
        assert(s.in_log(id));
    }
    lemma_recorded(s, s.preaccept(id, t0, key, ballot, ok), id);
    lemma_recorded(s, s.accept(id, t0, t, deps, ballot, ok), id);
    lemma_recorded(s, s.commit(id, t0, t, deps, ok), id);
    lemma_recorded(s, s.apply(id, data, ok, kept), id);
    lemma_recorded(s, s.recover(id, t0, ballot, ok), id);
}

/// A longer log keeps its records.
proof fn lemma_log_grows(log: Seq<(Seq<u8>, bool)>, added: (Seq<u8>, bool))
    ensures
        log.push(added).contains(added),
        forall|r: (Seq<u8>, bool)| #[trigger] log.contains(r) ==> log.push(added).contains(r),
{
    let after = log.push(added);
    assert(after[log.len() as int] == added);
    assert forall|r: (Seq<u8>, bool)| #[trigger] log.contains(r) implies after.contains(r) by {
        let i = choose|i: int| 0 <= i < log.len() && log[i] == r;
        assert(after[i] == r);
    }
}

/// A reply is given only for what is durable: a replica whose steps are recorded
/// has a durable record of every agreement that it gives, be the message new or
/// repeated, and is silent where the record of a new message is not durable.
pub proof fn replies_are_durable(
    s: ReplicaView,
    id: TxnId,
    t0: Timestamp,
    t: Timestamp,
    deps: Set<TxnId>,
    key: Seq<u8>,
    ballot: nat,
    ok: bool,
)
    requires
        s.recorded(),
    ensures
        s.preaccept_reply(id, t0, key, ballot, ok) matches ReplyView::PreAcceptOK { t: rt, .. }
            ==> s.preaccept(id, t0, key, ballot, ok).log.contains(
            (preaccepted_record(id, rt), true),
        ),
        s.accept_reply(id, t, deps, ballot, ok) is AcceptOK ==> {
            let log = s.accept(id, t0, t, deps, ballot, ok).log;
            if !s.is_decided(id) {
                log.contains((accepted_record(id, t, ballot), true))
            } else if s.txns[id].phase == TxnPhase::Committed {
                log.contains((committed_record(id, s.txns[id].t), true))
            } else {
                log.contains((applied_record(id), true))
            }
        },
        s.recover_reply(id, t0, ballot, ok) is Some ==> s.recover(id, t0, ballot, ok).log.contains(
            (promised_record(id, ballot), true),
        ),
        // A record that did not become durable is never answered.
        !ok && s.preaccept(id, t0, key, ballot, ok) != s ==> s.preaccept_reply(
            id,
            t0,
            key,
            ballot,
            ok,
        ) is Silence,
        !ok && s.accept(id, t0, t, deps, ballot, ok) != s ==> s.accept_reply(
            id,
            t,
            deps,
            ballot,
            ok,
        ) is Silence,
        !ok && s.recover(id, t0, ballot, ok) != s ==> s.recover_reply(id, t0, ballot, ok) is None,
{
    let rt = s.proposed_time(t0, key);
    lemma_log_grows(s.log, (preaccepted_record(id, rt), ok));
    lemma_log_grows(s.log, (accepted_record(id, t, ballot), ok));
    lemma_log_grows(s.log, (promised_record(id, ballot), ok));
    if s.txns.contains_key(id) {
        assert(s.in_log(id));
    }
}

/// A message whose record is not durable leaves the replica as it was, but for the
/// attempt in its log; the same message is then taken up as if for the first time.
pub proof fn failed_steps_can_be_retried(
    s: ReplicaView,
    id: TxnId,
    t0: Timestamp,
    t: Timestamp,
    deps: Set<TxnId>,
    key: Seq<u8>,
    ballot: nat,
    ok: bool,
)
    ensures
        ({
            let failed = s.preaccept(id, t0, key, ballot, false);
            let direct = s.preaccept(id, t0, key, ballot, ok);
            let retried = failed.preaccept(id, t0, key, ballot, ok);
            &&& failed == ReplicaView { log: failed.log, ..s }
            &&& retried == ReplicaView { log: retried.log, ..direct }
            &&& failed.preaccept_reply(id, t0, key, ballot, ok) == s.preaccept_reply(
                id,
                t0,
                key,
                ballot,
                ok,
            )
            &&& failed != s ==> retried.log == failed.log.push(direct.log.last())
        }),
        ({
            let failed = s.accept(id, t0, t, deps, ballot, false);
            let direct = s.accept(id, t0, t, deps, ballot, ok);
            let retried = failed.accept(id, t0, t, deps, ballot, ok);
            &&& failed == ReplicaView { log: failed.log, ..s }
            &&& retried == ReplicaView { log: retried.log, ..direct }
            &&& failed.accept_reply(id, t, deps, ballot, ok) == s.accept_reply(
                id,
                t,
                deps,
                ballot,
                ok,
            )
            &&& failed != s ==> retried.log == failed.log.push(direct.log.last())
        }),
        ({
            let failed = s.recover(id, t0, ballot, false);
            let direct = s.recover(id, t0, ballot, ok);
            let retried = failed.recover(id, t0, ballot, ok);
            &&& failed == ReplicaView { log: failed.log, ..s }
            &&& retried == ReplicaView { log: retried.log, ..direct }
            &&& failed.recover_reply(id, t0, ballot, ok) == s.recover_reply(id, t0, ballot, ok)
            &&& failed != s ==> retried.log == failed.log.push(direct.log.last())
        }),
{
}

/// A repeated PreAccept gets the first reply again and changes nothing.
pub proof fn preaccept_is_idempotent(
    s: ReplicaView,
    id: TxnId,
    t0: Timestamp,
    key: Seq<u8>,
    ballot: nat,
    again: bool,
)
    requires
        !s.preaccept_refused(id, ballot),
        s.txns.contains_key(id) ==> s.txns[id].t0 == t0,
    ensures
        ({
            let once = s.preaccept(id, t0, key, ballot, true);
            &&& once.preaccept(id, t0, key, ballot, again) == once
            &&& once.preaccept_reply(id, t0, key, ballot, again) == s.preaccept_reply(
                id,
                t0,
                key,
                ballot,
                true,
            )
        }),
{
}

/// A repeated Accept gets the first reply again and changes nothing; in particular
/// nothing is logged again.
pub proof fn accept_is_idempotent(
    s: ReplicaView,
    id: TxnId,
    t0: Timestamp,
    t: Timestamp,
    deps: Set<TxnId>,
    ballot: nat,
    again: bool,
)
    ensures
        ({
            let once = s.accept(id, t0, t, deps, ballot, true);
            &&& once.accept(id, t0, t, deps, ballot, again) == once
            &&& once.accept_reply(id, t, deps, ballot, again) == s.accept_reply(
                id,
                t,
                deps,
                ballot,
                true,
            )
        }),
{
}

/// A repeated Recover gets the first reply again and changes nothing.
pub proof fn recover_is_idempotent(
    s: ReplicaView,
    id: TxnId,
    t0: Timestamp,
    ballot: nat,
    again: bool,
)
    ensures
        ({
            let once = s.recover(id, t0, ballot, true);
            &&& once.recover(id, t0, ballot, again) == once
            &&& once.recover_reply(id, t0, ballot, again) == s.recover_reply(id, t0, ballot, true)
        }),
{
}

/// A recovery heard of first does not stand for a pre-accept: the first PreAccept
/// after it is logged and registered like that of an unknown transaction.
pub proof fn recovery_is_no_preaccept(
    s: ReplicaView,
    id: TxnId,
    t0: Timestamp,
    key: Seq<u8>,
    ballot: nat,
    ok: bool,
)
    requires
        !s.txns.contains_key(id),
    ensures
        ({
            let heard = s.recover(id, t0, ballot, true);
            let after = heard.preaccept(id, t0, key, ballot, ok);
            &&& after.log == heard.log.push(
                (preaccepted_record(id, s.proposed_time(t0, key)), ok),
            )
            &&& after.index == s.preaccept(id, t0, key, ballot, ok).index
            &&& heard.preaccept_reply(id, t0, key, ballot, ok) == s.preaccept_reply(
                id,
                t0,
                key,
                ballot,
                ok,
            )
        }),
{
}

/// A repeated Commit changes nothing, whatever it carries: the first durable
/// commit decides.
pub proof fn commit_is_idempotent(
    s: ReplicaView,
    id: TxnId,
    t0: Timestamp,
    t: Timestamp,
    deps: Set<TxnId>,
    t0b: Timestamp,
    tb: Timestamp,
    depsb: Set<TxnId>,
    again: bool,
)
    ensures
        ({
            let once = s.commit(id, t0, t, deps, true);
            once.commit(id, t0b, tb, depsb, again) == once
        }),
{
}

/// A repeated Apply changes nothing once the first has succeeded.
pub proof fn apply_is_idempotent(
    s: ReplicaView,
    id: TxnId,
    data: Seq<u8>,
    datab: Seq<u8>,
    ok: bool,
    kept: bool,
)
    ensures
        ({
            let once = s.apply(id, data, true, true);
            once.apply(id, datab, ok, kept) == once
        }),
{
}

/// A commit that did not become durable decides nothing and wakes nobody, and
/// retrying it later has the effect that the commit would have had.
pub proof fn failed_commit_can_be_retried(
    s: ReplicaView,
    id: TxnId,
    t0: Timestamp,
    t: Timestamp,
    deps: Set<TxnId>,
)
    requires
        !s.is_decided(id),
    ensures
        ({
            let failed = s.commit(id, t0, t, deps, false);
            let direct = s.commit(id, t0, t, deps, true);
            let retried = failed.commit(id, t0, t, deps, true);
            &&& !failed.is_decided(id)
            &&& failed.committed == s.committed
            &&& failed.notified == s.notified
            &&& failed.waiters == s.waiters
            &&& retried.txns == direct.txns
            &&& retried.committed == direct.committed
            &&& retried.notified == direct.notified
            &&& retried.waiters == direct.waiters
        }),
{
    let failed = s.commit(id, t0, t, deps, false);
    let direct = s.commit(id, t0, t, deps, true);
    let retried = failed.commit(id, t0, t, deps, true);
    assert(retried.txns =~= direct.txns);
}

/// A transaction becomes applied only by an Apply whose log record is durable
/// and whose mutation storage has durably written.
pub proof fn applied_means_stored(
    s: ReplicaView,
    id: TxnId,
    data: Seq<u8>,
    ok: bool,
    kept: bool,
)
    requires
        s.can_apply(id),
    ensures
        ({
            let after = s.apply(id, data, ok, kept);
            &&& after.txns[id].phase == TxnPhase::Applied <==> ok && kept
            &&& after.txns[id].phase == TxnPhase::Applied ==> after.log.last() == (
                applied_record(id),
                true,
            ) && after.storage.last() == (id, s.mutation(id, data), true)
            &&& !(ok && kept) ==> after.txns == s.txns && after.index == s.index
        }),
{
}

/// A commit wakes exactly those that wait for it, once.
pub proof fn commit_wakes_waiters_once(
    s: ReplicaView,
    id: TxnId,
    t0: Timestamp,
    t: Timestamp,
    deps: Set<TxnId>,
)
    requires
        !s.is_decided(id),
    ensures
        ({
            let after = s.commit(id, t0, t, deps, true);
            &&& after.notified == s.waiting_for(id)
            &&& after.waiting_for(id) == Seq::<TxnId>::empty()
            &&& forall|other: TxnId|
                other != id ==> #[trigger] after.waiting_for(other) == s.waiting_for(other)
        }),
{
}

/// Recovery raises the promise and nothing else: in particular the accepted
/// ballot is the one that a recovery coordinator chooses by.
pub proof fn recovery_keeps_accepted_value(
    s: ReplicaView,
    id: TxnId,
    t0: Timestamp,
    ballot: nat,
    ok: bool,
)
    ensures
        ({
            let after = s.recover(id, t0, ballot, ok).known(id, t0);
            let before = s.known(id, t0);
            &&& after.accepted == before.accepted
            &&& after.t == before.t
            &&& after.deps == before.deps
            &&& after.phase == before.phase
            &&& after.promised == if before.promised > ballot || !ok {
                before.promised
            } else {
                ballot
            }
        }),
{
}

/// After a recovery at a ballot, an Accept at a lower one is refused.
pub proof fn recovery_preempts_lower_ballots(
    s: ReplicaView,
    id: TxnId,
    t0: Timestamp,
    t: Timestamp,
    deps: Set<TxnId>,
    ballot: nat,
    lower: nat,
    ok: bool,
)
    requires
        lower < ballot,
        !s.outbid(id, ballot),
    ensures
        ({
            let after = s.recover(id, t0, ballot, true);
            &&& after.accept(id, t0, t, deps, lower, ok) == after
            &&& after.accept_reply(id, t, deps, lower, ok) == (ReplyView::Nack {
                txn_id: id,
                promised: ballot,
            })
        }),
{
}

/// The proposed execution timestamp is not before `t0`, and is past every
/// proposal registered on the key, unless no later timestamp exists.
pub proof fn conflicts_push_timestamps(s: ReplicaView, t0: Timestamp, key: Seq<u8>, i: int)
    requires
        0 <= i < s.index.writes.len(),
        s.index.writes[i].0 == key,
        s.index.latest(key) matches Some(ct) ==> !ct.exhausted(),
    ensures
        !s.proposed_time(t0, key).precedes(t0),
        s.index.writes[i].1.t0.precedes(s.proposed_time(t0, key)),
{
    let on = |j: int| crate::accord::conflict_index::write_on(s.index.writes, key, j);
    let some = crate::accord::conflict_index::latest_exists(s.index.writes.len(), on, |j: int| s.index.writes[j].1.t0);
    assert(s.index.latest_on(key, some));
    let m = s.index.latest(key);
    assert(s.index.latest_on(key, m));
    assert(on(i));
    let w = s.index.writes[i].1.t0;
    let ct = m->0;
    assert(!ct.precedes(w));
    crate::accord::types::timestamp_order_is_total(w, ct, t0);
    crate::accord::types::timestamp_order_is_total(ct, w, t0);
    crate::accord::types::timestamp_order_is_total(w, ct, ct.spec_past(s.node_id));
    crate::accord::types::timestamp_order_is_total(t0, ct, ct.spec_past(s.node_id));
}

/// Pruning forgets applied transactions and nothing else, and pruning again
/// finds nothing more to forget.
pub proof fn pruning_keeps_live_transactions(s: ReplicaView, id: TxnId)
    requires
        s.sound(),
    ensures
        s.pruned().sound(),
        s.pruned().txns.contains_key(id) <==> s.txns.contains_key(id) && s.txns[id].phase
            != TxnPhase::Applied,
        s.pruned().txns.contains_key(id) ==> s.pruned().txns[id] == s.txns[id],
        s.pruned().pruned() == s.pruned(),
{
    let p = s.pruned();
    assert forall|x: TxnId| #[trigger] p.committed.contains(x) implies p.is_decided(x) by {
        assert(s.committed.contains(x));
    }
    assert(p.pruned().txns =~= p.txns);
    assert(p.pruned().committed =~= p.committed);
    assert(p.pruned().waiters =~= p.waiters);
    assert(p.index.collected() =~= p.index) by {
        let live = |e: (Seq<u8>, InFlightWrite)| e.1.status != TxnStatus::Applied;
        assert forall|i: int| 0 <= i < p.index.writes.len() implies live(
            #[trigger] p.index.writes[i],
        ) by {
            s.index.writes.lemma_filter_pred(live, i);
        }
        crate::collections::lemma_filter_passes(p.index.writes, live);
    }
}

/// Once a transaction on a key has been applied, its row exists at every timestamp
/// from its commit on.
pub proof fn applied_rows_exist(
    s: ReplicaView,
    id: TxnId,
    data: Seq<u8>,
    key: Seq<u8>,
    i: int,
    t: Timestamp,
)
    requires
        s.can_apply(id),
        crate::accord::conflict_index::write_on(s.index.writes, key, i),
        s.index.writes[i].1.txn_id == id,
        !t.precedes(s.txns[id].t),
    ensures
        !s.apply(id, data, true, true).absent_at(key, t),
{
    let after = s.apply(id, data, true, true);
    let on = crate::accord::conflict_index::on_key(key);
    let kept = after.index.writes.filter(on);
    after.index.writes.lemma_filter_contains(on, i);
    assert(kept.contains(after.index.writes[i]));
    let j = choose|j: int| 0 <= j < kept.len() && kept[j] == after.index.writes[i];
    assert(after.index.writes_on(key)[j] == after.index.writes[i].1);
    assert(after.wrote_by(after.index.writes_on(key)[j], t));
}

/// Of two transactions on one key that a replica has pre-accepted, the second sees
/// the first: it depends on it where it was proposed later, and is ordered past it
/// where it was not.
pub proof fn conflicting_transactions_see_each_other(
    s: ReplicaView,
    first: TxnId,
    first_t0: Timestamp,
    second: TxnId,
    second_t0: Timestamp,
    key: Seq<u8>,
    ballot: nat,
)
    requires
        first != second,
        !s.txns.contains_key(first),
        !s.txns.contains_key(second),
        s.index.writes.len() < s.index.capacity,
        s.preaccept(first, first_t0, key, ballot, true).index.latest(key) matches Some(ct)
            ==> !ct.exhausted(),
    ensures
        ({
            let s1 = s.preaccept(first, first_t0, key, ballot, true);
            let reply = s1.preaccept_reply(second, second_t0, key, ballot, true);
            reply matches ReplyView::PreAcceptOK { txn_id, t, deps } && txn_id == second && (
            deps.contains(first) || first_t0.precedes(t)) && (first_t0.precedes(second_t0)
                ==> deps.contains(first))
        }),
{
    let s1 = s.preaccept(first, first_t0, key, ballot, true);
    let n = s.index.writes.len() as int;
    assert(crate::accord::conflict_index::write_on(s1.index.writes, key, n));
    assert(s1.index.writes[n].1.txn_id == first && s1.index.writes[n].1.t0 == first_t0);
    conflicts_push_timestamps(s1, second_t0, key, n);
}

/// What becomes of a transaction does not depend on the order in which a replica
/// learns the outcomes of two: committing and applying them either way leaves the
/// same states.
pub proof fn outcomes_do_not_depend_on_order(
    s: ReplicaView,
    a: TxnId,
    a_t0: Timestamp,
    a_t: Timestamp,
    a_deps: Set<TxnId>,
    a_data: Seq<u8>,
    b: TxnId,
    b_t0: Timestamp,
    b_t: Timestamp,
    b_deps: Set<TxnId>,
    b_data: Seq<u8>,
)
    requires
        a != b,
    ensures
        ({
            let ab = s.commit(a, a_t0, a_t, a_deps, true).apply(a, a_data, true, true).commit(
                b,
                b_t0,
                b_t,
                b_deps,
                true,
            ).apply(b, b_data, true, true);
            let ba = s.commit(b, b_t0, b_t, b_deps, true).apply(b, b_data, true, true).commit(
                a,
                a_t0,
                a_t,
                a_deps,
                true,
            ).apply(a, a_data, true, true);
            &&& ab.txns == ba.txns
            &&& ab.committed == ba.committed
            &&& ab.waiters == ba.waiters
            &&& ab.txns[a].phase == TxnPhase::Applied
            &&& ab.txns[b].phase == TxnPhase::Applied
        }),
{
    let sa = s.commit(a, a_t0, a_t, a_deps, true).apply(a, a_data, true, true);
    let ab = sa.commit(b, b_t0, b_t, b_deps, true).apply(b, b_data, true, true);
    let sb = s.commit(b, b_t0, b_t, b_deps, true).apply(b, b_data, true, true);
    let ba = sb.commit(a, a_t0, a_t, a_deps, true).apply(a, a_data, true, true);
    assert(sa.known(b, b_t0) == s.known(b, b_t0));
    assert(sb.known(a, a_t0) == s.known(a, a_t0));
    assert(ab.txns =~= ba.txns);
    assert(ab.committed =~= ba.committed);
    assert(ab.waiters =~= ba.waiters);
}

} // verus!
