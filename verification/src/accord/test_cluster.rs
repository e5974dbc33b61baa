//! A deterministic cluster of simulated replicas with explicit message delivery.
//!
//! Messages are delivered only when asked for, in the order asked for, so that
//! reordering, loss and races can be reproduced exactly.

use vstd::prelude::*;

use crate::accord::txn_state::{TxnState, TxnStateView};
use crate::accord::types::{
    AcceptedBallot, BallotNumber, PromisedBallot, Timestamp, TxnId, TxnPhase, TxnSet,
};
use crate::collections::VecMap;
use crate::text::copy_bytes;

verus! {

/// A message between replicas.
#[derive(Debug)]
pub struct TestMessage {
    /// Source node.
    pub src: u64,
    /// Destination node.
    pub dst: u64,
    /// Protocol payload.
    pub payload: TestMessagePayload,
}

/// Protocol message payloads.
#[derive(Debug)]
pub enum TestMessagePayload {
    PreAccept { txn_id: TxnId, t0: Timestamp, key: Vec<u8> },
    PreAcceptOK { txn_id: TxnId, t: Timestamp, deps: Vec<TxnId> },
    Accept { ballot: BallotNumber, txn_id: TxnId, t0: Timestamp, t: Timestamp, deps: Vec<TxnId> },
    AcceptOK { txn_id: TxnId, ballot: BallotNumber, deps: Vec<TxnId> },
    Commit { txn_id: TxnId, t0: Timestamp, t: Timestamp, deps: Vec<TxnId> },
    Recover { ballot: BallotNumber, txn_id: TxnId, t0: Timestamp },
    RecoverOK { txn_id: TxnId, state: TxnState, superseding: Vec<TxnId>, wait: Vec<TxnId> },
    Nack { txn_id: TxnId, max_ballot_seen: PromisedBallot },
}

/// An abstract message.
#[verifier::ext_equal]
pub struct MessageView {
    pub src: u64,
    pub dst: u64,
    pub payload: PayloadView,
}

/// An abstract payload.
#[verifier::ext_equal]
pub enum PayloadView {
    PreAccept { txn_id: TxnId, t0: Timestamp, key: Seq<u8> },
    PreAcceptOK { txn_id: TxnId, t: Timestamp, deps: Seq<TxnId> },
    Accept { ballot: nat, txn_id: TxnId, t0: Timestamp, t: Timestamp, deps: Seq<TxnId> },
    AcceptOK { txn_id: TxnId, ballot: nat, deps: Seq<TxnId> },
    Commit { txn_id: TxnId, t0: Timestamp, t: Timestamp, deps: Seq<TxnId> },
    Recover { ballot: nat, txn_id: TxnId, t0: Timestamp },
    RecoverOK { txn_id: TxnId, state: TxnStateView, superseding: Seq<TxnId>, wait: Seq<TxnId> },
    Nack { txn_id: TxnId, promised: nat },
}

impl View for TestMessagePayload {
    type V = PayloadView;

    open spec fn view(&self) -> PayloadView {
        match *self {
            TestMessagePayload::PreAccept { txn_id, t0, key } => PayloadView::PreAccept {
                txn_id,
                t0,
                key: key@,
            },
            TestMessagePayload::PreAcceptOK { txn_id, t, deps } => PayloadView::PreAcceptOK {
                txn_id,
                t,
                deps: deps@,
            },
            TestMessagePayload::Accept { ballot, txn_id, t0, t, deps } => PayloadView::Accept {
                ballot: ballot.0 as nat,
                txn_id,
                t0,
                t,
                deps: deps@,
            },
            TestMessagePayload::AcceptOK { txn_id, ballot, deps } => PayloadView::AcceptOK {
                txn_id,
                ballot: ballot.0 as nat,
                deps: deps@,
            },
            TestMessagePayload::Commit { txn_id, t0, t, deps } => PayloadView::Commit {
                txn_id,
                t0,
                t,
                deps: deps@,
            },
            TestMessagePayload::Recover { ballot, txn_id, t0 } => PayloadView::Recover {
                ballot: ballot.0 as nat,
                txn_id,
                t0,
            },
            TestMessagePayload::RecoverOK { txn_id, state, superseding, wait } => PayloadView::RecoverOK {
                txn_id,
                state: state@,
                superseding: superseding@,
                wait: wait@,
            },
            TestMessagePayload::Nack { txn_id, max_ballot_seen } => PayloadView::Nack {
                txn_id,
                promised: max_ballot_seen.0.0 as nat,
            },
        }
    }
}

impl View for TestMessage {
    type V = MessageView;

    open spec fn view(&self) -> MessageView {
        MessageView { src: self.src, dst: self.dst, payload: self.payload@ }
    }
}

/// A copy of a list of transactions.
fn copy_ids(ids: &Vec<TxnId>) -> (v: Vec<TxnId>)
    ensures
        v@ == ids@,
{
    let mut v: Vec<TxnId> = Vec::new();
    let mut i: usize = 0;
    while i < ids.len()
        invariant
            i <= ids.len(),
            v@ == ids@.take(i as int),
        decreases ids.len() - i,
    {
        v.push(ids[i]);
        assert(v@ =~= ids@.take(i + 1));
        i += 1;
    }
    assert(v@ =~= ids@);
    v
}

impl TestMessage {
    /// A carried state is well formed.
    pub open spec fn wf(&self) -> bool {
        self.payload matches TestMessagePayload::RecoverOK { state, .. } ==> state.wf()
    }

    /// A copy of the message.
    pub fn copied(&self) -> (m: TestMessage)
        requires
            self.wf(),
        ensures
            m.wf(),
            m@ == self@,
    {
        let payload = match &self.payload {
            TestMessagePayload::PreAccept { txn_id, t0, key } => TestMessagePayload::PreAccept {
                txn_id: *txn_id,
                t0: *t0,
                key: copy_bytes(key.as_slice()),
            },
            TestMessagePayload::PreAcceptOK { txn_id, t, deps } => TestMessagePayload::PreAcceptOK {
                txn_id: *txn_id,
                t: *t,
                deps: copy_ids(deps),
            },
            TestMessagePayload::Accept { ballot, txn_id, t0, t, deps } => TestMessagePayload::Accept {
                ballot: *ballot,
                txn_id: *txn_id,
                t0: *t0,
                t: *t,
                deps: copy_ids(deps),
            },
            TestMessagePayload::AcceptOK { txn_id, ballot, deps } => TestMessagePayload::AcceptOK {
                txn_id: *txn_id,
                ballot: *ballot,
                deps: copy_ids(deps),
            },
            TestMessagePayload::Commit { txn_id, t0, t, deps } => TestMessagePayload::Commit {
                txn_id: *txn_id,
                t0: *t0,
                t: *t,
                deps: copy_ids(deps),
            },
            TestMessagePayload::Recover { ballot, txn_id, t0 } => TestMessagePayload::Recover {
                ballot: *ballot,
                txn_id: *txn_id,
                t0: *t0,
            },
            TestMessagePayload::RecoverOK { txn_id, state, superseding, wait } => TestMessagePayload::RecoverOK {
                txn_id: *txn_id,
                state: state.copied(),
                superseding: copy_ids(superseding),
                wait: copy_ids(wait),
            },
            TestMessagePayload::Nack { txn_id, max_ballot_seen } => TestMessagePayload::Nack {
                txn_id: *txn_id,
                max_ballot_seen: *max_ballot_seen,
            },
        };
        TestMessage { src: self.src, dst: self.dst, payload }
    }
}

/// A simulated replica.
pub struct TestReplica {
    /// This replica's node id.
    pub node_id: u64,
    /// What is known of each transaction.
    pub txn_states: VecMap<TxnId, TxnState>,
    /// Transactions by key, in the order in which they were heard of.
    pub conflicts: VecMap<Vec<u8>, Vec<(Timestamp, TxnId)>>,
}

/// An abstract simulated replica.
#[verifier::ext_equal]
pub struct SimView {
    pub node_id: u64,
    pub txns: Map<TxnId, TxnStateView>,
    pub conflicts: Map<Seq<u8>, Seq<(Timestamp, TxnId)>>,
}

/// The latest timestamp of a list; `None` where the list is empty.
pub open spec fn latest_listed(s: Seq<(Timestamp, TxnId)>) -> Option<Timestamp>
    decreases s.len(),
{
    if s.len() == 0 {
        None
    } else {
        match latest_listed(s.drop_last()) {
            Some(t) => if t.precedes(s.last().0) {
                Some(s.last().0)
            } else {
                Some(t)
            },
            None => Some(s.last().0),
        }
    }
}

/// Selects the transactions other than `id`.
pub open spec fn other_than(id: TxnId) -> spec_fn((Timestamp, TxnId)) -> bool {
    |c: (Timestamp, TxnId)| c.1 != id
}

/// The transactions of a list of conflicts.
pub open spec fn listed_ids(s: Seq<(Timestamp, TxnId)>) -> Seq<TxnId> {
    s.map_values(|c: (Timestamp, TxnId)| c.1)
}

impl SimView {
    /// The transactions on `key` other than `id`, oldest first.
    pub open spec fn rivals(self, key: Seq<u8>, id: TxnId) -> Seq<(Timestamp, TxnId)> {
        self.on_key(key).filter(other_than(id))
    }

    /// The transactions on `key`.
    pub open spec fn on_key(self, key: Seq<u8>) -> Seq<(Timestamp, TxnId)> {
        if self.conflicts.contains_key(key) {
            self.conflicts[key]
        } else {
            Seq::empty()
        }
    }

    /// Execution timestamp proposed: past the latest rival that is after `t0`.
    pub open spec fn proposed_time(self, key: Seq<u8>, id: TxnId, t0: Timestamp) -> Timestamp {
        match latest_listed(self.rivals(key, id)) {
            Some(ct) => if t0.precedes(ct) {
                ct.spec_past(self.node_id)
            } else {
                t0
            },
            None => t0,
        }
    }

    /// The rivals as dependencies.
    pub open spec fn rival_ids(self, key: Seq<u8>, id: TxnId) -> Seq<TxnId> {
        listed_ids(self.rivals(key, id))
    }

    /// What is known of a transaction, or its initial state.
    pub open spec fn known(self, id: TxnId, t0: Timestamp) -> TxnStateView {
        if self.txns.contains_key(id) {
            self.txns[id]
        } else {
            TxnStateView::fresh(id, t0)
        }
    }

    /// State after a message.
    pub open spec fn after(self, m: MessageView) -> SimView {
        match m.payload {
            PayloadView::PreAccept { txn_id, t0, key } => SimView {
                txns: self.txns.insert(
                    txn_id,
                    TxnStateView {
                        t: self.proposed_time(key, txn_id, t0),
                        deps: self.rival_ids(key, txn_id).to_set(),
                        ..TxnStateView::fresh(txn_id, t0)
                    },
                ),
                conflicts: self.conflicts.insert(key, self.on_key(key).push((t0, txn_id))),
                ..self
            },
            PayloadView::Accept { ballot, txn_id, t0, t, deps } => if ballot < self.known(
                txn_id,
                t0,
            ).promised {
                self
            } else {
                SimView {
                    txns: self.txns.insert(
                        txn_id,
                        self.known(txn_id, t0).accept_at(ballot, t, deps.to_set()),
                    ),
                    ..self
                }
            },
            PayloadView::Commit { txn_id, t0, t, deps } => SimView {
                txns: self.txns.insert(
                    txn_id,
                    self.known(txn_id, t0).committed(t, deps.to_set()),
                ),
                ..self
            },
            PayloadView::Recover { ballot, txn_id, t0 } => SimView {
                txns: self.txns.insert(txn_id, self.recovered(ballot, txn_id, t0)),
                ..self
            },
            _ => self,
        }
    }

    /// A transaction's state after recovery: a higher ballot is promised.
    pub open spec fn recovered(self, ballot: nat, id: TxnId, t0: Timestamp) -> TxnStateView {
        if ballot > self.known(id, t0).promised {
            self.known(id, t0).joined(ballot)
        } else {
            self.known(id, t0)
        }
    }

    /// The reply to a message, if it has one.
    pub open spec fn replies(self, m: MessageView) -> Seq<MessageView> {
        match m.payload {
            PayloadView::PreAccept { txn_id, t0, key } => seq![
                MessageView {
                    src: self.node_id,
                    dst: m.src,
                    payload: PayloadView::PreAcceptOK {
                        txn_id,
                        t: self.proposed_time(key, txn_id, t0),
                        deps: self.rival_ids(key, txn_id),
                    },
                },
            ],
            PayloadView::Accept { ballot, txn_id, t0, t, deps } => seq![
                MessageView {
                    src: self.node_id,
                    dst: m.src,
                    payload: if ballot < self.known(txn_id, t0).promised {
                        PayloadView::Nack { txn_id, promised: self.known(txn_id, t0).promised }
                    } else {
                        PayloadView::AcceptOK { txn_id, ballot, deps }
                    },
                },
            ],
            PayloadView::Recover { ballot, txn_id, t0 } => seq![
                MessageView {
                    src: self.node_id,
                    dst: m.src,
                    payload: PayloadView::RecoverOK {
                        txn_id,
                        state: self.recovered(ballot, txn_id, t0),
                        superseding: Seq::empty(),
                        wait: Seq::empty(),
                    },
                },
            ],
            _ => Seq::empty(),
        }
    }
}

/// The views of the states.
pub open spec fn sim_states(m: Map<TxnId, TxnState>) -> Map<TxnId, TxnStateView> {
    m.map_values(|s: TxnState| s@)
}

/// The views of the conflict lists.
pub open spec fn sim_conflicts(m: Map<Seq<u8>, Vec<(Timestamp, TxnId)>>) -> Map<
    Seq<u8>,
    Seq<(Timestamp, TxnId)>,
> {
    m.map_values(|v: Vec<(Timestamp, TxnId)>| v@)
}

/// The views of messages.
pub open spec fn messages_view(m: Seq<TestMessage>) -> Seq<MessageView> {
    m.map_values(|x: TestMessage| x@)
}

impl View for TestReplica {
    type V = SimView;

    open spec fn view(&self) -> SimView {
        SimView {
            node_id: self.node_id,
            txns: sim_states(self.txn_states@),
            conflicts: sim_conflicts(self.conflicts@),
        }
    }
}

impl TestReplica {
    /// Tables and states are well formed.
    pub open spec fn wf(&self) -> bool {
        &&& self.txn_states.wf()
        &&& self.conflicts.wf()
        &&& forall|id: TxnId| #[trigger]
            self.txn_states@.contains_key(id) ==> self.txn_states@[id].wf()
    }

    /// A replica that knows nothing.
    pub fn new(node_id: u64) -> (r: TestReplica)
        ensures
            r.wf(),
            r@ == (SimView { node_id, txns: Map::empty(), conflicts: Map::empty() }),
    {
        let r = TestReplica { node_id, txn_states: VecMap::new(), conflicts: VecMap::new() };
        assert(r@.txns =~= Map::empty());
        assert(r@.conflicts =~= Map::empty());
        r
    }

    fn store_state(&mut self, id: TxnId, state: TxnState)
        requires
            old(self).wf(),
            state.wf(),
        ensures
            final(self).wf(),
            final(self)@ == (SimView { txns: old(self)@.txns.insert(id, state@), ..old(self)@ }),
    {
        let ghost before = self.txn_states@;
        self.txn_states.insert(id, state);
        assert(sim_states(self.txn_states@) =~= sim_states(before).insert(id, state@));
    }

    /// A copy of what is known of a transaction, or its initial state.
    fn state_or_fresh(&self, id: TxnId, t0: Timestamp) -> (s: TxnState)
        requires
            self.wf(),
        ensures
            s.wf(),
            s@ == self@.known(id, t0),
    {
        match self.txn_states.get(&id) {
            Some(s) => s.copied(),
            None => TxnState::new(id, t0),
        }
    }

    /// Handle a message addressed to this replica; returns its reply, if any.
    pub fn handle(&mut self, msg: &TestMessage) -> (out: Vec<TestMessage>)
        requires
            old(self).wf(),
            msg.dst == old(self).node_id,
        ensures
            final(self).wf(),
            final(self)@ == old(self)@.after(msg@),
            messages_view(out@) == old(self)@.replies(msg@),
            forall|i: int| 0 <= i < out@.len() ==> (#[trigger] out@[i]).wf(),
    {
        match &msg.payload {
            TestMessagePayload::PreAccept { txn_id, t0, key } => {
                self.handle_preaccept(msg.src, *txn_id, *t0, key)
            },
            TestMessagePayload::Accept { ballot, txn_id, t0, t, deps } => {
                self.handle_accept(msg.src, *ballot, *txn_id, *t0, *t, deps)
            },
            TestMessagePayload::Recover { ballot, txn_id, t0 } => {
                self.handle_recover(msg.src, *ballot, *txn_id, *t0)
            },
            TestMessagePayload::Commit { txn_id, t0, t, deps } => {
                self.handle_commit(*txn_id, *t0, *t, deps);
                let out: Vec<TestMessage> = Vec::new();
                assert(messages_view(out@) =~= Seq::empty());
                out
            },
            _ => {
                let out: Vec<TestMessage> = Vec::new();
                assert(messages_view(out@) =~= Seq::empty());
                out
            },
        }
    }

    fn handle_preaccept(&mut self, from: u64, txn_id: TxnId, t0: Timestamp, key: &Vec<u8>) -> (out: Vec<
        TestMessage,
    >)
        requires
            old(self).wf(),
        ensures
            final(self).wf(),
            ({
                let m = MessageView {
                    src: from,
                    dst: old(self).node_id,
                    payload: PayloadView::PreAccept { txn_id, t0, key: key@ },
                };
                &&& final(self)@ == old(self)@.after(m)
                &&& messages_view(out@) == old(self)@.replies(m)
            }),
            forall|i: int| 0 <= i < out@.len() ==> (#[trigger] out@[i]).wf(),
    {
        let ghost s = self@;
        let ghost listed = s.on_key(key@);
        let ghost rival = other_than(txn_id);
        let mut list: Vec<(Timestamp, TxnId)> = Vec::new();
        match self.conflicts.get(key.as_slice()) {
            Some(found) => {
                let mut i: usize = 0;
                while i < found.len()
                    invariant
                        i <= found.len(),
                        list@ == found@.take(i as int),
                    decreases found.len() - i,
                {
                    list.push(found[i]);
                    assert(list@ =~= found@.take(i + 1));
                    i += 1;
                }
                assert(list@ =~= found@);
            },
            None => {
                assert(list@ =~= Seq::empty());
            },
        }
        assert(list@ == listed);
        let mut deps: Vec<TxnId> = Vec::new();
        let mut latest: Option<Timestamp> = None;
        let mut i: usize = 0;
        assert(listed.take(0).filter(rival) =~= Seq::empty()) by {
            reveal(Seq::filter);
        }
        assert(deps@ =~= listed_ids(listed.take(0).filter(rival)));
        while i < list.len()
            invariant
                i <= list.len(),
                list@ == listed,
                rival == other_than(txn_id),
                deps@ == listed_ids(listed.take(i as int).filter(rival)),
                latest == latest_listed(listed.take(i as int).filter(rival)),
            decreases list.len() - i,
        {
            let c = list[i];
            proof {
                crate::collections::lemma_filter_step(listed, i as int, rival);
            }
            let ghost prev = listed.take(i as int).filter(rival);
            if c.1 != txn_id {
                assert(rival(c));
                let ghost next = prev.push(c);
                assert(next.drop_last() =~= prev);
                deps.push(c.1);
                assert(deps@ =~= listed_ids(next));
                latest = match latest {
                    Some(t) => if t.is_before(&c.0) {
                        Some(c.0)
                    } else {
                        Some(t)
                    },
                    None => Some(c.0),
                };
            } else {
                assert(!rival(c));
            }
            i += 1;
        }
        assert(listed.take(listed.len() as int) =~= listed);
        let t = match latest {
            Some(ct) => if t0.is_before(&ct) {
                ct.bump_past(&ct, self.node_id)
            } else {
                t0
            },
            None => t0,
        };
        let mut state = TxnState::new(txn_id, t0);
        state.t = t;
        state.deps = TxnSet::from_slice(deps.as_slice());
        let ghost sv = state@;
        self.store_state(txn_id, state);
        list.push((t0, txn_id));
        let ghost before = self.conflicts@;
        self.conflicts.insert(copy_bytes(key.as_slice()), list);
        proof {
            let m = MessageView {
                src: from,
                dst: old(self).node_id,
                payload: PayloadView::PreAccept { txn_id, t0, key: key@ },
            };
            assert(sim_conflicts(self.conflicts@) =~= sim_conflicts(before).insert(
                key@,
                listed.push((t0, txn_id)),
            ));
            assert(sv =~= s.after(m).txns[txn_id]);
            assert(self@ =~= s.after(m));
        }
        let reply = TestMessage {
            src: self.node_id,
            dst: from,
            payload: TestMessagePayload::PreAcceptOK { txn_id, t, deps },
        };
        single(reply)
    }

    fn handle_accept(
        &mut self,
        from: u64,
        ballot: BallotNumber,
        txn_id: TxnId,
        t0: Timestamp,
        t: Timestamp,
        deps: &Vec<TxnId>,
    ) -> (out: Vec<TestMessage>)
        requires
            old(self).wf(),
        ensures
            final(self).wf(),
            ({
                let m = MessageView {
                    src: from,
                    dst: old(self).node_id,
                    payload: PayloadView::Accept {
                        ballot: ballot.0 as nat,
                        txn_id,
                        t0,
                        t,
                        deps: deps@,
                    },
                };
                &&& final(self)@ == old(self)@.after(m)
                &&& messages_view(out@) == old(self)@.replies(m)
            }),
            forall|i: int| 0 <= i < out@.len() ==> (#[trigger] out@[i]).wf(),
    {
        let mut state = self.state_or_fresh(txn_id, t0);
        if ballot.0 < state.max_ballot_seen.0.0 {
            return single(
                TestMessage {
                    src: self.node_id,
                    dst: from,
                    payload: TestMessagePayload::Nack {
                        txn_id,
                        max_ballot_seen: state.max_ballot_seen,
                    },
                },
            );
        }
        state.accept(AcceptedBallot(ballot), t, TxnSet::from_slice(deps.as_slice()));
        self.store_state(txn_id, state);
        single(
            TestMessage {
                src: self.node_id,
                dst: from,
                payload: TestMessagePayload::AcceptOK { txn_id, ballot, deps: copy_ids(deps) },
            },
        )
    }

    fn handle_recover(&mut self, from: u64, ballot: BallotNumber, txn_id: TxnId, t0: Timestamp) -> (out: Vec<
        TestMessage,
    >)
        requires
            old(self).wf(),
        ensures
            final(self).wf(),
            ({
                let m = MessageView {
                    src: from,
                    dst: old(self).node_id,
                    payload: PayloadView::Recover { ballot: ballot.0 as nat, txn_id, t0 },
                };
                &&& final(self)@ == old(self)@.after(m)
                &&& messages_view(out@) == old(self)@.replies(m)
            }),
            forall|i: int| 0 <= i < out@.len() ==> (#[trigger] out@[i]).wf(),
    {
        let mut state = self.state_or_fresh(txn_id, t0);
        if ballot.0 > state.max_ballot_seen.0.0 {
            state.join_ballot(PromisedBallot(ballot));
        }
        let reply = TestMessage {
            src: self.node_id,
            dst: from,
            payload: TestMessagePayload::RecoverOK {
                txn_id,
                state: state.copied(),
                superseding: Vec::new(),
                wait: Vec::new(),
            },
        };
        self.store_state(txn_id, state);
        proof {
            let m = MessageView {
                src: from,
                dst: old(self).node_id,
                payload: PayloadView::Recover { ballot: ballot.0 as nat, txn_id, t0 },
            };
            assert(reply@.payload->superseding =~= Seq::empty());
            assert(reply@.payload->wait =~= Seq::empty());
            assert(reply@ =~= old(self)@.replies(m)[0]);
        }
        single(reply)
    }

    fn handle_commit(&mut self, txn_id: TxnId, t0: Timestamp, t: Timestamp, deps: &Vec<TxnId>)
        requires
            old(self).wf(),
        ensures
            final(self).wf(),
            final(self)@ == (SimView {
                txns: old(self)@.txns.insert(
                    txn_id,
                    old(self)@.known(txn_id, t0).committed(t, deps@.to_set()),
                ),
                ..old(self)@
            }),
    {
        let mut state = self.state_or_fresh(txn_id, t0);
        state.commit(t, TxnSet::from_slice(deps.as_slice()));
        self.store_state(txn_id, state);
    }
}

/// A list of one message.
fn single(m: TestMessage) -> (v: Vec<TestMessage>)
    ensures
        v@ == seq![m],
        messages_view(v@) == seq![m@],
{
    let mut v: Vec<TestMessage> = Vec::new();
    v.push(m);
    assert(v@ =~= seq![m]);
    assert(messages_view(v@) =~= seq![m@]);
    v
}

/// Most deliveries that one drain makes.
pub const MAX_DRAIN_DELIVERIES: usize = 10_000;

/// A cluster of simulated replicas and the messages in flight.
pub struct TestCluster {
    /// The replicas; node ids count from one.
    pub replicas: Vec<TestReplica>,
    pending: Vec<TestMessage>,
}

/// An abstract cluster.
#[verifier::ext_equal]
pub struct ClusterView {
    pub replicas: Seq<SimView>,
    pub pending: Seq<MessageView>,
}

/// A message that a replica answers.
pub open spec fn is_request(m: MessageView) -> bool {
    m.payload is PreAccept || m.payload is Accept || m.payload is Recover
}

/// Deliveries that a message gives rise to: its own, and that of its answer.
pub open spec fn deliveries(m: MessageView) -> nat {
    if is_request(m) {
        2
    } else {
        1
    }
}

/// Deliveries that messages in flight give rise to.
pub open spec fn total_deliveries(s: Seq<MessageView>) -> nat
    decreases s.len(),
{
    if s.len() == 0 {
        0
    } else {
        deliveries(s[0]) + total_deliveries(s.drop_first())
    }
}

/// Appending messages adds their deliveries.
pub proof fn lemma_total_deliveries(a: Seq<MessageView>, b: Seq<MessageView>)
    ensures
        total_deliveries(a + b) == total_deliveries(a) + total_deliveries(b),
    decreases a.len(),
{
    if a.len() == 0 {
        assert(a + b =~= b);
    } else {
        assert((a + b).drop_first() =~= a.drop_first() + b);
        lemma_total_deliveries(a.drop_first(), b);
    }
}

impl ClusterView {
    /// A replica has the node id.
    pub open spec fn has(self, node: u64) -> bool {
        exists|i: int| 0 <= i < self.replicas.len() && (#[trigger] self.replicas[i]).node_id == node
    }

    /// The position of the replica with the node id.
    pub open spec fn at(self, node: u64) -> int {
        choose|i: int| 0 <= i < self.replicas.len() && (#[trigger] self.replicas[i]).node_id == node
    }

    /// Node ids are pairwise distinct.
    pub open spec fn distinct_nodes(self) -> bool {
        forall|i: int, j: int|
            #![trigger self.replicas[i], self.replicas[j]]
            0 <= i < j < self.replicas.len() ==> self.replicas[i].node_id
                != self.replicas[j].node_id
    }

    /// The replies to a message.
    pub open spec fn replies(self, m: MessageView) -> Seq<MessageView> {
        self.replicas[self.at(m.dst)].replies(m)
    }

    /// After delivering a message that is no longer in flight.
    pub open spec fn delivered(self, m: MessageView) -> ClusterView {
        ClusterView {
            replicas: self.replicas.update(
                self.at(m.dst),
                self.replicas[self.at(m.dst)].after(m),
            ),
            pending: self.pending + self.replies(m),
        }
    }

    /// After delivering the `i`th message in flight.
    pub open spec fn delivered_at(self, i: int) -> ClusterView {
        ClusterView { pending: self.pending.remove(i), ..self }.delivered(self.pending[i])
    }

    /// Every message in flight can be delivered, and so can its answer.
    pub open spec fn routable(self) -> bool {
        forall|i: int|
            0 <= i < self.pending.len() ==> self.has((#[trigger] self.pending[i]).dst) && (
            is_request(self.pending[i]) ==> self.has(self.pending[i].src))
    }

    /// After delivering everything, answers included, oldest first.
    pub open spec fn drained(self) -> ClusterView
        decreases total_deliveries(self.pending),
    {
        if self.pending.len() == 0 {
            self
        } else {
            proof {
                lemma_delivery_progress(self);
            }
            self.delivered_at(0).drained()
        }
    }
}

/// Delivering the oldest message uses up one delivery.
pub proof fn lemma_delivery_progress(c: ClusterView)
    requires
        c.pending.len() > 0,
    ensures
        total_deliveries(c.delivered_at(0).pending) + 1 == total_deliveries(c.pending),
{
    let m = c.pending[0];
    let rest = c.pending.drop_first();
    assert(c.pending.remove(0) =~= rest);
    let r = c.replicas[c.at(m.dst)].replies(m);
    lemma_total_deliveries(rest, r);
    if is_request(m) {
        assert(r.drop_first() =~= Seq::empty());
        assert(total_deliveries(r) == 1) by {
            reveal_with_fuel(total_deliveries, 2);
        }
    } else {
        assert(r =~= Seq::empty());
    }
    let moved = ClusterView { pending: c.pending.remove(0), ..c };
    assert(moved.at(m.dst) == c.at(m.dst));
}

/// Delivery keeps the nodes and the routability of what is in flight.
pub proof fn lemma_delivery_keeps(c: ClusterView, i: int)
    requires
        c.distinct_nodes(),
        c.routable(),
        0 <= i < c.pending.len(),
    ensures
        c.delivered_at(i).distinct_nodes(),
        c.delivered_at(i).routable(),
        c.delivered_at(i).replicas.len() == c.replicas.len(),
{
    let m = c.pending[i];
    let d = c.delivered_at(i);
    let moved = ClusterView { pending: c.pending.remove(i), ..c };
    assert(c.has(m.dst));
    let p = c.at(m.dst);
    assert(moved.at(m.dst) == p);
    assert(0 <= p < c.replicas.len());
    assert forall|j: int| 0 <= j < c.replicas.len() implies (#[trigger] d.replicas[j]).node_id
        == c.replicas[j].node_id by {}
    assert forall|n: u64| c.has(n) implies #[trigger] d.has(n) by {
        let j = choose|j: int| 0 <= j < c.replicas.len() && (#[trigger] c.replicas[j]).node_id == n;
        assert(d.replicas[j].node_id == n);
    }
    assert forall|j: int| 0 <= j < d.pending.len() implies d.has((#[trigger] d.pending[j]).dst) && (
    is_request(d.pending[j]) ==> d.has(d.pending[j].src)) by {
        let kept = c.pending.remove(i);
        if j < kept.len() {
            let j2 = if j < i { j } else { j + 1 };
            assert(d.pending[j] == c.pending[j2]);
        } else {
            assert(is_request(m));
            assert(d.pending[j].dst == m.src);
        }
    }
}

impl View for TestCluster {
    type V = ClusterView;

    closed spec fn view(&self) -> ClusterView {
        ClusterView {
            replicas: self.replicas@.map_values(|r: TestReplica| r@),
            pending: messages_view(self.pending@),
        }
    }
}

/// Replicas disagree on a committed transaction.
#[derive(Clone, Copy, Debug, PartialEq, Eq, Structural)]
pub enum Disagreement {
    /// On its execution timestamp.
    Timestamp,
    /// On its dependencies.
    Deps,
}

/// Two replicas that have committed `id` agree on it.
pub open spec fn agree_on(a: SimView, b: SimView, id: TxnId) -> bool {
    a.txns.contains_key(id) && b.txns.contains_key(id) && a.txns[id].phase == TxnPhase::Committed
        && b.txns[id].phase == TxnPhase::Committed ==> a.txns[id].t == b.txns[id].t
        && a.txns[id].deps == b.txns[id].deps
}

impl ClusterView {
    /// All replicas that have committed `id` agree on it.
    pub open spec fn consistent(self, id: TxnId) -> bool {
        forall|i: int, j: int|
            #![trigger self.replicas[i], self.replicas[j]]
            0 <= i < self.replicas.len() && 0 <= j < self.replicas.len() ==> agree_on(
                self.replicas[i],
                self.replicas[j],
                id,
            )
    }
}

impl ClusterView {
    /// Replica `i` has committed `id`.
    pub open spec fn committed_at(self, i: int, id: TxnId) -> bool {
        self.replicas[i].txns.contains_key(id) && self.replicas[i].txns[id].phase
            == TxnPhase::Committed
    }

    /// Replica `k` is the first that has committed `id`, and `i` the first that
    /// disagrees with it.
    pub open spec fn first_split(self, id: TxnId, k: int, i: int) -> bool {
        &&& 0 <= k < i < self.replicas.len()
        &&& self.committed_at(k, id)
        &&& forall|j: int| 0 <= j < k ==> !#[trigger] self.committed_at(j, id)
        &&& !agree_on(self.replicas[k], self.replicas[i], id)
        &&& forall|j: int|
            0 <= j < i ==> agree_on(self.replicas[k], #[trigger] self.replicas[j], id)
    }
}

impl TestCluster {
    /// Replicas and messages are well formed and node ids are distinct.
    pub closed spec fn wf(&self) -> bool {
        &&& forall|i: int| 0 <= i < self.replicas@.len() ==> (#[trigger] self.replicas@[i]).wf()
        &&& forall|i: int| 0 <= i < self.pending@.len() ==> (#[trigger] self.pending@[i]).wf()
        &&& self@.distinct_nodes()
    }

    /// `n` replicas that know nothing, with node ids from one to `n`.
    pub fn new(n: usize) -> (c: TestCluster)
        requires
            n > 0,
        ensures
            c.wf(),
            c@.pending.len() == 0,
            c@.replicas == Seq::new(
                n as nat,
                |i: int|
                    SimView {
                        node_id: (i + 1) as u64,
                        txns: Map::empty(),
                        conflicts: Map::empty(),
                    },
            ),
    {
        let mut replicas: Vec<TestReplica> = Vec::new();
        let mut i: usize = 0;
        while i < n
            invariant
                i <= n,
                replicas@.len() == i,
                forall|j: int|
                    0 <= j < i ==> (#[trigger] replicas@[j]).wf() && replicas@[j]@ == (SimView {
                        node_id: (j + 1) as u64,
                        txns: Map::empty(),
                        conflicts: Map::empty(),
                    }),
            decreases n - i,
        {
            i += 1;
            replicas.push(TestReplica::new(i as u64));
        }
        let c = TestCluster { replicas, pending: Vec::new() };
        assert(c@.replicas =~= Seq::new(
            n as nat,
            |i: int|
                SimView { node_id: (i + 1) as u64, txns: Map::empty(), conflicts: Map::empty() },
        ));
        c
    }

    /// Put a message in flight.
    pub fn send(&mut self, msg: TestMessage)
        requires
            old(self).wf(),
            msg.wf(),
        ensures
            final(self).wf(),
            final(self)@ == (ClusterView {
                pending: old(self)@.pending.push(msg@),
                ..old(self)@
            }),
    {
        self.pending.push(msg);
        assert(self@.pending =~= old(self)@.pending.push(msg@));
    }

    /// Number of messages in flight.
    pub fn pending_count(&self) -> (n: usize)
        ensures
            n == self@.pending.len(),
    {
        self.pending.len()
    }

    fn replica_position(&self, node_id: u64) -> (i: usize)
        requires
            self.wf(),
            self@.has(node_id),
        ensures
            i == self@.at(node_id),
            i < self.replicas@.len(),
            self.replicas@[i as int].node_id == node_id,
    {
        let mut i: usize = 0;
        while i < self.replicas.len()
            invariant
                i <= self.replicas.len(),
                self.wf(),
                self@.has(node_id),
                forall|j: int| 0 <= j < i ==> (#[trigger] self.replicas@[j]).node_id != node_id,
            decreases self.replicas.len() - i,
        {
            if self.replicas[i].node_id == node_id {
                proof {
                    let p = self@.at(node_id);
                    assert(self@.replicas[p].node_id == node_id);
                    assert(self@.replicas[i as int].node_id == node_id);
                    if p < i {
                        assert(self.replicas@[p].node_id == node_id);
                    }
                }
                return i;
            }
            i += 1;
        }
        proof {
            let p = self@.at(node_id);
            assert(self@.replicas[p].node_id == node_id);
            assert(self.replicas@[p].node_id == node_id);
        }
        0
    }

    /// The replica with a node id.
    pub fn replica(&self, node_id: u64) -> (r: &TestReplica)
        requires
            self.wf(),
            self@.has(node_id),
        ensures
            r.wf(),
            r.node_id == node_id,
            r@ == self@.replicas[self@.at(node_id)],
    {
        let i = self.replica_position(node_id);
        &self.replicas[i]
    }

    /// The replica with a node id, for update in place.
    pub fn replica_mut(&mut self, node_id: u64) -> (r: &mut TestReplica)
        requires
            old(self).wf(),
            old(self)@.has(node_id),
        ensures
            r.wf(),
            r@ == old(self)@.replicas[old(self)@.at(node_id)],
            final(self)@.replicas == old(self)@.replicas.update(
                old(self)@.at(node_id),
                final(r)@,
            ),
            final(self)@.pending == old(self)@.pending,
            final(r).wf() && final(r).node_id == node_id ==> final(self).wf(),
    {
        let i = self.replica_position(node_id);
        let ghost before = self.replicas@;
        proof {
            let f = |r: TestReplica| r@;
            assert forall|x: TestReplica| #[trigger] before.update(i as int, x).map_values(f)
                == before.map_values(f).update(i as int, x@) by {
                assert(before.update(i as int, x).map_values(f) =~= before.map_values(f).update(
                    i as int,
                    x@,
                ));
            }
        }
        &mut self.replicas[i]
    }

    fn deliver_message(&mut self, msg: &TestMessage) -> (out: Vec<TestMessage>)
        requires
            old(self).wf(),
            msg.wf(),
            old(self)@.has(msg.dst),
        ensures
            final(self).wf(),
            final(self)@ == old(self)@.delivered(msg@),
            messages_view(out@) == old(self)@.replies(msg@),
            forall|i: int| 0 <= i < out@.len() ==> (#[trigger] out@[i]).wf(),
    {
        let i = self.replica_position(msg.dst);
        let ghost before = self@;
        let ghost rs = self.replicas@;
        assert(self.replicas@[i as int].wf());
        let out = self.replicas[i].handle(msg);
        let ghost after = before.replicas.update(i as int, before.replicas[i as int].after(msg@));
        assert(self@.replicas =~= after);
        let mut k: usize = 0;
        assert(before.pending + messages_view(out@.take(0)) =~= before.pending);
        while k < out.len()
            invariant
                k <= out.len(),
                forall|j: int| 0 <= j < self.replicas@.len() ==> (#[trigger] self.replicas@[j]).wf(),
                forall|j: int| 0 <= j < self.pending@.len() ==> (#[trigger] self.pending@[j]).wf(),
                forall|j: int| 0 <= j < out@.len() ==> (#[trigger] out@[j]).wf(),
                self@.replicas == after,
                self@.pending == before.pending + messages_view(out@.take(k as int)),
            decreases out.len() - k,
        {
            let ghost p0 = self@.pending;
            self.pending.push(out[k].copied());
            proof {
                assert(self@.pending =~= p0.push(out@[k as int]@));
                assert(messages_view(out@.take(k + 1)) =~= messages_view(
                    out@.take(k as int),
                ).push(out@[k as int]@));
                assert(self@.pending =~= before.pending + messages_view(out@.take(k + 1)));
            }
            k += 1;
        }
        assert(out@.take(out@.len() as int) =~= out@);
        assert(self@ =~= before.delivered(msg@));
        out
    }

    fn take_pending(&mut self, index: usize) -> (m: TestMessage)
        requires
            old(self).wf(),
            index < old(self)@.pending.len(),
        ensures
            final(self).wf(),
            m.wf(),
            m@ == old(self)@.pending[index as int],
            final(self)@ == (ClusterView {
                pending: old(self)@.pending.remove(index as int),
                ..old(self)@
            }),
    {
        let ghost before = self.pending@;
        assert(self.pending@[index as int].wf());
        let m = self.pending.remove(index);
        proof {
            assert(self@.pending =~= old(self)@.pending.remove(index as int));
            assert forall|j: int| 0 <= j < self.pending@.len() implies (#[trigger] self.pending@[j]).wf() by {
                let j2 = if j < index { j } else { j + 1 };
                assert(self.pending@[j] == before[j2]);
            }
        }
        m
    }

    /// Deliver the oldest message; its answer is put in flight and returned.
    pub fn deliver_next(&mut self) -> (out: Vec<TestMessage>)
        requires
            old(self).wf(),
            old(self)@.pending.len() > 0,
            old(self)@.has(old(self)@.pending[0].dst),
        ensures
            final(self).wf(),
            final(self)@ == old(self)@.delivered_at(0),
            messages_view(out@) == old(self)@.replies(old(self)@.pending[0]),
    {
        self.deliver_at(0)
    }

    /// Deliver the message at a position; its answer is put in flight and
    /// returned.
    pub fn deliver_at(&mut self, index: usize) -> (out: Vec<TestMessage>)
        requires
            old(self).wf(),
            index < old(self)@.pending.len(),
            old(self)@.has(old(self)@.pending[index as int].dst),
        ensures
            final(self).wf(),
            final(self)@ == old(self)@.delivered_at(index as int),
            messages_view(out@) == old(self)@.replies(old(self)@.pending[index as int]),
    {
        let ghost c = self@;
        let msg = self.take_pending(index);
        proof {
            let d = msg.dst;
            assert(self@.at(d) == c.at(d));
            let i = choose|i: int|
                0 <= i < c.replicas.len() && (#[trigger] c.replicas[i]).node_id == d;
            assert(self@.replicas[i].node_id == d);
        }
        self.deliver_message(&msg)
    }

    /// Lose the message at a position.
    pub fn drop_at(&mut self, index: usize)
        requires
            old(self).wf(),
            index < old(self)@.pending.len(),
        ensures
            final(self).wf(),
            final(self)@ == (ClusterView {
                pending: old(self)@.pending.remove(index as int),
                ..old(self)@
            }),
    {
        let _ = self.take_pending(index);
    }

    /// Deliver until nothing is in flight.
    pub fn drain(&mut self)
        requires
            old(self).wf(),
            old(self)@.routable(),
            total_deliveries(old(self)@.pending) <= MAX_DRAIN_DELIVERIES,
        ensures
            final(self).wf(),
            final(self)@ == old(self)@.drained(),
            final(self)@.pending.len() == 0,
    {
        while self.pending_count() > 0
            invariant
                self.wf(),
                self@.routable(),
                self@.drained() == old(self)@.drained(),
            decreases total_deliveries(self@.pending),
        {
            proof {
                lemma_delivery_progress(self@);
                lemma_delivery_keeps(self@, 0);
            }
            let _ = self.deliver_next();
        }
    }

    /// Whether all replicas that have committed a transaction agree on its
    /// execution timestamp and dependencies; if not, on which they differ first.
    pub fn assert_consistent(&self, txn_id: &TxnId) -> (r: Result<(), Disagreement>)
        requires
            self.wf(),
        ensures
            r is Ok <==> self@.consistent(*txn_id),
            r matches Err(d) ==> exists|k: int, i: int| #[trigger]
                self@.first_split(*txn_id, k, i) && d == (if self@.replicas[k].txns[*txn_id].t
                    != self@.replicas[i].txns[*txn_id].t {
                    Disagreement::Timestamp
                } else {
                    Disagreement::Deps
                }),
    {
        let mut reference: Option<usize> = None;
        let mut i: usize = 0;
        let ghost id = *txn_id;
        while i < self.replicas.len()
            invariant
                self.wf(),
                id == *txn_id,
                i <= self.replicas.len(),
                match reference {
                    Some(k) => {
                        &&& k < i
                        &&& self@.committed_at(k as int, id)
                        &&& forall|j: int| 0 <= j < k ==> !#[trigger] self@.committed_at(j, id)
                        &&& forall|j: int|
                            0 <= j < i ==> agree_on(
                                self@.replicas[k as int],
                                #[trigger] self@.replicas[j],
                                id,
                            )
                    },
                    None => forall|j: int|
                        0 <= j < i ==> !#[trigger] self@.committed_at(j, id),
                },
            decreases self.replicas.len() - i,
        {
            assert(self.replicas@[i as int].wf());
            let ghost here = self@.replicas[i as int];
            assert(here == self.replicas@[i as int]@);
            match self.replicas[i].txn_states.get(txn_id) {
                Some(state) => {
                    if state.phase == TxnPhase::Committed {
                        match reference {
                            Some(k) => {
                                let ghost there = self@.replicas[k as int];
                                assert(there == self.replicas@[k as int]@);
                                assert(self.replicas@[k as int].wf());
                                match self.replicas[k].txn_states.get(txn_id) {
                                    Some(first) => {
                                        if first.t != state.t {
                                            assert(!agree_on(there, here, id));
                                            assert(self@.first_split(id, k as int, i as int));
                                            return Err(Disagreement::Timestamp);
                                        }
                                        if !same_members(&first.deps, &state.deps) {
                                            assert(!agree_on(there, here, id));
                                            assert(self@.first_split(id, k as int, i as int));
                                            return Err(Disagreement::Deps);
                                        }
                                    },
                                    None => {},
                                }
                            },
                            None => {
                                assert forall|j: int| 0 <= j < i implies agree_on(
                                    here,
                                    #[trigger] self@.replicas[j],
                                    id,
                                ) by {
                                    assert(!self@.committed_at(j, id));
                                }
                                reference = Some(i);
                            },
                        }
                    }
                },
                None => {},
            }
            i += 1;
        }
        proof {
            assert forall|a: int, b: int|
                #![trigger self@.replicas[a], self@.replicas[b]]
                0 <= a < self@.replicas.len() && 0 <= b < self@.replicas.len() implies agree_on(
                self@.replicas[a],
                self@.replicas[b],
                id,
            ) by {
                if reference is Some {
                    let k = reference->0 as int;
                    assert(agree_on(self@.replicas[k], self@.replicas[a], id));
                    assert(agree_on(self@.replicas[k], self@.replicas[b], id));
                } else {
                    assert(!self@.committed_at(a, id));
                }
            }
        }
        Ok(())
    }
}

/// Whether two sets of transactions are equal.
fn same_members(a: &TxnSet, b: &TxnSet) -> (r: bool)
    requires
        a.wf(),
        b.wf(),
    ensures
        r == (a@ == b@),
{
    let x = a.to_vec();
    let y = b.to_vec();
    let r = includes(b, &x) && includes(a, &y);
    proof {
        if r {
            assert(a@ =~= b@) by {
                assert forall|id: TxnId| a@.contains(id) implies b@.contains(id) by {
                    assert(x@.to_set().contains(id));
                }
                assert forall|id: TxnId| b@.contains(id) implies a@.contains(id) by {
                    assert(y@.to_set().contains(id));
                }
            }
        }
    }
    r
}

/// Whether every listed transaction is a member.
fn includes(set: &TxnSet, ids: &Vec<TxnId>) -> (r: bool)
    ensures
        r == ids@.to_set().subset_of(set@),
{
    let mut i: usize = 0;
    while i < ids.len()
        invariant
            i <= ids.len(),
            forall|j: int| 0 <= j < i ==> set@.contains(#[trigger] ids@[j]),
        decreases ids.len() - i,
    {
        if !set.contains(&ids[i]) {
            assert(ids@.to_set().contains(ids@[i as int])) by {
                assert(ids@.contains(ids@[i as int]));
            }
            return false;
        }
        i += 1;
    }
    true
}

/// Delivering everything leaves nothing in flight.
pub proof fn drained_clusters_are_quiet(c: ClusterView)
    ensures
        c.drained().pending.len() == 0,
    decreases total_deliveries(c.pending),
{
    if c.pending.len() > 0 {
        lemma_delivery_progress(c);
        drained_clusters_are_quiet(c.delivered_at(0));
    }
}

/// Replicas that were told the same outcome agree on it, whatever they knew before.
pub proof fn same_commit_brings_agreement(
    a: SimView,
    b: SimView,
    from_a: MessageView,
    from_b: MessageView,
    id: TxnId,
)
    requires
        from_a.payload == from_b.payload,
        from_a.payload matches PayloadView::Commit { txn_id, .. } && txn_id == id,
    ensures
        agree_on(a.after(from_a), b.after(from_b), id),
{
}

/// A request to pre-accept.
pub open spec fn preaccept_request(
    src: u64,
    dst: u64,
    id: TxnId,
    t0: Timestamp,
    key: Seq<u8>,
) -> MessageView {
    MessageView { src, dst, payload: PayloadView::PreAccept { txn_id: id, t0, key } }
}

/// A transaction depends on every other one that its replica has heard of on the
/// same key, and is ordered past it where it was proposed before it.
pub proof fn rivals_are_dependencies(
    r: SimView,
    first: TxnId,
    t1: Timestamp,
    second: TxnId,
    t2: Timestamp,
    key: Seq<u8>,
    src: u64,
    dst: u64,
)
    requires
        first != second,
        latest_listed(
            r.after(preaccept_request(src, dst, first, t1, key)).rivals(key, second),
        ) matches Some(ct) ==> !ct.exhausted(),
    ensures
        r.after(preaccept_request(src, dst, first, t1, key)).replies(
            preaccept_request(src, dst, second, t2, key),
        )[0].payload matches PayloadView::PreAcceptOK { txn_id, t, deps } && txn_id == second
            && deps.contains(first) && (t2.precedes(t1) ==> t1.precedes(t)),
{
    let s = r.after(preaccept_request(src, dst, first, t1, key));
    let list = s.on_key(key);
    assert(list.last() == (t1, first));
    let kept = s.rivals(key, second);
    assert(kept.last() == (t1, first) && kept.len() > 0) by {
        reveal(Seq::filter);
    }
    assert(listed_ids(kept)[kept.len() - 1] == first);
    lemma_latest_is_last(kept, kept.len() - 1);
    let ct = latest_listed(kept)->0;
    crate::accord::types::timestamp_order_is_total(t2, t1, ct);
    crate::accord::types::timestamp_order_is_total(t1, ct, t2);
    crate::accord::types::timestamp_order_is_total(t1, ct, ct.spec_past(s.node_id));
}

/// No listed timestamp is after the latest.
proof fn lemma_latest_is_last(s: Seq<(Timestamp, TxnId)>, i: int)
    requires
        0 <= i < s.len(),
    ensures
        latest_listed(s) is Some,
        !latest_listed(s)->0.precedes(s[i].0),
    decreases s.len(),
{
    let head = s.drop_last();
    if i < head.len() {
        lemma_latest_is_last(head, i);
        let m = latest_listed(head)->0;
        crate::accord::types::timestamp_order_is_total(m, s.last().0, s[i].0);
        crate::accord::types::timestamp_order_is_total(m, s[i].0, s.last().0);
        crate::accord::types::timestamp_order_is_total(s.last().0, s[i].0, m);
    }
}

/// The latest timestamp of a list is one of those listed, and none of them is after it; an
/// empty list has none.
pub proof fn the_latest_is_listed(s: Seq<(Timestamp, TxnId)>, i: int)
    ensures
        s.len() == 0 <==> latest_listed(s) is None,
        latest_listed(s) matches Some(t) ==> exists|k: int|
            0 <= k < s.len() && (#[trigger] s[k]).0 == t,
        0 <= i < s.len() ==> latest_listed(s) is Some && !latest_listed(s)->0.precedes(s[i].0),
    decreases s.len(),
{
    if s.len() > 0 {
        let head = s.drop_last();
        the_latest_is_listed(head, 0);
        if latest_listed(head) is Some {
            let k = choose|k: int|
                0 <= k < head.len() && (#[trigger] head[k]).0 == latest_listed(head)->0;
            assert(s[k].0 == latest_listed(head)->0);
        }
        assert(s[s.len() - 1].0 == s.last().0);
        if 0 <= i < s.len() {
            lemma_latest_is_last(s, i);
        }
    }
}

/// A simulated replica that is asked to pre-accept depends on exactly the other transactions
/// that it has heard of on the key. It proposes the given timestamp where none of them is
/// after it, and else the next reading of its clock after the latest. It stores and answers
/// both, and takes note of the transaction on the key, behind the others.
pub proof fn simulated_preaccepts(
    r: SimView,
    src: u64,
    dst: u64,
    id: TxnId,
    t0: Timestamp,
    key: Seq<u8>,
    other: TxnId,
    list: Seq<(Timestamp, TxnId)>,
)
    requires
        r.conflicts.contains_key(key) ==> list == r.conflicts[key],
        !r.conflicts.contains_key(key) ==> list.len() == 0,
    ensures
        ({
            let m = MessageView { src, dst, payload: PayloadView::PreAccept { txn_id: id, t0, key } };
            let after = r.after(m);
            let out = r.replies(m);
            let rival = exists|k: int|
                0 <= k < list.len() && (#[trigger] list[k]).1 == other && other != id;
            &&& out.len() == 1 && out[0].src == r.node_id && out[0].dst == src
            &&& out[0].payload matches PayloadView::PreAcceptOK { txn_id, t, deps }
            &&& txn_id == id
            &&& deps.contains(other) <==> rival
            &&& after.txns.contains_key(id)
            &&& after.txns[id].t == t && after.txns[id].t0 == t0 && after.txns[id].txn_id == id
            &&& after.txns[id].deps.contains(other) <==> rival
            &&& after.txns[id].phase == TxnPhase::PreAccepted
            &&& after.conflicts.contains_key(key) && after.conflicts[key] == list.push((t0, id))
            &&& after.node_id == r.node_id
            &&& forall|x: TxnId|
                x != id ==> (#[trigger] after.txns.contains_key(x) <==> r.txns.contains_key(x))
                    && after.txns[x] == r.txns[x]
            &&& (forall|k: int|
                0 <= k < list.len() && (#[trigger] list[k]).1 != id ==> !t0.precedes(list[k].0)) ==> t
                == t0
            &&& !(forall|k: int|
                0 <= k < list.len() && (#[trigger] list[k]).1 != id ==> !t0.precedes(list[k].0))
                ==> exists|k: int|
                0 <= k < list.len() && (#[trigger] list[k]).1 != id && t == list[k].0.spec_past(
                    r.node_id,
                ) && forall|j: int|
                    0 <= j < list.len() && (#[trigger] list[j]).1 != id ==> !list[k].0.precedes(
                        list[j].0,
                    )
        }),
{
    assert(list =~= r.on_key(key));
    let p = other_than(id);
    let kept = r.rivals(key, id);
    let ids = listed_ids(kept);
    let m = MessageView { src, dst, payload: PayloadView::PreAccept { txn_id: id, t0, key } };
    assert(r.after(m).txns[id].deps == ids.to_set());
    if ids.contains(other) {
        let j = choose|j: int| 0 <= j < ids.len() && ids[j] == other;
        list.lemma_filter_pred(p, j);
        crate::collections::lemma_filter_from(list, p, j);
        let k = choose|k: int| 0 <= k < list.len() && list[k] == kept[j];
        assert(list[k].1 == other);
    }
    if exists|k: int| 0 <= k < list.len() && (#[trigger] list[k]).1 == other && other != id {
        let k = choose|k: int|
            0 <= k < list.len() && (#[trigger] list[k]).1 == other && other != id;
        list.lemma_filter_contains(p, k);
        let j = choose|j: int| 0 <= j < kept.len() && kept[j] == list[k];
        assert(ids[j] == other);
    }
    the_latest_is_listed(kept, 0);
    assert forall|k: int| 0 <= k < list.len() && (#[trigger] list[k]).1 != id implies {
        &&& latest_listed(kept) is Some
        &&& !latest_listed(kept)->0.precedes(list[k].0)
    } by {
        list.lemma_filter_contains(p, k);
        let j = choose|j: int| 0 <= j < kept.len() && kept[j] == list[k];
        the_latest_is_listed(kept, j);
    }
    if latest_listed(kept) is Some {
        let c = latest_listed(kept)->0;
        let j = choose|j: int| 0 <= j < kept.len() && (#[trigger] kept[j]).0 == c;
        list.lemma_filter_pred(p, j);
        crate::collections::lemma_filter_from(list, p, j);
        let k = choose|k: int| 0 <= k < list.len() && list[k] == kept[j];
        assert(list[k].0 == c && list[k].1 != id);
        if !t0.precedes(c) {
            assert forall|i: int| 0 <= i < list.len() && (#[trigger] list[i]).1 != id implies !t0.precedes(
                list[i].0,
            ) by {
                crate::accord::types::timestamp_order_is_total(t0, list[i].0, c);
                crate::accord::types::timestamp_order_is_total(c, t0, list[i].0);
                crate::accord::types::timestamp_order_is_total(c, list[i].0, t0);
            }
        }
    }
}

/// A simulated replica accepts what it is told, at the ballot that it is told, unless it has
/// promised a higher one, which it answers; it commits what it is told; and it answers a
/// recovery with what it knows, with the ballot promised where it is higher.
pub proof fn simulated_decisions(
    r: SimView,
    src: u64,
    dst: u64,
    id: TxnId,
    t0: Timestamp,
    t: Timestamp,
    deps: Seq<TxnId>,
    ballot: nat,
    dep: TxnId,
)
    ensures
        ({
            let m = MessageView {
                src,
                dst,
                payload: PayloadView::Accept { ballot, txn_id: id, t0, t, deps },
            };
            let after = r.after(m);
            let out = r.replies(m);
            let refused = r.txns.contains_key(id) && ballot < r.txns[id].promised;
            &&& out.len() == 1 && out[0].src == r.node_id && out[0].dst == src
            &&& refused ==> after == r && out[0].payload == (PayloadView::Nack {
                txn_id: id,
                promised: r.txns[id].promised,
            })
            &&& !refused ==> {
                &&& out[0].payload == (PayloadView::AcceptOK { txn_id: id, ballot, deps })
                &&& after.txns.contains_key(id)
                &&& after.txns[id].t == t && after.txns[id].phase == TxnPhase::Accepted
                &&& after.txns[id].deps.contains(dep) <==> deps.contains(dep)
                &&& after.txns[id].accepted == ballot && after.txns[id].promised == ballot
                &&& after.conflicts == r.conflicts && after.node_id == r.node_id
            }
        }),
        ({
            let m = MessageView {
                src,
                dst,
                payload: PayloadView::Commit { txn_id: id, t0, t, deps },
            };
            let after = r.after(m);
            &&& r.replies(m).len() == 0
            &&& after.txns.contains_key(id)
            &&& after.txns[id].t == t && after.txns[id].phase == TxnPhase::Committed
            &&& after.txns[id].deps.contains(dep) <==> deps.contains(dep)
            &&& after.conflicts == r.conflicts && after.node_id == r.node_id
        }),
        ({
            let m = MessageView {
                src,
                dst,
                payload: PayloadView::Recover { ballot, txn_id: id, t0 },
            };
            let after = r.after(m);
            let out = r.replies(m);
            &&& out.len() == 1 && out[0].src == r.node_id && out[0].dst == src
            &&& out[0].payload matches PayloadView::RecoverOK { txn_id, state, superseding, wait }
            &&& txn_id == id && superseding.len() == 0 && wait.len() == 0
            &&& after.txns.contains_key(id) && after.txns[id] == state
            &&& r.txns.contains_key(id) ==> {
                &&& state.t == r.txns[id].t && state.deps == r.txns[id].deps
                &&& state.phase == r.txns[id].phase && state.accepted == r.txns[id].accepted
                &&& state.promised == if ballot > r.txns[id].promised {
                    ballot
                } else {
                    r.txns[id].promised
                }
            }
            &&& !r.txns.contains_key(id) ==> state.t == t0 && state.deps == Set::<TxnId>::empty()
                && state.phase == TxnPhase::PreAccepted && state.promised == ballot
            &&& after.conflicts == r.conflicts && after.node_id == r.node_id
        }),
{
}

/// A delivery changes the replica that the message is for, by what that replica does with
/// it, and puts its answers in flight behind what was; a message is delivered once.
pub proof fn deliveries_reach_their_replica(c: ClusterView, i: int, k: int)
    requires
        c.distinct_nodes(),
        0 <= i < c.pending.len(),
        0 <= k < c.replicas.len(),
        c.has(c.pending[i].dst),
    ensures
        ({
            let m = c.pending[i];
            let d = c.delivered_at(i);
            &&& d.replicas.len() == c.replicas.len()
            &&& c.replicas[k].node_id == m.dst ==> d.replicas[k] == c.replicas[k].after(m)
                && d.pending == c.pending.remove(i) + c.replicas[k].replies(m)
            &&& c.replicas[k].node_id != m.dst ==> d.replicas[k] == c.replicas[k]
        }),
{
    let m = c.pending[i];
    let moved = ClusterView { pending: c.pending.remove(i), ..c };
    let p = c.at(m.dst);
    assert(moved.at(m.dst) == p);
    assert(c.replicas[p].node_id == m.dst);
    if c.replicas[k].node_id == m.dst && k != p {
        if k < p {
            assert(c.replicas[k].node_id != c.replicas[p].node_id);
        } else {
            assert(c.replicas[p].node_id != c.replicas[k].node_id);
        }
    }
}

/// Replicas agree on a transaction where any two that have committed it have the same
/// timestamp and the same dependencies.
pub proof fn agreement_is_on_outcomes(c: ClusterView, id: TxnId)
    ensures
        c.consistent(id) <==> forall|i: int, j: int|
            #![trigger c.replicas[i], c.replicas[j]]
            0 <= i < c.replicas.len() && 0 <= j < c.replicas.len()
                && c.replicas[i].txns.contains_key(id) && c.replicas[j].txns.contains_key(id)
                && c.replicas[i].txns[id].phase == TxnPhase::Committed
                && c.replicas[j].txns[id].phase == TxnPhase::Committed ==> c.replicas[i].txns[id].t
                == c.replicas[j].txns[id].t && c.replicas[i].txns[id].deps
                == c.replicas[j].txns[id].deps,
{
}

/// A disagreement is reported between the first replica that has committed the transaction
/// and the first one after it that has committed something else; before the former nobody
/// has committed it.
pub proof fn the_first_disagreement_is_reported(
    c: ClusterView,
    id: TxnId,
    k: int,
    i: int,
    j: int,
)
    requires
        c.first_split(id, k, i),
    ensures
        0 <= k < i < c.replicas.len(),
        c.replicas[k].txns.contains_key(id) && c.replicas[i].txns.contains_key(id),
        c.replicas[k].txns[id].phase == TxnPhase::Committed,
        c.replicas[i].txns[id].phase == TxnPhase::Committed,
        c.replicas[k].txns[id].t != c.replicas[i].txns[id].t || c.replicas[k].txns[id].deps
            != c.replicas[i].txns[id].deps,
        0 <= j < k ==> !(c.replicas[j].txns.contains_key(id) && c.replicas[j].txns[id].phase
            == TxnPhase::Committed),
        k < j < i && c.replicas[j].txns.contains_key(id) && c.replicas[j].txns[id].phase
            == TxnPhase::Committed ==> c.replicas[j].txns[id].t == c.replicas[k].txns[id].t
            && c.replicas[j].txns[id].deps == c.replicas[k].txns[id].deps,
{
    if 0 <= j < k {
        assert(!c.committed_at(j, id));
    }
    if k < j < i {
        assert(agree_on(c.replicas[k], c.replicas[j], id));
    }
}

/// A list of messages is modelled item by item.
pub proof fn message_lists_are_modelled(m: Seq<TestMessage>, i: int)
    ensures
        messages_view(m).len() == m.len(),
        0 <= i < m.len() ==> messages_view(m)[i] == m[i]@,
{
}

} // verus!
