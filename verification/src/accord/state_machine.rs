//! The replica-side state machine of the Accord protocol.
//!
//! Each handler processes one message: it validates the ballot, makes the step
//! durable, moves the transaction forward (never back), and only then answers. If
//! the log record does not become durable, nothing is answered. A message that
//! repeats a durable one gets the same answer and is not logged again.

use vstd::prelude::*;

use crate::accord::apply::{
    ApplyError, ApplyMutation, NoReader, NoopStorageApplier, ReadError, StorageApplier, StorageReader,
};
use crate::accord::conflict_index::{ConflictIndex, InFlightWrite, TxnStatus};
use crate::accord::protocol::{ReplicaView, ReplyView};
use crate::accord::sync_writer::SyncWriter;
use crate::accord::txn_state::{TxnState, TxnStateView};
use crate::accord::types::{
    AcceptedBallot, BallotNumber, PromisedBallot, Timestamp, TxnId, TxnPhase, TxnSet,
};
use crate::collections::VecMap;
use crate::text::{copy_bytes, push_decimal, push_text};

verus! {

/// Conflict index capacity unless another is asked for.
pub const DEFAULT_CONFLICT_CAPACITY: usize = 100_000;

/// Response from the state machine to a protocol message.
#[derive(Debug)]
pub enum SmResponse {
    /// Agreement, possibly with an adjusted timestamp and dependencies.
    PreAcceptOK { txn_id: TxnId, t: Timestamp, deps: Vec<TxnId> },
    /// Ballot accepted.
    AcceptOK { txn_id: TxnId, ballot: BallotNumber, deps: Vec<TxnId> },
    /// A higher ballot has been promised.
    Nack { txn_id: TxnId, promised: PromisedBallot },
    /// No response.
    NoResponse,
}

impl View for SmResponse {
    type V = ReplyView;

    open spec fn view(&self) -> ReplyView {
        match *self {
            SmResponse::PreAcceptOK { txn_id, t, deps } => ReplyView::PreAcceptOK {
                txn_id,
                t,
                deps: deps@.to_set(),
            },
            SmResponse::AcceptOK { txn_id, ballot, deps } => ReplyView::AcceptOK {
                txn_id,
                ballot: ballot.0 as nat,
                deps: deps@.to_set(),
            },
            SmResponse::Nack { txn_id, promised } => ReplyView::Nack {
                txn_id,
                promised: promised.0.0 as nat,
            },
            SmResponse::NoResponse => ReplyView::Silence,
        }
    }
}

/// Replica-side consensus state machine.
///
/// Owns the per-transaction states, the conflict index, the protocol log `W`,
/// the storage applier `A` and an optional storage reader `R`.
pub struct AccordStateMachine<W, A, R> {
    node_id: u64,
    txn_states: VecMap<TxnId, TxnState>,
    conflict_index: ConflictIndex,
    sync_writer: W,
    dep_waiters: VecMap<TxnId, Vec<TxnId>>,
    committed_txns: TxnSet,
    last_notified: Vec<TxnId>,
    applier: A,
    reader: Option<R>,
}

/// The views of the transaction states.
pub open spec fn states_view(m: Map<TxnId, TxnState>) -> Map<TxnId, TxnStateView> {
    m.map_values(|s: TxnState| s@)
}

/// The views of the waiter lists.
pub open spec fn lists_view(m: Map<TxnId, Vec<TxnId>>) -> Map<TxnId, Seq<TxnId>> {
    m.map_values(|v: Vec<TxnId>| v@)
}

impl<W: SyncWriter, A: StorageApplier, R: StorageReader> View for AccordStateMachine<W, A, R> {
    type V = ReplicaView;

    closed spec fn view(&self) -> ReplicaView {
        ReplicaView {
            node_id: self.node_id,
            txns: states_view(self.txn_states@),
            index: self.conflict_index@,
            waiters: lists_view(self.dep_waiters@),
            committed: self.committed_txns@,
            notified: self.last_notified@,
            log: self.sync_writer.attempts(),
            storage: self.applier.attempts(),
        }
    }
}

/// The initial state of a replica.
pub open spec fn idle_replica(
    node_id: u64,
    capacity: nat,
    log: Seq<(Seq<u8>, bool)>,
    storage: Seq<(TxnId, crate::accord::apply::MutationView, bool)>,
) -> ReplicaView {
    ReplicaView {
        node_id,
        txns: Map::empty(),
        index: crate::accord::conflict_index::ConflictIndexView {
            capacity,
            writes: Seq::empty(),
            ranges: Seq::empty(),
        },
        waiters: Map::empty(),
        committed: Set::empty(),
        notified: Seq::empty(),
        log,
        storage,
    }
}

fn preaccepted_data(id: TxnId, t: Timestamp) -> (v: Vec<u8>)
    ensures
        v@ == crate::accord::protocol::preaccepted_record(id, t),
{
    let mut v: Vec<u8> = Vec::new();
    push_text(&mut v, "PreAccepted:");
    push_decimal(&mut v, id.0.time);
    push_text(&mut v, ":");
    push_decimal(&mut v, t.time);
    assert(v@ =~= crate::accord::protocol::preaccepted_record(id, t));
    v
}

fn accepted_data(id: TxnId, t: Timestamp, ballot: BallotNumber) -> (v: Vec<u8>)
    ensures
        v@ == crate::accord::protocol::accepted_record(id, t, ballot.0 as nat),
{
    let mut v: Vec<u8> = Vec::new();
    push_text(&mut v, "Accepted:");
    push_decimal(&mut v, id.0.time);
    push_text(&mut v, ":");
    push_decimal(&mut v, t.time);
    push_text(&mut v, ":");
    push_decimal(&mut v, ballot.0);
    assert(v@ =~= crate::accord::protocol::accepted_record(id, t, ballot.0 as nat));
    v
}

fn promised_data(id: TxnId, ballot: BallotNumber) -> (v: Vec<u8>)
    ensures
        v@ == crate::accord::protocol::promised_record(id, ballot.0 as nat),
{
    let mut v: Vec<u8> = Vec::new();
    push_text(&mut v, "Promised:");
    push_decimal(&mut v, id.0.time);
    push_text(&mut v, ":");
    push_decimal(&mut v, ballot.0);
    assert(v@ =~= crate::accord::protocol::promised_record(id, ballot.0 as nat));
    v
}

fn committed_data(id: TxnId, t: Timestamp) -> (v: Vec<u8>)
    ensures
        v@ == crate::accord::protocol::committed_record(id, t),
{
    let mut v: Vec<u8> = Vec::new();
    push_text(&mut v, "Committed:");
    push_decimal(&mut v, id.0.time);
    push_text(&mut v, ":");
    push_decimal(&mut v, t.time);
    assert(v@ =~= crate::accord::protocol::committed_record(id, t));
    v
}

fn applied_data(id: TxnId) -> (v: Vec<u8>)
    ensures
        v@ == crate::accord::protocol::applied_record(id),
{
    let mut v: Vec<u8> = Vec::new();
    push_text(&mut v, "Applied:");
    push_decimal(&mut v, id.0.time);
    assert(v@ =~= crate::accord::protocol::applied_record(id));
    v
}

/// The execution timestamp to propose given the latest conflicting proposal.
pub fn choose_execution_time(t0: Timestamp, latest: Option<Timestamp>, node: u64) -> (t: Timestamp)
    ensures
        t == crate::accord::protocol::execution_time(t0, latest, node),
{
    match latest {
        Some(ct) => if !ct.is_before(&t0) {
            t0.bump_past(&ct, node)
        } else {
            t0
        },
        None => t0,
    }
}

impl<W: SyncWriter> AccordStateMachine<W, NoopStorageApplier, NoReader> {
    /// A state machine whose applied mutations go nowhere.
    pub fn new(node_id: u64, sync_writer: W) -> (sm: Self)
        ensures
            sm.wf(),
            sm@ == idle_replica(
                node_id,
                DEFAULT_CONFLICT_CAPACITY as nat,
                sync_writer.attempts(),
                Seq::empty(),
            ),
            sm.log_writer() == sync_writer,
            !sm.reads(),
    {
        Self::assemble(
            node_id,
            sync_writer,
            DEFAULT_CONFLICT_CAPACITY,
            NoopStorageApplier::new(),
            None,
        )
    }

    /// Like `new`, with another conflict index capacity.
    pub fn with_capacity(node_id: u64, sync_writer: W, conflict_index_capacity: usize) -> (sm: Self)
        ensures
            sm.wf(),
            sm@ == idle_replica(
                node_id,
                conflict_index_capacity as nat,
                sync_writer.attempts(),
                Seq::empty(),
            ),
            sm.log_writer() == sync_writer,
            !sm.reads(),
    {
        Self::assemble(
            node_id,
            sync_writer,
            conflict_index_capacity,
            NoopStorageApplier::new(),
            None,
        )
    }
}

impl<W: SyncWriter, A: StorageApplier> AccordStateMachine<W, A, NoReader> {
    /// A state machine that hands applied mutations to `applier`.
    pub fn with_applier(node_id: u64, sync_writer: W, applier: A) -> (sm: Self)
        ensures
            sm.wf(),
            sm@ == idle_replica(
                node_id,
                DEFAULT_CONFLICT_CAPACITY as nat,
                sync_writer.attempts(),
                applier.attempts(),
            ),
            sm.log_writer() == sync_writer,
            sm.storage_applier() == applier,
            !sm.reads(),
    {
        Self::assemble(node_id, sync_writer, DEFAULT_CONFLICT_CAPACITY, applier, None)
    }
}

impl<W: SyncWriter, A: StorageApplier, R: StorageReader> AccordStateMachine<W, A, R> {
    /// The state is well formed and the protocol's invariant holds.
    pub closed spec fn wf(&self) -> bool {
        &&& self.txn_states.wf()
        &&& self.dep_waiters.wf()
        &&& self.committed_txns.wf()
        &&& forall|id: TxnId| #[trigger]
            self.txn_states@.contains_key(id) ==> self.txn_states@[id].wf()
        &&& self@.sound()
    }

    /// The protocol log.
    pub closed spec fn log_writer(&self) -> W {
        self.sync_writer
    }

    /// What applied mutations are handed to.
    pub closed spec fn storage_applier(&self) -> A {
        self.applier
    }

    /// The storage reader that is wired, if any.
    pub closed spec fn wired_reader(&self) -> Option<R> {
        self.reader
    }

    /// A storage reader is wired.
    pub open spec fn reads(&self) -> bool {
        self.wired_reader() is Some
    }

    fn assemble(node_id: u64, sync_writer: W, capacity: usize, applier: A, reader: Option<R>) -> (sm:
        Self)
        ensures
            sm.wf(),
            sm@ == idle_replica(
                node_id,
                capacity as nat,
                sync_writer.attempts(),
                applier.attempts(),
            ),
            sm.log_writer() == sync_writer,
            sm.storage_applier() == applier,
            sm.wired_reader() == reader,
    {
        let sm = AccordStateMachine {
            node_id,
            txn_states: VecMap::new(),
            conflict_index: ConflictIndex::new(capacity),
            sync_writer,
            dep_waiters: VecMap::new(),
            committed_txns: TxnSet::new(),
            last_notified: Vec::new(),
            applier,
            reader,
        };
        proof {
            assert(sm@.txns =~= Map::empty());
            assert(sm@.waiters =~= Map::empty());
            assert(sm@.notified =~= Seq::empty());
        }
        sm
    }

    /// A state machine that hands applied mutations to `applier` and reads rows
    /// through `reader`.
    pub fn with_applier_and_reader(node_id: u64, sync_writer: W, applier: A, reader: R) -> (sm: Self)
        ensures
            sm.wf(),
            sm@ == idle_replica(
                node_id,
                DEFAULT_CONFLICT_CAPACITY as nat,
                sync_writer.attempts(),
                applier.attempts(),
            ),
            sm.log_writer() == sync_writer,
            sm.storage_applier() == applier,
            sm.wired_reader() == Some(reader),
    {
        Self::assemble(node_id, sync_writer, DEFAULT_CONFLICT_CAPACITY, applier, Some(reader))
    }

    /// What is known of a transaction.
    pub fn get_state(&self, txn_id: &TxnId) -> (r: Option<&TxnState>)
        requires
            self.wf(),
        ensures
            match r {
                Some(s) => self@.txns.contains_key(*txn_id) && s@ == self@.txns[*txn_id] && s.wf(),
                None => !self@.txns.contains_key(*txn_id),
            },
    {
        self.txn_states.get(txn_id)
    }

    /// The waiters woken by the last commit.
    pub fn last_notified_waiters(&self) -> (v: &[TxnId])
        ensures
            v@ == self@.notified,
    {
        self.last_notified.as_slice()
    }

    /// The protocol log.
    pub fn sync_writer(&self) -> (w: &W)
        ensures
            *w == self.log_writer(),
            w.attempts() == self@.log,
    {
        &self.sync_writer
    }

    /// The storage applier.
    pub fn applier(&self) -> (a: &A)
        ensures
            *a == self.storage_applier(),
            a.attempts() == self@.storage,
    {
        &self.applier
    }

    /// The conflict index.
    pub fn conflict_index(&self) -> (x: &ConflictIndex)
        ensures
            x@ == self@.index,
    {
        &self.conflict_index
    }

    /// Whether a storage reader is wired.
    pub fn has_reader(&self) -> (b: bool)
        ensures
            b == self.reads(),
    {
        self.reader.is_some()
    }

    /// Number of transactions known.
    pub fn txn_count(&self) -> (n: usize)
        requires
            self.wf(),
        ensures
            n == self@.txns.len(),
    {
        assert(self@.txns.dom() =~= self.txn_states@.dom());
        self.txn_states.len()
    }

    /// Number of committed transactions tracked.
    pub fn committed_count(&self) -> (n: usize)
        requires
            self.wf(),
        ensures
            n == self@.committed.len(),
            self@.committed.finite(),
    {
        self.committed_txns.len()
    }
}


/// Updating one state updates its view.
proof fn lemma_states_insert(m: Map<TxnId, TxnState>, id: TxnId, s: TxnState)
    ensures
        states_view(m.insert(id, s)) == states_view(m).insert(id, s@),
{
    assert(states_view(m.insert(id, s)) =~= states_view(m).insert(id, s@));
}

impl<W: SyncWriter, A: StorageApplier, R: StorageReader> AccordStateMachine<W, A, R> {
    /// The conflict index, for update in place.
    pub fn conflict_index_mut(&mut self) -> (x: &mut ConflictIndex)
        requires
            old(self).wf(),
        ensures
            x@ == old(self)@.index,
            final(self).wf(),
            final(self)@ == (ReplicaView { index: final(x)@, ..old(self)@ }),
            final(self).log_writer() == old(self).log_writer(),
            final(self).storage_applier() == old(self).storage_applier(),
            final(self).wired_reader() == old(self).wired_reader(),
    {
        &mut self.conflict_index
    }

    /// The protocol log, for update in place.
    pub fn sync_writer_mut(&mut self) -> (w: &mut W)
        requires
            old(self).wf(),
        ensures
            *w == old(self).log_writer(),
            *final(w) == final(self).log_writer(),
            w.attempts() == old(self)@.log,
            final(self).wf(),
            final(self)@ == (ReplicaView { log: final(w).attempts(), ..old(self)@ }),
            final(self).storage_applier() == old(self).storage_applier(),
            final(self).wired_reader() == old(self).wired_reader(),
    {
        &mut self.sync_writer
    }

    /// Position of a transaction's state, which is created where it is missing.
    fn ensure_state(&mut self, txn_id: TxnId, t0: Timestamp) -> (i: usize)
        requires
            old(self).wf(),
        ensures
            final(self).wf(),
            final(self)@ == (ReplicaView {
                txns: old(self)@.txns.insert(txn_id, old(self)@.known(txn_id, t0)),
                ..old(self)@
            }),
            old(self)@.txns.contains_key(txn_id) ==> final(self)@ == old(self)@,
            i < final(self).txn_states.spec_entries().len(),
            final(self).txn_states.spec_entries()[i as int].0 == txn_id,
            final(self).txn_states.spec_entries()[i as int].1 == final(self).txn_states@[txn_id],
            final(self).txn_states@.contains_key(txn_id),
            final(self).conflict_index == old(self).conflict_index,
            final(self).sync_writer == old(self).sync_writer,
            final(self).dep_waiters == old(self).dep_waiters,
            final(self).committed_txns == old(self).committed_txns,
            final(self).last_notified == old(self).last_notified,
            final(self).applier == old(self).applier,
            final(self).reader == old(self).reader,
            final(self).node_id == old(self).node_id,
    {
        match self.txn_states.position(&txn_id) {
            Some(i) => {
                assert(self@.txns =~= self@.txns.insert(txn_id, self@.txns[txn_id]));
                i
            },
            None => {
                let state = TxnState::new(txn_id, t0);
                let ghost before = self.txn_states@;
                let ghost old_view = self@;
                self.txn_states.insert(txn_id, state);
                proof {
                    lemma_states_insert(before, txn_id, state);
                    assert(self@ =~= (ReplicaView {
                        txns: old_view.txns.insert(txn_id, old_view.known(txn_id, t0)),
                        ..old_view
                    }));
                    assert forall|x: TxnId| #[trigger] self@.committed.contains(x) implies self@.is_decided(x) by {
                        assert(old_view.committed.contains(x));
                    }
                }
                let n: usize = match self.txn_states.position(&txn_id) {
                    Some(n) => n,
                    None => 0,
                };
                n
            },
        }
    }

    /// Register that `waiter_txn` waits for `dep_txn` to commit.
    pub fn register_dep_waiter(&mut self, dep_txn: TxnId, waiter_txn: TxnId)
        requires
            old(self).wf(),
        ensures
            final(self).wf(),
            final(self)@ == (ReplicaView {
                waiters: old(self)@.waiters.insert(
                    dep_txn,
                    old(self)@.waiting_for(dep_txn).push(waiter_txn),
                ),
                ..old(self)@
            }),
            final(self).log_writer() == old(self).log_writer(),
            final(self).storage_applier() == old(self).storage_applier(),
            final(self).wired_reader() == old(self).wired_reader(),
    {
        let ghost before = self.dep_waiters@;
        match self.dep_waiters.position(&dep_txn) {
            Some(i) => {
                let list = self.dep_waiters.value_mut(i);
                list.push(waiter_txn);
            },
            None => {
                let mut list: Vec<TxnId> = Vec::new();
                list.push(waiter_txn);
                self.dep_waiters.insert(dep_txn, list);
                assert(list@ =~= Seq::<TxnId>::empty().push(waiter_txn));
            },
        }
        assert(lists_view(self.dep_waiters@) =~= lists_view(before).insert(
            dep_txn,
            old(self)@.waiting_for(dep_txn).push(waiter_txn),
        ));
    }

    /// Handle a PreAccept.
    ///
    /// Refused where a higher ballot is promised or the transaction is already
    /// accepted; a repetition gets the first reply again. Otherwise the
    /// dependencies and the execution timestamp come from the conflict index. The
    /// step is made durable before the transaction is registered there and before
    /// it is answered; if that fails, nothing is kept and nothing answered.
    pub fn handle_preaccept(
        &mut self,
        txn_id: TxnId,
        t0: Timestamp,
        key: &[u8],
        ballot: BallotNumber,
        _epoch: u64,
    ) -> (resp: SmResponse)
        requires
            old(self).wf(),
        ensures
            final(self).wf(),
            final(self).storage_applier() == old(self).storage_applier(),
            final(self).wired_reader() == old(self).wired_reader(),
            ({
                let ok = crate::accord::protocol::logged(old(self)@.log, final(self)@.log);
                &&& final(self)@ == old(self)@.preaccept(txn_id, t0, key@, ballot.0 as nat, ok)
                &&& resp@ == old(self)@.preaccept_reply(txn_id, t0, key@, ballot.0 as nat, ok)
            }),
            resp matches SmResponse::PreAcceptOK { deps, .. } ==> deps@.no_duplicates(),
            // The log is left alone, or is asked once, for the record of this step.
            final(self)@.log == old(self)@.log ==> final(self).log_writer() == old(
                self,
            ).log_writer(),
            final(self)@.log != old(self)@.log ==> exists|w: &mut W, record: &[u8]|
                #[trigger] call_ensures(
                    W::write_and_sync,
                    (w, record),
                    final(self)@.log.last().1,
                ) && *w == old(self).log_writer() && *final(w) == final(self).log_writer()
                    && record@ == final(self)@.log.last().0,
            old(self)@.recorded() ==> final(self)@.recorded(),
            old(self)@.advances_to(final(self)@),
    {
        let ghost s = self@;
        proof {
            let b = ballot.0 as nat;
            crate::accord::protocol::messages_only_advance(
                s, txn_id, t0, t0, Set::empty(), key@, Seq::empty(), b, true, true);
            if s.recorded() {
                crate::accord::protocol::steps_are_recorded(
                    s, txn_id, t0, t0, Set::empty(), key@, Seq::empty(), b, true, true);
            }
            crate::accord::protocol::messages_only_advance(
                s, txn_id, t0, t0, Set::empty(), key@, Seq::empty(), b, false, true);
            if s.recorded() {
                crate::accord::protocol::steps_are_recorded(
                    s, txn_id, t0, t0, Set::empty(), key@, Seq::empty(), b, false, true);
            }
        }
        if let Some(state) = self.txn_states.get(&txn_id) {
            if ballot.0 < state.max_ballot_seen.0.0 {
                return SmResponse::Nack { txn_id, promised: state.max_ballot_seen };
            }
            if state.phase == TxnPhase::PreAccepted && state.t0 == t0 && state.preaccept_logged {
                return SmResponse::PreAcceptOK { txn_id, t: state.t, deps: state.deps.to_vec() };
            }
            if state.phase.rank() >= 1 {
                return SmResponse::Nack { txn_id, promised: state.max_ballot_seen };
            }
        }
        let deps = self.conflict_index.deps_before_t0(key, &t0);
        let latest = self.conflict_index.max_conflicting_timestamp(key);
        let t = choose_execution_time(t0, latest, self.node_id);
        let data = preaccepted_data(txn_id, t);
        let ok = self.sync_writer.write_and_sync(data.as_slice());
        if !ok {
            proof {
                assert(self@.log.last().1 == ok);
                assert(self@ =~= s.preaccept(txn_id, t0, key@, ballot.0 as nat, false));
            }
            return SmResponse::NoResponse;
        }
        let entry = InFlightWrite {
            txn_id,
            t0,
            accord_ts: None,
            status: TxnStatus::PreAccepted,
        };
        // A full index does not fail the message.
        let _ = self.conflict_index.register(key, entry);
        let deps_vec = deps.to_vec();
        let i = self.ensure_state(txn_id, t0);
        let ghost created = self.txn_states@;
        let state = self.txn_states.value_mut(i);
        state.pre_accept(t, deps);
        proof {
            lemma_states_insert(created, txn_id, self.txn_states@[txn_id]);
            let want = s.preaccept(txn_id, t0, key@, ballot.0 as nat, true);
            assert(self@.txns =~= want.txns);
            assert(self@.log.last().1 == ok);
            assert(self@ =~= want);
        }
        SmResponse::PreAcceptOK { txn_id, t, deps: deps_vec }
    }

    /// Handle an Accept.
    ///
    /// Refused where a higher ballot is promised; a no-op that is agreed to where
    /// the outcome is decided; a repetition gets the first reply again. Otherwise
    /// the step is made durable, the value accepted at the ballot, and the message
    /// answered.
    pub fn handle_accept(
        &mut self,
        txn_id: TxnId,
        t0: Timestamp,
        t: Timestamp,
        deps: Vec<TxnId>,
        ballot: BallotNumber,
    ) -> (resp: SmResponse)
        requires
            old(self).wf(),
        ensures
            final(self).wf(),
            final(self).storage_applier() == old(self).storage_applier(),
            final(self).wired_reader() == old(self).wired_reader(),
            ({
                let ok = crate::accord::protocol::logged(old(self)@.log, final(self)@.log);
                let b = ballot.0 as nat;
                &&& final(self)@ == old(self)@.accept(txn_id, t0, t, deps@.to_set(), b, ok)
                &&& resp@ == old(self)@.accept_reply(txn_id, t, deps@.to_set(), b, ok)
            }),
            resp matches SmResponse::AcceptOK { deps: answered, .. } ==> if old(self)@.is_decided(
                txn_id,
            ) {
                answered@.no_duplicates()
            } else {
                answered@ == deps@
            },
            // The log is left alone, or is asked once, for the record of this step.
            final(self)@.log == old(self)@.log ==> final(self).log_writer() == old(
                self,
            ).log_writer(),
            final(self)@.log != old(self)@.log ==> exists|w: &mut W, record: &[u8]|
                #[trigger] call_ensures(
                    W::write_and_sync,
                    (w, record),
                    final(self)@.log.last().1,
                ) && *w == old(self).log_writer() && *final(w) == final(self).log_writer()
                    && record@ == final(self)@.log.last().0,
            old(self)@.recorded() ==> final(self)@.recorded(),
            old(self)@.advances_to(final(self)@),
    {
        let ghost s = self@;
        let ghost given = deps@.to_set();
        proof {
            let b = ballot.0 as nat;
            crate::accord::protocol::messages_only_advance(
                s, txn_id, t0, t, given, Seq::empty(), Seq::empty(), b, true, true);
            if s.recorded() {
                crate::accord::protocol::steps_are_recorded(
                    s, txn_id, t0, t, given, Seq::empty(), Seq::empty(), b, true, true);
            }
            crate::accord::protocol::messages_only_advance(
                s, txn_id, t0, t, given, Seq::empty(), Seq::empty(), b, false, true);
            if s.recorded() {
                crate::accord::protocol::steps_are_recorded(
                    s, txn_id, t0, t, given, Seq::empty(), Seq::empty(), b, false, true);
            }
        }
        let deps_set = TxnSet::from_slice(deps.as_slice());
        if let Some(state) = self.txn_states.get(&txn_id) {
            if ballot.0 < state.max_ballot_seen.0.0 {
                return SmResponse::Nack { txn_id, promised: state.max_ballot_seen };
            }
            if state.phase == TxnPhase::Committed || state.phase == TxnPhase::Applied {
                return SmResponse::AcceptOK { txn_id, ballot, deps: state.deps.to_vec() };
            }
            if state.phase == TxnPhase::Accepted && state.accepted_ballot.0.0 == ballot.0 && state.t
                == t && state.deps.same_as(&deps_set) {
                return SmResponse::AcceptOK { txn_id, ballot, deps };
            }
        }
        let data = accepted_data(txn_id, t, ballot);
        let ok = self.sync_writer.write_and_sync(data.as_slice());
        if !ok {
            proof {
                assert(self@.log.last().1 == ok);
                assert(self@ =~= s.accept(txn_id, t0, t, given, ballot.0 as nat, false));
            }
            return SmResponse::NoResponse;
        }
        let i = self.ensure_state(txn_id, t0);
        let ghost created = self.txn_states@;
        let state = self.txn_states.value_mut(i);
        state.accept(AcceptedBallot(ballot), t, deps_set);
        proof {
            lemma_states_insert(created, txn_id, self.txn_states@[txn_id]);
            let want = s.accept(txn_id, t0, t, given, ballot.0 as nat, true);
            assert(self@.txns =~= want.txns);
            assert(self@.log.last().1 == ok);
            assert(self@ =~= want);
        }
        SmResponse::AcceptOK { txn_id, ballot, deps }
    }

    /// Handle a Commit, which is not answered.
    ///
    /// A no-op where the outcome is decided. The commit is made durable before
    /// the transaction becomes visible as committed and before the transactions
    /// that wait for it are woken; if that fails, nothing is decided.
    pub fn handle_commit(
        &mut self,
        txn_id: TxnId,
        t0: Timestamp,
        t: Timestamp,
        deps: Vec<TxnId>,
    ) -> (resp: SmResponse)
        requires
            old(self).wf(),
        ensures
            final(self).wf(),
            final(self).storage_applier() == old(self).storage_applier(),
            final(self).wired_reader() == old(self).wired_reader(),
            resp is NoResponse,
            final(self)@ == old(self)@.commit(
                txn_id,
                t0,
                t,
                deps@.to_set(),
                crate::accord::protocol::logged(old(self)@.log, final(self)@.log),
            ),
            // The log is left alone, or is asked once, for the record of this step.
            final(self)@.log == old(self)@.log ==> final(self).log_writer() == old(
                self,
            ).log_writer(),
            final(self)@.log != old(self)@.log ==> exists|w: &mut W, record: &[u8]|
                #[trigger] call_ensures(
                    W::write_and_sync,
                    (w, record),
                    final(self)@.log.last().1,
                ) && *w == old(self).log_writer() && *final(w) == final(self).log_writer()
                    && record@ == final(self)@.log.last().0,
            old(self)@.recorded() ==> final(self)@.recorded(),
            old(self)@.advances_to(final(self)@),
    {
        let ghost s = self@;
        let ghost given = deps@.to_set();
        proof {
            crate::accord::protocol::messages_only_advance(
                s, txn_id, t0, t, given, Seq::empty(), Seq::empty(), 0, true, true);
            if s.recorded() {
                crate::accord::protocol::steps_are_recorded(
                    s, txn_id, t0, t, given, Seq::empty(), Seq::empty(), 0, true, true);
            }
            crate::accord::protocol::messages_only_advance(
                s, txn_id, t0, t, given, Seq::empty(), Seq::empty(), 0, false, true);
            if s.recorded() {
                crate::accord::protocol::steps_are_recorded(
                    s, txn_id, t0, t, given, Seq::empty(), Seq::empty(), 0, false, true);
            }
        }
        let i = self.ensure_state(txn_id, t0);
        let phase = self.txn_states.value_at(i).phase;
        if phase == TxnPhase::Committed || phase == TxnPhase::Applied {
            return SmResponse::NoResponse;
        }
        let data = committed_data(txn_id, t);
        let ok = self.sync_writer.write_and_sync(data.as_slice());
        if !ok {
            proof {
                assert(self@.log.last().1 == ok);
                assert(self@ =~= s.commit(txn_id, t0, t, given, false));
            }
            return SmResponse::NoResponse;
        }
        let deps_set = TxnSet::from_slice(deps.as_slice());
        let ghost created = self.txn_states@;
        let state = self.txn_states.value_mut(i);
        state.commit(t, deps_set);
        self.committed_txns.insert(txn_id);
        let ghost lists = self.dep_waiters@;
        match self.dep_waiters.remove(&txn_id) {
            Some(waiters) => {
                self.last_notified = waiters;
            },
            None => {
                self.last_notified = Vec::new();
            },
        }
        proof {
            lemma_states_insert(created, txn_id, self.txn_states@[txn_id]);
            let want = s.commit(txn_id, t0, t, given, true);
            assert(self@.txns =~= want.txns);
            assert(lists_view(self.dep_waiters@) =~= lists_view(lists).remove(txn_id));
            assert(self@.notified =~= want.notified);
            assert(self@ =~= want);
            assert(self@.log.last().1 == ok);
        }
        SmResponse::NoResponse
    }

    /// Handle an Apply, which is not answered.
    ///
    /// A no-op where the transaction is unknown or already applied. The log
    /// record and then the mutation are made durable before the transaction is
    /// marked applied; if either fails, it is not marked.
    pub fn handle_apply(&mut self, txn_id: TxnId, result_data: Vec<u8>) -> (resp: SmResponse)
        requires
            old(self).wf(),
        ensures
            final(self).wf(),
            final(self).wired_reader() == old(self).wired_reader(),
            resp is NoResponse,
            final(self)@ == old(self)@.apply(
                txn_id,
                result_data@,
                crate::accord::protocol::logged(old(self)@.log, final(self)@.log),
                crate::accord::protocol::stored(old(self)@.storage, final(self)@.storage),
            ),
            // The log is left alone, or is asked once, for the record of this step.
            final(self)@.log == old(self)@.log ==> final(self).log_writer() == old(
                self,
            ).log_writer(),
            final(self)@.log != old(self)@.log ==> exists|w: &mut W, record: &[u8]|
                #[trigger] call_ensures(
                    W::write_and_sync,
                    (w, record),
                    final(self)@.log.last().1,
                ) && *w == old(self).log_writer() && *final(w) == final(self).log_writer()
                    && record@ == final(self)@.log.last().0,
            // Storage is left alone, or is asked once, for this mutation.
            final(self)@.storage == old(self)@.storage ==> final(self).storage_applier() == old(
                self,
            ).storage_applier(),
            final(self)@.storage != old(self)@.storage ==> exists|
                a: &mut A,
                mutation: ApplyMutation,
                outcome: Result<(), ApplyError>,
            |
                #[trigger] call_ensures(A::apply, (a, txn_id, mutation), outcome) && *a == old(
                    self,
                ).storage_applier() && *final(a) == final(self).storage_applier() && mutation@
                    == old(self)@.mutation(txn_id, result_data@) && (outcome is Ok
                    <==> final(self)@.storage.last().2),
            old(self)@.recorded() ==> final(self)@.recorded(),
            old(self)@.advances_to(final(self)@),
    {
        let ghost s = self@;
        let ghost z = Timestamp { epoch: 0, time: 0, seq: 0, node: 0 };
        proof {
            let d = result_data@;
            crate::accord::protocol::messages_only_advance(
                s, txn_id, z, z, Set::empty(), Seq::empty(), d, 0, true, true);
            if s.recorded() {
                crate::accord::protocol::steps_are_recorded(
                    s, txn_id, z, z, Set::empty(), Seq::empty(), d, 0, true, true);
            }
            crate::accord::protocol::messages_only_advance(
                s, txn_id, z, z, Set::empty(), Seq::empty(), d, 0, true, false);
            if s.recorded() {
                crate::accord::protocol::steps_are_recorded(
                    s, txn_id, z, z, Set::empty(), Seq::empty(), d, 0, true, false);
            }
            crate::accord::protocol::messages_only_advance(
                s, txn_id, z, z, Set::empty(), Seq::empty(), d, 0, false, false);
            if s.recorded() {
                crate::accord::protocol::steps_are_recorded(
                    s, txn_id, z, z, Set::empty(), Seq::empty(), d, 0, false, false);
            }
        }
        let i: usize = match self.txn_states.position(&txn_id) {
            Some(i) => i,
            None => {
                return SmResponse::NoResponse;
            },
        };
        let state = self.txn_states.value_at(i);
        if state.phase == TxnPhase::Applied {
            return SmResponse::NoResponse;
        }
        let t = state.t;
        let deps = state.deps.to_vec();
        let data = applied_data(txn_id);
        let ok = self.sync_writer.write_and_sync(data.as_slice());
        if !ok {
            proof {
                assert(self@.log.last().1 == ok);
                assert(self@ =~= s.apply(txn_id, result_data@, false, false));
            }
            return SmResponse::NoResponse;
        }
        let mutation = ApplyMutation { data: copy_bytes(result_data.as_slice()), t, deps };
        assert(mutation@ =~= s.mutation(txn_id, result_data@));
        match self.applier.apply(txn_id, mutation) {
            Ok(_) => {},
            Err(_) => {
                proof {
                    assert(self@.log.last().1 == ok);
                    assert(!self@.storage.last().2);
                    assert(self@ =~= s.apply(txn_id, result_data@, true, false));
                }
                return SmResponse::NoResponse;
            },
        }
        let ghost d = result_data@;
        let ghost created = self.txn_states@;
        let state = self.txn_states.value_mut(i);
        state.apply(result_data);
        self.conflict_index.mark_applied(&txn_id);
        proof {
            lemma_states_insert(created, txn_id, self.txn_states@[txn_id]);
            let want = s.apply(txn_id, d, true, true);
            assert(self@.log.last().1 == ok);
            assert(self@.storage.last().2);
            assert(self@.txns =~= want.txns);
            assert(self@ =~= want);
        }
        SmResponse::NoResponse
    }

    /// Handle a Recover: promise the ballot, keep the accepted one, and return
    /// the state; `None` where a higher ballot is promised, and where the promise
    /// could not be made durable.
    pub fn handle_recover(&mut self, txn_id: TxnId, t0: Timestamp, ballot: BallotNumber) -> (r: Option<
        TxnState,
    >)
        requires
            old(self).wf(),
        ensures
            final(self).wf(),
            final(self).storage_applier() == old(self).storage_applier(),
            final(self).wired_reader() == old(self).wired_reader(),
            ({
                let ok = crate::accord::protocol::logged(old(self)@.log, final(self)@.log);
                let reply = old(self)@.recover_reply(txn_id, t0, ballot.0 as nat, ok);
                &&& final(self)@ == old(self)@.recover(txn_id, t0, ballot.0 as nat, ok)
                &&& match r {
                    Some(state) => state.wf() && reply == Some(state@),
                    None => reply is None,
                }
            }),
            // The log is left alone, or is asked once, for the record of this step.
            final(self)@.log == old(self)@.log ==> final(self).log_writer() == old(
                self,
            ).log_writer(),
            final(self)@.log != old(self)@.log ==> exists|w: &mut W, record: &[u8]|
                #[trigger] call_ensures(
                    W::write_and_sync,
                    (w, record),
                    final(self)@.log.last().1,
                ) && *w == old(self).log_writer() && *final(w) == final(self).log_writer()
                    && record@ == final(self)@.log.last().0,
            old(self)@.recorded() ==> final(self)@.recorded(),
            old(self)@.advances_to(final(self)@),
    {
        let ghost s = self@;
        proof {
            let b = ballot.0 as nat;
            crate::accord::protocol::messages_only_advance(
                s, txn_id, t0, t0, Set::empty(), Seq::empty(), Seq::empty(), b, true, true);
            if s.recorded() {
                crate::accord::protocol::steps_are_recorded(
                    s, txn_id, t0, t0, Set::empty(), Seq::empty(), Seq::empty(), b, true, true);
            }
            crate::accord::protocol::messages_only_advance(
                s, txn_id, t0, t0, Set::empty(), Seq::empty(), Seq::empty(), b, false, true);
            if s.recorded() {
                crate::accord::protocol::steps_are_recorded(
                    s, txn_id, t0, t0, Set::empty(), Seq::empty(), Seq::empty(), b, false, true);
            }
        }
        if let Some(state) = self.txn_states.get(&txn_id) {
            if ballot.0 < state.max_ballot_seen.0.0 {
                return None;
            }
            if ballot.0 == state.max_ballot_seen.0.0 && state.promise_logged {
                assert(state@ =~= s.txns[txn_id].joined(ballot.0 as nat));
                return Some(state.copied());
            }
        }
        let data = promised_data(txn_id, ballot);
        let ok = self.sync_writer.write_and_sync(data.as_slice());
        if !ok {
            proof {
                assert(self@.log.last().1 == ok);
                assert(self@ =~= s.recover(txn_id, t0, ballot.0 as nat, false));
            }
            return None;
        }
        let i = self.ensure_state(txn_id, t0);
        let ghost created = self.txn_states@;
        let state = self.txn_states.value_mut(i);
        state.join_ballot(PromisedBallot(ballot));
        proof {
            lemma_states_insert(created, txn_id, self.txn_states@[txn_id]);
            let want = s.recover(txn_id, t0, ballot.0 as nat, true);
            assert(self@.txns =~= want.txns);
            assert(self@.log.last().1 == ok);
            assert(self@ =~= want);
        }
        Some(self.txn_states.value_at(i).copied())
    }

    /// Whether `INSERT IF NOT EXISTS` on `key` may proceed at `t`.
    ///
    /// It may not where a transaction registered on the key has been applied with a
    /// commit timestamp not after `t`, or is no longer known because it was applied
    /// and forgotten.
    pub fn read_condition_holds_at(&self, key: &[u8], t: &Timestamp) -> (holds: bool)
        requires
            self.wf(),
        ensures
            holds == self@.absent_at(key@, *t),
    {
        let writes = self.conflict_index.writes_on(key);
        let mut i: usize = 0;
        while i < writes.len()
            invariant
                self.wf(),
                i <= writes.len(),
                writes@ == self@.index.writes_on(key@),
                forall|j: int| 0 <= j < i ==> !self@.wrote_by(#[trigger] writes@[j], *t),
            decreases writes.len() - i,
        {
            let w = writes[i];
            let wrote: bool = match self.txn_states.get(&w.txn_id) {
                Some(state) => state.phase == TxnPhase::Applied && !t.is_before(&state.t),
                None => !t.is_before(&w.t0),
            };
            assert(wrote == self@.wrote_by(w, *t));
            if wrote {
                return false;
            }
            i += 1;
        }
        true
    }

    /// Forget the transactions that have been applied; returns how many entries
    /// were dropped from the transaction and commit tables together.
    pub fn prune_applied(&mut self) -> (dropped: usize)
        requires
            old(self).wf(),
            old(self)@.txns.len() + old(self)@.committed.len() <= usize::MAX,
        ensures
            final(self).wf(),
            final(self).log_writer() == old(self).log_writer(),
            final(self).storage_applier() == old(self).storage_applier(),
            final(self).wired_reader() == old(self).wired_reader(),
            final(self)@ == old(self)@.pruned(),
            old(self)@.recorded() ==> final(self)@.recorded(),
            dropped == (old(self)@.txns.len() - final(self)@.txns.len()) + (
            old(self)@.committed.len() - final(self)@.committed.len()),
    {
        let ghost s = self@;
        let before: usize = self.txn_count() + self.committed_count();
        let mut gone: Vec<TxnId> = Vec::new();
        let mut i: usize = 0;
        let n: usize = self.txn_states.len();
        proof {
            self.txn_states.lemma_entries();
        }
        while i < n
            invariant
                *self == *old(self),
                self.wf(),
                s == self@,
                n == self.txn_states.spec_entries().len(),
                i <= n,
                forall|j: int|
                    0 <= j < gone@.len() ==> s.applied_ids().contains(#[trigger] gone@[j]),
                forall|j: int|
                    0 <= j < i && (#[trigger] self.txn_states.spec_entries()[j]).1.phase
                        == TxnPhase::Applied ==> gone@.contains(
                        self.txn_states.spec_entries()[j].0,
                    ),
            decreases n - i,
        {
            proof {
                self.txn_states.lemma_entries();
            }
            let id = *self.txn_states.key_at(i);
            assert(self.txn_states.spec_entries()[i as int].0@ == id);
            if self.txn_states.value_at(i).phase == TxnPhase::Applied {
                let ghost g0 = gone@;
                gone.push(id);
                assert(gone@[g0.len() as int] == id);
                assert forall|x: TxnId| g0.contains(x) implies gone@.contains(x) by {
                    let j = choose|j: int| 0 <= j < g0.len() && g0[j] == x;
                    assert(gone@[j] == x);
                }
            }
            i += 1;
        }
        assert(gone@.to_set() =~= s.applied_ids()) by {
            self.txn_states.lemma_entries();
            assert forall|x: TxnId| s.applied_ids().contains(x) implies gone@.contains(x) by {
                let j = choose|j: int|
                    0 <= j < self.txn_states.spec_entries().len() && (
                    #[trigger] self.txn_states.spec_entries()[j]).0@ == x;
                assert(self.txn_states.spec_entries()[j].1 == self.txn_states@[x]);
            }
        }
        let mut k: usize = 0;
        assert(gone@.take(0).to_set() =~= Set::<TxnId>::empty());
        assert(s.txns.remove_keys(Set::<TxnId>::empty()) =~= s.txns);
        assert(s.waiters.remove_keys(Set::<TxnId>::empty()) =~= s.waiters);
        assert(s.committed.difference(Set::<TxnId>::empty()) =~= s.committed);
        while k < gone.len()
            invariant
                k <= gone.len(),
                self.txn_states.wf(),
                self.dep_waiters.wf(),
                self.committed_txns.wf(),
                forall|id: TxnId| #[trigger]
                    self.txn_states@.contains_key(id) ==> self.txn_states@[id].wf(),
                self.sync_writer == old(self).sync_writer,
                self.applier == old(self).applier,
                self.reader == old(self).reader,
                self@ == (ReplicaView {
                    txns: s.txns.remove_keys(gone@.take(k as int).to_set()),
                    committed: s.committed.difference(gone@.take(k as int).to_set()),
                    waiters: s.waiters.remove_keys(gone@.take(k as int).to_set()),
                    ..s
                }),
            decreases gone.len() - k,
        {
            let ghost done = gone@.take(k as int).to_set();
            let ghost next = gone@.take(k + 1).to_set();
            let id = gone[k];
            proof {
                assert(gone@.take(k + 1) =~= gone@.take(k as int).push(id));
                crate::accord::types::lemma_push_to_set(gone@.take(k as int), id);
            }
            let ghost t0 = self.txn_states@;
            let ghost w0 = self.dep_waiters@;
            self.txn_states.remove(&id);
            self.committed_txns.remove(&id);
            self.dep_waiters.remove(&id);
            proof {
                assert(states_view(self.txn_states@) =~= states_view(t0).remove(id));
                assert(lists_view(self.dep_waiters@) =~= lists_view(w0).remove(id));
                assert(s.txns.remove_keys(done).remove(id) =~= s.txns.remove_keys(next));
                assert(s.waiters.remove_keys(done).remove(id) =~= s.waiters.remove_keys(next));
                assert(s.committed.difference(done).remove(id) =~= s.committed.difference(next));
            }
            k += 1;
        }
        assert(gone@.take(gone@.len() as int) =~= gone@);
        self.conflict_index.gc_applied();
        proof {
            assert(self@ =~= s.pruned());
            crate::accord::protocol::pruning_keeps_live_transactions(s, TxnId(Timestamp {
                epoch: 0, time: 0, seq: 0, node: 0 }));
            old(self).txn_states.lemma_entries();
            assert(s.txns.dom() =~= old(self).txn_states@.dom());
            lemma_pruned_sizes(s);
        }
        let after: usize = self.txn_count() + self.committed_count();
        before - after
    }

    /// Read a row at `t` through the wired reader.
    ///
    /// `None` where no reader is wired, where there is no row at `t`, and where
    /// the read fails: the replica then abstains. A wired reader is asked for
    /// this very row, and its answer is the row returned. Which answer that is,
    /// is storage's to say.
    pub fn read_row_bytes_at(&self, keyspace: &str, table: &str, key: &[u8], t: Timestamp) -> (row:
        Option<Vec<u8>>)
        ensures
            match self.wired_reader() {
                Some(reader) => exists|read: Result<Option<Vec<u8>>, ReadError>|
                    #[trigger] call_ensures(
                        R::read_row_at,
                        (&reader, keyspace, table, key, t),
                        read,
                    ) && row == row_read(read),
                None => row is None,
            },
    {
        match &self.reader {
            Some(reader) => row_from_read(reader.read_row_at(keyspace, table, key, t)),
            None => None,
        }
    }
}

/// The row that a read found: nothing where there is none or where the read
/// failed.
pub open spec fn row_read(read: Result<Option<Vec<u8>>, ReadError>) -> Option<Vec<u8>> {
    match read {
        Ok(found) => found,
        Err(_) => None,
    }
}

/// What a read means for a vote: the row found, nothing where there is none or
/// where the read failed.
pub fn row_from_read(read: Result<Option<Vec<u8>>, ReadError>) -> (row: Option<Vec<u8>>)
    ensures
        row == row_read(read),
{
    match read {
        Ok(found) => found,
        Err(_) => None,
    }
}

/// Pruning only shrinks the tables.
proof fn lemma_pruned_sizes(s: ReplicaView)
    requires
        s.txns.dom().finite(),
        s.committed.finite(),
    ensures
        s.pruned().txns.len() <= s.txns.len(),
        s.pruned().committed.len() <= s.committed.len(),
        s.pruned().txns.dom().finite(),
        s.pruned().committed.finite(),
{
    vstd::set_lib::lemma_len_subset(s.pruned().txns.dom(), s.txns.dom());
    vstd::set_lib::lemma_len_subset(s.pruned().committed, s.committed);
}

/// A response is modelled by its kind and what it carries: dependencies by which they are,
/// ballots by their number.
pub proof fn models_say_what_is_answered(r: SmResponse, id: TxnId)
    ensures
        r matches SmResponse::PreAcceptOK { txn_id, t, deps } ==> {
            &&& r@ matches ReplyView::PreAcceptOK { txn_id: x, t: u, deps: d }
            &&& x == txn_id && u == t
            &&& d.contains(id) <==> deps@.contains(id)
        },
        r matches SmResponse::AcceptOK { txn_id, ballot, deps } ==> {
            &&& r@ matches ReplyView::AcceptOK { txn_id: x, ballot: b, deps: d }
            &&& x == txn_id && b == ballot.0
            &&& d.contains(id) <==> deps@.contains(id)
        },
        r matches SmResponse::Nack { txn_id, promised } ==> r@ == (ReplyView::Nack {
            txn_id,
            promised: promised.0.0 as nat,
        }),
        r is NoResponse <==> r@ is Silence,
{
}

/// A replica begins knowing no transaction, with room for as many conflicts as asked for.
pub proof fn replicas_begin_knowing_nothing(
    node_id: u64,
    capacity: nat,
    log: Seq<(Seq<u8>, bool)>,
    storage: Seq<(TxnId, crate::accord::apply::MutationView, bool)>,
    id: TxnId,
)
    ensures
        ({
            let s = idle_replica(node_id, capacity, log, storage);
            &&& s.node_id == node_id && s.index.capacity == capacity
            &&& !s.txns.contains_key(id) && !s.waiters.contains_key(id)
            &&& !s.committed.contains(id) && s.notified.len() == 0
            &&& s.index.writes.len() == 0 && s.index.ranges.len() == 0
            &&& s.log == log && s.storage == storage
        }),
        DEFAULT_CONFLICT_CAPACITY == 100_000,
{
}

/// A read gives the row that was found, and none where there is none or the read failed.
pub proof fn failed_reads_find_no_row(row: Vec<u8>, e: ReadError)
    ensures
        row_read(Ok(Some(row))) == Some(row),
        row_read(Ok(None)) is None,
        row_read(Err(e)) is None,
{
}

} // verus!
