//! Schema changes coordinated with transactions, in two phases.
//!
//! A marker transaction is agreed on first; transactions that touch the table
//! meanwhile wait for it. Once it has committed and they have resolved, the
//! schema change itself is applied and becomes visible.

use vstd::prelude::*;

use crate::accord::types::{TxnId, TxnSet};
use crate::collections::VecMap;
use crate::text::append_duration;

verus! {

/// Table name.
pub type TableId = String;

/// A schema change.
#[derive(Clone, Debug, PartialEq, Eq)]
pub enum DdlOperation {
    AlterTable { table: TableId, description: String },
    CreateIndex { table: TableId, column: String },
    DropTable { table: TableId },
    DropIndex { table: TableId, index_name: String },
}

impl DdlOperation {
    /// The table that is changed.
    pub open spec fn spec_table(&self) -> Seq<char> {
        match *self {
            DdlOperation::AlterTable { table, .. } => table@,
            DdlOperation::CreateIndex { table, .. } => table@,
            DdlOperation::DropTable { table } => table@,
            DdlOperation::DropIndex { table, .. } => table@,
        }
    }

    /// The table that is changed.
    pub fn table(&self) -> (t: &str)
        ensures
            t@ == self.spec_table(),
    {
        match self {
            DdlOperation::AlterTable { table, .. } => table.as_str(),
            DdlOperation::CreateIndex { table, .. } => table.as_str(),
            DdlOperation::DropTable { table } => table.as_str(),
            DdlOperation::DropIndex { table, .. } => table.as_str(),
        }
    }
}

/// Progress of a schema change.
#[derive(Clone, Copy, Debug, PartialEq, Eq, Structural)]
pub enum DdlPhase {
    /// The marker has been submitted.
    MarkerPending,
    /// The marker has committed; waiting transactions resolve.
    MarkerCommitted,
    /// The schema change is being applied.
    Applying,
    /// The schema change is visible.
    Complete,
    /// Given up.
    Aborted,
}

/// A schema change was refused.
#[derive(Clone, Debug, PartialEq, Eq)]
pub enum TwoPhaseDdlError {
    /// The marker did not commit in time.
    Timeout { table: TableId, elapsed_ms: u64 },
    /// Another change of the same table is active.
    ConcurrentDdl { table: TableId },
    /// No change of the table is active.
    TableNotFound { table: TableId },
    /// The change of the table is visible already.
    AlreadyComplete { table: TableId },
}

impl TwoPhaseDdlError {
    /// The message for this error.
    pub open spec fn spec_message(&self) -> Seq<char> {
        match *self {
            TwoPhaseDdlError::Timeout { table, elapsed_ms } => "DDL on "@ + table@
                + " timed out after "@ + crate::text::duration_text(elapsed_ms as nat),
            TwoPhaseDdlError::ConcurrentDdl { table } => "concurrent DDL already active on "@
                + table@,
            TwoPhaseDdlError::TableNotFound { table } => "table "@ + table@ + " not found"@,
            TwoPhaseDdlError::AlreadyComplete { table } => "DDL on "@ + table@
                + " already complete"@,
        }
    }

    /// The message for this error.
    pub fn message(&self) -> (m: String)
        ensures
            m@ == self.spec_message(),
    {
        let mut m = String::new();
        match self {
            TwoPhaseDdlError::Timeout { table, elapsed_ms } => {
                m.append("DDL on ");
                m.append(table.as_str());
                m.append(" timed out after ");
                append_duration(&mut m, *elapsed_ms);
            },
            TwoPhaseDdlError::ConcurrentDdl { table } => {
                m.append("concurrent DDL already active on ");
                m.append(table.as_str());
            },
            TwoPhaseDdlError::TableNotFound { table } => {
                m.append("table ");
                m.append(table.as_str());
                m.append(" not found");
            },
            TwoPhaseDdlError::AlreadyComplete { table } => {
                m.append("DDL on ");
                m.append(table.as_str());
                m.append(" already complete");
            },
        }
        assert(m@ =~= self.spec_message());
        m
    }
}

/// A schema change in progress.
#[derive(Debug)]
pub struct DdlMarker {
    /// The marker transaction.
    pub txn_id: TxnId,
    /// The schema change.
    pub operation: DdlOperation,
    /// Progress.
    pub phase: DdlPhase,
    /// Transactions that wait for the marker.
    pub dep_waiters: TxnSet,
}

/// An abstract schema change in progress.
#[verifier::ext_equal]
pub struct MarkerView {
    pub txn_id: TxnId,
    pub operation: DdlOperation,
    pub phase: DdlPhase,
    pub waiters: Set<TxnId>,
}

impl View for DdlMarker {
    type V = MarkerView;

    open spec fn view(&self) -> MarkerView {
        MarkerView {
            txn_id: self.txn_id,
            operation: self.operation,
            phase: self.phase,
            waiters: self.dep_waiters@,
        }
    }
}

/// Schema changes in progress and the schema versions reached.
pub struct TwoPhaseDdlManager {
    active_ddl: VecMap<TableId, DdlMarker>,
    timeout_ms: u64,
    schema_versions: VecMap<TableId, u64>,
}

/// The abstract manager.
#[verifier::ext_equal]
pub struct DdlView {
    /// The active change of each table.
    pub active: Map<Seq<char>, MarkerView>,
    /// How long a marker may take to commit.
    pub timeout_ms: u64,
    /// Completed changes of each table, where there are any.
    pub versions: Map<Seq<char>, u64>,
}

impl DdlView {
    /// Number of completed changes of a table.
    pub open spec fn version(self, table: Seq<char>) -> u64 {
        if self.versions.contains_key(table) {
            self.versions[table]
        } else {
            0
        }
    }

    /// The table's active change is in `phase`.
    pub open spec fn is_in(self, table: Seq<char>, phase: DdlPhase) -> bool {
        self.active.contains_key(table) && self.active[table].phase == phase
    }

    /// With the table's active change in `phase`.
    pub open spec fn with_phase(self, table: Seq<char>, phase: DdlPhase) -> DdlView {
        DdlView {
            active: self.active.insert(table, MarkerView { phase, ..self.active[table] }),
            ..self
        }
    }

    /// With other waiters on the table's active change.
    pub open spec fn with_waiters(self, table: Seq<char>, waiters: Set<TxnId>) -> DdlView {
        DdlView {
            active: self.active.insert(table, MarkerView { waiters, ..self.active[table] }),
            ..self
        }
    }

    /// After submitting a marker.
    pub open spec fn submitted(self, txn_id: TxnId, operation: DdlOperation) -> DdlView {
        if self.active.contains_key(operation.spec_table()) {
            self
        } else {
            DdlView {
                active: self.active.insert(
                    operation.spec_table(),
                    MarkerView {
                        txn_id,
                        operation,
                        phase: DdlPhase::MarkerPending,
                        waiters: Set::empty(),
                    },
                ),
                ..self
            }
        }
    }

    /// After moving the table's change from one phase to the next, where it is in
    /// the first.
    pub open spec fn stepped(self, table: Seq<char>, from: DdlPhase, to: DdlPhase) -> DdlView {
        if self.is_in(table, from) {
            self.with_phase(table, to)
        } else {
            self
        }
    }

    /// After completing the table's change, where it is being applied.
    pub open spec fn completed(self, table: Seq<char>) -> DdlView {
        if self.is_in(table, DdlPhase::Applying) {
            DdlView {
                versions: self.versions.insert(table, (self.version(table) + 1) as u64),
                ..self.with_phase(table, DdlPhase::Complete)
            }
        } else {
            self
        }
    }

    /// The table's change is over.
    pub open spec fn is_over(self, table: Seq<char>) -> bool {
        self.is_in(table, DdlPhase::Complete) || self.is_in(table, DdlPhase::Aborted)
    }

    /// After forgetting the table's change, where it is over.
    pub open spec fn cleaned(self, table: Seq<char>) -> DdlView {
        if self.is_over(table) {
            DdlView { active: self.active.remove(table), ..self }
        } else {
            self
        }
    }

    /// After giving up the table's change, where it is not visible already.
    pub open spec fn aborted(self, table: Seq<char>) -> DdlView {
        if self.active.contains_key(table) && !self.is_in(table, DdlPhase::Complete) {
            self.with_phase(table, DdlPhase::Aborted)
        } else {
            self
        }
    }

    /// The table's change can be applied: its marker has committed, and nothing
    /// waits for it any more.
    pub open spec fn can_apply(self, table: Seq<char>) -> bool {
        self.is_in(table, DdlPhase::MarkerCommitted) && self.active[table].waiters == Set::<
            TxnId,
        >::empty()
    }

    /// After beginning to apply the table's change, where it can be applied.
    pub open spec fn applying(self, table: Seq<char>) -> DdlView {
        if self.can_apply(table) {
            self.with_phase(table, DdlPhase::Applying)
        } else {
            self
        }
    }
}

/// The views of the markers.
pub open spec fn markers_view(m: Map<Seq<char>, DdlMarker>) -> Map<Seq<char>, MarkerView> {
    m.map_values(|x: DdlMarker| x@)
}

impl View for TwoPhaseDdlManager {
    type V = DdlView;

    closed spec fn view(&self) -> DdlView {
        DdlView {
            active: markers_view(self.active_ddl@),
            timeout_ms: self.timeout_ms,
            versions: self.schema_versions@,
        }
    }
}

impl TwoPhaseDdlManager {
    /// How long a marker may take unless told otherwise, in milliseconds.
    pub const DEFAULT_TIMEOUT: u64 = 30_000;

    /// Tables and waiter sets are well formed.
    pub closed spec fn wf(&self) -> bool {
        &&& self.active_ddl.wf()
        &&& self.schema_versions.wf()
        &&& forall|t: Seq<char>| #[trigger]
            self.active_ddl@.contains_key(t) ==> self.active_ddl@[t].dep_waiters.wf()
    }

    /// A manager with the default timeout.
    pub fn new() -> (m: TwoPhaseDdlManager)
        ensures
            m.wf(),
            m@ == (DdlView { active: Map::empty(), timeout_ms: 30_000, versions: Map::empty() }),
    {
        Self::with_timeout(Self::DEFAULT_TIMEOUT)
    }

    /// A manager with another timeout.
    pub fn with_timeout(timeout_ms: u64) -> (m: TwoPhaseDdlManager)
        ensures
            m.wf(),
            m@ == (DdlView { active: Map::empty(), timeout_ms, versions: Map::empty() }),
    {
        let m = TwoPhaseDdlManager {
            active_ddl: VecMap::new(),
            timeout_ms,
            schema_versions: VecMap::new(),
        };
        assert(m@.active =~= Map::empty());
        m
    }

    /// Submit a marker; refused where a change of the same table is active.
    pub fn submit_marker(&mut self, txn_id: TxnId, operation: DdlOperation) -> (r: Result<
        (),
        TwoPhaseDdlError,
    >)
        requires
            old(self).wf(),
        ensures
            final(self).wf(),
            final(self)@ == old(self)@.submitted(txn_id, operation),
            match r {
                Ok(_) => !old(self)@.active.contains_key(operation.spec_table()),
                Err(TwoPhaseDdlError::ConcurrentDdl { table }) => table@ == operation.spec_table()
                    && old(self)@.active.contains_key(operation.spec_table()),
                Err(_) => false,
            },
    {
        let table: String = operation.table().to_owned();
        if self.active_ddl.contains_key(table.as_str()) {
            return Err(TwoPhaseDdlError::ConcurrentDdl { table });
        }
        let marker = DdlMarker {
            txn_id,
            operation,
            phase: DdlPhase::MarkerPending,
            dep_waiters: TxnSet::new(),
        };
        let ghost before = self.active_ddl@;
        let ghost mv = marker@;
        self.active_ddl.insert(table, marker);
        assert(markers_view(self.active_ddl@) =~= markers_view(before).insert(
            operation.spec_table(),
            mv,
        ));
        Ok(())
    }

    /// The marker transaction of the table's active change.
    pub fn active_marker(&self, table: &str) -> (r: Option<TxnId>)
        requires
            self.wf(),
        ensures
            r == (if self@.active.contains_key(table@) {
                Some(self@.active[table@].txn_id)
            } else {
                None
            }),
    {
        match self.active_ddl.get(table) {
            Some(m) => Some(m.txn_id),
            None => None,
        }
    }

    /// Make a transaction wait for the table's active change; says whether there
    /// is one.
    pub fn register_dep_wait(&mut self, table: &str, dml_txn: TxnId) -> (b: bool)
        requires
            old(self).wf(),
        ensures
            final(self).wf(),
            b == old(self)@.active.contains_key(table@),
            final(self)@ == (if b {
                old(self)@.with_waiters(table@, old(self)@.active[table@].waiters.insert(dml_txn))
            } else {
                old(self)@
            }),
    {
        let ghost before = self.active_ddl@;
        match self.active_ddl.position(table) {
            Some(i) => {
                let marker = self.active_ddl.value_mut(i);
                marker.dep_waiters.insert(dml_txn);
                assert(markers_view(self.active_ddl@) =~= markers_view(before).insert(
                    table@,
                    MarkerView {
                        waiters: before[table@].dep_waiters@.insert(dml_txn),
                        ..before[table@]@
                    },
                ));
                true
            },
            None => false,
        }
    }

    /// Move the table's change to `to` where it is in `from`.
    fn step(&mut self, table: &str, from: DdlPhase, to: DdlPhase) -> (b: bool)
        requires
            old(self).wf(),
        ensures
            final(self).wf(),
            b == old(self)@.is_in(table@, from),
            final(self)@ == old(self)@.stepped(table@, from, to),
            final(self).schema_versions == old(self).schema_versions,
    {
        let ghost before = self.active_ddl@;
        match self.active_ddl.position(table) {
            Some(i) => {
                if self.active_ddl.value_at(i).phase == from {
                    let marker = self.active_ddl.value_mut(i);
                    marker.phase = to;
                    assert(markers_view(self.active_ddl@) =~= markers_view(before).insert(
                        table@,
                        MarkerView { phase: to, ..before[table@]@ },
                    ));
                    return true;
                }
                false
            },
            None => false,
        }
    }

    /// The table's marker has committed; says whether it was pending.
    pub fn mark_committed(&mut self, table: &str) -> (b: bool)
        requires
            old(self).wf(),
        ensures
            final(self).wf(),
            b == old(self)@.is_in(table@, DdlPhase::MarkerPending),
            final(self)@ == old(self)@.stepped(
                table@,
                DdlPhase::MarkerPending,
                DdlPhase::MarkerCommitted,
            ),
    {
        self.step(table, DdlPhase::MarkerPending, DdlPhase::MarkerCommitted)
    }

    /// Begin applying the table's change; says whether it could be applied: its
    /// marker had committed, and all transactions that waited for it had resolved.
    pub fn begin_apply(&mut self, table: &str) -> (b: bool)
        requires
            old(self).wf(),
        ensures
            final(self).wf(),
            b == old(self)@.can_apply(table@),
            final(self)@ == old(self)@.applying(table@),
    {
        if !self.all_dep_waiters_resolved(table) {
            return false;
        }
        self.step(table, DdlPhase::MarkerCommitted, DdlPhase::Applying)
    }

    /// The table's change is visible; says whether it was being applied.
    pub fn complete(&mut self, table: &str) -> (b: bool)
        requires
            old(self).wf(),
            old(self)@.is_in(table@, DdlPhase::Applying) ==> old(self)@.version(table@) < u64::MAX,
        ensures
            final(self).wf(),
            b == old(self)@.is_in(table@, DdlPhase::Applying),
            final(self)@ == old(self)@.completed(table@),
    {
        if !self.step(table, DdlPhase::Applying, DdlPhase::Complete) {
            return false;
        }
        let version: u64 = self.schema_version(table) + 1;
        self.schema_versions.insert(table.to_owned(), version);
        assert(self@ =~= old(self)@.completed(table@));
        true
    }

    /// Forget the table's change where it is complete or given up.
    pub fn cleanup(&mut self, table: &str) -> (r: Option<DdlMarker>)
        requires
            old(self).wf(),
        ensures
            final(self).wf(),
            final(self)@ == old(self)@.cleaned(table@),
            match r {
                Some(m) => old(self)@.is_over(table@) && m@ == old(self)@.active[table@],
                None => !old(self)@.is_over(table@),
            },
    {
        let ghost before = self.active_ddl@;
        let over: bool = match self.active_ddl.get(table) {
            Some(m) => m.phase == DdlPhase::Complete || m.phase == DdlPhase::Aborted,
            None => false,
        };
        if !over {
            return None;
        }
        let r = self.active_ddl.remove(table);
        assert(markers_view(self.active_ddl@) =~= markers_view(before).remove(table@));
        r
    }

    /// Give up the table's change after `elapsed_ms`, whatever it waits for. A
    /// change that is visible already cannot be given up.
    pub fn abort_timeout(&mut self, table: &str, _elapsed_ms: u64) -> (r: Result<(), TwoPhaseDdlError>)
        requires
            old(self).wf(),
        ensures
            final(self).wf(),
            final(self)@ == old(self)@.aborted(table@),
            match r {
                Ok(_) => old(self)@.active.contains_key(table@) && !old(self)@.is_in(
                    table@,
                    DdlPhase::Complete,
                ),
                Err(TwoPhaseDdlError::TableNotFound { table: t }) => t@ == table@
                    && !old(self)@.active.contains_key(table@),
                Err(TwoPhaseDdlError::AlreadyComplete { table: t }) => t@ == table@ && old(
                    self,
                )@.is_in(table@, DdlPhase::Complete),
                Err(_) => false,
            },
    {
        let phase: DdlPhase = match self.phase(table) {
            Some(phase) => phase,
            None => {
                return Err(TwoPhaseDdlError::TableNotFound { table: table.to_owned() });
            },
        };
        if phase == DdlPhase::Complete {
            return Err(TwoPhaseDdlError::AlreadyComplete { table: table.to_owned() });
        }
        self.step(table, phase, DdlPhase::Aborted);
        Ok(())
    }

    /// Progress of the table's active change.
    pub fn phase(&self, table: &str) -> (r: Option<DdlPhase>)
        requires
            self.wf(),
        ensures
            r == (if self@.active.contains_key(table@) {
                Some(self@.active[table@].phase)
            } else {
                None
            }),
    {
        match self.active_ddl.get(table) {
            Some(m) => Some(m.phase),
            None => None,
        }
    }

    /// Number of completed changes of a table.
    pub fn schema_version(&self, table: &str) -> (v: u64)
        requires
            self.wf(),
        ensures
            v == self@.version(table@),
    {
        match self.schema_versions.get(table) {
            Some(v) => *v,
            None => 0,
        }
    }

    /// The transactions that wait for the table's active change.
    pub fn dep_waiters(&self, table: &str) -> (r: Option<&TxnSet>)
        requires
            self.wf(),
        ensures
            match r {
                Some(s) => s.wf() && self@.active.contains_key(table@) && s@
                    == self@.active[table@].waiters,
                None => !self@.active.contains_key(table@),
            },
    {
        match self.active_ddl.get(table) {
            Some(m) => Some(&m.dep_waiters),
            None => None,
        }
    }

    /// How long a marker may take to commit, in milliseconds.
    pub fn timeout(&self) -> (ms: u64)
        ensures
            ms == self@.timeout_ms,
    {
        self.timeout_ms
    }

    /// A waiting transaction has resolved; says whether it was waiting.
    pub fn resolve_dep_waiter(&mut self, table: &str, dml_txn: &TxnId) -> (b: bool)
        requires
            old(self).wf(),
        ensures
            final(self).wf(),
            b == (old(self)@.active.contains_key(table@) && old(self)@.active[table@].waiters.contains(
                *dml_txn,
            )),
            final(self)@ == (if old(self)@.active.contains_key(table@) {
                old(self)@.with_waiters(table@, old(self)@.active[table@].waiters.remove(*dml_txn))
            } else {
                old(self)@
            }),
    {
        let ghost before = self.active_ddl@;
        match self.active_ddl.position(table) {
            Some(i) => {
                let marker = self.active_ddl.value_mut(i);
                let b = marker.dep_waiters.remove(dml_txn);
                assert(markers_view(self.active_ddl@) =~= markers_view(before).insert(
                    table@,
                    MarkerView {
                        waiters: before[table@].dep_waiters@.remove(*dml_txn),
                        ..before[table@]@
                    },
                ));
                b
            },
            None => false,
        }
    }

    /// Whether nothing waits for the table's active change.
    pub fn all_dep_waiters_resolved(&self, table: &str) -> (b: bool)
        requires
            self.wf(),
        ensures
            b == (self@.active.contains_key(table@) ==> self@.active[table@].waiters == Set::<
                TxnId,
            >::empty()),
    {
        match self.active_ddl.get(table) {
            Some(m) => m.dep_waiters.is_empty(),
            None => true,
        }
    }
}

impl Default for TwoPhaseDdlManager {
    fn default() -> (m: Self)
        ensures
            m.wf(),
            m@ == (DdlView { active: Map::empty(), timeout_ms: 30_000, versions: Map::empty() }),
    {
        Self::new()
    }
}

/// A change that has been given up stays so: it cannot commit, be applied or
/// complete, and no version is reached; it makes way once it is cleaned up.
pub proof fn aborted_changes_stay_aborted(s: DdlView, table: Seq<char>, id: TxnId, op: DdlOperation)
    requires
        s.is_in(table, DdlPhase::Aborted),
        op.spec_table() == table,
    ensures
        s.stepped(table, DdlPhase::MarkerPending, DdlPhase::MarkerCommitted) == s,
        s.applying(table) == s,
        s.completed(table) == s,
        s.submitted(id, op) == s,
        !s.cleaned(table).active.contains_key(table),
        s.cleaned(table).submitted(id, op).is_in(table, DdlPhase::MarkerPending),
        s.cleaned(table).version(table) == s.version(table),
{
}

/// A schema version is reached by completing a change and in no other way, and
/// only by going through every phase in order.
pub proof fn versions_count_completed_changes(
    s: DdlView,
    table: Seq<char>,
    id: TxnId,
    op: DdlOperation,
)
    requires
        op.spec_table() == table,
        !s.active.contains_key(table),
        s.version(table) < u64::MAX,
    ensures
        ({
            let submitted = s.submitted(id, op);
            let committed = submitted.stepped(
                table,
                DdlPhase::MarkerPending,
                DdlPhase::MarkerCommitted,
            );
            let applying = committed.applying(table);
            let complete = applying.completed(table);
            &&& submitted.version(table) == s.version(table)
            &&& committed.version(table) == s.version(table)
            &&& applying.version(table) == s.version(table)
            &&& complete.version(table) == s.version(table) + 1
            &&& complete.is_in(table, DdlPhase::Complete)
            // No phase can be left out.
            &&& submitted.applying(table) == submitted
            &&& submitted.completed(table) == submitted
            &&& committed.completed(table) == committed
            // Nor gone through twice, nor taken back.
            &&& complete.completed(table) == complete
            &&& complete.aborted(table) == complete
            &&& s.aborted(table).version(table) == s.version(table)
            &&& complete.cleaned(table).version(table) == complete.version(table)
        }),
{
}

/// A step of the manager.
pub enum DdlStep {
    Submit { txn_id: TxnId, operation: DdlOperation },
    Wait { table: Seq<char>, txn_id: TxnId },
    Resolve { table: Seq<char>, txn_id: TxnId },
    Commit { table: Seq<char> },
    Apply { table: Seq<char> },
    Complete { table: Seq<char> },
    Clean { table: Seq<char> },
    Abort { table: Seq<char> },
}

impl DdlView {
    /// After a step.
    pub open spec fn after(self, step: DdlStep) -> DdlView {
        match step {
            DdlStep::Submit { txn_id, operation } => self.submitted(txn_id, operation),
            DdlStep::Wait { table, txn_id } => if self.active.contains_key(table) {
                self.with_waiters(table, self.active[table].waiters.insert(txn_id))
            } else {
                self
            },
            DdlStep::Resolve { table, txn_id } => if self.active.contains_key(table) {
                self.with_waiters(table, self.active[table].waiters.remove(txn_id))
            } else {
                self
            },
            DdlStep::Commit { table } => self.stepped(
                table,
                DdlPhase::MarkerPending,
                DdlPhase::MarkerCommitted,
            ),
            DdlStep::Apply { table } => self.applying(table),
            DdlStep::Complete { table } => self.completed(table),
            DdlStep::Clean { table } => self.cleaned(table),
            DdlStep::Abort { table } => self.aborted(table),
        }
    }

    /// After several steps, in order.
    pub open spec fn after_all(self, steps: Seq<DdlStep>) -> DdlView
        decreases steps.len(),
    {
        if steps.len() == 0 {
            self
        } else {
            self.after_all(steps.drop_last()).after(steps.last())
        }
    }

    /// How many of the steps complete a change of the table.
    pub open spec fn completions(self, steps: Seq<DdlStep>, table: Seq<char>) -> nat
        decreases steps.len(),
    {
        if steps.len() == 0 {
            0
        } else {
            let earlier = self.completions(steps.drop_last(), table);
            if steps.last() == (DdlStep::Complete { table }) && self.after_all(
                steps.drop_last(),
            ).is_in(table, DdlPhase::Applying) {
                earlier + 1
            } else {
                earlier
            }
        }
    }
}

/// Whatever has been done to a manager, in whatever order, a table's schema
/// version has grown by the number of its changes that completed: changes that
/// were given up, and changes of other tables, add nothing.
pub proof fn versions_count_completions(s: DdlView, steps: Seq<DdlStep>, table: Seq<char>)
    requires
        s.version(table) + s.completions(steps, table) <= u64::MAX,
    ensures
        s.after_all(steps).version(table) == s.version(table) + s.completions(steps, table),
    decreases steps.len(),
{
    if steps.len() > 0 {
        versions_count_completions(s, steps.drop_last(), table);
    }
}

/// A change is never applied while a transaction waits for it. Until it is visible
/// it can be given up and then forgotten, so that no change blocks its table for
/// ever; once it is visible it stays so.
pub proof fn waiters_hold_back_a_change(s: DdlView, table: Seq<char>, waiter: TxnId)
    requires
        s.active.contains_key(table),
    ensures
        s.active[table].waiters.contains(waiter) ==> s.applying(table) == s,
        s.is_in(table, DdlPhase::Complete) ==> s.aborted(table) == s,
        !s.is_in(table, DdlPhase::Complete) ==> s.aborted(table).is_in(table, DdlPhase::Aborted),
        !s.aborted(table).cleaned(table).active.contains_key(table),
        s.aborted(table).version(table) == s.version(table),
{
}

/// Changes of different tables do not affect each other.
pub proof fn tables_are_independent(
    s: DdlView,
    table: Seq<char>,
    other: Seq<char>,
    from: DdlPhase,
    to: DdlPhase,
    id: TxnId,
    op: DdlOperation,
)
    requires
        table != other,
        op.spec_table() == table,
    ensures
        forall|next: DdlView|
            (next == s.submitted(id, op) || next == s.stepped(table, from, to) || next
                == s.completed(table) || next == s.cleaned(table) || next == s.aborted(table)
                || next == s.applying(table)) ==> {
                &&& next.active.contains_key(other) == s.active.contains_key(other)
                &&& s.active.contains_key(other) ==> #[trigger] next.active[other]
                    == s.active[other]
                &&& next.version(other) == s.version(other)
            },
{
}

/// A change is of the table that it names.
pub proof fn changes_name_their_table(op: DdlOperation)
    ensures
        op matches DdlOperation::AlterTable { table, .. } ==> op.spec_table() == table@,
        op matches DdlOperation::CreateIndex { table, .. } ==> op.spec_table() == table@,
        op matches DdlOperation::DropTable { table } ==> op.spec_table() == table@,
        op matches DdlOperation::DropIndex { table, .. } ==> op.spec_table() == table@,
{
}

/// A change that is submitted becomes the active one of its table, with its own marker and
/// nobody waiting, unless there is one: then nothing changes.
pub proof fn submitted_changes_become_active(s: DdlView, id: TxnId, op: DdlOperation)
    ensures
        ({
            let t = op.spec_table();
            let after = s.submitted(id, op);
            &&& s.active.contains_key(t) ==> after == s
            &&& !s.active.contains_key(t) ==> {
                &&& after.active.contains_key(t)
                &&& after.active[t].txn_id == id
                &&& after.active[t].operation == op
                &&& after.active[t].phase == DdlPhase::MarkerPending
                &&& after.active[t].waiters == Set::<TxnId>::empty()
                &&& forall|x: Seq<char>|
                    x != t ==> (#[trigger] after.active.contains_key(x) <==> s.active.contains_key(
                        x,
                    )) && after.active[x] == s.active[x]
                &&& after.versions == s.versions && after.timeout_ms == s.timeout_ms
            }
        }),
{
}

/// Waiting and no longer waiting change the waiters of the table's active change by the
/// given transaction, and nothing else.
pub proof fn waiters_come_and_go(s: DdlView, table: Seq<char>, id: TxnId, other: TxnId)
    requires
        s.active.contains_key(table),
    ensures
        ({
            let waiting = s.after(DdlStep::Wait { table, txn_id: id });
            let resolved = s.after(DdlStep::Resolve { table, txn_id: id });
            &&& waiting.active[table].waiters.contains(other) <==> other == id
                || s.active[table].waiters.contains(other)
            &&& resolved.active[table].waiters.contains(other) <==> other != id
                && s.active[table].waiters.contains(other)
            &&& waiting.active[table].phase == s.active[table].phase
            &&& waiting.active[table].txn_id == s.active[table].txn_id
            &&& waiting.active[table].operation == s.active[table].operation
            &&& resolved.active[table].phase == s.active[table].phase
            &&& resolved.active[table].txn_id == s.active[table].txn_id
            &&& resolved.active[table].operation == s.active[table].operation
            &&& waiting.versions == s.versions && resolved.versions == s.versions
            &&& waiting.active.dom() == s.active.dom() && resolved.active.dom() == s.active.dom()
            &&& forall|x: Seq<char>|
                x != table ==> #[trigger] waiting.active[x] == s.active[x] && resolved.active[x]
                    == s.active[x]
        }),
{
    assert(s.after(DdlStep::Wait { table, txn_id: id }).active.dom() =~= s.active.dom());
    assert(s.after(DdlStep::Resolve { table, txn_id: id }).active.dom() =~= s.active.dom());
}

/// A change keeps its marker, its operation and its waiters while it goes from pending to
/// committed, to applying once nobody waits, and to complete, which alone raises the version
/// of its table, by one. Until it is complete it can be given up. Only one that is over is
/// forgotten. A step from another phase does nothing.
pub proof fn changes_go_through_their_phases(s: DdlView, table: Seq<char>)
    requires
        s.active.contains_key(table),
        !s.versions.contains_key(table) || s.versions[table] < u64::MAX,
    ensures
        ({
            let m = s.active[table];
            let committed = s.after(DdlStep::Commit { table });
            let applying = s.after(DdlStep::Apply { table });
            let complete = s.after(DdlStep::Complete { table });
            let aborted = s.after(DdlStep::Abort { table });
            let cleaned = s.after(DdlStep::Clean { table });
            let waits = exists|x: TxnId| m.waiters.contains(x);
            &&& m.phase == DdlPhase::MarkerPending ==> committed.active[table] == (MarkerView {
                phase: DdlPhase::MarkerCommitted,
                ..m
            }) && committed.versions == s.versions
            &&& m.phase != DdlPhase::MarkerPending ==> committed == s
            &&& m.phase == DdlPhase::MarkerCommitted && !waits ==> applying.active[table] == (
            MarkerView { phase: DdlPhase::Applying, ..m }) && applying.versions == s.versions
            &&& m.phase != DdlPhase::MarkerCommitted || waits ==> applying == s
            &&& m.phase == DdlPhase::Applying ==> complete.active[table] == (MarkerView {
                phase: DdlPhase::Complete,
                ..m
            }) && complete.versions.contains_key(table) && complete.versions[table]
                == if s.versions.contains_key(table) {
                s.versions[table] + 1
            } else {
                1
            }
            &&& m.phase != DdlPhase::Applying ==> complete == s
            &&& m.phase != DdlPhase::Complete ==> aborted.active[table] == (MarkerView {
                phase: DdlPhase::Aborted,
                ..m
            }) && aborted.versions == s.versions
            &&& m.phase == DdlPhase::Complete ==> aborted == s
            &&& m.phase == DdlPhase::Complete || m.phase == DdlPhase::Aborted ==> cleaned == (
            DdlView { active: s.active.remove(table), ..s })
            &&& m.phase != DdlPhase::Complete && m.phase != DdlPhase::Aborted ==> cleaned == s
        }),
{
    let m = s.active[table];
    if !(exists|x: TxnId| m.waiters.contains(x)) {
        assert(m.waiters =~= Set::<TxnId>::empty());
    }
}

/// An error names the table, and of a change that took too long the time.
pub proof fn errors_name_the_table(e: TwoPhaseDdlError)
    ensures
        e matches TwoPhaseDdlError::Timeout { table, elapsed_ms } ==> e.spec_message() == "DDL on "@
            + table@ + " timed out after "@ + crate::text::duration_text(elapsed_ms as nat),
        e matches TwoPhaseDdlError::ConcurrentDdl { table } ==> e.spec_message()
            == "concurrent DDL already active on "@ + table@,
        e matches TwoPhaseDdlError::TableNotFound { table } ==> e.spec_message() == "table "@
            + table@ + " not found"@,
        e matches TwoPhaseDdlError::AlreadyComplete { table } ==> e.spec_message() == "DDL on "@
            + table@ + " already complete"@,
{
}

/// A change in progress is modelled by its parts, each in its own place.
pub proof fn models_say_what_is_in_progress(m: DdlMarker)
    ensures
        m@.txn_id == m.txn_id,
        m@.operation == m.operation,
        m@.phase == m.phase,
        m@.waiters == m.dep_waiters@,
{
}

} // verus!
