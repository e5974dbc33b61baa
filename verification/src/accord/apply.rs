//! Seams between the protocol and the storage engine.

use vstd::prelude::*;

use crate::accord::types::{Timestamp, TxnId};

verus! {

/// A committed mutation, as handed to storage.
#[derive(Debug)]
pub struct ApplyMutation {
    /// Encoded mutation.
    pub data: Vec<u8>,
    /// Agreed execution timestamp.
    pub t: Timestamp,
    /// Agreed dependencies.
    pub deps: Vec<TxnId>,
}

/// The abstract mutation: the dependencies are a set.
#[verifier::ext_equal]
pub struct MutationView {
    pub data: Seq<u8>,
    pub t: Timestamp,
    pub deps: Set<TxnId>,
}

impl View for ApplyMutation {
    type V = MutationView;

    open spec fn view(&self) -> MutationView {
        MutationView { data: self.data@, t: self.t, deps: self.deps@.to_set() }
    }
}

/// Storage refused a mutation.
#[derive(Clone, Copy, Debug, PartialEq, Eq, Structural)]
pub struct ApplyError;

/// Storage could not be read.
#[derive(Clone, Copy, Debug, PartialEq, Eq, Structural)]
pub struct ReadError;

/// Durably writes committed mutations.
pub trait StorageApplier {
    /// Every mutation handed to storage so far, oldest first, with whether it
    /// was durably written. This is ghost state: only verified implementations
    /// define it.
    closed spec fn attempts(&self) -> Seq<(TxnId, MutationView, bool)> {
        Seq::empty()
    }

    /// Write the mutation durably, or fail.
    fn apply(&mut self, txn_id: TxnId, mutation: ApplyMutation) -> (r: Result<(), ApplyError>)
        ensures
            final(self).attempts() == old(self).attempts().push((txn_id, mutation@, r is Ok)),
    ;
}

/// Reads rows as of an execution timestamp.
pub trait StorageReader {
    /// The serialized row at `t`, `None` where there is none.
    fn read_row_at(&self, keyspace: &str, table: &str, key: &[u8], t: Timestamp) -> (r: Result<
        Option<Vec<u8>>,
        ReadError,
    >);
}

/// Accepts every mutation and remembers which transaction it belonged to.
pub struct NoopStorageApplier {
    applied: Vec<(TxnId, Timestamp)>,
    history: Ghost<Seq<(TxnId, MutationView, bool)>>,
}

impl NoopStorageApplier {
    /// The transactions applied so far with their timestamps.
    pub closed spec fn spec_applied(&self) -> Seq<(TxnId, Timestamp)> {
        self.applied@
    }

    /// Nothing applied yet.
    pub fn new() -> (a: NoopStorageApplier)
        ensures
            a.attempts() == Seq::<(TxnId, MutationView, bool)>::empty(),
            a.spec_applied() == Seq::<(TxnId, Timestamp)>::empty(),
    {
        NoopStorageApplier { applied: Vec::new(), history: Ghost(Seq::empty()) }
    }

    /// The transactions applied so far with their timestamps, oldest first.
    pub fn applied(&self) -> (v: &[(TxnId, Timestamp)])
        ensures
            v@ == self.spec_applied(),
    {
        self.applied.as_slice()
    }
}

impl StorageApplier for NoopStorageApplier {
    closed spec fn attempts(&self) -> Seq<(TxnId, MutationView, bool)> {
        self.history@
    }

    fn apply(&mut self, txn_id: TxnId, mutation: ApplyMutation) -> (r: Result<(), ApplyError>)
        ensures
            r is Ok,
            final(self).spec_applied() == old(self).spec_applied().push((txn_id, mutation.t)),
    {
        self.applied.push((txn_id, mutation.t));
        self.history = Ghost(self.history@.push((txn_id, mutation@, true)));
        Ok(())
    }
}

/// Stands for the absence of a reader.
#[derive(Clone, Copy, Debug)]
pub struct NoReader;

impl StorageReader for NoReader {
    fn read_row_at(&self, keyspace: &str, table: &str, key: &[u8], t: Timestamp) -> (r: Result<
        Option<Vec<u8>>,
        ReadError,
    >)
        ensures
            r matches Ok(row) && row is None,
    {
        Ok(None)
    }
}

/// A mutation is modelled by its data, its timestamp and the set of its dependencies.
pub proof fn models_say_what_is_applied(m: ApplyMutation, id: TxnId)
    ensures
        m@.data == m.data@,
        m@.t == m.t,
        m@.deps.contains(id) <==> m.deps@.contains(id),
{
}

} // verus!
