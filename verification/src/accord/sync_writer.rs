//! Durable protocol log: write, then sync, before anything is acknowledged.

use vstd::prelude::*;

use crate::text::copy_bytes;

verus! {

/// A log whose records are durable once a write has been synced.
pub trait SyncWriter {
    /// Every record handed to the log so far, oldest first, with whether it
    /// became durable. This is ghost state: only verified implementations
    /// define it.
    closed spec fn attempts(&self) -> Seq<(Seq<u8>, bool)> {
        Seq::empty()
    }

    /// Write a record and sync it; says whether it is durable.
    fn write_and_sync(&mut self, data: &[u8]) -> (ok: bool)
        ensures
            final(self).attempts() == old(self).attempts().push((data@, ok)),
    ;
}

/// One operation on the log device.
#[derive(Clone, Copy, Debug, PartialEq, Eq, Structural)]
pub enum SyncWriteCall {
    Write,
    Fsync,
}

/// A log held in memory, whose syncs can be made to fail.
#[derive(Debug)]
pub struct MemorySyncWriter {
    records: Vec<(Vec<u8>, bool)>,
    calls: Vec<SyncWriteCall>,
    fail_fsync: bool,
}

impl MemorySyncWriter {
    /// Whether syncs currently fail.
    pub closed spec fn failing(&self) -> bool {
        self.fail_fsync
    }

    /// The device operations so far.
    pub closed spec fn spec_calls(&self) -> Seq<SyncWriteCall> {
        self.calls@
    }

    /// An empty log whose syncs succeed.
    pub fn new() -> (w: MemorySyncWriter)
        ensures
            w.attempts() == Seq::<(Seq<u8>, bool)>::empty(),
            w.spec_calls() == Seq::<SyncWriteCall>::empty(),
            !w.failing(),
    {
        let w = MemorySyncWriter { records: Vec::new(), calls: Vec::new(), fail_fsync: false };
        assert(w.attempts() =~= Seq::<(Seq<u8>, bool)>::empty());
        w
    }

    /// Make later syncs fail, or succeed again.
    pub fn set_fsync_failure(&mut self, fail: bool)
        ensures
            final(self).failing() == fail,
            final(self).attempts() == old(self).attempts(),
            final(self).spec_calls() == old(self).spec_calls(),
    {
        self.fail_fsync = fail;
    }

    /// The device operations so far, oldest first.
    pub fn calls(&self) -> (c: &[SyncWriteCall])
        ensures
            c@ == self.spec_calls(),
    {
        self.calls.as_slice()
    }
}

impl SyncWriter for MemorySyncWriter {
    closed spec fn attempts(&self) -> Seq<(Seq<u8>, bool)> {
        Seq::new(self.records@.len(), |i: int| (self.records@[i].0@, self.records@[i].1))
    }

    fn write_and_sync(&mut self, data: &[u8]) -> (ok: bool)
        ensures
            ok == !old(self).failing(),
            final(self).failing() == old(self).failing(),
            final(self).spec_calls() == old(self).spec_calls().push(SyncWriteCall::Write).push(
                SyncWriteCall::Fsync,
            ),
    {
        let ok: bool = !self.fail_fsync;
        self.calls.push(SyncWriteCall::Write);
        self.calls.push(SyncWriteCall::Fsync);
        self.records.push((copy_bytes(data), ok));
        assert(self.attempts() =~= old(self).attempts().push((data@, ok)));
        ok
    }
}

} // verus!
