//! Committing a buffered write-set as one unconditional transaction.
//!
//! The replicas of every write are resolved first, by its own keyspace; a key
//! that cannot be placed fails the commit rather than being written to a guessed
//! set of replicas.

use vstd::prelude::*;

use crate::accord::shard_quorum::{lays_out, replica_sets, ParticipantSet};
use crate::ordered::insert_sorted_u128;
use crate::text::copy_bytes;

verus! {

/// One buffered write.
#[derive(Clone, Debug, PartialEq, Eq)]
pub struct TransactionWrite {
    /// Keyspace, which decides how the key is replicated.
    pub keyspace: String,
    /// Partition key.
    pub key: Vec<u8>,
    /// Encoded mutation.
    pub mutation: Vec<u8>,
}

/// How a commit ended.
#[derive(Clone, Debug, PartialEq, Eq)]
pub enum CommitOutcome {
    Committed,
    Aborted { reason: String },
}

/// A commit that reached no decision.
#[derive(Clone, Debug, PartialEq, Eq)]
pub struct CommitError {
    /// What went wrong.
    pub reason: String,
}

/// How driving a transaction failed.
#[derive(Clone, Debug, PartialEq, Eq)]
pub enum DriverFailure {
    /// Its condition did not hold.
    ConditionNotMet,
    /// No decision was reached.
    Undecided { reason: String },
}

/// What the coordinator has to drive.
pub struct CommitPlan {
    /// Every replica of any key, increasing.
    pub replica_ids: Vec<u128>,
    /// Keys with their mutations, in order.
    pub write_set: Vec<(Vec<u8>, Vec<u8>)>,
    /// Replicas of each write, in the same order.
    pub placements: Vec<Vec<u128>>,
}

/// The next step of a commit.
pub enum CommitStep {
    /// Nothing to do.
    Done(CommitOutcome),
    /// Drive a transaction.
    Drive(CommitPlan),
}

/// A resolved key can be placed: it has at least one replica.
pub open spec fn placed(r: Option<Vec<u128>>) -> bool {
    r matches Some(replicas) && replicas@.len() > 0
}

/// `i` is the first write that cannot be placed.
pub open spec fn first_unplaced(resolved: Seq<Option<Vec<u128>>>, i: int) -> bool {
    &&& 0 <= i < resolved.len()
    &&& !placed(resolved[i])
    &&& forall|j: int| 0 <= j < i ==> placed(#[trigger] resolved[j])
}

/// Every write can be placed.
pub open spec fn all_placed(resolved: Seq<Option<Vec<u128>>>) -> bool {
    forall|j: int| 0 <= j < resolved.len() ==> placed(#[trigger] resolved[j])
}

/// The message for a key that could not be placed.
pub open spec fn unplaced_message(keyspace: Seq<char>, r: Option<Vec<u128>>) -> Seq<char> {
    match r {
        None => "no replicas resolved for a key in keyspace '"@ + keyspace
            + "' (cluster mode required)"@,
        Some(_) => "empty replica set for a key in keyspace '"@ + keyspace + "'"@,
    }
}

/// Every replica of any of the first `n` keys.
pub open spec fn replica_union(resolved: Seq<Option<Vec<u128>>>, n: int) -> Set<u128> {
    Set::new(
        |x: u128|
            exists|i: int|
                0 <= i < n && i < resolved.len() && (#[trigger] resolved[i]) is Some
                    && resolved[i]->0@.contains(x),
    )
}

impl CommitPlan {
    /// There is a write, and every write has replicas.
    pub open spec fn wf(&self) -> bool {
        &&& self.write_set@.len() > 0
        &&& self.placements@.len() == self.write_set@.len()
        &&& forall|i: int|
            0 <= i < self.placements@.len() ==> (#[trigger] self.placements@[i])@.len() > 0
    }

    /// The shards that the transaction has to reach: those of its writes, each
    /// placed by its own replicas.
    pub fn participants(&self) -> (ps: ParticipantSet)
        requires
            self.wf(),
        ensures
            lays_out(ps.shard_lists(), ps.key_shard@, replica_sets(self.placements@)),
            ps.seeds_quorum(),
    {
        ParticipantSet::from_replicas(&self.placements)
    }
}

fn copy_replicas(a: &Vec<u128>) -> (r: Vec<u128>)
    ensures
        r@ == a@,
{
    let mut r: Vec<u128> = Vec::new();
    let mut i: usize = 0;
    while i < a.len()
        invariant
            i <= a.len(),
            r@ == a@.take(i as int),
        decreases a.len() - i,
    {
        r.push(a[i]);
        assert(r@ =~= a@.take(i + 1));
        i += 1;
    }
    assert(r@ =~= a@);
    r
}

fn unplaced_error(keyspace: &str, r: &Option<Vec<u128>>) -> (e: CommitError)
    ensures
        e.reason@ == unplaced_message(keyspace@, *r),
{
    let mut reason = String::new();
    match r {
        None => {
            reason.append("no replicas resolved for a key in keyspace '");
            reason.append(keyspace);
            reason.append("' (cluster mode required)");
        },
        Some(_) => {
            reason.append("empty replica set for a key in keyspace '");
            reason.append(keyspace);
            reason.append("'");
        },
    }
    assert(reason@ =~= unplaced_message(keyspace@, *r));
    CommitError { reason }
}

/// Resolve the replicas of each write in order, up to the first that cannot be
/// placed.
pub fn resolve_writes<F: Fn(&str, &[u8]) -> Option<Vec<u128>>>(
    writes: &Vec<TransactionWrite>,
    resolve: F,
) -> (resolved: Vec<Option<Vec<u128>>>)
    requires
        forall|ks: &str, k: &[u8]| call_requires(resolve, (ks, k)),
    ensures
        resolved@.len() <= writes@.len(),
        resolved@.len() == writes@.len() || (resolved@.len() > 0 && first_unplaced(
            resolved@,
            resolved@.len() - 1,
        )),
        forall|i: int|
            #![trigger resolved@[i]]
            0 <= i < resolved@.len() ==> answers(
                resolve,
                writes@[i].keyspace@,
                writes@[i].key@,
                resolved@[i],
            ),
        forall|i: int| 0 <= i < resolved@.len() - 1 ==> placed(#[trigger] resolved@[i]),
{
    let mut resolved: Vec<Option<Vec<u128>>> = Vec::new();
    let mut i: usize = 0;
    while i < writes.len()
        invariant
            i <= writes.len(),
            resolved@.len() == i,
            forall|ks: &str, k: &[u8]| call_requires(resolve, (ks, k)),
            forall|j: int|
                #![trigger resolved@[j]]
                0 <= j < i ==> placed(resolved@[j]) && answers(
                    resolve,
                    writes@[j].keyspace@,
                    writes@[j].key@,
                    resolved@[j],
                ),
        decreases writes.len() - i,
    {
        let ks: &str = writes[i].keyspace.as_str();
        let k: &[u8] = writes[i].key.as_slice();
        let r = resolve(ks, k);
        assert(answers(resolve, writes@[i as int].keyspace@, writes@[i as int].key@, r));
        let ok: bool = match &r {
            Some(list) => list.len() > 0,
            None => false,
        };
        resolved.push(r);
        if !ok {
            return resolved;
        }
        i += 1;
    }
    resolved
}

/// `resolve` may answer `r` for a key.
pub open spec fn answers<F: Fn(&str, &[u8]) -> Option<Vec<u128>>>(
    resolve: F,
    keyspace: Seq<char>,
    key: Seq<u8>,
    r: Option<Vec<u128>>,
) -> bool {
    exists|ks: &str, k: &[u8]|
        ks@ == keyspace && k@ == key && #[trigger] call_ensures(resolve, (ks, k), r)
}

/// Begin a commit given what each key resolved to, by position.
///
/// An empty write-set is committed without driving anything. The first key that
/// cannot be placed fails the commit. Otherwise a transaction over all keys is
/// to be driven.
pub fn begin_commit(writes: Vec<TransactionWrite>, resolved: &Vec<Option<Vec<u128>>>) -> (r: Result<
    CommitStep,
    CommitError,
>)
    requires
        resolved@.len() <= writes@.len(),
        resolved@.len() == writes@.len() || exists|i: int| first_unplaced(resolved@, i),
    ensures
        match r {
            Ok(CommitStep::Done(outcome)) => writes@.len() == 0 && outcome
                == CommitOutcome::Committed,
            Ok(CommitStep::Drive(plan)) => {
                &&& writes@.len() > 0
                &&& all_placed(resolved@)
                &&& plan.wf()
                &&& crate::ordered::increasing_u128(plan.replica_ids@)
                &&& plan.replica_ids@.to_set() == replica_union(resolved@, writes@.len() as int)
                &&& plan.write_set@.len() == writes@.len()
                &&& forall|i: int|
                    0 <= i < writes@.len() ==> (#[trigger] plan.write_set@[i]).0@ == writes@[i].key@
                        && plan.write_set@[i].1@ == writes@[i].mutation@
                &&& forall|i: int|
                    0 <= i < writes@.len() ==> (#[trigger] plan.placements@[i])@
                        == resolved@[i]->0@
            },
            Err(e) => exists|i: int| #[trigger]
                first_unplaced(resolved@, i) && e.reason@ == unplaced_message(
                    writes@[i].keyspace@,
                    resolved@[i],
                ),
        },
{
    if writes.len() == 0 {
        return Ok(CommitStep::Done(CommitOutcome::Committed));
    }
    let mut replica_ids: Vec<u128> = Vec::new();
    let mut placements: Vec<Vec<u128>> = Vec::new();
    let mut write_set: Vec<(Vec<u8>, Vec<u8>)> = Vec::new();
    let mut i: usize = 0;
    assert(replica_ids@.to_set() =~= replica_union(resolved@, 0));
    while i < resolved.len()
        invariant
            resolved@.len() <= writes@.len(),
            i <= resolved.len(),
            forall|j: int| 0 <= j < i ==> placed(#[trigger] resolved@[j]),
            crate::ordered::increasing_u128(replica_ids@),
            replica_ids@.to_set() == replica_union(resolved@, i as int),
            placements@.len() == i,
            forall|j: int|
                0 <= j < i ==> (#[trigger] placements@[j])@ == resolved@[j]->0@,
            write_set@.len() == i,
            forall|j: int|
                0 <= j < i ==> (#[trigger] write_set@[j]).0@ == writes@[j].key@
                    && write_set@[j].1@ == writes@[j].mutation@,
        decreases resolved.len() - i,
    {
        match &resolved[i] {
            Some(replicas) => {
                if replicas.len() == 0 {
                    assert(first_unplaced(resolved@, i as int));
                    return Err(unplaced_error(writes[i].keyspace.as_str(), &resolved[i]));
                }
                let mut k: usize = 0;
                while k < replicas.len()
                    invariant
                        i < resolved.len(),
                        resolved@[i as int] == Some(*replicas),
                        k <= replicas.len(),
                        crate::ordered::increasing_u128(replica_ids@),
                        forall|x: u128| #[trigger]
                            replica_ids@.to_set().contains(x) <==> replica_union(
                                resolved@,
                                i as int,
                            ).contains(x) || exists|j: int| 0 <= j < k && replicas@[j] == x,
                    decreases replicas.len() - k,
                {
                    let ghost before = replica_ids@.to_set();
                    insert_sorted_u128(&mut replica_ids, replicas[k]);
                    assert forall|x: u128| #[trigger] replica_ids@.to_set().contains(x)
                        <==> replica_union(resolved@, i as int).contains(x) || exists|j: int|
                        0 <= j < k + 1 && replicas@[j] == x by {
                        if before.contains(x) && !replica_union(resolved@, i as int).contains(x) {
                            let j = choose|j: int| 0 <= j < k && replicas@[j] == x;
                            assert(replicas@[j] == x);
                        }
                        if x == replicas@[k as int] {
                            assert(replicas@[k as int] == x);
                        }
                    }
                    k += 1;
                }
                proof {
                    assert(replica_ids@.to_set() =~= replica_union(resolved@, i + 1)) by {
                        assert forall|x: u128| replica_ids@.to_set().contains(x) == replica_union(
                            resolved@,
                            i + 1,
                        ).contains(x) by {
                            if replica_union(resolved@, i + 1).contains(x) {
                                let j = choose|j: int|
                                    0 <= j < i + 1 && j < resolved@.len() && (
                                    #[trigger] resolved@[j]) is Some && resolved@[j]->0@.contains(x);
                                if j == i {
                                    let q = choose|q: int| 0 <= q < replicas@.len() && replicas@[q] == x;
                                    assert(replicas@[q] == x);
                                } else {
                                    assert(replica_union(resolved@, i as int).contains(x));
                                }
                            }
                            if replica_ids@.to_set().contains(x) {
                                if !replica_union(resolved@, i as int).contains(x) {
                                    assert(replicas@.contains(x));
                                    assert(resolved@[i as int] is Some);
                                } else {
                                    let j = choose|j: int|
                                        0 <= j < i && j < resolved@.len() && (
                                        #[trigger] resolved@[j]) is Some
                                            && resolved@[j]->0@.contains(x);
                                    assert(resolved@[j] is Some);
                                }
                            }
                        }
                    }
                }
                placements.push(copy_replicas(replicas));
                write_set.push(
                    (
                        copy_bytes(writes[i].key.as_slice()),
                        copy_bytes(writes[i].mutation.as_slice()),
                    ),
                );
            },
            None => {
                assert(first_unplaced(resolved@, i as int));
                return Err(unplaced_error(writes[i].keyspace.as_str(), &resolved[i]));
            },
        }
        i += 1;
    }
    proof {
        if resolved@.len() != writes@.len() {
            let u = choose|u: int| first_unplaced(resolved@, u);
            assert(placed(resolved@[u]));
        }
        assert forall|i: int| 0 <= i < placements@.len() implies (#[trigger] placements@[i])@.len() > 0 by {
            assert(placed(resolved@[i]));
        }
    }
    Ok(CommitStep::Drive(CommitPlan { replica_ids, write_set, placements }))
}

/// What the end of a driven transaction means for the commit.
///
/// A condition that did not hold aborts it; where no decision was reached the
/// commit fails, so that an undecided transaction is never acknowledged.
pub fn finish_commit(driven: Result<(), DriverFailure>) -> (r: Result<CommitOutcome, CommitError>)
    ensures
        match driven {
            Ok(_) => r matches Ok(outcome) && outcome == CommitOutcome::Committed,
            Err(DriverFailure::ConditionNotMet) => r matches Ok(CommitOutcome::Aborted { reason })
                && reason@ == "transaction condition not met"@,
            Err(DriverFailure::Undecided { reason }) => r matches Err(e) && e.reason == reason,
        },
{
    match driven {
        Ok(_) => Ok(CommitOutcome::Committed),
        Err(DriverFailure::ConditionNotMet) => Ok(
            CommitOutcome::Aborted { reason: "transaction condition not met".to_owned() },
        ),
        Err(DriverFailure::Undecided { reason }) => Err(CommitError { reason }),
    }
}

/// The replicas of every write take part in the transaction, which has its quorum
/// only once a majority of the replicas of each write has acknowledged: a write
/// is placed by its own keyspace, whatever else is written under the same key.
pub proof fn writes_are_placed_by_their_keyspace(
    placements: Seq<Vec<u128>>,
    resolved: Seq<Option<Vec<u128>>>,
    ps: ParticipantSet,
    acks: Seq<u128>,
    i: int,
)
    requires
        all_placed(resolved),
        placements.len() == resolved.len(),
        forall|j: int| 0 <= j < resolved.len() ==> (#[trigger] placements[j])@ == resolved[j]->0@,
        lays_out(ps.shard_lists(), ps.key_shard@, replica_sets(placements)),
        0 <= i < resolved.len(),
    ensures
        resolved[i]->0@.len() > 0,
        resolved[i]->0@.to_set().subset_of(replica_union(resolved, resolved.len() as int)),
        ps.shard_lists()[ps.key_shard@[i]].to_set() == resolved[i]->0@.to_set(),
        crate::accord::shard_quorum::every_shard_reached(
            crate::accord::shard_quorum::after_acks(
                crate::accord::shard_quorum::untouched(ps.shards@),
                acks,
            ),
        ) ==> resolved[i]->0@.to_set().intersect(acks.to_set()).len()
            >= crate::accord::shard_quorum::spec_slow_quorum_size(resolved[i]->0@.to_set().len()),
{
    assert(placed(resolved[i]));
    assert(placements[i]@ == resolved[i]->0@);
    let sets = replica_sets(placements);
    assert(sets[i] == resolved[i]->0@.to_set());
    assert(ps.shard_lists()[ps.key_shard@[i]].to_set() == sets[i]);
    assert forall|x: u128| resolved[i]->0@.to_set().contains(x) implies replica_union(
        resolved,
        resolved.len() as int,
    ).contains(x) by {
        assert(resolved[i] is Some && resolved[i]->0@.contains(x));
    }
    crate::accord::shard_quorum::every_key_needs_its_quorum(ps, sets, acks);
}

/// A write can be placed where its key was resolved to at least one replica. The first that
/// cannot is the one before which all can.
pub proof fn unresolved_writes_are_not_placed(resolved: Seq<Option<Vec<u128>>>, i: int, j: int)
    requires
        0 <= i < resolved.len(),
    ensures
        placed(resolved[i]) <==> resolved[i] is Some && resolved[i]->0@.len() > 0,
        all_placed(resolved) ==> resolved[i] is Some && resolved[i]->0@.len() > 0,
        first_unplaced(resolved, i) ==> (resolved[i] is None || resolved[i]->0@.len() == 0) && (0
            <= j < i ==> resolved[j] is Some && resolved[j]->0@.len() > 0),
        !all_placed(resolved) ==> exists|k: int|
            0 <= k < resolved.len() && ((#[trigger] resolved[k]) is None || resolved[k]->0@.len()
                == 0),
{
    if all_placed(resolved) {
        assert(placed(resolved[i]));
    }
    if first_unplaced(resolved, i) && 0 <= j < i {
        assert(placed(resolved[j]));
    }
    if !all_placed(resolved) {
        let k = choose|k: int| 0 <= k < resolved.len() && !placed(#[trigger] resolved[k]);
        assert(resolved[k] is None || resolved[k]->0@.len() == 0);
    }
}

/// The replicas of several keys together are exactly those of any one of them.
pub proof fn replicas_of_any_key_are_united(resolved: Seq<Option<Vec<u128>>>, n: int, x: u128)
    ensures
        replica_union(resolved, n).contains(x) <==> exists|i: int|
            0 <= i < n && i < resolved.len() && (#[trigger] resolved[i]) is Some
                && resolved[i]->0@.contains(x),
{
}

/// A write that cannot be placed is reported with its keyspace: as one that no replicas were
/// resolved for, or as one that there are none of.
pub proof fn unplaced_writes_are_reported(keyspace: Seq<char>, list: Vec<u128>)
    ensures
        unplaced_message(keyspace, None) == "no replicas resolved for a key in keyspace '"@
            + keyspace + "' (cluster mode required)"@,
        unplaced_message(keyspace, Some(list)) == "empty replica set for a key in keyspace '"@
            + keyspace + "'"@,
{
}

/// A write is resolved to a list only where that is an answer to a question for its keyspace
/// and its key.
pub proof fn writes_are_resolved_by_asking<F: Fn(&str, &[u8]) -> Option<Vec<u128>>>(
    resolve: F,
    keyspace: Seq<char>,
    key: Seq<u8>,
    r: Option<Vec<u128>>,
)
    requires
        answers(resolve, keyspace, key, r),
    ensures
        exists|ks: &str, k: &[u8]|
            ks@ == keyspace && k@ == key && #[trigger] call_ensures(resolve, (ks, k), r),
{
}

} // verus!
