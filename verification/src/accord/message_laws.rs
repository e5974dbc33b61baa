//! What each protocol message does to a replica, in terms of what the message
//! carries and what the replica held.

use vstd::prelude::*;

use crate::accord::conflict_index::{InFlightWrite, TxnStatus};
use crate::accord::protocol::{ReplicaView, ReplyView};
use crate::accord::types::{Timestamp, TxnId, TxnPhase};
use crate::text::decimal_bytes;

verus! {

/// The bytes of a text.
pub open spec fn bytes_of(text: &str) -> Seq<u8> {
    vstd::utf8::encode_utf8(text@)
}

/// A PreAccept of a transaction that was not pre-accepted before is answered with
/// exactly the transactions whose writes are registered on the key with an earlier
/// proposal: every one of them, whichever was registered last, and no other. The
/// replica stores the same dependencies, registers the write once, records the step
/// and changes nothing else.
pub proof fn earlier_writers_are_the_dependencies(
    s: ReplicaView,
    id: TxnId,
    t0: Timestamp,
    key: Seq<u8>,
    ballot: nat,
    dep: TxnId,
)
    requires
        s.txns.contains_key(id) ==> s.txns[id].promised <= ballot && s.txns[id].phase
            == TxnPhase::PreAccepted && (s.txns[id].t0 != t0 || !s.txns[id].preaccept_logged),
    ensures
        ({
            let after = s.preaccept(id, t0, key, ballot, true);
            let reply = s.preaccept_reply(id, t0, key, ballot, true);
            let earlier = exists|i: int|
                0 <= i < s.index.writes.len() && (#[trigger] s.index.writes[i]).0 == key
                    && s.index.writes[i].1.t0.precedes(t0) && s.index.writes[i].1.txn_id == dep;
            &&& reply matches ReplyView::PreAcceptOK { txn_id, t, deps }
            &&& txn_id == id
            &&& deps.contains(dep) <==> earlier
            &&& after.txns.contains_key(id)
            &&& after.txns[id].txn_id == if s.txns.contains_key(id) {
                s.txns[id].txn_id
            } else {
                id
            }
            &&& after.txns[id].t0 == if s.txns.contains_key(id) {
                s.txns[id].t0
            } else {
                t0
            }
            &&& after.txns[id].t == t
            &&& after.txns[id].deps == deps
            &&& after.txns[id].phase == TxnPhase::PreAccepted
            &&& after.txns[id].preaccept_logged
            &&& after.txns[id].promised == if s.txns.contains_key(id) {
                s.txns[id].promised
            } else {
                0
            }
            &&& after.txns[id].accepted == if s.txns.contains_key(id) {
                s.txns[id].accepted
            } else {
                0
            }
            &&& forall|x: TxnId|
                x != id ==> (#[trigger] after.txns.contains_key(x) <==> s.txns.contains_key(x))
                    && after.txns[x] == s.txns[x]
            &&& after.index.capacity == s.index.capacity && after.index.ranges == s.index.ranges
            &&& s.index.writes.len() < s.index.capacity ==> after.index.writes
                == s.index.writes.push(
                (
                    key,
                    InFlightWrite {
                        txn_id: id,
                        t0,
                        accord_ts: None,
                        status: TxnStatus::PreAccepted,
                    },
                ),
            )
            &&& s.index.writes.len() >= s.index.capacity ==> after.index == s.index
            &&& after.log == s.log.push(
                (
                    bytes_of("PreAccepted:") + decimal_bytes(id.0.time as nat) + bytes_of(":")
                        + decimal_bytes(t.time as nat),
                    true,
                ),
            )
            &&& after.node_id == s.node_id && after.waiters == s.waiters
            &&& after.committed == s.committed && after.notified == s.notified
            &&& after.storage == s.storage
        }),
{
    let after = s.preaccept(id, t0, key, ballot, true);
    let deps = s.index.deps_before(key, t0);
    if deps.contains(dep) {
        let i = choose|i: int| #[trigger]
            crate::accord::conflict_index::write_on(s.index.writes, key, i)
                && s.index.writes[i].1.t0.precedes(t0) && s.index.writes[i].1.txn_id == dep;
        assert(s.index.writes[i].0 == key);
    }
    if exists|i: int|
        0 <= i < s.index.writes.len() && (#[trigger] s.index.writes[i]).0 == key
            && s.index.writes[i].1.t0.precedes(t0) && s.index.writes[i].1.txn_id == dep {
        let i = choose|i: int|
            0 <= i < s.index.writes.len() && (#[trigger] s.index.writes[i]).0 == key
                && s.index.writes[i].1.t0.precedes(t0) && s.index.writes[i].1.txn_id == dep;
        assert(crate::accord::conflict_index::write_on(s.index.writes, key, i));
    }
}

/// The execution timestamp that a PreAccept proposes is the transaction's own where
/// every write registered on the key was proposed before it. Otherwise it is the next
/// reading of the replica's clock after the latest of those writes.
pub proof fn proposals_follow_the_latest_write(
    s: ReplicaView,
    id: TxnId,
    t0: Timestamp,
    key: Seq<u8>,
    ballot: nat,
)
    requires
        !s.txns.contains_key(id),
    ensures
        ({
            let reply = s.preaccept_reply(id, t0, key, ballot, true);
            let w = s.index.writes;
            &&& reply matches ReplyView::PreAcceptOK { t, .. }
            &&& (forall|i: int| 0 <= i < w.len() && (#[trigger] w[i]).0 == key ==> w[i].1.t0.precedes(t0))
                ==> t == t0
            &&& !(forall|i: int| 0 <= i < w.len() && (#[trigger] w[i]).0 == key ==> w[i].1.t0.precedes(t0))
                ==> exists|i: int|
                {
                    let c = (#[trigger] w[i]).1.t0;
                    &&& 0 <= i < w.len() && w[i].0 == key
                    &&& forall|j: int| 0 <= j < w.len() && (#[trigger] w[j]).0 == key ==> !c.precedes(w[j].1.t0)
                    &&& t.node == s.node_id
                    &&& c.seq < u32::MAX ==> t.epoch == c.epoch && t.time == c.time && t.seq
                        == c.seq + 1
                    &&& c.seq == u32::MAX && c.time < u64::MAX ==> t.epoch == c.epoch && t.time
                        == c.time + 1 && t.seq == 0
                    &&& c.seq == u32::MAX && c.time == u64::MAX && c.epoch < u64::MAX ==> t.epoch
                        == c.epoch + 1 && t.time == 0 && t.seq == 0
                    &&& c.seq == u32::MAX && c.time == u64::MAX && c.epoch == u64::MAX ==> t.epoch
                        == c.epoch && t.time == c.time && t.seq == c.seq
                }
        }),
{
    let w = s.index.writes;
    let on = |j: int| crate::accord::conflict_index::write_on(w, key, j);
    let some = crate::accord::conflict_index::latest_exists(w.len(), on, |j: int| w[j].1.t0);
    assert(s.index.latest_on(key, some));
    let m = s.index.latest(key);
    assert(s.index.latest_on(key, m));
    match m {
        Some(c) => {
            let i = choose|i: int| 0 <= i < w.len() && #[trigger] on(i) && w[i].1.t0 == c;
            assert(on(i) && w[i].0 == key);
            assert forall|j: int| 0 <= j < w.len() && (#[trigger] w[j]).0 == key implies !c.precedes(
                w[j].1.t0,
            ) by {
                assert(on(j));
            }
            if c.precedes(t0) {
                assert forall|j: int| 0 <= j < w.len() && (#[trigger] w[j]).0 == key implies w[j].1.t0.precedes(
                    t0,
                ) by {
                    crate::accord::types::timestamp_order_is_total(w[j].1.t0, c, t0);
                    crate::accord::types::timestamp_order_is_total(c, w[j].1.t0, t0);
                }
            }
        },
        None => {
            assert forall|j: int| 0 <= j < w.len() && (#[trigger] w[j]).0 == key implies w[j].1.t0.precedes(
                t0,
            ) by {
                assert(on(j));
            }
        },
    }
}

/// A PreAccept is refused by a replica that has promised a higher ballot or has
/// accepted, committed or applied the transaction; the refusal names the ballot
/// promised, and nothing changes.
pub proof fn late_preaccepts_are_refused(
    s: ReplicaView,
    id: TxnId,
    t0: Timestamp,
    key: Seq<u8>,
    ballot: nat,
    ok: bool,
)
    requires
        s.txns.contains_key(id),
        s.txns[id].promised > ballot || s.txns[id].phase != TxnPhase::PreAccepted,
    ensures
        s.preaccept(id, t0, key, ballot, ok) == s,
        s.preaccept_reply(id, t0, key, ballot, ok) == (ReplyView::Nack {
            txn_id: id,
            promised: s.txns[id].promised,
        }),
{
}

/// A PreAccept that repeats a durable one is answered from what was stored then, and
/// nothing changes.
pub proof fn repeated_preaccepts_answer_what_was_stored(
    s: ReplicaView,
    id: TxnId,
    t0: Timestamp,
    key: Seq<u8>,
    ballot: nat,
    ok: bool,
)
    requires
        s.txns.contains_key(id),
        s.txns[id].promised <= ballot,
        s.txns[id].phase == TxnPhase::PreAccepted,
        s.txns[id].t0 == t0,
        s.txns[id].preaccept_logged,
    ensures
        s.preaccept(id, t0, key, ballot, ok) == s,
        s.preaccept_reply(id, t0, key, ballot, ok) == (ReplyView::PreAcceptOK {
            txn_id: id,
            t: s.txns[id].t,
            deps: s.txns[id].deps,
        }),
{
}

/// An Accept that the replica has not outbid, of a transaction that is not decided,
/// leaves exactly the timestamp, the dependencies and the ballot that the message
/// carried, once durable, and is answered with them.
pub proof fn accepts_store_what_they_carry(
    s: ReplicaView,
    id: TxnId,
    t0: Timestamp,
    t: Timestamp,
    deps: Set<TxnId>,
    ballot: nat,
)
    requires
        s.txns.contains_key(id) ==> s.txns[id].promised <= ballot && (s.txns[id].phase
            == TxnPhase::PreAccepted || s.txns[id].phase == TxnPhase::Accepted && (
        s.txns[id].accepted != ballot || s.txns[id].t != t || s.txns[id].deps != deps)),
    ensures
        ({
            let after = s.accept(id, t0, t, deps, ballot, true);
            &&& s.accept_reply(id, t, deps, ballot, true) == (ReplyView::AcceptOK {
                txn_id: id,
                ballot,
                deps,
            })
            &&& after.txns.contains_key(id)
            &&& after.txns[id].phase == TxnPhase::Accepted
            &&& after.txns[id].t == t
            &&& after.txns[id].deps == deps
            &&& after.txns[id].accepted == ballot
            &&& after.txns[id].promised == ballot
            &&& !s.txns.contains_key(id) ==> after.txns[id].txn_id == id && after.txns[id].t0 == t0
            &&& s.txns.contains_key(id) ==> after.txns[id].txn_id == s.txns[id].txn_id
                && after.txns[id].t0 == s.txns[id].t0
            &&& forall|x: TxnId|
                x != id ==> (#[trigger] after.txns.contains_key(x) <==> s.txns.contains_key(x))
                    && after.txns[x] == s.txns[x]
            &&& after.log == s.log.push(
                (
                    bytes_of("Accepted:") + decimal_bytes(id.0.time as nat) + bytes_of(":")
                        + decimal_bytes(t.time as nat) + bytes_of(":") + decimal_bytes(ballot),
                    true,
                ),
            )
            &&& after.index == s.index && after.node_id == s.node_id && after.waiters == s.waiters
            &&& after.committed == s.committed && after.notified == s.notified
            &&& after.storage == s.storage
        }),
{
}

/// An Accept that comes too late changes nothing: where a higher ballot is promised it
/// is refused with that ballot, where the outcome is decided it is answered with the
/// decided dependencies, and where it repeats the last one it is answered again.
pub proof fn late_accepts_change_nothing(
    s: ReplicaView,
    id: TxnId,
    t0: Timestamp,
    t: Timestamp,
    deps: Set<TxnId>,
    ballot: nat,
    ok: bool,
)
    requires
        s.txns.contains_key(id),
        s.txns[id].promised > ballot || s.txns[id].phase == TxnPhase::Committed
            || s.txns[id].phase == TxnPhase::Applied || s.txns[id].phase == TxnPhase::Accepted
            && s.txns[id].accepted == ballot && s.txns[id].t == t && s.txns[id].deps == deps,
    ensures
        s.accept(id, t0, t, deps, ballot, ok) == s,
        s.txns[id].promised > ballot ==> s.accept_reply(id, t, deps, ballot, ok) == (
        ReplyView::Nack { txn_id: id, promised: s.txns[id].promised }),
        s.txns[id].promised <= ballot ==> s.accept_reply(id, t, deps, ballot, ok) == (
        ReplyView::AcceptOK { txn_id: id, ballot, deps: s.txns[id].deps }),
{
}

/// A durable Commit of a transaction that is not decided fixes its outcome: its
/// timestamp and its dependencies are exactly those that the message carried, whatever
/// had been pre-accepted or accepted before. Those that waited for it are woken, and
/// wait no more.
pub proof fn commits_fix_what_they_carry(
    s: ReplicaView,
    id: TxnId,
    t0: Timestamp,
    t: Timestamp,
    deps: Set<TxnId>,
)
    requires
        s.txns.contains_key(id) ==> s.txns[id].phase != TxnPhase::Committed && s.txns[id].phase
            != TxnPhase::Applied,
    ensures
        ({
            let after = s.commit(id, t0, t, deps, true);
            &&& after.txns.contains_key(id)
            &&& after.txns[id].phase == TxnPhase::Committed
            &&& after.txns[id].t == t
            &&& after.txns[id].deps == deps
            &&& !s.txns.contains_key(id) ==> after.txns[id].txn_id == id && after.txns[id].t0 == t0
                && after.txns[id].promised == 0 && after.txns[id].accepted == 0
            &&& s.txns.contains_key(id) ==> after.txns[id].txn_id == s.txns[id].txn_id
                && after.txns[id].t0 == s.txns[id].t0 && after.txns[id].promised
                == s.txns[id].promised && after.txns[id].accepted == s.txns[id].accepted
            &&& forall|x: TxnId|
                x != id ==> (#[trigger] after.txns.contains_key(x) <==> s.txns.contains_key(x))
                    && after.txns[x] == s.txns[x]
            &&& forall|x: TxnId| #[trigger]
                after.committed.contains(x) <==> x == id || s.committed.contains(x)
            &&& s.waiters.contains_key(id) ==> after.notified == s.waiters[id]
            &&& !s.waiters.contains_key(id) ==> after.notified.len() == 0
            &&& forall|x: TxnId| #[trigger]
                after.waiters.contains_key(x) <==> x != id && s.waiters.contains_key(x)
            &&& forall|x: TxnId| #[trigger]
                after.waiters.contains_key(x) ==> after.waiters[x] == s.waiters[x]
            &&& after.log == s.log.push(
                (
                    bytes_of("Committed:") + decimal_bytes(id.0.time as nat) + bytes_of(":")
                        + decimal_bytes(t.time as nat),
                    true,
                ),
            )
            &&& after.index == s.index && after.node_id == s.node_id && after.storage == s.storage
        }),
{
}

/// Two replicas on which the same Commit became durable agree on the transaction's
/// timestamp and dependencies, whatever each had heard of it before, and hand the same
/// mutation to storage when it is applied.
pub proof fn same_commit_is_the_same_outcome(
    a: ReplicaView,
    b: ReplicaView,
    id: TxnId,
    t0: Timestamp,
    t: Timestamp,
    deps: Set<TxnId>,
    data: Seq<u8>,
    kept_a: bool,
    kept_b: bool,
)
    requires
        a.txns.contains_key(id) ==> a.txns[id].phase != TxnPhase::Committed && a.txns[id].phase
            != TxnPhase::Applied,
        b.txns.contains_key(id) ==> b.txns[id].phase != TxnPhase::Committed && b.txns[id].phase
            != TxnPhase::Applied,
    ensures
        ({
            let ca = a.commit(id, t0, t, deps, true);
            let cb = b.commit(id, t0, t, deps, true);
            let sa = ca.apply(id, data, true, kept_a).storage;
            let sb = cb.apply(id, data, true, kept_b).storage;
            &&& ca.txns[id].t == cb.txns[id].t && ca.txns[id].deps == cb.txns[id].deps
            &&& sa.len() == a.storage.len() + 1 && sb.len() == b.storage.len() + 1
            &&& sa.last().0 == id && sb.last().0 == id
            &&& sa.last().1 == sb.last().1
            &&& sa.last().1.data == data
            &&& sa.last().1.t == t
            &&& sa.last().1.deps == deps
        }),
{
}

/// A Commit of a transaction that is decided changes nothing. One that did not become
/// durable decides nothing and wakes nobody.
pub proof fn ineffective_commits_decide_nothing(
    s: ReplicaView,
    id: TxnId,
    t0: Timestamp,
    t: Timestamp,
    deps: Set<TxnId>,
    ok: bool,
)
    ensures
        s.txns.contains_key(id) && (s.txns[id].phase == TxnPhase::Committed || s.txns[id].phase
            == TxnPhase::Applied) ==> s.commit(id, t0, t, deps, ok) == s,
        !(s.txns.contains_key(id) && (s.txns[id].phase == TxnPhase::Committed || s.txns[id].phase
            == TxnPhase::Applied)) ==> ({
            let after = s.commit(id, t0, t, deps, false);
            &&& after.txns.contains_key(id)
            &&& s.txns.contains_key(id) ==> after.txns == s.txns
            &&& !s.txns.contains_key(id) ==> after.txns[id].phase == TxnPhase::PreAccepted
                && after.txns[id].t == t0 && after.txns[id].deps == Set::<TxnId>::empty()
                && !after.txns[id].preaccept_logged
            &&& forall|x: TxnId|
                x != id ==> (#[trigger] after.txns.contains_key(x) <==> s.txns.contains_key(x))
                    && after.txns[x] == s.txns[x]
            &&& after.committed == s.committed && after.waiters == s.waiters
            &&& after.notified == s.notified && after.index == s.index
            &&& after.storage == s.storage
            &&& after.log.len() == s.log.len() + 1 && !after.log.last().1
        }),
{
    let after = s.commit(id, t0, t, deps, false);
    if s.txns.contains_key(id) {
        assert(s.txns.insert(id, s.txns[id]) =~= s.txns);
    }
}

/// A durable Apply hands storage the data of the message with the timestamp and the
/// dependencies that the replica holds, keeps the data as the transaction's result, and
/// marks exactly its writes applied in the conflict index.
pub proof fn applies_hand_on_the_outcome(s: ReplicaView, id: TxnId, data: Seq<u8>)
    requires
        s.txns.contains_key(id),
        s.txns[id].phase != TxnPhase::Applied,
    ensures
        ({
            let after = s.apply(id, data, true, true);
            &&& after.txns.contains_key(id)
            &&& after.txns[id].phase == TxnPhase::Applied
            &&& after.txns[id].result == Some(data)
            &&& after.txns[id].txn_id == s.txns[id].txn_id && after.txns[id].t0 == s.txns[id].t0
            &&& after.txns[id].t == s.txns[id].t && after.txns[id].deps == s.txns[id].deps
            &&& after.txns[id].promised == s.txns[id].promised && after.txns[id].accepted
                == s.txns[id].accepted
            &&& forall|x: TxnId|
                x != id ==> (#[trigger] after.txns.contains_key(x) <==> s.txns.contains_key(x))
                    && after.txns[x] == s.txns[x]
            &&& after.storage.len() == s.storage.len() + 1
            &&& after.storage.drop_last() == s.storage
            &&& after.storage.last().0 == id && after.storage.last().2
            &&& after.storage.last().1.data == data
            &&& after.storage.last().1.t == s.txns[id].t
            &&& after.storage.last().1.deps == s.txns[id].deps
            &&& after.log == s.log.push(
                (bytes_of("Applied:") + decimal_bytes(id.0.time as nat), true),
            )
            &&& after.index.capacity == s.index.capacity && after.index.ranges == s.index.ranges
            &&& after.index.writes.len() == s.index.writes.len()
            &&& forall|i: int|
                0 <= i < s.index.writes.len() ==> {
                    &&& (#[trigger] after.index.writes[i]).0 == s.index.writes[i].0
                    &&& after.index.writes[i].1.txn_id == s.index.writes[i].1.txn_id
                    &&& after.index.writes[i].1.t0 == s.index.writes[i].1.t0
                    &&& after.index.writes[i].1.accord_ts == s.index.writes[i].1.accord_ts
                    &&& s.index.writes[i].1.txn_id == id ==> after.index.writes[i].1.status
                        == TxnStatus::Applied
                    &&& s.index.writes[i].1.txn_id != id ==> after.index.writes[i].1.status
                        == s.index.writes[i].1.status
                }
            &&& after.node_id == s.node_id && after.waiters == s.waiters
            &&& after.committed == s.committed && after.notified == s.notified
        }),
{
    let after = s.apply(id, data, true, true);
    assert(after.storage.drop_last() =~= s.storage);
}

/// An Apply of a transaction that is unknown or already applied does nothing at all.
/// One whose log record is not durable does not reach storage, and one that storage
/// refused leaves the transaction as it was.
pub proof fn failed_applies_leave_the_transaction(
    s: ReplicaView,
    id: TxnId,
    data: Seq<u8>,
    ok: bool,
    kept: bool,
)
    ensures
        !s.txns.contains_key(id) || s.txns[id].phase == TxnPhase::Applied ==> s.apply(
            id,
            data,
            ok,
            kept,
        ) == s,
        s.txns.contains_key(id) && s.txns[id].phase != TxnPhase::Applied ==> ({
            let unlogged = s.apply(id, data, false, kept);
            let refused = s.apply(id, data, true, false);
            &&& unlogged.txns == s.txns && unlogged.index == s.index
            &&& unlogged.storage == s.storage && unlogged.committed == s.committed
            &&& unlogged.waiters == s.waiters && unlogged.notified == s.notified
            &&& unlogged.log.len() == s.log.len() + 1 && !unlogged.log.last().1
            &&& refused.txns == s.txns && refused.index == s.index
            &&& refused.committed == s.committed
            &&& refused.waiters == s.waiters && refused.notified == s.notified
            &&& refused.storage.len() == s.storage.len() + 1 && !refused.storage.last().2
            &&& refused.storage.last().0 == id && refused.storage.last().1.data == data
            &&& refused.storage.last().1.t == s.txns[id].t && refused.storage.last().1.deps
                == s.txns[id].deps
        }),
{
}

/// A Recover that is not outbid answers with everything the replica holds of the
/// transaction, the promise raised to the ballot of the message, and stores that
/// promise. Of a transaction that is unknown it answers with its proposal alone.
pub proof fn recoveries_report_what_is_held(
    s: ReplicaView,
    id: TxnId,
    t0: Timestamp,
    ballot: nat,
)
    requires
        s.txns.contains_key(id) ==> s.txns[id].promised <= ballot,
    ensures
        ({
            let after = s.recover(id, t0, ballot, true);
            let reply = s.recover_reply(id, t0, ballot, true);
            &&& reply matches Some(x)
            &&& x.promised == ballot
            &&& s.txns.contains_key(id) ==> {
                &&& x.txn_id == s.txns[id].txn_id && x.t0 == s.txns[id].t0
                &&& x.t == s.txns[id].t && x.deps == s.txns[id].deps
                &&& x.phase == s.txns[id].phase && x.accepted == s.txns[id].accepted
                &&& x.result == s.txns[id].result
            }
            &&& !s.txns.contains_key(id) ==> {
                &&& x.txn_id == id && x.t0 == t0 && x.t == t0
                &&& x.deps == Set::<TxnId>::empty() && x.accepted == 0
                &&& x.phase == TxnPhase::PreAccepted && x.result is None
                &&& !x.preaccept_logged
            }
            &&& after.txns.contains_key(id)
            &&& after.txns[id] == x
            &&& forall|y: TxnId|
                y != id ==> (#[trigger] after.txns.contains_key(y) <==> s.txns.contains_key(y))
                    && after.txns[y] == s.txns[y]
            &&& !(s.txns.contains_key(id) && s.txns[id].promised == ballot
                && s.txns[id].promise_logged) ==> after.log == s.log.push(
                (
                    bytes_of("Promised:") + decimal_bytes(id.0.time as nat) + bytes_of(":")
                        + decimal_bytes(ballot),
                    true,
                ),
            )
            &&& after.index == s.index && after.node_id == s.node_id && after.waiters == s.waiters
            &&& after.committed == s.committed && after.notified == s.notified
            &&& after.storage == s.storage
        }),
{
    let after = s.recover(id, t0, ballot, true);
    if s.txns.contains_key(id) && s.txns[id].promised == ballot && s.txns[id].promise_logged {
        assert(after.txns[id] == s.recover_reply(id, t0, ballot, true)->0);
    }
}

/// A Recover at a ballot below the one promised gets no answer and changes nothing.
pub proof fn outbid_recoveries_change_nothing(
    s: ReplicaView,
    id: TxnId,
    t0: Timestamp,
    ballot: nat,
    ok: bool,
)
    requires
        s.txns.contains_key(id),
        s.txns[id].promised > ballot,
    ensures
        s.recover(id, t0, ballot, ok) == s,
        s.recover_reply(id, t0, ballot, ok) is None,
{
}

/// A PreAccept, an Accept or a Recover that had to be recorded and whose record did not
/// become durable is not answered, and leaves nothing but the failed attempt.
pub proof fn undurable_steps_are_not_answered(
    s: ReplicaView,
    id: TxnId,
    t0: Timestamp,
    t: Timestamp,
    key: Seq<u8>,
    deps: Set<TxnId>,
    ballot: nat,
)
    requires
        s.txns.contains_key(id) ==> s.txns[id].promised <= ballot,
    ensures
        !s.txns.contains_key(id) || s.txns[id].phase == TxnPhase::PreAccepted && (s.txns[id].t0
            != t0 || !s.txns[id].preaccept_logged) ==> ({
            let p = s.preaccept(id, t0, key, ballot, false);
            &&& s.preaccept_reply(id, t0, key, ballot, false) is Silence
            &&& p.log.len() == s.log.len() + 1 && !p.log.last().1
            &&& p == (ReplicaView { log: p.log, ..s })
        }),
        !s.txns.contains_key(id) || s.txns[id].phase == TxnPhase::PreAccepted || s.txns[id].phase
            == TxnPhase::Accepted && (s.txns[id].accepted != ballot || s.txns[id].t != t
            || s.txns[id].deps != deps) ==> ({
            let a = s.accept(id, t0, t, deps, ballot, false);
            &&& s.accept_reply(id, t, deps, ballot, false) is Silence
            &&& a.log.len() == s.log.len() + 1 && !a.log.last().1
            &&& a == (ReplicaView { log: a.log, ..s })
        }),
        !s.txns.contains_key(id) || s.txns[id].promised != ballot || !s.txns[id].promise_logged
            ==> ({
            let r = s.recover(id, t0, ballot, false);
            &&& s.recover_reply(id, t0, ballot, false) is None
            &&& r.log.len() == s.log.len() + 1 && !r.log.last().1
            &&& r == (ReplicaView { log: r.log, ..s })
        }),
{
}

/// `INSERT IF NOT EXISTS` may proceed on a key at a timestamp exactly where no write
/// registered on the key has taken effect by then: of a transaction that the replica
/// knows, one that is applied and committed at or before the timestamp; of one that it
/// no longer knows, one proposed at or before it.
pub proof fn absence_is_about_every_write(s: ReplicaView, key: Seq<u8>, t: Timestamp)
    ensures
        s.absent_at(key, t) <==> forall|i: int|
            0 <= i < s.index.writes.len() && (#[trigger] s.index.writes[i]).0 == key ==> {
                let w = s.index.writes[i].1;
                &&& s.txns.contains_key(w.txn_id) ==> s.txns[w.txn_id].phase != TxnPhase::Applied
                    || t.precedes(s.txns[w.txn_id].t)
                &&& !s.txns.contains_key(w.txn_id) ==> t.precedes(w.t0)
            },
{
    let on = crate::accord::conflict_index::on_key(key);
    let w = s.index.writes;
    let kept = w.filter(on);
    let listed = s.index.writes_on(key);
    if s.absent_at(key, t) {
        assert forall|i: int| 0 <= i < w.len() && (#[trigger] w[i]).0 == key implies !s.wrote_by(
            w[i].1,
            t,
        ) by {
            w.lemma_filter_contains(on, i);
            let j = choose|j: int| 0 <= j < kept.len() && kept[j] == w[i];
            assert(listed[j] == w[i].1);
        }
    }
    assert forall|j: int| 0 <= j < listed.len() implies exists|i: int|
        0 <= i < w.len() && (#[trigger] w[i]).0 == key && w[i].1 == #[trigger] listed[j] by {
        w.lemma_filter_pred(on, j);
        assert(listed[j] == kept[j].1);
        assert(kept.contains(kept[j]));
        assert(w.contains(kept[j])) by {
            crate::collections::lemma_filter_from(w, on, j);
        }
    }
}

/// Pruning drops the writes that are marked applied and keeps every other one, and
/// forgets, with an applied transaction, that it was committed and who waited for it.
pub proof fn pruning_drops_what_is_applied(s: ReplicaView, id: TxnId, i: int)
    requires
        0 <= i < s.index.writes.len(),
    ensures
        ({
            let p = s.pruned();
            let applied = s.txns.contains_key(id) && s.txns[id].phase == TxnPhase::Applied;
            &&& p.txns.contains_key(id) <==> s.txns.contains_key(id) && !applied
            &&& p.txns.contains_key(id) ==> p.txns[id] == s.txns[id]
            &&& p.committed.contains(id) <==> s.committed.contains(id) && !applied
            &&& p.waiters.contains_key(id) <==> s.waiters.contains_key(id) && !applied
            &&& p.waiters.contains_key(id) ==> p.waiters[id] == s.waiters[id]
            &&& s.index.writes[i].1.status != TxnStatus::Applied ==> p.index.writes.contains(
                s.index.writes[i],
            )
            &&& forall|j: int|
                0 <= j < p.index.writes.len() ==> (#[trigger] p.index.writes[j]).1.status
                    != TxnStatus::Applied && s.index.writes.contains(p.index.writes[j])
            &&& p.index.writes.len() <= s.index.writes.len()
            &&& p.index.ranges == s.index.ranges && p.index.capacity == s.index.capacity
            &&& p.node_id == s.node_id && p.log == s.log && p.storage == s.storage
            &&& p.notified == s.notified
        }),
{
    let p = s.pruned();
    let live = |e: (Seq<u8>, InFlightWrite)| e.1.status != TxnStatus::Applied;
    assert(p.index.writes == s.index.writes.filter(live));
    if live(s.index.writes[i]) {
        s.index.writes.lemma_filter_contains(live, i);
    }
    assert forall|j: int| 0 <= j < p.index.writes.len() implies (#[trigger] p.index.writes[j]).1.status
        != TxnStatus::Applied && s.index.writes.contains(p.index.writes[j]) by {
        s.index.writes.lemma_filter_pred(live, j);
        crate::collections::lemma_filter_from(s.index.writes, live, j);
    }
    crate::collections::lemma_filter_shortens(s.index.writes, live);
}

/// A record counts as durable where one was handed to the log and it became so, and a
/// mutation where one was handed to storage and it was written; where nothing was handed
/// over, nothing does.
pub proof fn handing_over_is_seen(
    log: Seq<(Seq<u8>, bool)>,
    record: Seq<u8>,
    storage: Seq<(TxnId, crate::accord::apply::MutationView, bool)>,
    id: TxnId,
    m: crate::accord::apply::MutationView,
    ok: bool,
)
    ensures
        crate::accord::protocol::logged(log, log.push((record, ok))) == ok,
        !crate::accord::protocol::logged(log, log),
        crate::accord::protocol::stored(storage, storage.push((id, m, ok))) == ok,
        !crate::accord::protocol::stored(storage, storage),
{
}

/// The execution timestamp for a transaction is its own proposal where there is no conflict
/// or only earlier ones, and else the next reading of the node's clock after the latest.
pub proof fn execution_follows_the_latest_conflict(
    t0: Timestamp,
    ct: Timestamp,
    node: u64,
)
    ensures
        crate::accord::protocol::execution_time(t0, None, node) == t0,
        ct.precedes(t0) ==> crate::accord::protocol::execution_time(t0, Some(ct), node) == t0,
        !ct.precedes(t0) ==> crate::accord::protocol::execution_time(t0, Some(ct), node)
            == ct.spec_past(node),
{
}

} // verus!
