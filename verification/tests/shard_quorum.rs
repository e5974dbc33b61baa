//! Per-shard commit quorum.

use std::collections::{BTreeSet, HashMap, HashSet};

use ferrosa_cluster::accord::shard_quorum::{slow_quorum_size, ParticipantSet, ShardId, ShardQuorum};

fn node(n: u128) -> u128 {
    n
}

fn participants(entries: &[(ShardId, &[u128])]) -> HashMap<ShardId, Vec<u128>> {
    entries
        .iter()
        .map(|(sid, nodes)| (*sid, nodes.iter().map(|&n| node(n)).collect()))
        .collect()
}

#[test]
fn single_shard_needs_slow_quorum() {
    // One shard, RF=3 → slow quorum = 2.
    let mut q = ShardQuorum::new(&participants(&[(0, &[1, 2, 3])]));
    assert!(!q.all_reached(), "0 acks < quorum");
    q.record_node_ack(node(1));
    assert!(!q.all_reached(), "1 ack < quorum(3)=2");
    q.record_node_ack(node(2));
    assert!(q.all_reached(), "2 acks reach quorum(3)=2");
}

#[test]
fn record_is_idempotent_per_node() {
    let mut q = ShardQuorum::new(&participants(&[(0, &[1, 2, 3])]));
    q.record_node_ack(node(1));
    q.record_node_ack(node(1)); // duplicate must not count twice
    assert!(!q.all_reached(), "one distinct ack is still below quorum");
}

#[test]
fn ack_from_non_replica_is_ignored() {
    let mut q = ShardQuorum::new(&participants(&[(0, &[1, 2, 3])]));
    q.record_node_ack(node(99)); // not a replica of shard 0
    q.record_node_ack(node(1));
    assert!(!q.all_reached(), "the stray ack must not count");
}

/// The per-shard invariant: a full quorum in shard A plus a single ack in
/// shard B must NOT count as committed — shard B is a minority. A global
/// counter (4 distinct acks ≥ slow_quorum_size(6)=4) would wrongly report
/// success; per-shard correctly blocks on shard B.
#[test]
fn minority_in_one_shard_blocks_the_whole_txn() {
    let mut q = ShardQuorum::new(&participants(&[
        (0, &[1, 2, 3]), // shard A
        (1, &[4, 5, 6]), // shard B
    ]));
    // Shard A: full quorum (all three).
    q.record_node_ack(node(1));
    q.record_node_ack(node(2));
    q.record_node_ack(node(3));
    // Shard B: a single ack (minority of RF=3).
    q.record_node_ack(node(4));

    assert!(
        !q.all_reached(),
        "shard B has only 1/3 acks (< quorum 2) — txn must NOT be committed"
    );
    assert_eq!(q.unmet(), vec![1], "shard B (id 1) is the unmet shard");
}

#[test]
fn both_shards_reaching_quorum_commits() {
    let mut q = ShardQuorum::new(&participants(&[(0, &[1, 2, 3]), (1, &[4, 5, 6])]));
    for n in [1, 2, 4, 5] {
        q.record_node_ack(node(n));
    }
    assert!(q.all_reached(), "both shards at 2/3 → quorum each");
    assert!(q.unmet().is_empty());
}

#[test]
fn overlapping_replica_counts_for_every_shard_it_owns() {
    // Node 3 replicates BOTH shards (e.g. ring wrap-around). Its ack counts
    // toward each shard's quorum independently.
    let mut q = ShardQuorum::new(&participants(&[(0, &[1, 2, 3]), (1, &[3, 4, 5])]));
    q.record_node_ack(node(3)); // counts for shard 0 AND shard 1
    q.record_node_ack(node(1)); // shard 0 → now 2/3
    q.record_node_ack(node(4)); // shard 1 → now 2/3
    assert!(
        q.all_reached(),
        "the shared node satisfied both shards' quorums"
    );
}

#[test]
fn participant_set_collapses_keys_with_identical_replicas_to_one_shard() {
    let ps = ParticipantSet::build(&[b"a".to_vec(), b"b".to_vec()], |_k| {
        vec![node(1), node(2), node(3)]
    });
    assert_eq!(ps.shards.len(), 1, "shared replica set → one shard");
    assert_eq!(ps.key_shard, vec![0, 0]);
}

#[test]
fn participant_set_distinct_replica_sets_become_distinct_shards() {
    let ps = ParticipantSet::build(&[b"a".to_vec(), b"b".to_vec()], |k| {
        if k == b"a" {
            vec![node(1), node(2), node(3)]
        } else {
            vec![node(4), node(5), node(6)]
        }
    });
    assert_eq!(ps.shards.len(), 2);
    assert_ne!(
        ps.key_shard[0], ps.key_shard[1],
        "a and b in different shards"
    );

    // Quorum in only ONE shard must not satisfy the whole txn.
    let mut q = ps.quorum();
    for r in &ps.shards[&ps.key_shard[0]] {
        q.record_node_ack(*r);
    }
    assert!(!q.all_reached(), "the other shard is still unmet");
}

#[test]
fn participant_set_overlapping_but_unequal_sets_are_distinct_shards() {
    let ps = ParticipantSet::build(&[b"a".to_vec(), b"b".to_vec()], |k| {
        if k == b"a" {
            vec![node(1), node(2), node(3)]
        } else {
            vec![node(3), node(4), node(5)] // shares node 3, not identical
        }
    });
    assert_eq!(ps.shards.len(), 2, "overlap ≠ identical → 2 shards");
}

#[test]
fn participant_set_dedups_replicas_within_a_key() {
    let ps = ParticipantSet::build(&[b"a".to_vec()], |_k| vec![node(1), node(1), node(2)]);
    assert_eq!(ps.shards[&0].len(), 2, "duplicate replica deduped → rf=2");
}

/// Shards, replication factors, overlapping replicas and ack patterns drawn from a
/// fixed pseudo-random stream: `all_reached` holds exactly where every shard has a
/// slow quorum of its distinct replicas.
#[test]
fn all_reached_matches_per_shard_oracle() {
    let mut seed: u64 = 0x9E37_79B9_7F4A_7C15;
    let mut next = move || {
        seed ^= seed << 13;
        seed ^= seed >> 7;
        seed ^= seed << 17;
        seed
    };
    for _ in 0..256 {
        let shards: Vec<Vec<u128>> = (0..1 + next() % 4)
            .map(|_| (0..1 + next() % 5).map(|_| u128::from(1 + next() % 9)).collect())
            .collect();
        let ack_bits = next();
        let participants: HashMap<ShardId, Vec<u128>> = shards
            .iter()
            .enumerate()
            .map(|(i, nodes)| (i as ShardId, nodes.clone()))
            .collect();
        let mut q = ShardQuorum::new(&participants);

        let all_nodes: BTreeSet<u128> = shards.iter().flatten().copied().collect();
        let mut acked: HashSet<u128> = HashSet::new();
        for (i, &n) in all_nodes.iter().enumerate() {
            if (ack_bits >> (i % 64)) & 1 == 1 {
                q.record_node_ack(node(n));
                acked.insert(n);
            }
        }

        let reached = |nodes: &Vec<u128>| {
            let distinct: BTreeSet<u128> = nodes.iter().copied().collect();
            let got = distinct.iter().filter(|n| acked.contains(n)).count();
            got >= slow_quorum_size(distinct.len())
        };
        assert_eq!(q.all_reached(), shards.iter().all(reached));
        let unmet: Vec<ShardId> = (0..shards.len())
            .filter(|&i| !reached(&shards[i]))
            .map(|i| i as ShardId)
            .collect();
        assert_eq!(q.unmet(), unmet);
    }
}

/// Slow quorums are majorities.
#[test]
fn slow_quorums_are_majorities() {
    let sizes: Vec<usize> = (1..8).map(slow_quorum_size).collect();
    assert_eq!(sizes, vec![1, 2, 2, 3, 3, 4, 4]);
}

/// Shards are numbered by their replica lists in lexicographic order.
#[test]
fn shard_ids_follow_the_replica_lists() {
    let ps = ParticipantSet::build(
        &[b"z".to_vec(), b"a".to_vec(), b"m".to_vec()],
        |k| match k {
            b"z" => vec![9, 8],
            b"a" => vec![2, 1],
            _ => vec![8, 9, 9],
        },
    );
    assert_eq!(ps.key_shard, vec![1, 0, 1]);
    assert_eq!(ps.shards[&0], vec![1, 2]);
    assert_eq!(ps.shards[&1], vec![8, 9]);
}

/// Any two slow quorums of a shard share a replica.
#[test]
fn slow_quorums_share_a_replica() {
    for rf in 1..10usize {
        let q = slow_quorum_size(rf);
        assert!(2 * q > rf);
        let low: BTreeSet<usize> = (0..q).collect();
        let high: BTreeSet<usize> = (rf - q..rf).collect();
        assert!(low.intersection(&high).next().is_some());
    }
}

/// Shards come out the same in whatever order keys are listed, and however often.
#[test]
fn shards_do_not_depend_on_the_listing() {
    let replicas = |k: &[u8]| match k {
        b"a" => vec![node(4), node(5)],
        b"b" => vec![node(2), node(1)],
        _ => vec![node(1), node(2)],
    };
    let one = ParticipantSet::build(&[b"a".to_vec(), b"b".to_vec(), b"c".to_vec()], replicas);
    let two = ParticipantSet::build(
        &[b"c".to_vec(), b"b".to_vec(), b"c".to_vec(), b"a".to_vec()],
        replicas,
    );
    assert_eq!(one.shards, two.shards);
    assert_eq!(one.key_shard, vec![1, 0, 0]);
    assert_eq!(two.key_shard, vec![0, 0, 0, 1]);
}
