//! Invites and their cooldown.

use std::collections::BTreeMap;

use ferrosa_cluster::address::{Peer, PeerAddr};
use ferrosa_cluster::controller::invite::{
    plan_reconnect_invite, release_reconnect_invite, reserve_reconnect_invite,
};

/// A set of unreachable discovered peers re-offered on every invite round must be
/// dialed at most once per cooldown window, not once per round.
#[test]
fn connect_cooldown_bounds_attempts_for_unreachable_peers() {
    let cooldown = 30_000;
    let capacity = 1000;
    let base: u64 = 5_000_000;
    let peers: Vec<u128> = (0..50).map(|_| uuid::Uuid::new_v4().as_u128()).collect();

    let mut recent: BTreeMap<u128, u64> = BTreeMap::new();
    let mut attempts = 0usize;

    // 100 invite rounds, one second apart.
    for round in 0..100u64 {
        let now = base + round * 1_000;
        for &peer in &peers {
            if reserve_reconnect_invite(&mut recent, peer, now, cooldown, capacity) {
                attempts += 1;
            }
        }
    }

    // Over 100 seconds with a 30s cooldown, each of the 50 peers is dialed at
    // rounds 0, 30, 60 and 90.
    assert_eq!(
        attempts,
        peers.len() * 4,
        "connect attempts must be cooldown-bounded, not once-per-round"
    );
    assert!(
        attempts < peers.len() * 100,
        "cooldown gate must collapse the per-round connection storm"
    );
}

/// A peer that just failed is suppressed within the window, then allowed again
/// exactly once the cooldown elapses.
#[test]
fn connect_cooldown_allows_retry_after_window() {
    let cooldown = 30_000;
    let base: u64 = 5_000_000;
    let peer = uuid::Uuid::new_v4().as_u128();
    let mut recent: BTreeMap<u128, u64> = BTreeMap::new();

    assert!(reserve_reconnect_invite(&mut recent, peer, base, cooldown, 1000));
    assert!(
        !reserve_reconnect_invite(&mut recent, peer, base + 5_000, cooldown, 1000),
        "suppressed within the cooldown"
    );
    assert!(
        reserve_reconnect_invite(&mut recent, peer, base + 31_000, cooldown, 1000),
        "one retry is allowed after the cooldown"
    );
}

/// A released peer can be tried again at once; a newer reservation stays.
#[test]
fn released_reservations_can_be_made_again() {
    let mut recent: BTreeMap<u128, u64> = BTreeMap::new();
    assert!(reserve_reconnect_invite(&mut recent, 7, 100, 30_000, 10));
    release_reconnect_invite(&mut recent, 7, 99);
    assert!(!reserve_reconnect_invite(&mut recent, 7, 101, 30_000, 10));
    release_reconnect_invite(&mut recent, 7, 100);
    assert!(reserve_reconnect_invite(&mut recent, 7, 101, 30_000, 10));
}

/// Peers do not share reservations.
#[test]
fn reservations_of_peers_are_apart() {
    let mut recent: BTreeMap<u128, u64> = BTreeMap::new();
    assert!(reserve_reconnect_invite(&mut recent, 7, 100, 30_000, 10));
    assert!(reserve_reconnect_invite(&mut recent, 8, 100, 30_000, 10));
    release_reconnect_invite(&mut recent, 8, 100);
    assert_eq!(recent.get(&7), Some(&100));
    assert_eq!(recent.get(&8), None);
}

fn peer(host_id: u128) -> Peer {
    Peer::new(host_id, PeerAddr::new(&format!("10.0.0.{host_id}"), 7000))
}

/// An invite names everybody but its recipient, the sender last.
#[test]
fn invite_names_the_others() {
    let local = PeerAddr::new("10.0.0.1", 7000);
    let known = [peer(2), peer(3), peer(1)];
    let plan = plan_reconnect_invite(1, Some(&local), 3, &known).expect("a plan");
    assert_eq!(plan.recipient, 3);
    assert_eq!(plan.initiator, 1);
    let ids: Vec<u128> = plan.peers.iter().map(|p| p.host_id).collect();
    assert_eq!(ids, vec![2, 1]);
    assert!(plan_reconnect_invite(1, None, 3, &[peer(3)]).is_none());
}
