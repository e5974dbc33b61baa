//! Planning of cluster invites to peers that reconnect.
//!
//! Callbacks for one peer can arrive in bursts. A reservation per peer and
//! cooldown window lets only one of them send.

use std::collections::BTreeMap;

use vstd::prelude::*;

use crate::address::{has_host, Peer, PeerAddr};

verus! {

broadcast use vstd::std_specs::btree::group_btree_axioms;

/// Whom to invite, and with what list.
#[derive(Debug, PartialEq, Eq)]
pub struct ReconnectInvitePlan {
    pub recipient: u128,
    pub initiator: u128,
    pub peers: Vec<Peer>,
}

/// Peers that an invite names: neither the recipient nor the sender.
pub open spec fn invite_subject(recipient: u128, local_host_id: u128) -> spec_fn(
    crate::address::PeerView,
) -> bool {
    |p: crate::address::PeerView| p.host_id != recipient && p.host_id != local_host_id
}

/// The peers of an invite: the connected ones but for the recipient and the
/// sender, then the sender where its address is known.
pub open spec fn invite_peers(
    local_host_id: u128,
    local_addr: Option<crate::address::AddrView>,
    recipient: u128,
    connected: Seq<crate::address::PeerView>,
) -> Seq<crate::address::PeerView> {
    let others = connected.filter(invite_subject(recipient, local_host_id));
    match local_addr {
        Some(addr) => others.push(
            crate::address::PeerView { host_id: local_host_id, addr },
        ),
        None => others,
    }
}

/// View of an optional address.
pub open spec fn addr_view(addr: Option<&PeerAddr>) -> Option<crate::address::AddrView> {
    match addr {
        Some(a) => Some(a@),
        None => None,
    }
}

/// The invite for a recipient; none where there is nobody to name.
pub fn plan_reconnect_invite(
    local_host_id: u128,
    local_addr: Option<&PeerAddr>,
    recipient: u128,
    connected_peers: &[Peer],
) -> (plan: Option<ReconnectInvitePlan>)
    ensures
        match plan {
            Some(p) => {
                &&& p.recipient == recipient
                &&& p.initiator == local_host_id
                &&& crate::address::peer_views(p.peers@) == invite_peers(
                    local_host_id,
                    addr_view(local_addr),
                    recipient,
                    crate::address::peer_views(connected_peers@),
                )
                &&& p.peers@.len() > 0
            },
            None => invite_peers(
                local_host_id,
                addr_view(local_addr),
                recipient,
                crate::address::peer_views(connected_peers@),
            ).len() == 0,
        },
{
    let ghost all = crate::address::peer_views(connected_peers@);
    let ghost keep = invite_subject(recipient, local_host_id);
    let mut peers: Vec<Peer> = Vec::new();
    let mut i: usize = 0;
    proof {
        reveal(Seq::filter);
        assert(crate::address::peer_views(peers@) =~= all.take(0).filter(keep));
    }
    while i < connected_peers.len()
        invariant
            i <= connected_peers.len(),
            all == crate::address::peer_views(connected_peers@),
            keep == invite_subject(recipient, local_host_id),
            crate::address::peer_views(peers@) == all.take(i as int).filter(keep),
            !crate::address::lists_host(crate::address::peer_views(peers@), local_host_id),
        decreases connected_peers.len() - i,
    {
        let ghost before = peers@;
        proof {
            crate::collections::lemma_filter_step(all, i as int, keep);
        }
        let p = &connected_peers[i];
        assert(all[i as int] == p@);
        if p.host_id != recipient && p.host_id != local_host_id {
            let q = p.copied();
            proof {
                crate::address::lemma_peer_views_push(before, q);
            }
            peers.push(q);
            assert(!crate::address::lists_host(
                crate::address::peer_views(peers@),
                local_host_id,
            ));
        }
        i = i + 1;
    }
    assert(all.take(i as int) =~= all);
    if let Some(addr) = local_addr {
        if !has_host(peers.as_slice(), local_host_id) {
            let q = Peer::new(local_host_id, addr.copied());
            proof {
                crate::address::lemma_peer_views_push(peers@, q);
            }
            peers.push(q);
        }
    }
    if peers.len() == 0 {
        return None;
    }
    Some(ReconnectInvitePlan { recipient, initiator: local_host_id, peers })
}

/// Is a peer still within its window?
pub open spec fn cooling(recent: Map<u128, u64>, recipient: u128, now: u64, cooldown: u64) -> bool {
    &&& recent.contains_key(recipient)
    &&& if now >= recent[recipient] {
        now - recent[recipient] < cooldown
    } else {
        0 < cooldown
    }
}

/// The reservations after an attempt to reserve.
pub open spec fn reserved(
    recent: Map<u128, u64>,
    recipient: u128,
    now: u64,
    cooldown: u64,
    capacity: usize,
) -> Map<u128, u64> {
    if cooling(recent, recipient, now, cooldown) {
        recent
    } else if recent.len() >= capacity {
        Map::empty().insert(recipient, now)
    } else {
        recent.insert(recipient, now)
    }
}

/// Take the right to send to a peer. It is refused within the cooldown after
/// the last one taken. A full table is emptied first.
pub fn reserve_reconnect_invite(
    recent: &mut BTreeMap<u128, u64>,
    recipient: u128,
    now: u64,
    cooldown: u64,
    capacity: usize,
) -> (granted: bool)
    ensures
        granted == !cooling(old(recent)@, recipient, now, cooldown),
        final(recent)@ == reserved(old(recent)@, recipient, now, cooldown, capacity),
{
    let cooling_down: bool = match recent.get(&recipient) {
        Some(sent) => now.saturating_sub(*sent) < cooldown,
        None => false,
    };
    if cooling_down {
        return false;
    }
    if recent.len() >= capacity {
        recent.clear();
    }
    recent.insert(recipient, now);
    true
}

/// The reservations after one is given back.
pub open spec fn released(recent: Map<u128, u64>, recipient: u128, reserved_at: u64) -> Map<
    u128,
    u64,
> {
    if recent.contains_key(recipient) && recent[recipient] == reserved_at {
        recent.remove(recipient)
    } else {
        recent
    }
}

/// Give back a reservation that came to nothing. A later reservation for the
/// same peer stays.
pub fn release_reconnect_invite(
    recent: &mut BTreeMap<u128, u64>,
    recipient: u128,
    reserved_at: u64,
)
    ensures
        final(recent)@ == released(old(recent)@, recipient, reserved_at),
{
    let ours: bool = match recent.get(&recipient) {
        Some(at) => *at == reserved_at,
        None => false,
    };
    if ours {
        recent.remove(&recipient);
    }
}

/// The reservations after a run of attempts for one peer.
pub open spec fn reserved_in_turn(
    recent: Map<u128, u64>,
    recipient: u128,
    times: Seq<u64>,
    cooldown: u64,
    capacity: usize,
) -> Map<u128, u64>
    decreases times.len(),
{
    if times.len() == 0 {
        recent
    } else {
        reserved(
            reserved_in_turn(recent, recipient, times.drop_last(), cooldown, capacity),
            recipient,
            times.last(),
            cooldown,
            capacity,
        )
    }
}

/// How many of a run of attempts for one peer are granted.
pub open spec fn grants(
    recent: Map<u128, u64>,
    recipient: u128,
    times: Seq<u64>,
    cooldown: u64,
    capacity: usize,
) -> nat
    decreases times.len(),
{
    if times.len() == 0 {
        0
    } else {
        let before = reserved_in_turn(recent, recipient, times.drop_last(), cooldown, capacity);
        grants(recent, recipient, times.drop_last(), cooldown, capacity) + if cooling(
            before,
            recipient,
            times.last(),
            cooldown,
        ) {
            0nat
        } else {
            1nat
        }
    }
}

/// However often a peer is offered, it is granted at most once per cooldown:
/// over attempts at non-decreasing times, the grants are bounded by the number
/// of windows that fit into the time from the first attempt to the last.
pub proof fn grants_are_bounded_by_windows(
    recent: Map<u128, u64>,
    recipient: u128,
    times: Seq<u64>,
    cooldown: u64,
    capacity: usize,
)
    requires
        cooldown > 0,
        times.len() > 0,
        forall|i: int, j: int| 0 <= i <= j < times.len() ==> times[i] <= times[j],
    ensures
        grants(recent, recipient, times, cooldown, capacity) <= 1 + (times.last() - times[0])
            / cooldown as int,
    decreases times.len(),
{
    lemma_last_grant(recent, recipient, times, cooldown, capacity);
    assert((times.last() - times[0]) / cooldown as int >= 0) by (nonlinear_arith)
        requires
            times.last() >= times[0],
            cooldown > 0,
    ;
    let g = grants(recent, recipient, times, cooldown, capacity);
    if g > 0 {
        let at = reserved_in_turn(recent, recipient, times, cooldown, capacity)[recipient];
        assert(g - 1 <= (times.last() - times[0]) / cooldown as int) by (nonlinear_arith)
            requires
                (g - 1) * cooldown <= at - times[0],
                at <= times.last(),
                cooldown > 0,
        ;
    }
}

/// After a grant the reservation stands, and each grant lies a full cooldown
/// after the one before.
proof fn lemma_last_grant(
    recent: Map<u128, u64>,
    recipient: u128,
    times: Seq<u64>,
    cooldown: u64,
    capacity: usize,
)
    requires
        cooldown > 0,
        times.len() > 0,
        forall|i: int, j: int| 0 <= i <= j < times.len() ==> times[i] <= times[j],
    ensures
        grants(recent, recipient, times, cooldown, capacity) > 0 ==> {
            let after = reserved_in_turn(recent, recipient, times, cooldown, capacity);
            &&& after.contains_key(recipient)
            &&& times[0] <= after[recipient] <= times.last()
            &&& (grants(recent, recipient, times, cooldown, capacity) - 1) * cooldown
                <= after[recipient] - times[0]
        },
    decreases times.len(),
{
    let head = times.drop_last();
    let before = reserved_in_turn(recent, recipient, head, cooldown, capacity);
    let g = grants(recent, recipient, head, cooldown, capacity);
    assert(0 * cooldown == 0);
    if head.len() == 0 {
        assert(g == 0);
    } else {
        lemma_last_grant(recent, recipient, head, cooldown, capacity);
        assert(head[0] == times[0]);
        assert(head.last() <= times.last());
        if g > 0 && !cooling(before, recipient, times.last(), cooldown) {
            assert(times.last() - before[recipient] >= cooldown);
            assert(g * cooldown <= times.last() - times[0]) by (nonlinear_arith)
                requires
                    (g - 1) * cooldown <= before[recipient] - times[0],
                    times.last() - before[recipient] >= cooldown,
            ;
        }
    }
}

/// A reservation that is given back suppresses nothing: the next attempt is
/// granted, whenever it comes.
pub proof fn released_peer_can_retry(
    recent: Map<u128, u64>,
    recipient: u128,
    reserved_at: u64,
    now: u64,
    cooldown: u64,
    capacity: usize,
)
    requires
        !cooling(recent, recipient, reserved_at, cooldown),
    ensures
        !cooling(
            released(
                reserved(recent, recipient, reserved_at, cooldown, capacity),
                recipient,
                reserved_at,
            ),
            recipient,
            now,
            cooldown,
        ),
{
}

/// A peer never waits for another: reservations for one leave the window of
/// the others as it was, unless a full table is emptied, which only opens
/// windows.
pub proof fn reservations_are_per_peer(
    recent: Map<u128, u64>,
    recipient: u128,
    other: u128,
    now: u64,
    later: u64,
    cooldown: u64,
    capacity: usize,
)
    requires
        recipient != other,
    ensures
        cooling(reserved(recent, recipient, now, cooldown, capacity), other, later, cooldown)
            ==> cooling(recent, other, later, cooldown),
        recent.len() < capacity ==> (cooling(
            reserved(recent, recipient, now, cooldown, capacity),
            other,
            later,
            cooldown,
        ) == cooling(recent, other, later, cooldown)),
{
}

/// An invite names every connected peer but its recipient and its sender, and the sender
/// last where its address is known; it names nobody else.
pub proof fn invites_name_everybody_else(
    local: u128,
    local_addr: Option<crate::address::AddrView>,
    recipient: u128,
    connected: Seq<crate::address::PeerView>,
    peer: crate::address::PeerView,
)
    ensures
        ({
            let list = invite_peers(local, local_addr, recipient, connected);
            &&& list.contains(peer) <==> (connected.contains(peer) && peer.host_id != recipient
                && peer.host_id != local) || (local_addr is Some && peer.host_id == local
                && peer.addr == local_addr->0)
            &&& local_addr is Some ==> list.len() > 0 && list.last().host_id == local
            &&& list.len() <= connected.len() + 1
        }),
{
    let p = invite_subject(recipient, local);
    let others = connected.filter(p);
    let list = invite_peers(local, local_addr, recipient, connected);
    crate::collections::lemma_filter_membership(connected, p, peer);
    crate::collections::lemma_filter_shortens(connected, p);
    if local_addr is Some {
        let own = crate::address::PeerView { host_id: local, addr: local_addr->0 };
        assert(list == others.push(own));
        assert(list[others.len() as int] == own);
        if others.contains(peer) {
            let k = choose|k: int| 0 <= k < others.len() && others[k] == peer;
            assert(list[k] == peer);
        }
        if list.contains(peer) {
            let k = choose|k: int| 0 <= k < list.len() && list[k] == peer;
            if k < others.len() {
                assert(others[k] == peer);
            }
        }
    }
}

/// A peer waits exactly as long as the cooldown after its last reservation lasts.
pub proof fn peers_wait_for_the_cooldown(
    recent: Map<u128, u64>,
    recipient: u128,
    now: u64,
    cooldown: u64,
)
    ensures
        !recent.contains_key(recipient) ==> !cooling(recent, recipient, now, cooldown),
        recent.contains_key(recipient) ==> (cooling(recent, recipient, now, cooldown) <==> cooldown
            > 0 && now < recent[recipient] + cooldown),
{
}

/// A reservation that is granted is for the given peer and the given time, and leaves those
/// of the others, unless the table is full: then it is the only one left. One that is
/// refused changes nothing.
pub proof fn reservations_are_recorded(
    recent: Map<u128, u64>,
    recipient: u128,
    now: u64,
    cooldown: u64,
    capacity: usize,
    other: u128,
)
    requires
        other != recipient,
    ensures
        ({
            let after = reserved(recent, recipient, now, cooldown, capacity);
            let refused = recent.contains_key(recipient) && cooldown > 0 && now
                < recent[recipient] + cooldown;
            &&& refused ==> after == recent
            &&& !refused ==> after.contains_key(recipient) && after[recipient] == now
            &&& !refused && recent.len() < capacity ==> (after.contains_key(other)
                <==> recent.contains_key(other)) && (recent.contains_key(other) ==> after[other]
                == recent[other])
            &&& !refused && recent.len() >= capacity ==> !after.contains_key(other)
        }),
{
}

/// Giving back a reservation takes off that of the peer where it is the one that was made
/// at the given time, and nothing else.
pub proof fn releases_take_their_own(
    recent: Map<u128, u64>,
    recipient: u128,
    reserved_at: u64,
    other: u128,
)
    ensures
        ({
            let after = released(recent, recipient, reserved_at);
            &&& other != recipient ==> (after.contains_key(other) <==> recent.contains_key(other))
                && (recent.contains_key(other) ==> after[other] == recent[other])
            &&& after.contains_key(recipient) <==> recent.contains_key(recipient)
                && recent[recipient] != reserved_at
            &&& after.contains_key(recipient) ==> after[recipient] == recent[recipient]
        }),
{
}

/// An optional address is modelled by where it is.
pub proof fn optional_addresses_are_modelled(a: Option<&PeerAddr>)
    ensures
        a matches Some(x) ==> addr_view(a) == Some(x@),
        a is None ==> addr_view(a) is None,
{
}

} // verus!
