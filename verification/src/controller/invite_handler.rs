//! Answering cluster invites.
//!
//! A node that is invited connects to the peers that it does not reach yet,
//! passes the invite on to them, and joins in forming the cluster unless it is
//! part of one.

use std::collections::BTreeMap;

use vstd::prelude::*;

use crate::address::{has_host, Peer, PeerAddr};
use crate::controller::cluster::{plan_invite_peer_connection, InvitePeerConnectionPlan};
use crate::controller::invite::reserve_reconnect_invite;
use crate::controller::mode_controller::{ModeController, CLUSTER_RECONNECT_INVITE_COOLDOWN};
use crate::controller::peer_events::MAX_CONNECTED_PEERS;
use crate::mode::DeploymentMode;
use crate::raft::borrowed_text;

verus! {

broadcast use vstd::std_specs::btree::group_btree_axioms;

/// A peer that an invite names, and what is known of it.
#[derive(Debug)]
pub struct InvitedPeer {
    pub peer: Peer,
    /// Where it was last reached.
    pub known_addr: Option<String>,
    /// Is it connected?
    pub live: bool,
}

/// Model of [`InvitedPeer`].
pub struct InvitedView {
    pub peer: crate::address::PeerView,
    pub known_addr: Option<Seq<char>>,
    pub live: bool,
}

impl View for InvitedPeer {
    type V = InvitedView;

    open spec fn view(&self) -> InvitedView {
        InvitedView {
            peer: self.peer@,
            known_addr: crate::raft::text_view(self.known_addr),
            live: self.live,
        }
    }
}

/// Models of a list of invited peers.
pub open spec fn invited_views(peers: Seq<InvitedPeer>) -> Seq<InvitedView> {
    Seq::new(peers.len(), |i: int| peers[i]@)
}

/// What an invite leads to.
#[derive(Debug)]
pub struct InviteOutcome {
    /// Peers to connect to.
    pub connect: Vec<Peer>,
    /// Peers to pass the invite on to, once the connections were tried.
    pub rebroadcast: Vec<Peer>,
    /// Peers to form a cluster with, if that is due.
    pub form: Option<Vec<Peer>>,
    /// The host id with which the invite is acknowledged.
    pub ack: u128,
}

/// Peers of an invite that are not reached, where they can be.
pub open spec fn discovered(local: u128, port: u16, peers: Seq<InvitedView>) -> Seq<
    crate::address::PeerView,
>
    decreases peers.len(),
{
    if peers.len() == 0 {
        Seq::empty()
    } else {
        let head = discovered(local, port, peers.drop_last());
        let last = peers.last();
        match crate::controller::cluster::connection_plan(
            local,
            last.peer.host_id,
            last.peer.addr,
            port,
            last.known_addr,
            last.live,
        ) {
            crate::controller::cluster::ConnectionPlanView::Connect { reverse_addr, .. } => {
                head.push(
                    crate::address::PeerView { host_id: last.peer.host_id, addr: reverse_addr },
                )
            },
            _ => head,
        }
    }
}

/// The reservations after dialing peers in turn.
pub open spec fn dialed(recent: Map<u128, u64>, peers: Seq<crate::address::PeerView>, now: u64) -> Map<
    u128,
    u64,
>
    decreases peers.len(),
{
    if peers.len() == 0 {
        recent
    } else {
        crate::controller::invite::reserved(
            dialed(recent, peers.drop_last(), now),
            peers.last().host_id,
            now,
            CLUSTER_RECONNECT_INVITE_COOLDOWN,
            MAX_CONNECTED_PEERS,
        )
    }
}

/// The peers that are dialed: those outside their cooldown.
pub open spec fn dials(recent: Map<u128, u64>, peers: Seq<crate::address::PeerView>, now: u64) -> Seq<
    crate::address::PeerView,
>
    decreases peers.len(),
{
    if peers.len() == 0 {
        Seq::empty()
    } else {
        let head = dials(recent, peers.drop_last(), now);
        if crate::controller::invite::cooling(
            dialed(recent, peers.drop_last(), now),
            peers.last().host_id,
            now,
            CLUSTER_RECONNECT_INVITE_COOLDOWN,
        ) {
            head
        } else {
            head.push(peers.last())
        }
    }
}

/// The peers that an invite names, without what is known of them.
pub open spec fn named_peers(peers: Seq<InvitedView>) -> Seq<crate::address::PeerView> {
    Seq::new(peers.len(), |i: int| peers[i].peer)
}

/// The peers to form a cluster with: those that the invite names and its
/// initiator, without this node.
pub open spec fn formation_peers(
    local: u128,
    initiator: crate::address::PeerView,
    peers: Seq<InvitedView>,
) -> Seq<crate::address::PeerView> {
    let others = named_peers(peers).filter(crate::controller::peer_events::not_host(local));
    if initiator.host_id != local && !crate::address::lists_host(others, initiator.host_id) {
        others.push(initiator)
    } else {
        others
    }
}

/// Does an invite lead to forming a cluster? It does for a node that is alone
/// or in a pair and learns of two others.
pub open spec fn joins_formation(
    mode: DeploymentMode,
    peers: Seq<crate::address::PeerView>,
) -> bool {
    (mode == DeploymentMode::Pair || mode == DeploymentMode::Standalone) && peers.len() >= 2
}

/// Answers invites for a node.
#[derive(Clone, Copy, Debug)]
pub struct ClusterInviteHandler {
    pub local_host_id: u128,
    pub internode_port: u16,
}

impl ClusterInviteHandler {
    /// A handler for a node.
    pub fn new(local_host_id: u128, internode_port: u16) -> (h: ClusterInviteHandler)
        ensures
            h.local_host_id == local_host_id,
            h.internode_port == internode_port,
    {
        ClusterInviteHandler { local_host_id, internode_port }
    }

    fn discover(&self, peers: &[InvitedPeer]) -> (v: Vec<Peer>)
        ensures
            crate::address::peer_views(v@) == discovered(
                self.local_host_id,
                self.internode_port,
                invited_views(peers@),
            ),
    {
        let ghost all = invited_views(peers@);
        let mut v: Vec<Peer> = Vec::new();
        let mut i: usize = 0;
        assert(crate::address::peer_views(v@) =~= Seq::empty());
        while i < peers.len()
            invariant
                i <= peers.len(),
                all == invited_views(peers@),
                crate::address::peer_views(v@) == discovered(
                    self.local_host_id,
                    self.internode_port,
                    all.take(i as int),
                ),
            decreases peers.len() - i,
        {
            proof {
                assert(all.take(i + 1).drop_last() =~= all.take(i as int));
                assert(all.take(i + 1).last() == peers@[i as int]@);
            }
            let p = &peers[i];
            let plan = plan_invite_peer_connection(
                self.local_host_id,
                p.peer.host_id,
                &p.peer.addr,
                self.internode_port,
                borrowed_text(&p.known_addr),
                p.live,
            );
            match plan {
                InvitePeerConnectionPlan::Connect { reverse_addr, previous_addr: _ } => {
                    let q = Peer::new(p.peer.host_id, reverse_addr);
                    proof {
                        crate::address::lemma_peer_views_push(v@, q);
                    }
                    v.push(q);
                },
                _ => {},
            }
            i = i + 1;
        }
        assert(all.take(i as int) =~= all);
        v
    }

    fn dial(&self, peers: &[Peer], recent: &mut BTreeMap<u128, u64>, now: u64) -> (v: Vec<Peer>)
        ensures
            crate::address::peer_views(v@) == dials(
                old(recent)@,
                crate::address::peer_views(peers@),
                now,
            ),
            final(recent)@ == dialed(old(recent)@, crate::address::peer_views(peers@), now),
    {
        let ghost all = crate::address::peer_views(peers@);
        let ghost before = recent@;
        let mut v: Vec<Peer> = Vec::new();
        let mut i: usize = 0;
        assert(crate::address::peer_views(v@) =~= Seq::empty());
        while i < peers.len()
            invariant
                i <= peers.len(),
                all == crate::address::peer_views(peers@),
                crate::address::peer_views(v@) == dials(before, all.take(i as int), now),
                recent@ == dialed(before, all.take(i as int), now),
            decreases peers.len() - i,
        {
            proof {
                assert(all.take(i + 1).drop_last() =~= all.take(i as int));
                assert(all.take(i + 1).last() == peers@[i as int]@);
            }
            if reserve_reconnect_invite(
                recent,
                peers[i].host_id,
                now,
                CLUSTER_RECONNECT_INVITE_COOLDOWN,
                MAX_CONNECTED_PEERS,
            ) {
                let q = peers[i].copied();
                proof {
                    crate::address::lemma_peer_views_push(v@, q);
                }
                v.push(q);
            }
            i = i + 1;
        }
        assert(all.take(i as int) =~= all);
        v
    }

    fn gather(&self, initiator: &Peer, peers: &[InvitedPeer]) -> (v: Vec<Peer>)
        ensures
            crate::address::peer_views(v@) == formation_peers(
                self.local_host_id,
                initiator@,
                invited_views(peers@),
            ),
    {
        let ghost all = named_peers(invited_views(peers@));
        let ghost p = crate::controller::peer_events::not_host(self.local_host_id);
        let mut v: Vec<Peer> = Vec::new();
        let mut i: usize = 0;
        proof {
            reveal(Seq::filter);
            assert(crate::address::peer_views(v@) =~= all.take(0).filter(p));
        }
        while i < peers.len()
            invariant
                i <= peers.len(),
                all == named_peers(invited_views(peers@)),
                p == crate::controller::peer_events::not_host(self.local_host_id),
                crate::address::peer_views(v@) == all.take(i as int).filter(p),
            decreases peers.len() - i,
        {
            proof {
                crate::collections::lemma_filter_step(all, i as int, p);
                assert(all[i as int] == peers@[i as int].peer@);
            }
            if peers[i].peer.host_id != self.local_host_id {
                let q = peers[i].peer.copied();
                proof {
                    crate::address::lemma_peer_views_push(v@, q);
                }
                v.push(q);
            }
            i = i + 1;
        }
        assert(all.take(i as int) =~= all);
        if initiator.host_id != self.local_host_id && !has_host(v.as_slice(), initiator.host_id) {
            let q = initiator.copied();
            proof {
                crate::address::lemma_peer_views_push(v@, q);
            }
            v.push(q);
        }
        v
    }

    /// Answer an invite. `initiator` carries the address that the invite came
    /// from. Dials are kept within the cooldown of each peer; the controller
    /// changes in nothing else.
    pub fn handle(
        &self,
        controller: &mut ModeController,
        initiator: &Peer,
        peers: &[InvitedPeer],
        now: u64,
    ) -> (r: InviteOutcome)
        ensures
            final(controller).facts() == old(controller).facts(),
            ({
                let named = invited_views(peers@);
                let found = discovered(self.local_host_id, self.internode_port, named);
                let all = formation_peers(self.local_host_id, initiator@, named);
                let before = old(controller)@;
                &&& crate::address::peer_views(r.connect@) == dials(
                    before.recent_connects,
                    found,
                    now,
                )
                &&& crate::address::peer_views(r.rebroadcast@) == found
                &&& match r.form {
                    Some(v) => joins_formation(before.mode, all) && crate::address::peer_views(v@)
                        == all,
                    None => !joins_formation(before.mode, all),
                }
                &&& r.ack == self.local_host_id
                &&& final(controller)@
                    == (crate::controller::mode_controller::ControllerView {
                    recent_connects: dialed(before.recent_connects, found, now),
                    ..before
                })
            }),
    {
        let rebroadcast = self.discover(peers);
        let connect = self.dial(
            rebroadcast.as_slice(),
            &mut controller.recent_invite_connects,
            now,
        );
        let form = match controller.mode {
            DeploymentMode::Pair | DeploymentMode::Standalone => {
                let all = self.gather(initiator, peers);
                assert(crate::address::peer_views(all@).len() == all@.len());
                if all.len() >= 2 {
                    Some(all)
                } else {
                    None
                }
            },
            _ => None,
        };
        InviteOutcome { connect, rebroadcast, form, ack: self.local_host_id }
    }
}

/// A node never dials itself, whatever an invite names.
pub proof fn invites_never_lead_home(local: u128, port: u16, peers: Seq<InvitedView>)
    ensures
        !crate::address::lists_host(discovered(local, port, peers), local),
    decreases peers.len(),
{
    if peers.len() > 0 {
        invites_never_lead_home(local, port, peers.drop_last());
        let head = discovered(local, port, peers.drop_last());
        let all = discovered(local, port, peers);
        assert forall|k: int| 0 <= k < all.len() implies (#[trigger] all[k]).host_id != local by {
            if k < head.len() {
                assert(head[k] == all[k]);
            }
        }
    }
}

/// A live connection is kept: a peer that is connected is not dialed, even if
/// the invite names another address.
pub proof fn live_peers_are_not_dialed(local: u128, port: u16, peers: Seq<InvitedView>)
    requires
        forall|i: int| 0 <= i < peers.len() ==> (#[trigger] peers[i]).live,
    ensures
        discovered(local, port, peers).len() == 0,
    decreases peers.len(),
{
    if peers.len() > 0 {
        let head = peers.drop_last();
        assert forall|i: int| 0 <= i < head.len() implies (#[trigger] head[i]).live by {
            assert(head[i] == peers[i]);
        }
        live_peers_are_not_dialed(local, port, head);
        assert(peers.last().live);
    }
}

/// Whoever forms a cluster on an invite knows its initiator: it is among the
/// peers, or it is this node.
pub proof fn initiator_is_a_member(
    local: u128,
    initiator: crate::address::PeerView,
    peers: Seq<InvitedView>,
)
    ensures
        initiator.host_id == local || crate::address::lists_host(
            formation_peers(local, initiator, peers),
            initiator.host_id,
        ),
{
    let others = named_peers(peers).filter(crate::controller::peer_events::not_host(local));
    if initiator.host_id != local && !crate::address::lists_host(others, initiator.host_id) {
        let all = formation_peers(local, initiator, peers);
        assert(all.last() == initiator);
        assert(all[all.len() - 1].host_id == initiator.host_id);
    }
}

/// The peers that an invite discovers are those that it names, other than this node, to
/// which no connection is live: each on its own host, at the port for nodes.
pub proof fn unreached_peers_are_discovered(
    local: u128,
    port: u16,
    peers: Seq<InvitedView>,
    peer: crate::address::PeerView,
)
    ensures
        discovered(local, port, peers).contains(peer) <==> peer.host_id != local && peer.addr.port
            == port && exists|i: int|
            0 <= i < peers.len() && (#[trigger] peers[i]).peer.host_id == peer.host_id
                && peers[i].peer.addr.host == peer.addr.host && !peers[i].live,
        discovered(local, port, peers).len() <= peers.len(),
    decreases peers.len(),
{
    if peers.len() > 0 {
        let head = peers.drop_last();
        let last = peers.last();
        unreached_peers_are_discovered(local, port, head, peer);
        let h = discovered(local, port, head);
        let d = discovered(local, port, peers);
        let own = crate::address::PeerView {
            host_id: last.peer.host_id,
            addr: crate::address::AddrView { host: last.peer.addr.host, port },
        };
        let dialed_last = last.peer.host_id != local && !last.live;
        assert(d == if dialed_last {
            h.push(own)
        } else {
            h
        });
        if d.contains(peer) {
            let k = choose|k: int| 0 <= k < d.len() && d[k] == peer;
            if k < h.len() {
                assert(h[k] == peer);
                let i = choose|i: int|
                    0 <= i < head.len() && (#[trigger] head[i]).peer.host_id == peer.host_id
                        && head[i].peer.addr.host == peer.addr.host && !head[i].live;
                assert(peers[i].peer.host_id == peer.host_id);
            } else {
                assert(peers[peers.len() - 1].peer.host_id == peer.host_id);
            }
        }
        if peer.host_id != local && peer.addr.port == port && exists|i: int|
            0 <= i < peers.len() && (#[trigger] peers[i]).peer.host_id == peer.host_id
                && peers[i].peer.addr.host == peer.addr.host && !peers[i].live {
            let i = choose|i: int|
                0 <= i < peers.len() && (#[trigger] peers[i]).peer.host_id == peer.host_id
                    && peers[i].peer.addr.host == peer.addr.host && !peers[i].live;
            if i < head.len() {
                assert(head[i].peer.host_id == peer.host_id);
                let k = choose|k: int| 0 <= k < h.len() && h[k] == peer;
                assert(d[k] == peer);
            } else {
                assert(own == peer);
                assert(d[h.len() as int] == peer);
            }
        }
    }
}

/// Dialing leaves the reservations of the others, as long as the table has room.
proof fn lemma_dialed_others(
    recent: Map<u128, u64>,
    peers: Seq<crate::address::PeerView>,
    now: u64,
    host: u128,
)
    requires
        forall|k: int| 0 <= k < peers.len() ==> (#[trigger] peers[k]).host_id != host,
    ensures
        dialed(recent, peers, now).contains_key(host) ==> recent.contains_key(host) && dialed(
            recent,
            peers,
            now,
        )[host] == recent[host],
        recent.dom().finite() ==> dialed(recent, peers, now).dom().finite() && dialed(
            recent,
            peers,
            now,
        ).len() <= recent.len() + peers.len(),
        recent.dom().finite() && recent.len() + peers.len() <= 1000 && recent.contains_key(host)
            ==> dialed(recent, peers, now).contains_key(host),
    decreases peers.len(),
{
    if peers.len() > 0 {
        let head = peers.drop_last();
        assert forall|k: int| 0 <= k < head.len() implies (#[trigger] head[k]).host_id != host by {
            assert(head[k] == peers[k]);
        }
        lemma_dialed_others(recent, head, now, host);
        assert(peers[peers.len() - 1].host_id != host);
        let before = dialed(recent, head, now);
        let last = peers.last().host_id;
        if recent.dom().finite() {
            let one = Map::<u128, u64>::empty().insert(last, now);
            assert(one.dom() =~= Set::<u128>::empty().insert(last));
            assert(before.insert(last, now).dom() =~= before.dom().insert(last));
        }
    }
}

/// Whoever is dialed was discovered. A peer that is discovered once and does not wait for
/// its cooldown is dialed; one that does wait is not, as long as the table of reservations
/// has room.
pub proof fn discovered_peers_are_dialed(
    recent: Map<u128, u64>,
    found: Seq<crate::address::PeerView>,
    now: u64,
    i: int,
)
    requires
        recent.dom().finite(),
        0 <= i < found.len(),
        forall|k: int|
            0 <= k < found.len() && k != i ==> (#[trigger] found[k]).host_id != found[i].host_id,
    ensures
        ({
            let waits = recent.contains_key(found[i].host_id) && now < recent[found[i].host_id]
                + 30_000;
            &&& !waits ==> dials(recent, found, now).contains(found[i])
            &&& waits && recent.len() + found.len() <= 1000 ==> !dials(recent, found, now).contains(
                found[i],
            )
        }),
        forall|k: int|
            0 <= k < dials(recent, found, now).len() ==> found.contains(
                #[trigger] dials(recent, found, now)[k],
            ),
    decreases found.len(),
{
    let head = found.drop_last();
    let h = dials(recent, head, now);
    let d = dials(recent, found, now);
    lemma_dialed_are_found(recent, head, now);
    lemma_dialed_are_found(recent, found, now);
    if i < head.len() {
        assert forall|k: int| 0 <= k < head.len() && k != i implies (#[trigger] head[k]).host_id
            != head[i].host_id by {
            assert(found[k].host_id != found[i].host_id);
        }
        discovered_peers_are_dialed(recent, head, now, i);
        if h.contains(found[i]) {
            let k = choose|k: int| 0 <= k < h.len() && h[k] == found[i];
            assert(d[k] == found[i]);
        }
        assert(found[found.len() - 1].host_id != found[i].host_id);
        if d.contains(found[i]) {
            let k = choose|k: int| 0 <= k < d.len() && d[k] == found[i];
            assert(k < h.len());
            assert(h[k] == found[i]);
        }
    } else {
        assert forall|k: int| 0 <= k < head.len() implies (#[trigger] head[k]).host_id
            != found[i].host_id by {
            assert(found[k].host_id != found[i].host_id);
        }
        lemma_dialed_others(recent, head, now, found[i].host_id);
        if d.len() == h.len() + 1 {
            assert(d[h.len() as int] == found[i]);
        }
        if d.contains(found[i]) && d == h {
            let k = choose|k: int| 0 <= k < h.len() && h[k] == found[i];
            let m = choose|m: int| 0 <= m < head.len() && head[m] == h[k];
            assert(head[m].host_id != found[i].host_id);
        }
    }
}

proof fn lemma_dialed_are_found(
    recent: Map<u128, u64>,
    found: Seq<crate::address::PeerView>,
    now: u64,
)
    ensures
        forall|k: int|
            0 <= k < dials(recent, found, now).len() ==> found.contains(
                #[trigger] dials(recent, found, now)[k],
            ),
    decreases found.len(),
{
    if found.len() > 0 {
        let head = found.drop_last();
        lemma_dialed_are_found(recent, head, now);
        let h = dials(recent, head, now);
        let d = dials(recent, found, now);
        assert forall|k: int| 0 <= k < d.len() implies found.contains(#[trigger] d[k]) by {
            if k < h.len() {
                assert(head.contains(h[k]));
                let m = choose|m: int| 0 <= m < head.len() && head[m] == h[k];
                assert(found[m] == d[k]);
            } else {
                assert(found[found.len() - 1] == d[k]);
            }
        }
    }
}

/// A cluster is formed with every peer that the invite names, at the address that it names,
/// and with the initiator where it is not among them; with nobody else, and never with this
/// node itself.
pub proof fn clusters_form_with_everybody_named(
    local: u128,
    initiator: crate::address::PeerView,
    peers: Seq<InvitedView>,
    peer: crate::address::PeerView,
)
    ensures
        formation_peers(local, initiator, peers).contains(peer) <==> peer.host_id != local && ((
        exists|i: int| 0 <= i < peers.len() && (#[trigger] peers[i]).peer == peer) || (peer
            == initiator && forall|i: int|
            0 <= i < peers.len() ==> (#[trigger] peers[i]).peer.host_id != initiator.host_id)),
{
    let all = named_peers(peers);
    let p = crate::controller::peer_events::not_host(local);
    let others = all.filter(p);
    let f = formation_peers(local, initiator, peers);
    crate::collections::lemma_filter_membership(all, p, peer);
    if exists|i: int| 0 <= i < peers.len() && (#[trigger] peers[i]).peer == peer {
        let i = choose|i: int| 0 <= i < peers.len() && (#[trigger] peers[i]).peer == peer;
        assert(all[i] == peer);
    }
    if all.contains(peer) {
        let i = choose|i: int| 0 <= i < all.len() && all[i] == peer;
        assert(peers[i].peer == peer);
    }
    if initiator.host_id != local {
        if exists|i: int|
            0 <= i < peers.len() && (#[trigger] peers[i]).peer.host_id == initiator.host_id {
            let i = choose|i: int|
                0 <= i < peers.len() && (#[trigger] peers[i]).peer.host_id == initiator.host_id;
            all.lemma_filter_contains(p, i);
            let k = choose|k: int| 0 <= k < others.len() && others[k] == all[i];
            assert(others[k].host_id == initiator.host_id);
            assert(crate::address::lists_host(others, initiator.host_id));
        }
        if crate::address::lists_host(others, initiator.host_id) {
            let k = choose|k: int|
                0 <= k < others.len() && (#[trigger] others[k]).host_id == initiator.host_id;
            crate::collections::lemma_filter_from(all, p, k);
            let i = choose|i: int| 0 <= i < all.len() && all[i] == others[k];
            assert(peers[i].peer.host_id == initiator.host_id);
        } else {
            assert(f == others.push(initiator));
            assert(f[others.len() as int] == initiator);
            if others.contains(peer) {
                let k = choose|k: int| 0 <= k < others.len() && others[k] == peer;
                assert(f[k] == peer);
            }
            if f.contains(peer) {
                let k = choose|k: int| 0 <= k < f.len() && f[k] == peer;
                if k < others.len() {
                    assert(others[k] == peer);
                }
            }
        }
    }
}

/// An invite leads to forming a cluster only from a pair or from standing alone, and only
/// with two others at least.
pub proof fn small_groups_do_not_form(
    mode: DeploymentMode,
    peers: Seq<crate::address::PeerView>,
)
    ensures
        joins_formation(DeploymentMode::Pair, peers) <==> peers.len() >= 2,
        joins_formation(DeploymentMode::Standalone, peers) <==> peers.len() >= 2,
        mode != DeploymentMode::Pair && mode != DeploymentMode::Standalone ==> !joins_formation(
            mode,
            peers,
        ),
{
}

/// An invited peer is modelled by itself and by what is known of it.
pub proof fn models_say_who_is_invited(p: InvitedPeer)
    ensures
        p@.peer == p.peer@,
        p@.live == p.live,
        p.known_addr matches Some(t) ==> p@.known_addr == Some(t@),
        p.known_addr is None ==> p@.known_addr is None,
{
}

/// A list of invited peers is modelled item by item.
pub proof fn invited_lists_are_modelled(peers: Seq<InvitedPeer>, i: int)
    ensures
        invited_views(peers).len() == peers.len(),
        0 <= i < peers.len() ==> invited_views(peers)[i] == peers[i]@,
{
}

} // verus!
