//! Network addresses and peers.

use vstd::prelude::*;

use crate::collections::str_equal;
use crate::text::append_decimal;

verus! {

/// A network address: the host as text and the port. The host of an IPv6
/// address carries its brackets.
#[derive(Debug, PartialEq, Eq)]
pub struct PeerAddr {
    pub host: String,
    pub port: u16,
}

/// Model of [`PeerAddr`].
pub struct AddrView {
    pub host: Seq<char>,
    pub port: u16,
}

impl View for PeerAddr {
    type V = AddrView;

    open spec fn view(&self) -> AddrView {
        AddrView { host: self.host@, port: self.port }
    }
}

impl AddrView {
    /// The address in the form `host:port`.
    pub open spec fn text(self) -> Seq<char> {
        self.host + ":"@ + crate::text::decimal_text(self.port as nat)
    }

    /// The same host at another port.
    pub open spec fn at_port(self, port: u16) -> AddrView {
        AddrView { host: self.host, port }
    }
}

impl PeerAddr {
    /// The address of a host and a port.
    pub fn new(host: &str, port: u16) -> (a: PeerAddr)
        ensures
            a@ == (AddrView { host: host@, port }),
    {
        PeerAddr { host: host.to_owned(), port }
    }

    /// A copy.
    pub fn copied(&self) -> (a: PeerAddr)
        ensures
            a@ == self@,
    {
        PeerAddr { host: self.host.as_str().to_owned(), port: self.port }
    }

    /// The same host at another port.
    pub fn at_port(&self, port: u16) -> (a: PeerAddr)
        ensures
            a@ == self@.at_port(port),
    {
        PeerAddr { host: self.host.as_str().to_owned(), port }
    }

    /// Are these the same address?
    pub fn same(&self, other: &PeerAddr) -> (b: bool)
        ensures
            b == (self@ == other@),
    {
        self.port == other.port && str_equal(self.host.as_str(), other.host.as_str())
    }

    /// The address in the form `host:port`.
    pub fn text(&self) -> (t: String)
        ensures
            t@ == self@.text(),
    {
        let mut t = self.host.as_str().to_owned();
        t.append(":");
        append_decimal(&mut t, self.port as u64);
        t
    }
}

/// A node and where it can be reached.
#[derive(Debug, PartialEq, Eq)]
pub struct Peer {
    pub host_id: u128,
    pub addr: PeerAddr,
}

/// Model of [`Peer`].
pub struct PeerView {
    pub host_id: u128,
    pub addr: AddrView,
}

impl View for Peer {
    type V = PeerView;

    open spec fn view(&self) -> PeerView {
        PeerView { host_id: self.host_id, addr: self.addr@ }
    }
}

impl Peer {
    /// A node at an address.
    pub fn new(host_id: u128, addr: PeerAddr) -> (p: Peer)
        ensures
            p@ == (PeerView { host_id, addr: addr@ }),
    {
        Peer { host_id, addr }
    }

    /// A copy.
    pub fn copied(&self) -> (p: Peer)
        ensures
            p@ == self@,
    {
        Peer { host_id: self.host_id, addr: self.addr.copied() }
    }
}

/// Models of a list of peers.
pub open spec fn peer_views(peers: Seq<Peer>) -> Seq<PeerView> {
    Seq::new(peers.len(), |i: int| peers[i]@)
}

/// The host ids of a list of peers.
pub open spec fn host_ids(peers: Seq<PeerView>) -> Seq<u128> {
    Seq::new(peers.len(), |i: int| peers[i].host_id)
}

/// Does a list hold a host?
pub open spec fn lists_host(peers: Seq<PeerView>, host_id: u128) -> bool {
    exists|i: int| 0 <= i < peers.len() && (#[trigger] peers[i]).host_id == host_id
}

/// A copy of a list of peers.
pub fn copied_peers(peers: &[Peer]) -> (v: Vec<Peer>)
    ensures
        peer_views(v@) == peer_views(peers@),
{
    let mut v: Vec<Peer> = Vec::new();
    let mut i: usize = 0;
    while i < peers.len()
        invariant
            i <= peers.len(),
            peer_views(v@) == peer_views(peers@).take(i as int),
        decreases peers.len() - i,
    {
        let ghost before = v@;
        v.push(peers[i].copied());
        proof {
            assert(peer_views(v@) =~= peer_views(before).push(peers@[i as int]@));
            assert(peer_views(peers@).take(i + 1) =~= peer_views(peers@).take(i as int).push(
                peers@[i as int]@,
            ));
        }
        i = i + 1;
    }
    assert(peer_views(peers@).take(i as int) =~= peer_views(peers@));
    v
}

/// Does a list hold a host?
pub fn has_host(peers: &[Peer], host_id: u128) -> (b: bool)
    ensures
        b == lists_host(peer_views(peers@), host_id),
{
    let mut i: usize = 0;
    while i < peers.len()
        invariant
            i <= peers.len(),
            forall|k: int| 0 <= k < i ==> (#[trigger] peer_views(peers@)[k]).host_id != host_id,
        decreases peers.len() - i,
    {
        if peers[i].host_id == host_id {
            assert(peer_views(peers@)[i as int].host_id == host_id);
            return true;
        }
        i = i + 1;
    }
    false
}

/// Pushing onto a list pushes onto its model.
pub proof fn lemma_peer_views_push(peers: Seq<Peer>, p: Peer)
    ensures
        peer_views(peers.push(p)) == peer_views(peers).push(p@),
{
    assert(peer_views(peers.push(p)) =~= peer_views(peers).push(p@));
}

/// An address is modelled by its host and its port, and a peer by its host id and its
/// address.
pub proof fn models_say_where_peers_are(a: PeerAddr, p: Peer)
    ensures
        a@.host == a.host@,
        a@.port == a.port,
        p@.host_id == p.host_id,
        p@.addr == p.addr@,
{
}

/// An address at another port is on the same host. Its text is the host, a colon and the
/// port in decimal, so that two addresses of one host with the same text are the same.
pub proof fn ports_are_read_from_addresses(a: AddrView, port: u16, b: AddrView)
    ensures
        a.at_port(port).host == a.host,
        a.at_port(port).port == port,
        a.text().take(a.host.len() as int) == a.host,
        a.text().len() > a.host.len() && a.text()[a.host.len() as int] == ':',
        a.text().skip((a.host.len() + 1) as int) == crate::text::decimal_text(a.port as nat),
        a.host == b.host && a.text() == b.text() ==> a == b,
{
    reveal_strlit(":");
    let t = a.text();
    assert(t.take(a.host.len() as int) =~= a.host);
    assert(t.skip((a.host.len() + 1) as int) =~= crate::text::decimal_text(a.port as nat));
    let u = b.text();
    assert(u.skip((b.host.len() + 1) as int) =~= crate::text::decimal_text(b.port as nat));
    if a.host == b.host && t == u {
        crate::text::decimal_texts_differ(a.port as nat, b.port as nat);
    }
}

/// A list of peers is modelled item by item, and names a host exactly where a peer of it
/// has that host id.
pub proof fn peer_lists_are_modelled_item_by_item(peers: Seq<Peer>, i: int, host_id: u128)
    ensures
        peer_views(peers).len() == peers.len(),
        0 <= i < peers.len() ==> peer_views(peers)[i] == peers[i]@,
        host_ids(peer_views(peers)).len() == peers.len(),
        0 <= i < peers.len() ==> host_ids(peer_views(peers))[i] == peers[i].host_id,
        lists_host(peer_views(peers), host_id) <==> exists|k: int|
            0 <= k < peers.len() && (#[trigger] peers[k]).host_id == host_id,
{
    let v = peer_views(peers);
    if exists|k: int| 0 <= k < peers.len() && (#[trigger] peers[k]).host_id == host_id {
        let k = choose|k: int| 0 <= k < peers.len() && (#[trigger] peers[k]).host_id == host_id;
        assert(v[k].host_id == host_id);
    }
    if lists_host(v, host_id) {
        let k = choose|k: int| 0 <= k < v.len() && (#[trigger] v[k]).host_id == host_id;
        assert(peers[k].host_id == host_id);
    }
}

} // verus!
