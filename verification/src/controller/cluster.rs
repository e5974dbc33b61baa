//! Plans for forming a cluster and for keeping its membership current.

use vstd::prelude::*;

use crate::address::PeerAddr;
use crate::collections::str_equal;
use crate::parse::parse_numeral;
use crate::raft::copied_text;

verus! {

/// What to do about a peer that an invite names.
#[derive(Debug, PartialEq, Eq)]
pub enum InvitePeerConnectionPlan {
    /// The peer is this node.
    SkipSelf,
    /// The peer is connected at another address; the connection stays.
    KeepLiveKnownPeer { known_addr: String, invite_addr: PeerAddr },
    /// The peer is connected.
    AlreadyConnected,
    /// Connect.
    Connect { reverse_addr: PeerAddr, previous_addr: Option<String> },
}

/// Model of [`InvitePeerConnectionPlan`].
pub enum ConnectionPlanView {
    SkipSelf,
    KeepLiveKnownPeer { known_addr: Seq<char>, invite_addr: crate::address::AddrView },
    AlreadyConnected,
    Connect { reverse_addr: crate::address::AddrView, previous_addr: Option<Seq<char>> },
}

impl View for InvitePeerConnectionPlan {
    type V = ConnectionPlanView;

    open spec fn view(&self) -> ConnectionPlanView {
        match self {
            InvitePeerConnectionPlan::SkipSelf => ConnectionPlanView::SkipSelf,
            InvitePeerConnectionPlan::KeepLiveKnownPeer { known_addr, invite_addr } => {
                ConnectionPlanView::KeepLiveKnownPeer {
                    known_addr: known_addr@,
                    invite_addr: invite_addr@,
                }
            },
            InvitePeerConnectionPlan::AlreadyConnected => ConnectionPlanView::AlreadyConnected,
            InvitePeerConnectionPlan::Connect { reverse_addr, previous_addr } => {
                ConnectionPlanView::Connect {
                    reverse_addr: reverse_addr@,
                    previous_addr: crate::raft::text_view(*previous_addr),
                }
            },
        }
    }
}

/// What to do about a peer that an invite names, from what is known of it.
pub open spec fn connection_plan(
    local_host_id: u128,
    peer_id: u128,
    peer_addr: crate::address::AddrView,
    internode_port: u16,
    known_addr: Option<Seq<char>>,
    live: bool,
) -> ConnectionPlanView {
    let reverse = peer_addr.at_port(internode_port);
    if peer_id == local_host_id {
        ConnectionPlanView::SkipSelf
    } else if !live {
        ConnectionPlanView::Connect { reverse_addr: reverse, previous_addr: known_addr }
    } else if known_addr is Some && known_addr->0 != reverse.text() {
        ConnectionPlanView::KeepLiveKnownPeer { known_addr: known_addr->0, invite_addr: reverse }
    } else {
        ConnectionPlanView::AlreadyConnected
    }
}

/// What to do about a peer that an invite names.
pub fn plan_invite_peer_connection(
    local_host_id: u128,
    peer_id: u128,
    peer_addr: &PeerAddr,
    internode_port: u16,
    known_addr: Option<&str>,
    live: bool,
) -> (plan: InvitePeerConnectionPlan)
    ensures
        plan@ == connection_plan(
            local_host_id,
            peer_id,
            peer_addr@,
            internode_port,
            crate::raft::str_view(known_addr),
            live,
        ),
{
    if peer_id == local_host_id {
        return InvitePeerConnectionPlan::SkipSelf;
    }
    let reverse_addr = peer_addr.at_port(internode_port);
    if live {
        return match known_addr {
            Some(known) => {
                let invite_text = reverse_addr.text();
                if str_equal(known, invite_text.as_str()) {
                    InvitePeerConnectionPlan::AlreadyConnected
                } else {
                    InvitePeerConnectionPlan::KeepLiveKnownPeer {
                        known_addr: known.to_owned(),
                        invite_addr: reverse_addr,
                    }
                }
            },
            None => InvitePeerConnectionPlan::AlreadyConnected,
        };
    }
    InvitePeerConnectionPlan::Connect { reverse_addr, previous_addr: copied_text(known_addr) }
}

/// Only a seed that recovered neither a membership nor a topology writes the
/// first membership.
pub fn should_initialize_seed_membership(
    was_seed: bool,
    has_recovered_membership: bool,
    has_recovered_topology_state: bool,
) -> (b: bool)
    ensures
        b == (was_seed && !has_recovered_membership && !has_recovered_topology_state),
{
    was_seed && !has_recovered_membership && !has_recovered_topology_state
}

/// Data moves between owners only where the topology is new.
pub fn should_run_bootstrap_streaming(has_recovered_topology_state: bool) -> (b: bool)
    ensures
        b == !has_recovered_topology_state,
{
    !has_recovered_topology_state
}

/// Is a name in a list?
pub open spec fn names(list: Seq<String>, name: Seq<char>) -> bool {
    exists|i: int| 0 <= i < list.len() && (#[trigger] list[i])@ == name
}

/// Is a name in a list?
pub fn contains_name(list: &[String], name: &str) -> (b: bool)
    ensures
        b == names(list@, name@),
{
    let mut i: usize = 0;
    while i < list.len()
        invariant
            i <= list.len(),
            forall|k: int| 0 <= k < i ==> (#[trigger] list@[k])@ != name@,
        decreases list.len() - i,
    {
        if str_equal(list[i].as_str(), name) {
            return true;
        }
        i = i + 1;
    }
    false
}

/// Keyspaces to propose again once consensus runs: all but the built-in ones,
/// which every node has. The match is on the whole name, so that keyspaces
/// derived from user data are proposed though their names begin with `system`.
pub fn keyspace_needs_cluster_replay(name: &str, system_keyspaces: &[String]) -> (b: bool)
    ensures
        b == !names(system_keyspaces@, name@),
{
    !contains_name(system_keyspaces, name)
}

/// How a keyspace is replicated.
#[derive(Debug, PartialEq, Eq)]
pub struct KeyspaceReplication {
    pub name: String,
    pub strategy: String,
    /// Option names and values; no name occurs twice.
    pub options: Vec<(String, String)>,
}

/// A replication factor as written, or the fallback.
pub open spec fn factor_or(text: Seq<char>, fallback: nat) -> nat {
    match crate::parse::numeral_value(vstd::utf8::encode_utf8(text), usize::MAX as nat) {
        Some(n) => n,
        None => fallback,
    }
}

/// Does an option of this name exist?
pub open spec fn has_option(options: Seq<(String, String)>, name: Seq<char>) -> bool {
    exists|i: int| 0 <= i < options.len() && (#[trigger] options[i]).0@ == name
}

/// Position of the first option of a name.
pub open spec fn option_at(options: Seq<(String, String)>, name: Seq<char>, i: int) -> bool {
    &&& 0 <= i < options.len()
    &&& options[i].0@ == name
    &&& forall|k: int| 0 <= k < i ==> (#[trigger] options[k]).0@ != name
}

/// The value of an option.
pub open spec fn option_value(options: Seq<(String, String)>, name: Seq<char>) -> Seq<char> {
    options[choose|i: int| option_at(options, name, i)].1@
}

/// The sum over all data centers; values that are no numbers count nothing.
pub open spec fn factor_sum(options: Seq<(String, String)>) -> nat
    decreases options.len(),
{
    if options.len() == 0 {
        0
    } else {
        let last = options.last();
        factor_sum(options.drop_last()) + if last.0@ == "class"@ {
            0
        } else {
            factor_or(last.1@, 0)
        }
    }
}

/// The replication factor of a keyspace, seen from a data center.
pub open spec fn keyspace_factor(ks: KeyspaceReplication, local_dc: Seq<char>) -> nat {
    if ks.strategy@ == "SimpleStrategy"@ {
        if has_option(ks.options@, "replication_factor"@) {
            factor_or(option_value(ks.options@, "replication_factor"@), 1)
        } else {
            1
        }
    } else if ks.strategy@ == "NetworkTopologyStrategy"@ {
        if has_option(ks.options@, local_dc) {
            factor_or(option_value(ks.options@, local_dc), 1)
        } else {
            factor_sum(ks.options@)
        }
    } else {
        1
    }
}

fn find_option<'a>(options: &'a Vec<(String, String)>, name: &str) -> (r: Option<&'a str>)
    ensures
        match r {
            Some(v) => has_option(options@, name@) && v@ == option_value(options@, name@),
            None => !has_option(options@, name@),
        },
{
    let mut i: usize = 0;
    while i < options.len()
        invariant
            i <= options.len(),
            forall|k: int| 0 <= k < i ==> (#[trigger] options@[k]).0@ != name@,
        decreases options.len() - i,
    {
        if str_equal(options[i].0.as_str(), name) {
            proof {
                assert(option_at(options@, name@, i as int));
                let j = choose|j: int| option_at(options@, name@, j);
                assert(option_at(options@, name@, j));
                assert(i == j);
            }
            return Some(options[i].1.as_str());
        }
        i = i + 1;
    }
    None
}

fn parse_factor(text: &str, fallback: usize) -> (n: usize)
    ensures
        n as nat == factor_or(text@, fallback as nat),
{
    match parse_numeral(text, usize::MAX as u64) {
        Some(n) => n as usize,
        None => fallback,
    }
}

proof fn lemma_sum_grows(options: Seq<(String, String)>, i: int)
    requires
        0 <= i <= options.len(),
    ensures
        factor_sum(options.take(i)) <= factor_sum(options),
    decreases options.len() - i,
{
    if i == options.len() {
        assert(options.take(i) =~= options);
    } else {
        lemma_sum_grows(options, i + 1);
        assert(options.take(i + 1).drop_last() =~= options.take(i));
    }
}

fn sum_factors(options: &Vec<(String, String)>) -> (n: usize)
    requires
        factor_sum(options@) <= usize::MAX,
    ensures
        n as nat == factor_sum(options@),
{
    let mut sum: usize = 0;
    let mut i: usize = 0;
    while i < options.len()
        invariant
            i <= options.len(),
            factor_sum(options@) <= usize::MAX,
            sum as nat == factor_sum(options@.take(i as int)),
        decreases options.len() - i,
    {
        proof {
            lemma_sum_grows(options@, i + 1);
            assert(options@.take(i + 1).drop_last() =~= options@.take(i as int));
            assert(options@.take(i + 1).last() == options@[i as int]);
        }
        if !str_equal(options[i].0.as_str(), "class") {
            sum = sum + parse_factor(options[i].1.as_str(), 0);
        }
        i = i + 1;
    }
    assert(options@.take(i as int) =~= options@);
    sum
}

/// The factors of all data centers count: the strategy is by data center, and it
/// has no factor for this one.
pub open spec fn sums_data_centers(ks: KeyspaceReplication, local_dc: Seq<char>) -> bool {
    ks.strategy@ == "NetworkTopologyStrategy"@ && !has_option(ks.options@, local_dc)
}

/// The replication factor of a keyspace, seen from a data center.
fn replication_factor(ks: &KeyspaceReplication, local_dc: &str) -> (n: usize)
    requires
        sums_data_centers(*ks, local_dc@) ==> factor_sum(ks.options@) <= usize::MAX,
    ensures
        n as nat == keyspace_factor(*ks, local_dc@),
{
    if str_equal(ks.strategy.as_str(), "SimpleStrategy") {
        match find_option(&ks.options, "replication_factor") {
            Some(v) => parse_factor(v, 1),
            None => 1,
        }
    } else if str_equal(ks.strategy.as_str(), "NetworkTopologyStrategy") {
        match find_option(&ks.options, local_dc) {
            Some(v) => parse_factor(v, 1),
            None => sum_factors(&ks.options),
        }
    } else {
        1
    }
}

/// Is a keyspace at this position a user's?
pub open spec fn user_keyspace(
    keyspaces: Seq<KeyspaceReplication>,
    system_keyspaces: Seq<String>,
    i: int,
) -> bool {
    0 <= i < keyspaces.len() && !names(system_keyspaces, keyspaces[i].name@)
}

/// There is a keyspace of a user.
pub open spec fn has_user_keyspace(
    keyspaces: Seq<KeyspaceReplication>,
    system_keyspaces: Seq<String>,
) -> bool {
    exists|i: int| #[trigger] user_keyspace(keyspaces, system_keyspaces, i)
}

/// The replication factor to form a cluster with: the largest of any user
/// keyspace, and the default where there is no user keyspace.
pub fn resolve_formation_rf(
    keyspaces: &[KeyspaceReplication],
    system_keyspaces: &[String],
    local_dc: &str,
    default_rf: usize,
) -> (rf: usize)
    requires
        forall|i: int| #[trigger]
            user_keyspace(keyspaces@, system_keyspaces@, i) && sums_data_centers(
                keyspaces@[i],
                local_dc@,
            ) ==> factor_sum(keyspaces@[i].options@) <= usize::MAX,
    ensures
        !has_user_keyspace(keyspaces@, system_keyspaces@) ==> rf == default_rf,
        forall|i: int| #[trigger]
            user_keyspace(keyspaces@, system_keyspaces@, i) ==> rf as nat >= keyspace_factor(
                keyspaces@[i],
                local_dc@,
            ),
        has_user_keyspace(keyspaces@, system_keyspaces@) ==> exists|i: int| #[trigger]
            user_keyspace(keyspaces@, system_keyspaces@, i) && rf as nat == keyspace_factor(
                keyspaces@[i],
                local_dc@,
            ),
{
    let mut largest: Option<usize> = None;
    let mut k: usize = 0;
    while k < keyspaces.len()
        invariant
            k <= keyspaces.len(),
            forall|i: int| #[trigger]
                user_keyspace(keyspaces@, system_keyspaces@, i) && sums_data_centers(
                    keyspaces@[i],
                    local_dc@,
                ) ==> factor_sum(keyspaces@[i].options@) <= usize::MAX,
            match largest {
                Some(rf) => {
                    &&& forall|i: int|
                        i < k && #[trigger] user_keyspace(keyspaces@, system_keyspaces@, i)
                            ==> rf as nat >= keyspace_factor(keyspaces@[i], local_dc@)
                    &&& exists|i: int| #[trigger]
                        user_keyspace(keyspaces@, system_keyspaces@, i) && rf as nat
                            == keyspace_factor(keyspaces@[i], local_dc@)
                },
                None => forall|i: int|
                    i < k ==> !(#[trigger] user_keyspace(keyspaces@, system_keyspaces@, i)),
            },
        decreases keyspaces.len() - k,
    {
        let ks = &keyspaces[k];
        if keyspace_needs_cluster_replay(ks.name.as_str(), system_keyspaces) {
            assert(user_keyspace(keyspaces@, system_keyspaces@, k as int));
            let rf: usize = replication_factor(ks, local_dc);
            largest = match largest {
                Some(most) => if rf > most {
                    Some(rf)
                } else {
                    Some(most)
                },
                None => Some(rf),
            };
        }
        k = k + 1;
    }
    match largest {
        Some(rf) => rf,
        None => default_rf,
    }
}

/// A peer that an invite names is skipped where it is this node, and connected to, on its
/// host at the port for nodes, where it is not live. A live one is kept: as it is where the
/// invite gives the known address or none is known, and at the known address where the
/// invite gives another.
pub proof fn live_peers_are_kept(
    local: u128,
    peer: u128,
    addr: crate::address::AddrView,
    port: u16,
    known: Option<Seq<char>>,
    live: bool,
)
    ensures
        ({
            let plan = connection_plan(local, peer, addr, port, known, live);
            let reverse = crate::address::AddrView { host: addr.host, port };
            &&& plan is SkipSelf <==> peer == local
            &&& peer != local && !live ==> plan == (ConnectionPlanView::Connect {
                reverse_addr: reverse,
                previous_addr: known,
            })
            &&& peer != local && live && known is None ==> plan
                == ConnectionPlanView::AlreadyConnected
            &&& peer != local && live && known is Some && known->0 == addr.host + ":"@
                + crate::text::decimal_text(port as nat) ==> plan
                == ConnectionPlanView::AlreadyConnected
            &&& peer != local && live && known is Some && known->0 != addr.host + ":"@
                + crate::text::decimal_text(port as nat) ==> plan == (
            ConnectionPlanView::KeepLiveKnownPeer { known_addr: known->0, invite_addr: reverse })
        }),
{
}

/// A plan is modelled as it is, with its own addresses.
pub proof fn models_say_what_is_planned(plan: InvitePeerConnectionPlan)
    ensures
        plan is SkipSelf <==> plan@ is SkipSelf,
        plan is AlreadyConnected <==> plan@ is AlreadyConnected,
        plan matches InvitePeerConnectionPlan::KeepLiveKnownPeer { known_addr, invite_addr }
            ==> plan@ == (ConnectionPlanView::KeepLiveKnownPeer {
            known_addr: known_addr@,
            invite_addr: invite_addr@,
        }),
        plan matches InvitePeerConnectionPlan::Connect { reverse_addr, previous_addr } ==> plan@
            == (ConnectionPlanView::Connect {
            reverse_addr: reverse_addr@,
            previous_addr: crate::raft::text_view(previous_addr),
        }),
{
}

/// The value of an option is the one that stands beside its name, the first where the name
/// occurs more than once.
pub proof fn options_are_found_by_name(options: Seq<(String, String)>, name: Seq<char>, i: int)
    requires
        0 <= i < options.len(),
        options[i].0@ == name,
        forall|k: int| 0 <= k < i ==> (#[trigger] options[k]).0@ != name,
    ensures
        has_option(options, name),
        option_value(options, name) == options[i].1@,
{
    assert(option_at(options, name, i));
    let j = choose|j: int| option_at(options, name, j);
    assert(option_at(options, name, j));
    assert(i == j);
}

/// A replication factor is the number that is written, and the fallback where what is
/// written is none.
pub proof fn factors_are_read_as_written(text: Seq<char>, fallback: nat, n: nat)
    ensures
        crate::parse::numeral_value(vstd::utf8::encode_utf8(text), usize::MAX as nat) == Some(n)
            ==> factor_or(text, fallback) == n,
        crate::parse::numeral_value(vstd::utf8::encode_utf8(text), usize::MAX as nat) is None
            ==> factor_or(text, fallback) == fallback,
{
}

/// A keyspace under the simple strategy has the factor of its option of that name, one
/// where there is none. Under the strategy by data center it has the factor of the local
/// one, or where that has none the sum over all. Any other strategy keeps one replica.
pub proof fn strategies_give_their_factor(
    ks: KeyspaceReplication,
    local_dc: Seq<char>,
    i: int,
)
    requires
        0 <= i < ks.options@.len(),
        forall|k: int| 0 <= k < i ==> (#[trigger] ks.options@[k]).0@ != ks.options@[i].0@,
    ensures
        ks.strategy@ == "SimpleStrategy"@ && ks.options@[i].0@ == "replication_factor"@
            ==> keyspace_factor(ks, local_dc) == factor_or(ks.options@[i].1@, 1),
        ks.strategy@ == "NetworkTopologyStrategy"@ && ks.options@[i].0@ == local_dc
            ==> keyspace_factor(ks, local_dc) == factor_or(ks.options@[i].1@, 1),
{
    reveal_strlit("SimpleStrategy");
    reveal_strlit("NetworkTopologyStrategy");
    options_are_found_by_name(ks.options@, ks.options@[i].0@, i);
    assert("SimpleStrategy"@.len() != "NetworkTopologyStrategy"@.len());
}

/// Without a factor of its own a keyspace keeps one replica under the simple strategy and
/// under an unknown one; under the strategy by data center it keeps as many as all data
/// centers together.
pub proof fn missing_factors_are_filled_in(ks: KeyspaceReplication, local_dc: Seq<char>)
    ensures
        ks.strategy@ == "SimpleStrategy"@ && (forall|i: int|
            0 <= i < ks.options@.len() ==> (#[trigger] ks.options@[i]).0@
                != "replication_factor"@) ==> keyspace_factor(ks, local_dc) == 1,
        ks.strategy@ == "NetworkTopologyStrategy"@ && (forall|i: int|
            0 <= i < ks.options@.len() ==> (#[trigger] ks.options@[i]).0@ != local_dc)
            ==> keyspace_factor(ks, local_dc) == factor_sum(ks.options@),
        ks.strategy@ != "SimpleStrategy"@ && ks.strategy@ != "NetworkTopologyStrategy"@
            ==> keyspace_factor(ks, local_dc) == 1,
{
    reveal_strlit("SimpleStrategy");
    reveal_strlit("NetworkTopologyStrategy");
    assert("SimpleStrategy"@.len() != "NetworkTopologyStrategy"@.len());
}

/// The sum over all data centers adds the factor of every option but the class; one that is
/// no number adds nothing.
pub proof fn every_data_center_is_summed(
    options: Seq<(String, String)>,
    more: (String, String),
)
    ensures
        factor_sum(Seq::empty()) == 0,
        more.0@ == "class"@ ==> factor_sum(options.push(more)) == factor_sum(options),
        more.0@ != "class"@ ==> factor_sum(options.push(more)) == factor_sum(options) + (
        match crate::parse::numeral_value(vstd::utf8::encode_utf8(more.1@), usize::MAX as nat) {
            Some(n) => n,
            None => 0,
        }),
{
    assert(options.push(more).drop_last() =~= options);
}

/// A keyspace is a user's exactly where none of the built-in names is its whole name.
pub proof fn user_keyspaces_are_not_built_in(
    keyspaces: Seq<KeyspaceReplication>,
    system_keyspaces: Seq<String>,
    i: int,
)
    ensures
        user_keyspace(keyspaces, system_keyspaces, i) <==> 0 <= i < keyspaces.len() && forall|
            k: int,
        |
            0 <= k < system_keyspaces.len() ==> (#[trigger] system_keyspaces[k])@
                != keyspaces[i].name@,
        has_user_keyspace(keyspaces, system_keyspaces) <==> exists|j: int|
            0 <= j < keyspaces.len() && !names(
                system_keyspaces,
                (#[trigger] keyspaces[j]).name@,
            ),
{
    if exists|j: int|
        0 <= j < keyspaces.len() && !names(system_keyspaces, (#[trigger] keyspaces[j]).name@) {
        let j = choose|j: int|
            0 <= j < keyspaces.len() && !names(system_keyspaces, (#[trigger] keyspaces[j]).name@);
        assert(user_keyspace(keyspaces, system_keyspaces, j));
    }
    if has_user_keyspace(keyspaces, system_keyspaces) {
        let j = choose|j: int| #[trigger] user_keyspace(keyspaces, system_keyspaces, j);
        assert(!names(system_keyspaces, keyspaces[j].name@));
    }
}

} // verus!
