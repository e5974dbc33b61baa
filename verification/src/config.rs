//! Cluster configuration and how it is read from settings.

use vstd::prelude::*;

use crate::collections::str_equal;
use crate::consistency::ConsistencyLevel;
use crate::parse::{chars_of, parse_flag, parse_numeral, spells};

verus! {

/// Role of a node in the cluster.
#[derive(Clone, Copy, Debug, PartialEq, Eq, Structural)]
pub enum NodeRole {
    /// Owns token ranges and serves reads and writes.
    Data,
    /// Only builds indexes.
    Indexer,
    /// Both of these.
    Both,
}

/// Cluster configuration.
#[derive(Clone, Debug, PartialEq, Eq)]
pub struct ClusterConfig {
    /// Cluster name, the same on all nodes.
    pub cluster_name: String,
    /// This node's data center.
    pub data_center: String,
    /// This node's rack.
    pub rack: String,
    /// Number of virtual token ranges per node.
    pub num_tokens: u32,
    /// Consistency level of queries that name none.
    pub default_cl: ConsistencyLevel,
    /// Directory for hints.
    pub hinted_handoff_dir: String,
    /// Most megabytes of hints per peer.
    pub hinted_handoff_max_mb: u64,
    /// Let unapproved nodes join.
    pub auto_join: bool,
    /// Directory for the Raft log, where it is not the default one.
    pub raft_data_dir: Option<String>,
    /// Role of this node.
    pub node_role: NodeRole,
    /// Seconds to wait for formation, where it is not the default.
    pub formation_timeout_secs: Option<u64>,
    /// Address announced to clients.
    pub cql_broadcast: Option<String>,
    /// Raft heartbeat interval in milliseconds. Default: 300.
    pub raft_heartbeat_ms: u64,
    /// Shortest Raft election timeout in milliseconds. Default: 1000.
    pub raft_election_timeout_min_ms: u64,
    /// Longest Raft election timeout in milliseconds. Default: 2000.
    pub raft_election_timeout_max_ms: u64,
    /// Ask for votes before starting an election. Default: yes.
    pub raft_enable_pre_vote: bool,
}

/// Settings that override the defaults, as they were found; an absent setting
/// overrides nothing.
#[derive(Clone, Debug, PartialEq, Eq)]
pub struct ClusterSettings {
    pub cluster_name: Option<String>,
    pub data_center: Option<String>,
    pub rack: Option<String>,
    pub num_tokens: Option<String>,
    pub default_cl: Option<String>,
    pub hinted_handoff_dir: Option<String>,
    pub hinted_handoff_max_mb: Option<String>,
    pub auto_join: Option<String>,
    pub formation_timeout_secs: Option<String>,
    pub node_role: Option<String>,
    pub cql_broadcast: Option<String>,
    pub raft_heartbeat_ms: Option<String>,
    pub raft_election_min_ms: Option<String>,
    pub raft_election_max_ms: Option<String>,
    pub raft_enable_pre_vote: Option<String>,
}

/// A text setting, or the default.
pub open spec fn text_or(v: Option<String>, default: Seq<char>) -> Seq<char> {
    match v {
        Some(s) => s@,
        None => default,
    }
}

/// A numeric setting, or the default where it is absent or no number in range.
pub open spec fn number_or(v: Option<String>, max: nat, default: nat) -> nat {
    match v {
        Some(s) => match crate::parse::numeral_value(vstd::utf8::encode_utf8(s@), max) {
            Some(n) => n,
            None => default,
        },
        None => default,
    }
}

/// The optional number of a setting.
pub open spec fn optional_number(v: Option<String>, max: nat) -> Option<nat> {
    match v {
        Some(s) => crate::parse::numeral_value(vstd::utf8::encode_utf8(s@), max),
        None => None,
    }
}

/// The role that a text names, case aside; both roles where it names none.
pub open spec fn role_named(s: Seq<char>) -> NodeRole {
    if crate::parse::lowered(s) == "data"@ {
        NodeRole::Data
    } else if crate::parse::lowered(s) == "indexer"@ {
        NodeRole::Indexer
    } else {
        NodeRole::Both
    }
}

impl ClusterConfig {
    /// The configuration that settings give.
    pub open spec fn is_read_from(self, v: ClusterSettings) -> bool {
        &&& self.cluster_name@ == text_or(v.cluster_name, "ferrosa"@)
        &&& self.data_center@ == text_or(v.data_center, "datacenter1"@)
        &&& self.rack@ == text_or(v.rack, "rack1"@)
        &&& self.num_tokens as nat == number_or(v.num_tokens, u32::MAX as nat, 256)
        &&& self.default_cl == ConsistencyLevel::Quorum
        &&& self.hinted_handoff_dir@ == text_or(v.hinted_handoff_dir, "data/hints"@)
        &&& self.hinted_handoff_max_mb as nat == number_or(
            v.hinted_handoff_max_mb,
            u64::MAX as nat,
            1024,
        )
        &&& self.auto_join == match v.auto_join {
            Some(s) => s@ == "true"@ || s@ == "1"@,
            None => true,
        }
        &&& self.raft_data_dir is None
        &&& self.node_role == match v.node_role {
            Some(s) => role_named(s@),
            None => NodeRole::Both,
        }
        &&& match self.formation_timeout_secs {
            Some(n) => optional_number(v.formation_timeout_secs, u64::MAX as nat) == Some(n as nat),
            None => optional_number(v.formation_timeout_secs, u64::MAX as nat) is None,
        }
        &&& match self.cql_broadcast {
            Some(s) => v.cql_broadcast matches Some(t) && s@ == t@,
            None => v.cql_broadcast is None,
        }
        &&& self.raft_heartbeat_ms as nat == number_or(v.raft_heartbeat_ms, u64::MAX as nat, 300)
        &&& self.raft_election_timeout_min_ms as nat == number_or(
            v.raft_election_min_ms,
            u64::MAX as nat,
            1000,
        )
        &&& self.raft_election_timeout_max_ms as nat == number_or(
            v.raft_election_max_ms,
            u64::MAX as nat,
            2000,
        )
        &&& self.raft_enable_pre_vote == match v.raft_enable_pre_vote {
            Some(s) => match crate::parse::flag_value(s@) {
                Some(b) => b,
                None => true,
            },
            None => true,
        }
    }

    /// The configuration that settings give; a setting that cannot be read is
    /// ignored.
    pub fn from_settings(v: ClusterSettings) -> (c: ClusterConfig)
        ensures
            c.is_read_from(v),
    {
        let default_cl = match &v.default_cl {
            Some(s) => match ConsistencyLevel::from_str(s.as_str()) {
                Some(cl) => cl,
                None => ConsistencyLevel::Quorum,
            },
            None => ConsistencyLevel::Quorum,
        };
        let auto_join: bool = match &v.auto_join {
            Some(s) => str_equal(s.as_str(), "true") || str_equal(s.as_str(), "1"),
            None => true,
        };
        let node_role = match &v.node_role {
            Some(s) => parse_role(s.as_str()),
            None => NodeRole::Both,
        };
        let formation_timeout_secs: Option<u64> = match &v.formation_timeout_secs {
            Some(s) => parse_numeral(s.as_str(), u64::MAX),
            None => None,
        };
        let raft_enable_pre_vote: bool = match &v.raft_enable_pre_vote {
            Some(s) => match parse_flag(s.as_str()) {
                Some(b) => b,
                None => true,
            },
            None => true,
        };
        let num_tokens: u64 = number_setting(&v.num_tokens, u32::MAX as u64, 256);
        proof {
            lemma_number_or_bound(v.num_tokens, u32::MAX as nat, 256);
        }
        ClusterConfig {
            cluster_name: text_setting(&v.cluster_name, "ferrosa"),
            data_center: text_setting(&v.data_center, "datacenter1"),
            rack: text_setting(&v.rack, "rack1"),
            num_tokens: num_tokens as u32,
            default_cl,
            hinted_handoff_dir: text_setting(&v.hinted_handoff_dir, "data/hints"),
            hinted_handoff_max_mb: number_setting(&v.hinted_handoff_max_mb, u64::MAX, 1024),
            auto_join,
            raft_data_dir: None,
            node_role,
            formation_timeout_secs,
            cql_broadcast: v.cql_broadcast,
            raft_heartbeat_ms: number_setting(&v.raft_heartbeat_ms, u64::MAX, 300),
            raft_election_timeout_min_ms: number_setting(&v.raft_election_min_ms, u64::MAX, 1000),
            raft_election_timeout_max_ms: number_setting(&v.raft_election_max_ms, u64::MAX, 2000),
            raft_enable_pre_vote,
        }
    }
}

impl ClusterSettings {
    /// No setting at all.
    pub open spec fn spec_none() -> ClusterSettings {
        ClusterSettings {
            cluster_name: None,
            data_center: None,
            rack: None,
            num_tokens: None,
            default_cl: None,
            hinted_handoff_dir: None,
            hinted_handoff_max_mb: None,
            auto_join: None,
            formation_timeout_secs: None,
            node_role: None,
            cql_broadcast: None,
            raft_heartbeat_ms: None,
            raft_election_min_ms: None,
            raft_election_max_ms: None,
            raft_enable_pre_vote: None,
        }
    }

    /// No setting at all.
    pub fn none() -> (v: ClusterSettings)
        ensures
            v == ClusterSettings::spec_none(),
    {
        ClusterSettings {
            cluster_name: None,
            data_center: None,
            rack: None,
            num_tokens: None,
            default_cl: None,
            hinted_handoff_dir: None,
            hinted_handoff_max_mb: None,
            auto_join: None,
            formation_timeout_secs: None,
            node_role: None,
            cql_broadcast: None,
            raft_heartbeat_ms: None,
            raft_election_min_ms: None,
            raft_election_max_ms: None,
            raft_enable_pre_vote: None,
        }
    }
}

impl Default for ClusterConfig {
    /// The configuration without any setting.
    fn default() -> (c: Self)
        ensures
            c.is_read_from(ClusterSettings::spec_none()),
    {
        ClusterConfig::from_settings(ClusterSettings::none())
    }
}

fn text_setting(v: &Option<String>, default: &str) -> (r: String)
    ensures
        r@ == text_or(*v, default@),
{
    match v {
        Some(s) => s.as_str().to_owned(),
        None => default.to_owned(),
    }
}

fn number_setting(v: &Option<String>, max: u64, default: u64) -> (r: u64)
    ensures
        r as nat == number_or(*v, max as nat, default as nat),
{
    match v {
        Some(s) => match parse_numeral(s.as_str(), max) {
            Some(n) => n,
            None => default,
        },
        None => default,
    }
}

proof fn lemma_number_or_bound(v: Option<String>, max: nat, default: nat)
    requires
        default <= max,
    ensures
        number_or(v, max, default) <= max,
{
}

/// The role that a text names.
pub fn parse_role(text: &str) -> (r: NodeRole)
    ensures
        r == role_named(text@),
{
    let v = chars_of(text);
    if spells(&v, "data") {
        NodeRole::Data
    } else if spells(&v, "indexer") {
        NodeRole::Indexer
    } else {
        NodeRole::Both
    }
}

/// A text that is set is taken, whatever it is, each into its own place; the defaults stand
/// where none is set.
pub proof fn texts_are_taken_as_set(c: ClusterConfig, v: ClusterSettings)
    requires
        c.is_read_from(v),
    ensures
        v.cluster_name matches Some(s) ==> c.cluster_name@ == s@,
        v.cluster_name is None ==> c.cluster_name@ == "ferrosa"@,
        v.data_center matches Some(s) ==> c.data_center@ == s@,
        v.data_center is None ==> c.data_center@ == "datacenter1"@,
        v.rack matches Some(s) ==> c.rack@ == s@,
        v.rack is None ==> c.rack@ == "rack1"@,
        v.hinted_handoff_dir matches Some(s) ==> c.hinted_handoff_dir@ == s@,
        v.hinted_handoff_dir is None ==> c.hinted_handoff_dir@ == "data/hints"@,
        v.cql_broadcast matches Some(s) ==> c.cql_broadcast is Some && c.cql_broadcast->0@ == s@,
        v.cql_broadcast is None ==> c.cql_broadcast is None,
        c.raft_data_dir is None,
        c.default_cl == ConsistencyLevel::Quorum,
{
}

/// A number that is set and can be read is taken, each into its own place; the defaults
/// stand where none is set or what is set is no number in range.
pub proof fn numbers_are_taken_as_set(c: ClusterConfig, v: ClusterSettings, n: nat)
    requires
        c.is_read_from(v),
    ensures
        v.num_tokens is None ==> c.num_tokens == 256,
        optional_number(v.num_tokens, u32::MAX as nat) == Some(n) ==> c.num_tokens == n,
        optional_number(v.num_tokens, u32::MAX as nat) is None ==> c.num_tokens == 256,
        optional_number(v.hinted_handoff_max_mb, u64::MAX as nat) == Some(n)
            ==> c.hinted_handoff_max_mb == n,
        optional_number(v.hinted_handoff_max_mb, u64::MAX as nat) is None
            ==> c.hinted_handoff_max_mb == 1024,
        optional_number(v.raft_heartbeat_ms, u64::MAX as nat) == Some(n) ==> c.raft_heartbeat_ms
            == n,
        optional_number(v.raft_heartbeat_ms, u64::MAX as nat) is None ==> c.raft_heartbeat_ms
            == 300,
        optional_number(v.raft_election_min_ms, u64::MAX as nat) == Some(n)
            ==> c.raft_election_timeout_min_ms == n,
        optional_number(v.raft_election_min_ms, u64::MAX as nat) is None
            ==> c.raft_election_timeout_min_ms == 1000,
        optional_number(v.raft_election_max_ms, u64::MAX as nat) == Some(n)
            ==> c.raft_election_timeout_max_ms == n,
        optional_number(v.raft_election_max_ms, u64::MAX as nat) is None
            ==> c.raft_election_timeout_max_ms == 2000,
        optional_number(v.formation_timeout_secs, u64::MAX as nat) == Some(n)
            ==> c.formation_timeout_secs is Some && c.formation_timeout_secs->0 == n,
        optional_number(v.formation_timeout_secs, u64::MAX as nat) is None
            ==> c.formation_timeout_secs is None,
{
}

/// The number of a setting is the one that its text denotes, where there is a text and it
/// denotes one that is at most the bound.
pub proof fn settings_denote_numbers(s: String, max: nat)
    ensures
        optional_number(None, max) is None,
        optional_number(Some(s), max) == crate::parse::numeral_value(
            vstd::utf8::encode_utf8(s@),
            max,
        ),
{
}

/// Nodes join automatically unless a setting says other than `true` or `1`. Votes are asked
/// for first unless a setting is a flag that is not set. A node has both roles unless a
/// setting names one, in small or large letters.
pub proof fn switches_are_taken_as_set(c: ClusterConfig, v: ClusterSettings)
    requires
        c.is_read_from(v),
    ensures
        v.auto_join is None ==> c.auto_join,
        v.auto_join matches Some(s) ==> (c.auto_join <==> s@ == seq!['t', 'r', 'u', 'e'] || s@
            == seq!['1']),
        v.raft_enable_pre_vote is None ==> c.raft_enable_pre_vote,
        v.raft_enable_pre_vote matches Some(s) ==> (!c.raft_enable_pre_vote
            <==> crate::parse::flag_value(s@) == Some(false)),
        v.node_role is None ==> c.node_role == NodeRole::Both,
        v.node_role matches Some(s) ==> {
            &&& c.node_role == NodeRole::Data <==> s@.map_values(
                |x: char| crate::parse::lower_char(x),
            ) == "data"@
            &&& c.node_role == NodeRole::Indexer <==> s@.map_values(
                |x: char| crate::parse::lower_char(x),
            ) == "indexer"@
        },
{
    reveal_strlit("true");
    reveal_strlit("1");
    reveal_strlit("data");
    reveal_strlit("indexer");
    assert("true"@ =~= seq!['t', 'r', 'u', 'e']);
    assert("1"@ =~= seq!['1']);
    assert("data"@.len() != "indexer"@.len());
    if v.node_role is Some {
        let s = v.node_role->0;
        assert(crate::parse::lowered(s@) =~= s@.map_values(|x: char| crate::parse::lower_char(x)));
    }
}

} // verus!
