//! Becoming a pair. Times are in milliseconds.

use vstd::prelude::*;

use crate::address::{Peer, PeerAddr};
use crate::controller::retry::Next;
use crate::mode::PairRole;

verus! {

/// What a peer announces of its promotions.
#[derive(Clone, Copy, Debug, PartialEq, Eq, Structural)]
pub struct PeerPromotion {
    /// Its promotion count.
    pub epoch: u64,
    /// Was it promoted since it was last in a pair?
    pub pending: bool,
}

/// The role of a node in a pair. A promotion since the last pair makes a node
/// primary, whatever the host ids. Where the peer is known to have been promoted
/// since too, or where neither was, the higher count is primary, and between
/// equals the lower host id.
pub open spec fn pair_role(
    local_host_id: u128,
    peer_host_id: u128,
    was_promoted: bool,
    local_epoch: u64,
    peer: Option<PeerPromotion>,
) -> PairRole {
    let primary = match peer {
        Some(p) => if was_promoted != p.pending {
            was_promoted
        } else if p.epoch != local_epoch {
            local_epoch > p.epoch
        } else {
            local_host_id <= peer_host_id
        },
        None => was_promoted || local_host_id <= peer_host_id,
    };
    if primary {
        PairRole::Primary
    } else {
        PairRole::Secondary
    }
}

/// The role of a node in a pair. It does not depend on who connected to whom.
pub fn choose_pair_role(
    local_host_id: u128,
    peer_host_id: u128,
    was_promoted: bool,
    local_epoch: u64,
    peer: Option<PeerPromotion>,
) -> (role: PairRole)
    ensures
        role == pair_role(local_host_id, peer_host_id, was_promoted, local_epoch, peer),
{
    let primary: bool = match peer {
        Some(p) => if was_promoted != p.pending {
            was_promoted
        } else if p.epoch != local_epoch {
            local_epoch > p.epoch
        } else {
            local_host_id <= peer_host_id
        },
        None => was_promoted || local_host_id <= peer_host_id,
    };
    if primary {
        PairRole::Primary
    } else {
        PairRole::Secondary
    }
}

/// The promotion count after meeting a peer: the larger of the two, where the
/// peer's is known.
pub open spec fn met_epoch(local_epoch: u64, peer: Option<PeerPromotion>) -> u64 {
    match peer {
        Some(p) => if p.epoch > local_epoch {
            p.epoch
        } else {
            local_epoch
        },
        None => local_epoch,
    }
}

/// The promotion count after meeting a peer.
pub fn meet_epoch(local_epoch: u64, peer: Option<PeerPromotion>) -> (epoch: u64)
    ensures
        epoch == met_epoch(local_epoch, peer),
{
    match peer {
        Some(p) => if p.epoch > local_epoch {
            p.epoch
        } else {
            local_epoch
        },
        None => local_epoch,
    }
}

/// Two nodes of which none was promoted agree on who is primary: exactly one of
/// them is.
pub proof fn pair_has_one_primary(a: u128, b: u128, epoch_a: u64, epoch_b: u64)
    requires
        a != b,
    ensures
        pair_role(a, b, false, epoch_a, None) == PairRole::Primary <==> pair_role(
            b,
            a,
            false,
            epoch_b,
            None,
        ) == PairRole::Secondary,
{
}

/// Two nodes that know of each other's promotions agree on who is primary, even if
/// both were promoted: exactly one of them is. It is the one that alone was
/// promoted since they were last a pair, and else the one with the higher count.
pub proof fn promotions_do_not_split_a_pair(
    a: u128,
    b: u128,
    promoted_a: bool,
    promoted_b: bool,
    epoch_a: u64,
    epoch_b: u64,
)
    requires
        a != b,
    ensures
        ({
            let of_a = PeerPromotion { epoch: epoch_a, pending: promoted_a };
            let of_b = PeerPromotion { epoch: epoch_b, pending: promoted_b };
            let role_a = pair_role(a, b, promoted_a, epoch_a, Some(of_b));
            let role_b = pair_role(b, a, promoted_b, epoch_b, Some(of_a));
            &&& role_a == PairRole::Primary <==> role_b == PairRole::Secondary
            &&& promoted_a && !promoted_b ==> role_a == PairRole::Primary
            &&& promoted_a == promoted_b && epoch_a > epoch_b ==> role_a == PairRole::Primary
            &&& met_epoch(epoch_a, Some(of_b)) == met_epoch(epoch_b, Some(of_a))
        }),
{
}

/// A promoted node stays primary, whatever is known of the peer, unless the peer is
/// known to have been promoted since they were last a pair too, and to have the
/// higher count, or the same count and the lower host id.
pub proof fn promoted_node_is_primary(
    local: u128,
    peer: u128,
    epoch: u64,
    known: Option<PeerPromotion>,
)
    ensures
        pair_role(local, peer, true, epoch, known) == PairRole::Primary <==> !(known matches Some(p)
            && p.pending && (p.epoch > epoch || (p.epoch == epoch && peer < local))),
{
}

/// A step of bringing the peer up to date.
#[derive(Clone, Copy, Debug, PartialEq, Eq, Structural)]
pub enum CatchUpStep {
    /// Wait until the peer is there, looking so often with such a pause before
    /// each look.
    AwaitPeer { looks: u32, pause_ms: u64 },
    /// Tell the peer that it is secondary; stop where that fails.
    CorrectRole,
    /// Send the schema.
    SendSchema,
    /// Write the commit log out.
    SyncCommitLog,
    /// Send what the commit log holds.
    ReplayCommitLog,
}

/// How the peer is brought up to date: a primary that was promoted corrects the
/// peer's role and sends schema and data; another primary sends the schema; a
/// secondary sends nothing.
pub open spec fn catch_up_steps(role: PairRole, was_promoted: bool) -> Seq<CatchUpStep> {
    if role == PairRole::Primary && was_promoted {
        seq![
            CatchUpStep::AwaitPeer { looks: 8, pause_ms: 500 },
            CatchUpStep::CorrectRole,
            CatchUpStep::SendSchema,
            CatchUpStep::SyncCommitLog,
            CatchUpStep::ReplayCommitLog,
        ]
    } else if role == PairRole::Primary {
        seq![CatchUpStep::AwaitPeer { looks: 10, pause_ms: 200 }, CatchUpStep::SendSchema]
    } else {
        Seq::empty()
    }
}

/// How the peer is brought up to date.
pub fn plan_catch_up(role: PairRole, was_promoted: bool) -> (steps: Vec<CatchUpStep>)
    ensures
        steps@ == catch_up_steps(role, was_promoted),
{
    let mut steps: Vec<CatchUpStep> = Vec::new();
    if role == PairRole::Primary && was_promoted {
        steps.push(CatchUpStep::AwaitPeer { looks: 8, pause_ms: 500 });
        steps.push(CatchUpStep::CorrectRole);
        steps.push(CatchUpStep::SendSchema);
        steps.push(CatchUpStep::SyncCommitLog);
        steps.push(CatchUpStep::ReplayCommitLog);
    } else if role == PairRole::Primary {
        steps.push(CatchUpStep::AwaitPeer { looks: 10, pause_ms: 200 });
        steps.push(CatchUpStep::SendSchema);
    }
    assert(steps@ =~= catch_up_steps(role, was_promoted));
    steps
}

/// Data is replayed only to a peer that knows its role and has the schema.
pub proof fn replay_follows_schema(role: PairRole, was_promoted: bool, i: int)
    requires
        0 <= i < catch_up_steps(role, was_promoted).len(),
        catch_up_steps(role, was_promoted)[i] == CatchUpStep::ReplayCommitLog,
    ensures
        was_promoted,
        role == PairRole::Primary,
        i >= 3,
        catch_up_steps(role, was_promoted)[i - 1] == CatchUpStep::SyncCommitLog,
        catch_up_steps(role, was_promoted)[i - 2] == CatchUpStep::SendSchema,
        catch_up_steps(role, was_promoted)[i - 3] == CatchUpStep::CorrectRole,
{
}

/// The role of a node once its peer has run its steps.
pub open spec fn corrected(role: PairRole, peer_steps: Seq<CatchUpStep>) -> PairRole {
    if peer_steps.contains(CatchUpStep::CorrectRole) {
        PairRole::Secondary
    } else {
        role
    }
}

/// Only a primary corrects roles, and only after a promotion.
proof fn lemma_corrects(role: PairRole, was_promoted: bool)
    ensures
        catch_up_steps(role, was_promoted).contains(CatchUpStep::CorrectRole) <==> was_promoted
            && role == PairRole::Primary,
{
    let steps = catch_up_steps(role, was_promoted);
    if was_promoted && role == PairRole::Primary {
        assert(steps[1] == CatchUpStep::CorrectRole);
    }
}

/// Once both nodes have brought each other up to date, exactly one is primary: where
/// both know of each other's promotions, where exactly one was promoted, whatever
/// each knows, and where neither was and neither knows more. A node that alone was
/// promoted is the one.
pub proof fn catch_up_leaves_one_primary(
    a: u128,
    b: u128,
    promoted_a: bool,
    promoted_b: bool,
    epoch_a: u64,
    epoch_b: u64,
    a_knows: bool,
    b_knows: bool,
)
    requires
        a != b,
        (a_knows && b_knows) || promoted_a != promoted_b || (!a_knows && !b_knows && !promoted_a),
    ensures
        ({
            let of_a = PeerPromotion { epoch: epoch_a, pending: promoted_a };
            let of_b = PeerPromotion { epoch: epoch_b, pending: promoted_b };
            let known_to_a = if a_knows {
                Some(of_b)
            } else {
                None
            };
            let known_to_b = if b_knows {
                Some(of_a)
            } else {
                None
            };
            let role_a = pair_role(a, b, promoted_a, epoch_a, known_to_a);
            let role_b = pair_role(b, a, promoted_b, epoch_b, known_to_b);
            let end_a = corrected(role_a, catch_up_steps(role_b, promoted_b));
            let end_b = corrected(role_b, catch_up_steps(role_a, promoted_a));
            &&& end_a == PairRole::Primary <==> end_b == PairRole::Secondary
            &&& promoted_a && !promoted_b ==> end_a == PairRole::Primary
        }),
{
    let of_a = PeerPromotion { epoch: epoch_a, pending: promoted_a };
    let of_b = PeerPromotion { epoch: epoch_b, pending: promoted_b };
    let known_to_a = if a_knows {
        Some(of_b)
    } else {
        None
    };
    let known_to_b = if b_knows {
        Some(of_a)
    } else {
        None
    };
    lemma_corrects(pair_role(a, b, promoted_a, epoch_a, known_to_a), promoted_a);
    lemma_corrects(pair_role(b, a, promoted_b, epoch_b, known_to_b), promoted_b);
}

/// What to do after an attempt to connect back, counted from zero.
pub fn after_reverse_attempt(attempt: u32, connected: bool) -> (next: Next)
    ensures
        next == (if connected {
            Next::Proceed
        } else if attempt < 9 {
            Next::RetryAfter { ms: 100 }
        } else {
            Next::GiveUp
        }),
{
    if connected {
        Next::Proceed
    } else if attempt < 9 {
        Next::RetryAfter { ms: 100 }
    } else {
        Next::GiveUp
    }
}

/// What becoming a pair takes.
#[derive(Debug)]
pub struct PairPlan {
    pub role: PairRole,
    /// The other node.
    pub peer: Peer,
    /// Was this node promoted before?
    pub was_promoted: bool,
    /// Where to connect back to, where the peer connected to this node.
    pub reverse: Option<PeerAddr>,
    /// How the peer is brought up to date.
    pub catch_up: Vec<CatchUpStep>,
}

/// Model of [`PairPlan`].
pub struct PairPlanView {
    pub role: PairRole,
    pub peer: crate::address::PeerView,
    pub was_promoted: bool,
    pub reverse: Option<crate::address::AddrView>,
    pub catch_up: Seq<CatchUpStep>,
}

impl View for PairPlan {
    type V = PairPlanView;

    open spec fn view(&self) -> PairPlanView {
        PairPlanView {
            role: self.role,
            peer: self.peer@,
            was_promoted: self.was_promoted,
            reverse: match self.reverse {
                Some(a) => Some(a@),
                None => None,
            },
            catch_up: self.catch_up@,
        }
    }
}

/// What becoming a pair takes.
pub open spec fn pair_plan(
    local_host_id: u128,
    peer: crate::address::PeerView,
    inbound: bool,
    was_promoted: bool,
    local_epoch: u64,
    known: Option<PeerPromotion>,
    internode_port: u16,
) -> PairPlanView {
    let role = pair_role(local_host_id, peer.host_id, was_promoted, local_epoch, known);
    PairPlanView {
        role,
        peer,
        was_promoted,
        reverse: if inbound {
            Some(peer.addr.at_port(internode_port))
        } else {
            None
        },
        catch_up: catch_up_steps(role, was_promoted),
    }
}

/// What becoming a pair takes.
pub fn plan_pair(
    local_host_id: u128,
    peer: &Peer,
    inbound: bool,
    was_promoted: bool,
    local_epoch: u64,
    known: Option<PeerPromotion>,
    internode_port: u16,
) -> (plan: PairPlan)
    ensures
        plan@ == pair_plan(
            local_host_id,
            peer@,
            inbound,
            was_promoted,
            local_epoch,
            known,
            internode_port,
        ),
{
    let role = choose_pair_role(
        local_host_id,
        peer.host_id,
        was_promoted,
        local_epoch,
        known,
    );
    PairPlan {
        role,
        peer: peer.copied(),
        was_promoted,
        reverse: if inbound {
            Some(peer.addr.at_port(internode_port))
        } else {
            None
        },
        catch_up: plan_catch_up(role, was_promoted),
    }
}

/// Between nodes that know nothing of promotions, and between equals, the lower host id is
/// primary. A node that was promoted is, where nothing is known of the peer.
pub proof fn the_lower_host_is_primary(local: u128, peer: u128, epoch: u64, promoted: bool)
    ensures
        pair_role(local, peer, false, epoch, None) == PairRole::Primary <==> local <= peer,
        pair_role(local, peer, true, epoch, None) == PairRole::Primary,
        pair_role(
            local,
            peer,
            promoted,
            epoch,
            Some(PeerPromotion { epoch, pending: promoted }),
        ) == PairRole::Primary <==> local <= peer,
{
}

/// A node that was not promoted is primary beside a peer that was not either exactly where
/// its count is higher, or the same and its host id the lower; beside one that was it is
/// not.
pub proof fn counts_decide_between_equals(
    local: u128,
    peer: u128,
    epoch: u64,
    peer_epoch: u64,
)
    ensures
        pair_role(
            local,
            peer,
            false,
            epoch,
            Some(PeerPromotion { epoch: peer_epoch, pending: false }),
        ) == PairRole::Primary <==> epoch > peer_epoch || (epoch == peer_epoch && local <= peer),
        pair_role(
            local,
            peer,
            false,
            epoch,
            Some(PeerPromotion { epoch: peer_epoch, pending: true }),
        ) == PairRole::Secondary,
{
}

/// Meeting a peer brings the promotion count up to the peer's where that is higher, and
/// never down.
pub proof fn counts_are_brought_up(epoch: u64, p: PeerPromotion)
    ensures
        met_epoch(epoch, None) == epoch,
        met_epoch(epoch, Some(p)) >= epoch,
        met_epoch(epoch, Some(p)) >= p.epoch,
        met_epoch(epoch, Some(p)) == epoch || met_epoch(epoch, Some(p)) == p.epoch,
{
}

/// A primary that was promoted waits up to four seconds for its peer, corrects the peer's
/// role, and sends the schema and then the data; another primary waits up to two seconds
/// and sends the schema; a secondary does nothing.
pub proof fn primaries_bring_their_peer_up_to_date(promoted: bool)
    ensures
        catch_up_steps(PairRole::Secondary, promoted).len() == 0,
        catch_up_steps(PairRole::Primary, false) == seq![
            CatchUpStep::AwaitPeer { looks: 10, pause_ms: 200 },
            CatchUpStep::SendSchema,
        ],
        catch_up_steps(PairRole::Primary, true) == seq![
            CatchUpStep::AwaitPeer { looks: 8, pause_ms: 500 },
            CatchUpStep::CorrectRole,
            CatchUpStep::SendSchema,
            CatchUpStep::SyncCommitLog,
            CatchUpStep::ReplayCommitLog,
        ],
{
}

/// A plan for a pair is with the given peer, in the role of this node beside it. Where the
/// peer connected to this node, it is connected back to, on its host, at the port for nodes.
pub proof fn pairs_are_planned_with_the_peer(
    local: u128,
    peer: crate::address::PeerView,
    inbound: bool,
    promoted: bool,
    epoch: u64,
    known: Option<PeerPromotion>,
    port: u16,
)
    ensures
        ({
            let plan = pair_plan(local, peer, inbound, promoted, epoch, known, port);
            &&& plan.peer == peer
            &&& plan.role == pair_role(local, peer.host_id, promoted, epoch, known)
            &&& plan.was_promoted == promoted
            &&& plan.reverse is Some <==> inbound
            &&& inbound ==> plan.reverse->0.host == peer.addr.host && plan.reverse->0.port == port
            &&& plan.catch_up == catch_up_steps(plan.role, promoted)
        }),
{
}

/// A plan for a pair is modelled field by field.
pub proof fn models_say_how_to_pair(plan: PairPlan)
    ensures
        plan@.role == plan.role,
        plan@.peer == plan.peer@,
        plan@.was_promoted == plan.was_promoted,
        plan.reverse matches Some(a) ==> plan@.reverse == Some(a@),
        plan.reverse is None ==> plan@.reverse is None,
        plan@.catch_up == plan.catch_up@,
{
}

} // verus!
