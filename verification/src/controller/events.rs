//! How peer events run through the controller.

use vstd::prelude::*;

use crate::address::{copied_peers, Peer, PeerAddr};
use crate::controller::membership::{decide_join, JoinCandidate, JoinDecision};
use crate::controller::mode_controller::{ControllerAction, ModeController};
use crate::controller::pair::PeerPromotion;
use crate::controller::peer_events::{
    plan_peer_connected, plan_peer_recovered, resolve_inbound_reverse_addr, track_connected_peer,
    PeerEventAction, MAX_CONNECTED_PEERS,
};
use crate::mode::DeploymentMode;
use crate::raft::NodeInfo;

verus! {

broadcast use vstd::std_specs::btree::group_btree_axioms;

/// The surroundings of an event.
pub struct EventContext {
    pub facts: crate::controller::mode_controller::NodeFacts,
    /// Does a third node lead straight into a cluster?
    pub enters_cluster: bool,
    pub now: u64,
    /// What the peer announced of its promotions.
    pub known: Option<PeerPromotion>,
}

/// An event under way.
pub struct RunView {
    pub v: crate::controller::mode_controller::ControllerView,
    pub out: Seq<crate::controller::mode_controller::ActionView>,
    /// A peer whose join began.
    pub join_enqueued: Option<u128>,
    /// Was an invite tried?
    pub invite_sent: bool,
    /// The peer that may join.
    pub candidate: Option<JoinCandidate>,
}

impl RunView {
    /// The event after an invite to a host.
    pub open spec fn inviting(self, ctx: EventContext, host_id: u128) -> RunView {
        let (v, sent) = crate::controller::mode_controller::invite_outcome(
            ctx.facts,
            self.v,
            host_id,
            ctx.now,
        );
        RunView {
            v,
            out: match sent {
                Some(a) => self.out.push(a),
                None => self.out,
            },
            ..self
        }
    }

    /// The event after preparing a cluster with all connected peers.
    pub open spec fn preparing(self) -> RunView {
        if self.v.has_network {
            RunView {
                out: self.out.push(
                    crate::controller::mode_controller::ActionView::FormCluster {
                        peers: self.v.connected,
                    },
                ),
                ..self
            }
        } else {
            self
        }
    }

    /// The event after an action.
    pub open spec fn after(
        self,
        ctx: EventContext,
        action: crate::controller::peer_events::PeerActionView,
    ) -> RunView {
        match action {
            crate::controller::peer_events::PeerActionView::TransitionToPair { peer, inbound } => {
                if self.v.has_network {
                    let plan = crate::controller::pair::pair_plan(
                        ctx.facts.local_host_id,
                        peer,
                        inbound,
                        self.v.force_promoted,
                        self.v.promote_epoch,
                        ctx.known,
                        ctx.facts.internode_port,
                    );
                    RunView {
                        v: self.v.in_pair(plan.role, peer, ctx.known),
                        out: self.out.push(
                            crate::controller::mode_controller::ActionView::EnterPair { plan },
                        ),
                        ..self
                    }
                } else {
                    self
                }
            },
            crate::controller::peer_events::PeerActionView::TransitionToForming => {
                if self.v.has_network && !ctx.enters_cluster {
                    RunView {
                        v: self.v.forming(self.v.connected.len()),
                        ..self
                    }.preparing()
                } else {
                    self.preparing()
                }
            },
            crate::controller::peer_events::PeerActionView::TriggerClusterJoin { .. } => {
                match self.candidate {
                    Some(c) => if crate::controller::membership::join_decision(
                        c,
                        ctx.facts.config.auto_join,
                        self.v.approved,
                        self.v.pending,
                    ) == JoinDecision::Begin {
                        RunView {
                            v: crate::controller::mode_controller::ControllerView {
                                pending: crate::controller::membership::with_pending(
                                    self.v.pending,
                                    c.host_id,
                                ),
                                ..self.v
                            },
                            out: self.out.push(
                                crate::controller::mode_controller::ActionView::BeginJoin {
                                    candidate: c,
                                },
                            ),
                            join_enqueued: Some(c.host_id),
                            candidate: None,
                            ..self
                        }
                    } else {
                        RunView { candidate: None, ..self }
                    },
                    None => self,
                }
            },
            crate::controller::peer_events::PeerActionView::SendClusterInvite { host_id } => {
                RunView { invite_sent: true, ..self }.inviting(ctx, host_id)
            },
            crate::controller::peer_events::PeerActionView::RejoinClusterWithRaftInit => {
                self.preparing()
            },
            crate::controller::peer_events::PeerActionView::RestoreClusterMode => RunView {
                v: crate::controller::mode_controller::ControllerView {
                    mode: DeploymentMode::Cluster,
                    ..self.v
                },
                ..self
            },
            crate::controller::peer_events::PeerActionView::DeliverHints { host_id } => RunView {
                out: self.out.push(
                    crate::controller::mode_controller::ActionView::DeliverHints { host_id },
                ),
                ..self
            },
        }
    }

    /// The event after all actions.
    pub open spec fn after_all(
        self,
        ctx: EventContext,
        actions: Seq<crate::controller::peer_events::PeerActionView>,
    ) -> RunView
        decreases actions.len(),
    {
        if actions.len() == 0 {
            self
        } else {
            self.after(ctx, actions[0]).after_all(ctx, actions.drop_first())
        }
    }

    /// The end of the event: a peer whose join began is invited, unless an
    /// invite was tried.
    pub open spec fn ended(self, ctx: EventContext) -> RunView {
        match self.join_enqueued {
            Some(host_id) if !self.invite_sent => self.inviting(ctx, host_id),
            _ => self,
        }
    }
}

/// An event that begins.
pub open spec fn begun(
    v: crate::controller::mode_controller::ControllerView,
    out: Seq<crate::controller::mode_controller::ActionView>,
    candidate: Option<JoinCandidate>,
) -> RunView {
    RunView { v, out, join_enqueued: None, invite_sent: false, candidate }
}

/// What connecting to a peer changes and asks for.
pub open spec fn outbound_run(
    ctx: EventContext,
    v: crate::controller::mode_controller::ControllerView,
    peer: crate::address::PeerView,
    raft_initialized: bool,
    candidate: JoinCandidate,
) -> RunView {
    let known = v.with_peer(peer.host_id, peer.addr);
    begun(
        known,
        seq![
            crate::controller::mode_controller::ActionView::RegisterPeer { host_id: peer.host_id },
        ],
        Some(candidate),
    ).after_all(
        ctx,
        crate::controller::peer_events::connect_actions(
            known.mode,
            peer,
            false,
            known.connected.len(),
            known.committed,
            raft_initialized,
        ),
    ).ended(ctx)
}

/// What a peer that connects changes and asks for. It is known by the address
/// where it can be reached; a pair is made with the address it came from.
pub open spec fn inbound_run(
    ctx: EventContext,
    v: crate::controller::mode_controller::ControllerView,
    peer: crate::address::PeerView,
    reverse: crate::address::AddrView,
    raft_initialized: bool,
    candidate: JoinCandidate,
) -> RunView {
    let known = v.with_peer(peer.host_id, reverse);
    let reached = crate::address::PeerView { host_id: peer.host_id, addr: reverse };
    let register = crate::controller::mode_controller::ActionView::RegisterPeer {
        host_id: peer.host_id,
    };
    begun(
        known,
        if v.has_network {
            seq![
                register,
                crate::controller::mode_controller::ActionView::RefreshOutbound { peer: reached },
            ]
        } else {
            seq![register]
        },
        Some(candidate),
    ).after_all(
        ctx,
        crate::controller::peer_events::connect_actions(
            known.mode,
            if known.mode == DeploymentMode::Cluster {
                reached
            } else {
                peer
            },
            true,
            known.connected.len(),
            known.committed,
            raft_initialized,
        ),
    ).ended(ctx)
}

/// Whatever an event runs through, the state stays sound: the peers are those
/// that were known, and joins stay few and distinct.
pub proof fn runs_keep_the_state_sound(
    s: RunView,
    ctx: EventContext,
    actions: Seq<crate::controller::peer_events::PeerActionView>,
    local_host_id: u128,
)
    requires
        s.v.wf(local_host_id),
    ensures
        s.after_all(ctx, actions).v.wf(local_host_id),
        s.after_all(ctx, actions).ended(ctx).v.wf(local_host_id),
        s.after_all(ctx, actions).v.connected == s.v.connected,
    decreases actions.len(),
{
    if actions.len() > 0 {
        let t = s.after(ctx, actions[0]);
        if actions[0] is TriggerClusterJoin && s.candidate is Some
            && !s.v.pending.contains(s.candidate->0.host_id) {
            crate::controller::membership::pending_joins_stay_bounded(
                s.v.pending,
                s.candidate->0.host_id,
            );
        }
        assert(t.v.wf(local_host_id));
        runs_keep_the_state_sound(t, ctx, actions.drop_first(), local_host_id);
    }
}

/// Noting a peer other than this node keeps the state sound.
proof fn lemma_with_peer_keeps_wf(
    v: crate::controller::mode_controller::ControllerView,
    local_host_id: u128,
    host_id: u128,
    addr: crate::address::AddrView,
)
    requires
        v.wf(local_host_id),
        host_id != local_host_id,
    ensures
        v.with_peer(host_id, addr).wf(local_host_id),
{
    crate::controller::peer_events::tracking_keeps_peers_distinct(
        v.connected,
        host_id,
        addr,
        MAX_CONNECTED_PEERS,
    );
    crate::controller::peer_events::lemma_noted_hosts(
        v.connected,
        host_id,
        addr,
        MAX_CONNECTED_PEERS,
        local_host_id,
    );
}

/// What else is known of a peer that connects.
#[derive(Debug)]
pub struct PeerFacts {
    pub cql_broadcast: Option<String>,
    pub internode_broadcast: Option<String>,
    /// What the topology says of it, where it is a member.
    pub existing: Option<NodeInfo>,
    /// Can it be reached?
    pub has_outbound: bool,
    /// What it announced of its promotions.
    pub promotion: Option<PeerPromotion>,
    /// Does consensus run on this node?
    pub raft_initialized: bool,
}

impl PeerFacts {
    /// Is this the peer as a candidate for joining?
    pub open spec fn describes(self, c: JoinCandidate, host_id: u128, addr: crate::address::AddrView) -> bool {
        &&& c.host_id == host_id
        &&& c.addr@ == addr
        &&& c.cql_broadcast == self.cql_broadcast
        &&& c.internode_broadcast == self.internode_broadcast
        &&& c.existing == self.existing
        &&& c.has_outbound == self.has_outbound
    }
}

impl ModeController {
    /// The surroundings of an event at this node.
    pub open spec fn context(self, enters_cluster: bool, now: u64, known: Option<PeerPromotion>) -> EventContext {
        EventContext { facts: self.facts(), enters_cluster, now, known }
    }

    fn prepare_cluster(&self, out: &mut Vec<ControllerAction>)
        ensures
            crate::controller::mode_controller::action_views(final(out)@) == (if self@.has_network {
                crate::controller::mode_controller::action_views(old(out)@).push(
                    crate::controller::mode_controller::ActionView::FormCluster {
                        peers: self@.connected,
                    },
                )
            } else {
                crate::controller::mode_controller::action_views(old(out)@)
            }),
    {
        if self.has_network {
            let a = ControllerAction::FormCluster {
                peers: copied_peers(self.connected_peers.as_slice()),
            };
            proof {
                crate::controller::mode_controller::lemma_action_views_push(out@, a);
            }
            out.push(a);
        }
    }

    /// Run actions in order, and invite a peer whose join began.
    fn execute_peer_event_plan(
        &mut self,
        actions: Vec<PeerEventAction>,
        candidate: Option<JoinCandidate>,
        out: &mut Vec<ControllerAction>,
        enters_cluster: bool,
        now: u64,
        known: Option<PeerPromotion>,
    )
        requires
            old(self)@.connected.len() < usize::MAX,
        ensures
            final(self).facts() == old(self).facts(),
            ({
                let ctx = old(self).context(enters_cluster, now, known);
                let end = begun(
                    old(self)@,
                    crate::controller::mode_controller::action_views(old(out)@),
                    candidate,
                ).after_all(
                    ctx,
                    crate::controller::peer_events::peer_action_views(actions@),
                ).ended(ctx);
                &&& final(self)@ == end.v
                &&& crate::controller::mode_controller::action_views(final(out)@) == end.out
            }),
    {
        let ghost ctx = self.context(enters_cluster, now, known);
        let ghost all = crate::controller::peer_events::peer_action_views(actions@);
        let ghost start = begun(
            self@,
            crate::controller::mode_controller::action_views(out@),
            candidate,
        );
        let mut actions = actions;
        let mut candidate = candidate;
        let mut join_enqueued: Option<u128> = None;
        let mut invite_sent: bool = false;
        while actions.len() > 0
            invariant
                self.facts() == ctx.facts,
                ctx == old(self).context(enters_cluster, now, known),
                self@.connected == old(self)@.connected,
                self@.connected.len() < usize::MAX,
                start.after_all(ctx, all) == (RunView {
                    v: self@,
                    out: crate::controller::mode_controller::action_views(out@),
                    join_enqueued,
                    invite_sent,
                    candidate,
                }).after_all(
                    ctx,
                    crate::controller::peer_events::peer_action_views(actions@),
                ),
            decreases actions.len(),
        {
            let ghost views = crate::controller::peer_events::peer_action_views(actions@);
            let ghost s = RunView {
                v: self@,
                out: crate::controller::mode_controller::action_views(out@),
                join_enqueued,
                invite_sent,
                candidate,
            };
            let action = actions.remove(0);
            proof {
                assert(views[0] == action@);
                assert(crate::controller::peer_events::peer_action_views(actions@)
                    =~= views.drop_first());
            }
            match action {
                PeerEventAction::TransitionToPair { peer, inbound } => {
                    match self.transition_to_pair(&peer, inbound, known) {
                        Some(plan) => {
                            let a = ControllerAction::EnterPair { plan };
                            proof {
                                crate::controller::mode_controller::lemma_action_views_push(out@, a);
                            }
                            out.push(a);
                        },
                        None => {},
                    }
                },
                PeerEventAction::TransitionToForming => {
                    if !enters_cluster {
                        self.transition_to_forming();
                    }
                    self.prepare_cluster(out);
                },
                PeerEventAction::TriggerClusterJoin { peer: _ } => {
                    match candidate {
                        Some(c) => {
                            let host_id: u128 = c.host_id;
                            let d = decide_join(
                                &c,
                                self.config.auto_join,
                                &self.approved_nodes,
                                &mut self.pending_joins,
                            );
                            if d == JoinDecision::Begin {
                                let a = ControllerAction::BeginJoin { candidate: c };
                                proof {
                                    crate::controller::mode_controller::lemma_action_views_push(
                                        out@,
                                        a,
                                    );
                                }
                                out.push(a);
                                join_enqueued = Some(host_id);
                            }
                        },
                        None => {},
                    }
                    candidate = None;
                },
                PeerEventAction::SendClusterInvite { host_id } => {
                    invite_sent = true;
                    match self.send_cluster_invite_to(host_id, now) {
                        Some(a) => {
                            proof {
                                crate::controller::mode_controller::lemma_action_views_push(out@, a);
                            }
                            out.push(a);
                        },
                        None => {},
                    }
                },
                PeerEventAction::RejoinClusterWithRaftInit => {
                    self.prepare_cluster(out);
                },
                PeerEventAction::RestoreClusterMode => {
                    self.mode = DeploymentMode::Cluster;
                },
                PeerEventAction::DeliverHints { host_id } => {
                    let a = ControllerAction::DeliverHints { host_id };
                    proof {
                        crate::controller::mode_controller::lemma_action_views_push(out@, a);
                    }
                    out.push(a);
                },
            }
            assert(s.after(ctx, views[0]) == (RunView {
                v: self@,
                out: crate::controller::mode_controller::action_views(out@),
                join_enqueued,
                invite_sent,
                candidate,
            }));
        }
        if let Some(host_id) = join_enqueued {
            if !invite_sent {
                match self.send_cluster_invite_to(host_id, now) {
                    Some(a) => {
                        proof {
                            crate::controller::mode_controller::lemma_action_views_push(out@, a);
                        }
                        out.push(a);
                    },
                    None => {},
                }
            }
        }
    }
}

impl ModeController {
    /// This node connected to a peer. A connection to itself changes nothing.
    pub fn on_peer_connected(&mut self, peer: &Peer, facts: PeerFacts, now: u64) -> (out: Vec<ControllerAction>)
        requires
            old(self)@.wf(old(self).local_host_id),
        ensures
            final(self).facts() == old(self).facts(),
            final(self)@.wf(final(self).local_host_id),
            peer.host_id == old(self).local_host_id ==> final(self)@ == old(self)@ && out@.len() == 0,
            peer.host_id != old(self).local_host_id ==> exists|c: JoinCandidate|
                #![trigger facts.describes(c, peer.host_id, peer.addr@)]
                {
                    let end = outbound_run(
                        old(self).context(false, now, facts.promotion),
                        old(self)@,
                        peer@,
                        facts.raft_initialized,
                        c,
                    );
                    &&& facts.describes(c, peer.host_id, peer.addr@)
                    &&& final(self)@ == end.v
                    &&& crate::controller::mode_controller::action_views(out@) == end.out
                },
    {
        let mut out: Vec<ControllerAction> = Vec::new();
        if peer.host_id == self.local_host_id {
            return out;
        }
        let ghost fc = facts;
        let ghost v = self@;
        proof {
            lemma_with_peer_keeps_wf(v, self.local_host_id, peer.host_id, peer.addr@);
        }
        track_connected_peer(
            &mut self.connected_peers,
            peer.host_id,
            &peer.addr,
            MAX_CONNECTED_PEERS,
        );
        assert(self@ == v.with_peer(peer.host_id, peer.addr@));
        out.push(ControllerAction::RegisterPeer { host_id: peer.host_id });
        assert(crate::controller::mode_controller::action_views(out@) =~= seq![
            crate::controller::mode_controller::ActionView::RegisterPeer { host_id: peer.host_id },
        ]);
        assert(self@.connected.len() == self.connected_peers@.len());
        let actions = plan_peer_connected(
            self.mode,
            peer,
            false,
            self.connected_peers.len(),
            self.committed_cluster_size,
            facts.raft_initialized,
        );
        let promotion = facts.promotion;
        let candidate = JoinCandidate {
            host_id: peer.host_id,
            addr: peer.addr.copied(),
            cql_broadcast: facts.cql_broadcast,
            internode_broadcast: facts.internode_broadcast,
            existing: facts.existing,
            has_outbound: facts.has_outbound,
        };
        let ghost c = candidate;
        assert(fc.describes(c, peer.host_id, peer.addr@));
        proof {
            runs_keep_the_state_sound(
                begun(
                    self@,
                    crate::controller::mode_controller::action_views(out@),
                    Some(candidate),
                ),
                self.context(false, now, promotion),
                crate::controller::peer_events::peer_action_views(actions@),
                self.local_host_id,
            );
        }
        self.execute_peer_event_plan(actions, Some(candidate), &mut out, false, now, promotion);
        out
    }

    /// A peer connected to this node. A connection from itself changes nothing.
    pub fn on_inbound_peer(
        &mut self,
        peer: &Peer,
        resolved_broadcast: Option<&PeerAddr>,
        facts: PeerFacts,
        now: u64,
    ) -> (out: Vec<ControllerAction>)
        requires
            old(self)@.wf(old(self).local_host_id),
        ensures
            final(self).facts() == old(self).facts(),
            final(self)@.wf(final(self).local_host_id),
            peer.host_id == old(self).local_host_id ==> final(self)@ == old(self)@ && out@.len() == 0,
            peer.host_id != old(self).local_host_id ==> ({
                let reverse = crate::controller::peer_events::reverse_addr(
                    peer.addr@,
                    old(self).internode_port,
                    crate::controller::invite::addr_view(resolved_broadcast),
                );
                exists|c: JoinCandidate|
                    #![trigger facts.describes(c, peer.host_id, reverse)]
                    {
                        let end = inbound_run(
                            old(self).context(true, now, facts.promotion),
                            old(self)@,
                            peer@,
                            reverse,
                            facts.raft_initialized,
                            c,
                        );
                        &&& facts.describes(c, peer.host_id, reverse)
                        &&& final(self)@ == end.v
                        &&& crate::controller::mode_controller::action_views(out@) == end.out
                    }
            }),
    {
        let mut out: Vec<ControllerAction> = Vec::new();
        if peer.host_id == self.local_host_id {
            return out;
        }
        let ghost fc = facts;
        let ghost v = self@;
        let reverse = resolve_inbound_reverse_addr(
            &peer.addr,
            self.internode_port,
            resolved_broadcast,
        );
        let ghost rv = reverse@;
        proof {
            lemma_with_peer_keeps_wf(v, self.local_host_id, peer.host_id, rv);
        }
        out.push(ControllerAction::RegisterPeer { host_id: peer.host_id });
        let reached = Peer::new(peer.host_id, reverse.copied());
        if self.has_network {
            out.push(ControllerAction::RefreshOutbound { peer: reached.copied() });
        }
        track_connected_peer(
            &mut self.connected_peers,
            peer.host_id,
            &reverse,
            MAX_CONNECTED_PEERS,
        );
        assert(self@ == v.with_peer(peer.host_id, rv));
        let ghost first = if v.has_network {
            seq![
                crate::controller::mode_controller::ActionView::RegisterPeer {
                    host_id: peer.host_id,
                },
                crate::controller::mode_controller::ActionView::RefreshOutbound { peer: reached@ },
            ]
        } else {
            seq![
                crate::controller::mode_controller::ActionView::RegisterPeer {
                    host_id: peer.host_id,
                },
            ]
        };
        assert(crate::controller::mode_controller::action_views(out@) =~= first);
        assert(self@.connected.len() == self.connected_peers@.len());
        let in_cluster: bool = match self.mode {
            DeploymentMode::Cluster => true,
            _ => false,
        };
        let actions = plan_peer_connected(
            self.mode,
            if in_cluster {
                &reached
            } else {
                peer
            },
            true,
            self.connected_peers.len(),
            self.committed_cluster_size,
            facts.raft_initialized,
        );
        let promotion = facts.promotion;
        let candidate = JoinCandidate {
            host_id: peer.host_id,
            addr: reverse,
            cql_broadcast: facts.cql_broadcast,
            internode_broadcast: facts.internode_broadcast,
            existing: facts.existing,
            has_outbound: facts.has_outbound,
        };
        let ghost c = candidate;
        assert(fc.describes(c, peer.host_id, rv));
        proof {
            runs_keep_the_state_sound(
                begun(
                    self@,
                    crate::controller::mode_controller::action_views(out@),
                    Some(candidate),
                ),
                self.context(true, now, promotion),
                crate::controller::peer_events::peer_action_views(actions@),
                self.local_host_id,
            );
        }
        self.execute_peer_event_plan(actions, Some(candidate), &mut out, true, now, promotion);
        out
    }

    /// A peer that was suspected is back.
    pub fn on_peer_recovered(&mut self, host_id: u128, pending_hints: usize, now: u64) -> (out: Vec<ControllerAction>)
        requires
            old(self)@.wf(old(self).local_host_id),
        ensures
            final(self).facts() == old(self).facts(),
            final(self)@.wf(final(self).local_host_id),
            ({
                let ctx = old(self).context(false, now, None);
                let end = begun(old(self)@, Seq::empty(), None).after_all(
                    ctx,
                    crate::controller::peer_events::recover_actions(
                        old(self)@.mode,
                        host_id,
                        pending_hints as nat,
                        old(self)@.has_network,
                    ),
                ).ended(ctx);
                &&& final(self)@ == end.v
                &&& crate::controller::mode_controller::action_views(out@) == end.out
            }),
    {
        let mut out: Vec<ControllerAction> = Vec::new();
        assert(crate::controller::mode_controller::action_views(out@) =~= Seq::empty());
        let actions = plan_peer_recovered(self.mode, host_id, pending_hints, self.has_network);
        proof {
            runs_keep_the_state_sound(
                begun(self@, Seq::empty(), None),
                self.context(false, now, None),
                crate::controller::peer_events::peer_action_views(actions@),
                self.local_host_id,
            );
        }
        self.execute_peer_event_plan(actions, None, &mut out, false, now, None);
        out
    }
}

} // verus!
