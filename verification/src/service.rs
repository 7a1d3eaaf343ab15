//! The service: peer registry, lifecycle state machine and dispatch logic.

use vstd::prelude::*;

use std::collections::HashMap;

use crate::addr::{Keypair, Multiaddr, PeerId, PublicKey, Segment};
use crate::event::{
    ConnectedPoint, Endpoint, HandleCommands, NetAction, NodeInfo, ProtocolEvent, RawEvent,
    SendCommand, ServiceEvent, ServiceHandle,
};

verus! {

/// Mathematical model of the core state.
#[verifier::ext_equal]
pub struct ServiceModel {
    /// Public key of the local node.
    pub local_key: u64,
    /// Identity of the local node, derived from `local_key`.
    pub local_peer: u64,
    /// The peer registry: one entry per live peer, role and address.
    pub nodes: Map<u64, (Endpoint, Seq<Segment>)>,
    /// Addresses this node listens on or has learnt it is reachable at.
    pub listening: Seq<Seq<Segment>>,
    /// Dial targets that failed or were superseded, kept for the embedder
    /// to retry.
    pub pending_dials: Seq<Seq<Segment>>,
}

/// Views of a sequence of addresses.
pub open spec fn addr_views(addrs: Seq<Multiaddr>) -> Seq<Seq<Segment>> {
    addrs.map_values(|m: Multiaddr| m@)
}

/// Model of one [`NetAction`]: the same instruction over plain values, so
/// that contracts can speak of actions without fixing how their payloads
/// were allocated.
pub enum ActionModel {
    Dial { address: Seq<Segment> },
    Listen { address: Seq<Segment> },
    AcceptIncoming,
    Close { peer: u64 },
    SendCustomMessage { peer: u64, protocol: usize, data: Seq<u8> },
    Broadcast { protocol: usize, data: Seq<u8> },
    RespondIdentify {
        requester: u64,
        public_key: u64,
        listen_addresses: Seq<Seq<Segment>>,
        observed_addr: Seq<Segment>,
    },
}

/// The model of an action.
pub open spec fn action_view(a: NetAction) -> ActionModel {
    match a {
        NetAction::Dial { address } => ActionModel::Dial { address: address@ },
        NetAction::Listen { address } => ActionModel::Listen { address: address@ },
        NetAction::AcceptIncoming => ActionModel::AcceptIncoming,
        NetAction::Close { peer } => ActionModel::Close { peer: peer.0 },
        NetAction::SendCustomMessage { peer, protocol, data } => ActionModel::SendCustomMessage {
            peer: peer.0,
            protocol,
            data: data@,
        },
        NetAction::Broadcast { protocol, data } => ActionModel::Broadcast {
            protocol,
            data: data@,
        },
        NetAction::RespondIdentify { requester, public_key, listen_addresses, observed_addr } => ActionModel::RespondIdentify {
            requester: requester.0,
            public_key: public_key.0,
            listen_addresses: addr_views(listen_addresses@),
            observed_addr: observed_addr@,
        },
    }
}

/// The model of an optional action.
pub open spec fn opt_action_view(a: Option<NetAction>) -> Option<ActionModel> {
    match a {
        Some(x) => Some(action_view(x)),
        None => None,
    }
}

/// The models of a sequence of actions.
pub open spec fn action_views(s: Seq<NetAction>) -> Seq<ActionModel> {
    s.map_values(|a: NetAction| action_view(a))
}

/// What disconnecting `id` does to the model: the registry entry goes if it
/// was there, and the live connection is closed exactly when one was
/// tracked. Dropping an absent peer changes nothing and closes nothing.
pub open spec fn drop_node_spec(m: ServiceModel, id: u64) -> (ServiceModel, Option<ActionModel>) {
    if m.nodes.contains_key(id) {
        (
            ServiceModel { nodes: m.nodes.remove(id), ..m },
            Some(ActionModel::Close { peer: id }),
        )
    } else {
        (m, None)
    }
}

/// What a targeted send produces: a message for the peer's live connection
/// when one is tracked, and nothing at all otherwise.
pub open spec fn send_message_spec(
    m: ServiceModel,
    peer: u64,
    protocol: usize,
    data: Seq<u8>,
) -> Option<ActionModel> {
    if m.nodes.contains_key(peer) {
        Some(ActionModel::SendCustomMessage { peer, protocol, data })
    } else {
        None
    }
}

/// The connection-lifecycle and event-translation core.
///
/// It owns the registry of live peers, the listening address set and the
/// pending-dial queue, and it is driven by repeated polling: the embedder
/// feeds it the multiplexer's ready events and carries out the actions it
/// returns.
pub struct Service<H> {
    local_public_key: PublicKey,
    local_peer_id: PeerId,
    listening_address: Vec<Multiaddr>,
    connected_nodes: HashMap<u64, NodeInfo>,
    need_connect: Vec<Multiaddr>,
    service_handle: H,
}

impl<H> Service<H> {
    /// The registry as a map from peer identity to role and address.
    pub closed spec fn nodes(&self) -> Map<u64, (Endpoint, Seq<Segment>)> {
        Map::new(
            |k: u64| self.connected_nodes@.contains_key(k),
            |k: u64| (self.connected_nodes@[k].endpoint, self.connected_nodes@[k].address@),
        )
    }

    /// The whole observable state.
    pub closed spec fn model(&self) -> ServiceModel {
        ServiceModel {
            local_key: self.local_public_key.0,
            local_peer: self.local_peer_id.0,
            nodes: self.nodes(),
            listening: addr_views(self.listening_address@),
            pending_dials: addr_views(self.need_connect@),
        }
    }

    /// The local node's identity.
    pub fn local_peer_id(&self) -> (r: PeerId)
        ensures
            r.0 == self.model().local_peer,
    {
        self.local_peer_id
    }

    /// The local node's public key.
    pub fn local_public_key(&self) -> (r: PublicKey)
        ensures
            r.0 == self.model().local_key,
    {
        self.local_public_key
    }

    /// Whether a live connection to `id` is tracked.
    pub fn is_connected(&self, id: &PeerId) -> (r: bool)
        ensures
            r == self.model().nodes.contains_key(id.0),
    {
        self.connected_nodes.contains_key(&id.0)
    }

    /// The registry of a service is always finite, so its size never goes
    /// negative and the size laws apply to every reachable state.
    pub proof fn lemma_nodes_finite(&self)
        ensures
            self.model().nodes.dom().finite(),
    {
        assert(self.nodes().dom() =~= self.connected_nodes@.dom());
    }

    /// Number of live peers in the registry.
    pub fn connected_count(&self) -> (n: usize)
        ensures
            n == self.model().nodes.len(),
    {
        proof {
            assert(self.nodes().dom() =~= self.connected_nodes@.dom());
        }
        self.connected_nodes.len()
    }

    /// Role recorded for a live peer, if any.
    pub fn connected_role(&self, id: &PeerId) -> (r: Option<Endpoint>)
        ensures
            self.model().nodes.contains_key(id.0) ==> r == Some(self.model().nodes[id.0].0),
            !self.model().nodes.contains_key(id.0) ==> r is None,
    {
        match self.connected_nodes.get(&id.0) {
            Some(info) => Some(info.endpoint),
            None => None,
        }
    }

    /// Number of recorded listening addresses.
    pub fn listening_count(&self) -> (n: usize)
        ensures
            n == self.model().listening.len(),
    {
        self.listening_address.len()
    }

    /// A copy of the recorded listening address at the given position.
    pub fn listening_address(&self, i: usize) -> (a: Multiaddr)
        requires
            i < self.model().listening.len(),
        ensures
            a@ == self.model().listening[i as int],
    {
        self.listening_address[i].clone()
    }

    /// Number of dial targets awaiting a retry.
    pub fn pending_dial_count(&self) -> (n: usize)
        ensures
            n == self.model().pending_dials.len(),
    {
        self.need_connect.len()
    }

    /// A copy of the pending dial target at the given position.
    pub fn pending_dial(&self, i: usize) -> (a: Multiaddr)
        requires
            i < self.model().pending_dials.len(),
        ensures
            a@ == self.model().pending_dials[i as int],
    {
        self.need_connect[i].clone()
    }
}

impl<H> Service<H> {
    /// Send a message to one node, fire-and-forget: the message goes out
    /// exactly when the peer has a live connection; otherwise nothing
    /// happens, silently, since the caller cannot tell "never connected"
    /// from "disconnected a moment ago" without a race.
    pub fn send_custom_message(&self, node: &PeerId, protocol: usize, data: Vec<u8>) -> (r: Option<
        NetAction,
    >)
        ensures
            opt_action_view(r) == send_message_spec(self.model(), node.0, protocol, data@),
    {
        if self.connected_nodes.contains_key(&node.0) {
            Some(NetAction::SendCustomMessage { peer: *node, protocol, data })
        } else {
            None
        }
    }

    /// Send a message to every currently connected node; peers that connect
    /// afterwards do not receive it.
    pub fn broadcast(&self, protocol: usize, data: Vec<u8>) -> (r: NetAction)
        ensures
            action_view(r) == (ActionModel::Broadcast { protocol, data: data@ }),
    {
        NetAction::Broadcast { protocol, data }
    }

    /// Turn the multiplexer's answer to a bind into the address to
    /// advertise: on success the bound address with the local peer identity
    /// appended as a trailing segment, so that others can dial back with
    /// identity verification; on failure the original address unchanged.
    pub fn listen_on(&self, bind_result: Result<Multiaddr, Multiaddr>) -> (r: Result<
        Multiaddr,
        Multiaddr,
    >)
        ensures
            bind_result matches Ok(bound) ==> (r matches Ok(a) && a@ == bound@.push(
                Segment::P2p(self.model().local_peer),
            ) && a@.last() == Segment::P2p(self.model().local_peer) && bound@.is_prefix_of(a@)),
            bind_result matches Err(orig) ==> (r matches Err(e) && e@ == orig@),
    {
        match bind_result {
            Ok(mut addr) => {
                let ghost bound = addr@;
                addr.push(Segment::P2p(self.local_peer_id.0));
                proof {
                    assert(bound =~= addr@.subrange(0, bound.len() as int));
                }
                Ok(addr)
            },
            Err(addr) => Err(addr),
        }
    }

    /// The instruction to dial an address; the multiplexer attaches a fresh
    /// per-connection protocol handler when it carries it out.
    pub fn dial(&self, address: Multiaddr) -> (r: NetAction)
        ensures
            action_view(r) == (ActionModel::Dial { address: address@ }),
    {
        NetAction::Dial { address }
    }

    /// Disconnect a peer: remove its registry entry if present and, exactly
    /// when a live connection was tracked, close it. Idempotent: dropping
    /// an absent peer is a no-op, not an error.
    pub fn drop_node(&mut self, id: PeerId) -> (r: Option<NetAction>)
        ensures
            final(self).model() == drop_node_spec(old(self).model(), id.0).0,
            opt_action_view(r) == drop_node_spec(old(self).model(), id.0).1,
    {
        let was = self.connected_nodes.remove(&id.0);
        proof {
            if old(self).model().nodes.contains_key(id.0) {
                assert(self.nodes() =~= old(self).nodes().remove(id.0));
                assert(self.model() =~~= drop_node_spec(old(self).model(), id.0).0);
            } else {
                assert(self.nodes() =~= old(self).nodes());
                assert(self.model() =~~= old(self).model());
            }
        }
        match was {
            Some(_) => Some(NetAction::Close { peer: id }),
            None => None,
        }
    }

    /// Record a dial target whose submission to the multiplexer failed, so
    /// that the embedder can retry it; the core never retries on its own.
    pub fn record_failed_dial(&mut self, address: Multiaddr)
        ensures
            final(self).model() == (ServiceModel {
                pending_dials: old(self).model().pending_dials.push(address@),
                ..old(self).model()
            }),
    {
        let ghost a = address@;
        self.need_connect.push(address);
        proof {
            assert(addr_views(self.need_connect@) =~= old(self).model().pending_dials.push(a));
            assert(self.nodes() =~= old(self).nodes());
            assert(self.model() =~~= (ServiceModel {
                pending_dials: old(self).model().pending_dials.push(a),
                ..old(self).model()
            }));
        }
    }

    /// Record an address the multiplexer reports it has successfully bound.
    pub fn record_bound_address(&mut self, address: Multiaddr)
        ensures
            final(self).model() == (ServiceModel {
                listening: old(self).model().listening.push(address@),
                ..old(self).model()
            }),
    {
        let ghost a = address@;
        self.listening_address.push(address);
        proof {
            assert(addr_views(self.listening_address@) =~= old(self).model().listening.push(a));
            assert(self.nodes() =~= old(self).nodes());
            assert(self.model() =~~= (ServiceModel {
                listening: old(self).model().listening.push(a),
                ..old(self).model()
            }));
        }
    }
}

/// What answering an identify request produces: the full identify payload
/// exactly when the requester is a registered peer. An unregistered peer
/// gets no answer at all — a benign race, not an error.
pub open spec fn respond_spec(m: ServiceModel, requester: u64) -> Option<ActionModel> {
    if m.nodes.contains_key(requester) {
        Some(
            ActionModel::RespondIdentify {
                requester,
                public_key: m.local_key,
                listen_addresses: m.listening,
                observed_addr: m.nodes[requester].1,
            },
        )
    } else {
        None
    }
}

/// Candidate externally-reachable address derived from one recorded listen
/// address and an observed address: the observed host in front of the
/// listen address's remaining segments, when both begin with a host
/// segment.
pub open spec fn nat_candidate(listen: Seq<Segment>, observed: Seq<Segment>) -> Option<
    Seq<Segment>,
> {
    if listen.len() >= 1 && observed.len() >= 1 && (listen[0] is Ip4) && (observed[0] is Ip4) {
        Some(seq![observed[0]] + listen.skip(1))
    } else {
        None
    }
}

/// All candidates an observed address yields, one per recorded listen
/// address that combines with it, in order.
pub open spec fn nat_candidates(listening: Seq<Seq<Segment>>, observed: Seq<Segment>) -> Seq<
    Seq<Segment>,
>
    decreases listening.len(),
{
    if listening.len() == 0 {
        Seq::empty()
    } else {
        nat_candidates(listening.drop_last(), observed) + match nat_candidate(
            listening.last(),
            observed,
        ) {
            Some(c) => seq![c],
            None => Seq::empty(),
        }
    }
}

/// Append each candidate that is not already structurally present;
/// never removes anything.
pub open spec fn add_unseen(listening: Seq<Seq<Segment>>, cands: Seq<Seq<Segment>>) -> Seq<
    Seq<Segment>,
>
    decreases cands.len(),
{
    if cands.len() == 0 {
        listening
    } else {
        let grown = if listening.contains(cands[0]) {
            listening
        } else {
            listening.push(cands[0])
        };
        add_unseen(grown, cands.skip(1))
    }
}

/// What learning an observed address does to the model: every candidate
/// derived from the recorded listen addresses that is not already known
/// joins the listening set; nothing else changes.
pub open spec fn learn_spec(m: ServiceModel, observed: Seq<Segment>) -> ServiceModel {
    ServiceModel { listening: add_unseen(m.listening, nat_candidates(m.listening, observed)), ..m }
}

/// Whether a structurally equal address is already in the list.
fn contains_addr(addrs: &Vec<Multiaddr>, a: &Multiaddr) -> (r: bool)
    ensures
        r == addr_views(addrs@).contains(a@),
{
    let mut i: usize = 0;
    while i < addrs.len()
        invariant
            i <= addrs@.len(),
            forall|j: int| 0 <= j < i ==> addr_views(addrs@)[j] != a@,
        decreases addrs@.len() - i,
    {
        if &addrs[i] == a {
            proof {
                assert(addr_views(addrs@)[i as int] == a@);
            }
            return true;
        }
        i = i + 1;
    }
    false
}

/// A copy of a list of addresses, view for view.
fn clone_addrs(addrs: &Vec<Multiaddr>) -> (r: Vec<Multiaddr>)
    ensures
        addr_views(r@) == addr_views(addrs@),
{
    let mut r: Vec<Multiaddr> = Vec::new();
    let mut i: usize = 0;
    while i < addrs.len()
        invariant
            i <= addrs@.len(),
            r@.len() == i,
            forall|j: int| 0 <= j < i ==> #[trigger] r@[j]@ == addrs@[j]@,
        decreases addrs@.len() - i,
    {
        r.push(addrs[i].clone());
        i = i + 1;
    }
    proof {
        assert forall|j: int| 0 <= j < r@.len() implies #[trigger] addr_views(r@)[j] == addr_views(
            addrs@,
        )[j] by {
            assert(r@[j]@ == addrs@[j]@);
        }
        assert(addr_views(r@) =~= addr_views(addrs@));
    }
    r
}

impl<H> Service<H> {
    /// Answer an identify request. A registered requester is told this
    /// node's public key, the full current listening address set, and the
    /// address recorded for the requester itself, so the remote learns how
    /// this node observes it. An unregistered requester is ignored.
    pub fn respond_to_identify_request(&self, requester: &PeerId) -> (r: Option<NetAction>)
        ensures
            opt_action_view(r) == respond_spec(self.model(), requester.0),
    {
        match self.connected_nodes.get(&requester.0) {
            Some(info) => Some(
                NetAction::RespondIdentify {
                    requester: *requester,
                    public_key: self.local_public_key,
                    listen_addresses: clone_addrs(&self.listening_address),
                    observed_addr: info.address.clone(),
                },
            ),
            None => None,
        }
    }

    /// Learn from an address a remote observed this node at: every
    /// candidate derived by combining it with the recorded listen addresses
    /// joins the listening set unless a structurally equal address is
    /// already known. Existing addresses are never removed.
    pub fn add_observed_addr(&mut self, address: &Multiaddr)
        ensures
            final(self).model() == learn_spec(old(self).model(), address@),
    {
        let ghost m0 = old(self).model();
        let mut cands: Vec<Multiaddr> = Vec::new();
        let mut i: usize = 0;
        while i < self.listening_address.len()
            invariant
                i <= self.listening_address@.len(),
                *self == *old(self),
                m0 == old(self).model(),
                addr_views(cands@) == nat_candidates(m0.listening.take(i as int), address@),
            decreases self.listening_address@.len() - i,
        {
            proof {
                assert(m0.listening == addr_views(self.listening_address@));
                assert(m0.listening.len() == self.listening_address@.len());
                assert(m0.listening.take(i + 1).len() == i + 1);
                assert(m0.listening.take(i + 1).drop_last() =~= m0.listening.take(i as int));
                assert(m0.listening.take(i + 1).last() == m0.listening.take(i + 1)[i as int]);
                assert(m0.listening.take(i + 1)[i as int] == m0.listening[i as int]);
            }
            let listen = &self.listening_address[i];
            if listen.len() >= 1 && address.len() >= 1 && matches!(listen.segment(0), Segment::Ip4(..))
                && matches!(address.segment(0), Segment::Ip4(..)) {
                let mut cand = Multiaddr::empty();
                cand.push(address.segment(0));
                let mut j: usize = 1;
                while j < listen.len()
                    invariant
                        1 <= j <= listen@.len(),
                        cand@ == seq![address@[0]] + listen@.subrange(1, j as int),
                    decreases listen@.len() - j,
                {
                    cand.push(listen.segment(j));
                    proof {
                        assert(cand@ =~= seq![address@[0]] + listen@.subrange(1, j + 1));
                    }
                    j = j + 1;
                }
                proof {
                    assert(listen@.subrange(1, listen@.len() as int) =~= listen@.skip(1));
                    assert(cand@ == nat_candidate(m0.listening[i as int], address@).unwrap());
                }
                cands.push(cand);
                proof {
                    assert(addr_views(cands@) =~= nat_candidates(
                        m0.listening.take(i + 1),
                        address@,
                    ));
                }
            } else {
                proof {
                    assert(nat_candidate(m0.listening[i as int], address@) is None);
                    assert(addr_views(cands@) =~= nat_candidates(
                        m0.listening.take(i + 1),
                        address@,
                    ));
                }
            }
            i = i + 1;
        }
        proof {
            assert(m0.listening.take(m0.listening.len() as int) =~= m0.listening);
        }
        let ghost all_cands = addr_views(cands@);
        proof {
            assert(all_cands.skip(0) =~= all_cands);
            assert(addr_views(self.listening_address@) =~= m0.listening);
        }
        let mut k: usize = 0;
        while k < cands.len()
            invariant
                k <= cands@.len(),
                addr_views(cands@) == all_cands,
                self.local_public_key == old(self).local_public_key,
                self.local_peer_id == old(self).local_peer_id,
                self.connected_nodes@ == old(self).connected_nodes@,
                self.need_connect@ == old(self).need_connect@,
                add_unseen(addr_views(self.listening_address@), all_cands.skip(k as int))
                    == add_unseen(m0.listening, all_cands),
            decreases cands@.len() - k,
        {
            let ghost before = addr_views(self.listening_address@);
            proof {
                assert(all_cands.skip(k as int)[0] == all_cands[k as int]);
                assert(all_cands.skip(k as int).skip(1) =~= all_cands.skip(k + 1));
            }
            if !contains_addr(&self.listening_address, &cands[k]) {
                let cand = cands[k].clone();
                // The candidate with the local identity appended is derived
                // as well, but deliberately not recorded: which of the two
                // forms ought to be advertised is an open design question,
                // and only the bare candidate enters the listening set.
                let suffixed = cand.with_p2p(self.local_peer_id);
                let _ = suffixed;
                self.listening_address.push(cand);
                proof {
                    assert(addr_views(self.listening_address@) =~= before.push(
                        all_cands[k as int],
                    ));
                    assert(add_unseen(before, all_cands.skip(k as int)) == add_unseen(
                        addr_views(self.listening_address@),
                        all_cands.skip(k + 1),
                    ));
                }
            } else {
                proof {
                    assert(add_unseen(before, all_cands.skip(k as int)) == add_unseen(
                        before,
                        all_cands.skip(k + 1),
                    ));
                }
            }
            k = k + 1;
        }
        proof {
            assert(all_cands.skip(cands@.len() as int) =~= Seq::<Seq<Segment>>::empty());
            assert(self.nodes() =~= old(self).nodes());
            assert(self.model() =~~= learn_spec(m0, address@));
        }
    }
}

/// Outcome of feeding the core one event: the new model, the application
/// event it translates to (if any), and the instruction it answers with
/// (if any).
pub struct StepResult {
    pub model: ServiceModel,
    pub event: Option<ServiceEvent>,
    pub action: Option<ActionModel>,
}

/// The translation table for per-connection protocol events: each maps to
/// zero or one application event, with its side effect on the model. The
/// mapping is total — every variant has a defined outcome, possibly "none".
pub open spec fn translate_spec(m: ServiceModel, peer: PeerId, ev: ProtocolEvent) -> StepResult {
    match ev {
        ProtocolEvent::CustomProtocolOpen { protocol, version } => StepResult {
            model: m,
            event: Some(ServiceEvent::CustomProtocolOpen { id: peer, protocol, version }),
            action: None,
        },
        ProtocolEvent::CustomMessage { protocol, data } => StepResult {
            model: m,
            event: Some(ServiceEvent::CustomMessage { id: peer, protocol, data }),
            action: None,
        },
        ProtocolEvent::CustomProtocolClosed { protocol } => StepResult {
            model: m,
            event: Some(ServiceEvent::CustomProtocolClosed { id: peer, protocol }),
            action: None,
        },
        ProtocolEvent::Useless => StepResult {
            model: ServiceModel { nodes: m.nodes.remove(peer.0), ..m },
            event: Some(ServiceEvent::NodeClosed { id: peer }),
            action: None,
        },
        ProtocolEvent::PingStart => StepResult { model: m, event: None, action: None },
        ProtocolEvent::PingSuccess { .. } => StepResult { model: m, event: None, action: None },
        ProtocolEvent::IdentificationRequest => StepResult {
            model: m,
            event: None,
            action: respond_spec(m, peer.0),
        },
        ProtocolEvent::Identified { listen_addrs, observed_addr } => StepResult {
            model: learn_spec(m, observed_addr@),
            event: Some(ServiceEvent::NodeInfo { id: peer, listen_address: listen_addrs }),
            action: None,
        },
    }
}

/// What one raw multiplexer event does to the model, which application
/// event it surfaces, and which instruction it provokes.
pub open spec fn step_spec(m: ServiceModel, ev: RawEvent) -> StepResult {
    match ev {
        RawEvent::Connected { peer_id, endpoint } => {
            let entry = match endpoint {
                ConnectedPoint::Dialer { address } => (Endpoint::Dialer, address@),
                ConnectedPoint::Listener { send_back_addr } => (
                    Endpoint::Listener,
                    send_back_addr@,
                ),
            };
            StepResult {
                model: ServiceModel { nodes: m.nodes.insert(peer_id.0, entry), ..m },
                event: None,
                action: None,
            }
        },
        RawEvent::NodeEvent { peer_id, event } => translate_spec(m, peer_id, event),
        RawEvent::NodeClosed { peer_id } => StepResult {
            model: ServiceModel { nodes: m.nodes.remove(peer_id.0), ..m },
            event: Some(ServiceEvent::NodeClosed { id: peer_id }),
            action: None,
        },
        RawEvent::NodeError { peer_id } => StepResult {
            model: ServiceModel { nodes: m.nodes.remove(peer_id.0), ..m },
            event: Some(ServiceEvent::NodeClosed { id: peer_id }),
            action: None,
        },
        RawEvent::DialError { multiaddr } => StepResult {
            model: ServiceModel { pending_dials: m.pending_dials.push(multiaddr@), ..m },
            event: None,
            action: None,
        },
        RawEvent::UnknownPeerDialError { multiaddr } => StepResult {
            model: ServiceModel { pending_dials: m.pending_dials.push(multiaddr@), ..m },
            event: None,
            action: None,
        },
        RawEvent::IncomingConnection { .. } => StepResult {
            model: m,
            event: None,
            action: Some(ActionModel::AcceptIncoming),
        },
        RawEvent::IncomingConnectionError { .. } => StepResult {
            model: m,
            event: None,
            action: None,
        },
        RawEvent::Replaced { peer_id } => {
            if m.nodes.contains_key(peer_id.0) {
                let entry = m.nodes[peer_id.0];
                let shrunk = ServiceModel { nodes: m.nodes.remove(peer_id.0), ..m };
                if entry.0 is Dialer {
                    StepResult {
                        model: ServiceModel {
                            pending_dials: shrunk.pending_dials.push(entry.1),
                            ..shrunk
                        },
                        event: None,
                        action: None,
                    }
                } else {
                    StepResult { model: shrunk, event: None, action: None }
                }
            } else {
                StepResult { model: m, event: None, action: None }
            }
        },
        RawEvent::ListenerClosed { .. } => StepResult { model: m, event: None, action: None },
    }
}

/// Whether a raw event translates to an application event. Keep-alive
/// probes, connection establishment, dial failures, incoming connections,
/// replacements, listener failures and identify requests do not.
pub open spec fn translatable(ev: RawEvent) -> bool {
    match ev {
        RawEvent::NodeClosed { .. } => true,
        RawEvent::NodeError { .. } => true,
        RawEvent::NodeEvent { event, .. } => match event {
            ProtocolEvent::CustomProtocolOpen { .. } => true,
            ProtocolEvent::CustomMessage { .. } => true,
            ProtocolEvent::CustomProtocolClosed { .. } => true,
            ProtocolEvent::Useless => true,
            ProtocolEvent::Identified { .. } => true,
            _ => false,
        },
        _ => false,
    }
}

impl<H> Service<H> {
    /// Translate one per-connection protocol event of peer `peer_id`,
    /// applying its side effect on the core state.
    pub fn event_handle(&mut self, peer_id: PeerId, event: ProtocolEvent) -> (r: (
        Option<ServiceEvent>,
        Option<NetAction>,
    ))
        ensures
            final(self).model() == translate_spec(old(self).model(), peer_id, event).model,
            r.0 == translate_spec(old(self).model(), peer_id, event).event,
            opt_action_view(r.1) == translate_spec(old(self).model(), peer_id, event).action,
    {
        match event {
            ProtocolEvent::CustomProtocolOpen { protocol, version } => (
                Some(ServiceEvent::CustomProtocolOpen { id: peer_id, protocol, version }),
                None,
            ),
            ProtocolEvent::CustomMessage { protocol, data } => (
                Some(ServiceEvent::CustomMessage { id: peer_id, protocol, data }),
                None,
            ),
            ProtocolEvent::CustomProtocolClosed { protocol } => (
                Some(ServiceEvent::CustomProtocolClosed { id: peer_id, protocol }),
                None,
            ),
            ProtocolEvent::Useless => {
                self.connected_nodes.remove(&peer_id.0);
                proof {
                    assert(self.nodes() =~= old(self).nodes().remove(peer_id.0));
                    assert(self.model() =~~= (ServiceModel {
                        nodes: old(self).model().nodes.remove(peer_id.0),
                        ..old(self).model()
                    }));
                }
                (Some(ServiceEvent::NodeClosed { id: peer_id }), None)
            },
            ProtocolEvent::PingStart => (None, None),
            ProtocolEvent::PingSuccess { .. } => (None, None),
            ProtocolEvent::IdentificationRequest => {
                let action = self.respond_to_identify_request(&peer_id);
                (None, action)
            },
            ProtocolEvent::Identified { listen_addrs, observed_addr } => {
                self.add_observed_addr(&observed_addr);
                (Some(ServiceEvent::NodeInfo { id: peer_id, listen_address: listen_addrs }), None)
            },
        }
    }

    /// Feed the core one raw multiplexer event: update the registry and
    /// the queues, translate it, and answer with an instruction where one
    /// is due. Every raw event for a present peer that ends its connection
    /// removes exactly one registry entry and surfaces exactly one
    /// `NodeClosed`.
    pub fn handle_raw_event(&mut self, ev: RawEvent) -> (r: (
        Option<ServiceEvent>,
        Option<NetAction>,
    ))
        ensures
            final(self).model() == step_spec(old(self).model(), ev).model,
            r.0 == step_spec(old(self).model(), ev).event,
            opt_action_view(r.1) == step_spec(old(self).model(), ev).action,
    {
        match ev {
            RawEvent::Connected { peer_id, endpoint } => {
                let info = match endpoint {
                    ConnectedPoint::Dialer { address } => NodeInfo {
                        endpoint: Endpoint::Dialer,
                        address,
                    },
                    ConnectedPoint::Listener { send_back_addr } => NodeInfo {
                        endpoint: Endpoint::Listener,
                        address: send_back_addr,
                    },
                };
                let ghost entry = (info.endpoint, info.address@);
                self.connected_nodes.insert(peer_id.0, info);
                proof {
                    assert(self.nodes() =~= old(self).nodes().insert(peer_id.0, entry));
                    assert(self.model() =~~= (ServiceModel {
                        nodes: old(self).model().nodes.insert(peer_id.0, entry),
                        ..old(self).model()
                    }));
                }
                (None, None)
            },
            RawEvent::NodeEvent { peer_id, event } => self.event_handle(peer_id, event),
            RawEvent::NodeClosed { peer_id } => {
                self.connected_nodes.remove(&peer_id.0);
                proof {
                    assert(self.nodes() =~= old(self).nodes().remove(peer_id.0));
                    assert(self.model() =~~= step_spec(old(self).model(), ev).model);
                }
                (Some(ServiceEvent::NodeClosed { id: peer_id }), None)
            },
            RawEvent::NodeError { peer_id } => {
                self.connected_nodes.remove(&peer_id.0);
                proof {
                    assert(self.nodes() =~= old(self).nodes().remove(peer_id.0));
                    assert(self.model() =~~= step_spec(old(self).model(), ev).model);
                }
                (Some(ServiceEvent::NodeClosed { id: peer_id }), None)
            },
            RawEvent::DialError { multiaddr } => {
                self.record_failed_dial(multiaddr);
                (None, None)
            },
            RawEvent::UnknownPeerDialError { multiaddr } => {
                self.record_failed_dial(multiaddr);
                (None, None)
            },
            RawEvent::IncomingConnection { .. } => (None, Some(NetAction::AcceptIncoming)),
            RawEvent::IncomingConnectionError { .. } => (None, None),
            RawEvent::Replaced { peer_id } => {
                match self.connected_nodes.remove(&peer_id.0) {
                    Some(info) => {
                        proof {
                            assert(old(self).model().nodes[peer_id.0] == (info.endpoint, info.address@));
                            assert(self.nodes() =~= old(self).nodes().remove(peer_id.0));
                        }
                        match info.endpoint {
                            Endpoint::Listener => {
                                proof {
                                    assert(self.model() =~~= step_spec(old(self).model(), ev).model);
                                }
                            },
                            Endpoint::Dialer => {
                                let ghost mid = self.model();
                                self.need_connect.push(info.address);
                                proof {
                                    assert(addr_views(self.need_connect@) =~= mid.pending_dials.push(
                                        info.address@,
                                    ));
                                    assert(self.nodes() =~= old(self).nodes().remove(peer_id.0));
                                    assert(self.model() =~~= step_spec(old(self).model(), ev).model);
                                }
                            },
                        }
                    },
                    None => {
                        proof {
                            assert(self.nodes() =~= old(self).nodes());
                            assert(self.model() =~~= old(self).model());
                        }
                    },
                }
                (None, None)
            },
            RawEvent::ListenerClosed { .. } => (None, None),
        }
    }
}

/// The actions of an optional action: one or none.
pub open spec fn opt_actions(a: Option<ActionModel>) -> Seq<ActionModel> {
    match a {
        Some(x) => seq![x],
        None => Seq::empty(),
    }
}

/// Outcome of one polling pass over the multiplexer's ready events: the
/// core consumes events from the front, in order, until one translates to
/// an application event; that event, the model reached, the instructions
/// issued on the way and the number of events consumed.
pub struct DriveResult {
    pub model: ServiceModel,
    pub event: Option<ServiceEvent>,
    pub actions: Seq<ActionModel>,
    pub used: int,
}

/// Fold of [`step_spec`] over a queue of ready raw events, stopping after
/// the first event that surfaces an application event: at most one
/// application event leaves the core per polling pass.
pub open spec fn drive_spec(m: ServiceModel, evs: Seq<RawEvent>) -> DriveResult
    decreases evs.len(),
{
    if evs.len() == 0 {
        DriveResult { model: m, event: None, actions: Seq::empty(), used: 0 }
    } else {
        let s = step_spec(m, evs[0]);
        if s.event is Some {
            DriveResult { model: s.model, event: s.event, actions: opt_actions(s.action), used: 1 }
        } else {
            let rest = drive_spec(s.model, evs.skip(1));
            DriveResult {
                model: rest.model,
                event: rest.event,
                actions: opt_actions(s.action) + rest.actions,
                used: 1 + rest.used,
            }
        }
    }
}

impl<H> Service<H> {
    /// Drive the core over the multiplexer's ready events: consume them
    /// from the front, in their reported order, until one yields an
    /// application event or none are left. Returns that event (if any),
    /// the events not consumed, and the instructions to carry out.
    pub fn poll_swarm(&mut self, ready: Vec<RawEvent>) -> (r: (
        Option<ServiceEvent>,
        Vec<RawEvent>,
        Vec<NetAction>,
    ))
        ensures
            final(self).model() == drive_spec(old(self).model(), ready@).model,
            r.0 == drive_spec(old(self).model(), ready@).event,
            action_views(r.2@) == drive_spec(old(self).model(), ready@).actions,
            r.1@ == ready@.skip(drive_spec(old(self).model(), ready@).used),
    {
        let ghost m0 = old(self).model();
        let ghost orig = ready@;
        let ghost target = drive_spec(m0, orig);
        let mut queue = ready;
        let mut actions: Vec<NetAction> = Vec::new();
        proof {
            assert(orig.skip(0) =~= orig);
            assert(action_views(actions@) =~= Seq::<ActionModel>::empty());
            assert(Seq::<ActionModel>::empty() + target.actions =~= target.actions);
        }
        while queue.len() > 0
            invariant
                m0 == old(self).model(),
                orig == ready@,
                queue@.len() <= orig.len(),
                queue@ == orig.skip(orig.len() - queue@.len()),
                target == drive_spec(m0, orig),
                target.model == drive_spec(self.model(), queue@).model,
                target.event == drive_spec(self.model(), queue@).event,
                target.actions == action_views(actions@) + drive_spec(self.model(), queue@).actions,
                target.used == (orig.len() - queue@.len()) + drive_spec(self.model(), queue@).used,
            decreases queue@.len(),
        {
            let ghost mcur = self.model();
            let ghost rem = queue@;
            let ghost consumed = orig.len() - rem.len();
            let ev = queue.remove(0);
            proof {
                assert(ev == rem[0]);
                assert(queue@ =~= rem.skip(1));
                assert(queue@ =~= orig.skip(consumed + 1));
            }
            let (sev, act) = self.handle_raw_event(ev);
            let ghost s = step_spec(mcur, ev);
            let ghost before_acts = action_views(actions@);
            match act {
                Some(a) => {
                    actions.push(a);
                    proof {
                        assert(action_views(actions@) =~= before_acts + opt_actions(s.action));
                    }
                },
                None => {
                    proof {
                        assert(action_views(actions@) =~= before_acts + opt_actions(s.action));
                    }
                },
            }
            match sev {
                Some(e) => {
                    proof {
                        assert(rem.len() > 0);
                        assert(s == step_spec(mcur, rem[0]));
                        assert(s.event is Some);
                        assert(drive_spec(mcur, rem).model == s.model);
                        assert(drive_spec(mcur, rem).event == s.event);
                        assert(drive_spec(mcur, rem).used == 1);
                        assert(drive_spec(mcur, rem).actions == opt_actions(s.action));
                        assert(target.actions =~= action_views(actions@));
                        assert(queue@ =~= orig.skip(target.used));
                    }
                    return (Some(e), queue, actions);
                },
                None => {
                    proof {
                        assert(rem.len() > 0);
                        assert(s == step_spec(mcur, rem[0]));
                        assert(s.event is None);
                        assert(drive_spec(mcur, rem).model == drive_spec(s.model, rem.skip(1)).model);
                        assert(drive_spec(mcur, rem).event == drive_spec(s.model, rem.skip(1)).event);
                        assert(drive_spec(mcur, rem).used == 1 + drive_spec(s.model, rem.skip(1)).used);
                        assert(drive_spec(mcur, rem).actions == opt_actions(s.action) + drive_spec(
                            s.model,
                            rem.skip(1),
                        ).actions);
                        assert(target.actions =~= action_views(actions@) + drive_spec(
                            self.model(),
                            queue@,
                        ).actions);
                    }
                },
            }
        }
        proof {
            assert(drive_spec(self.model(), queue@).actions =~= Seq::<ActionModel>::empty());
            assert(target.actions =~= action_views(actions@));
            assert(queue@ =~= orig.skip(target.used));
        }
        (None, queue, actions)
    }
}

/// Appending one instruction appends its model.
pub proof fn lemma_action_views_push(s: Seq<NetAction>, x: NetAction)
    ensures
        action_views(s.push(x)) == action_views(s).push(action_view(x)),
{
    assert forall|j: int| 0 <= j < s.len() + 1 implies #[trigger] action_views(s.push(x))[j]
        == action_views(s).push(action_view(x))[j] by {
        if j < s.len() {
            assert(s.push(x)[j] == s[j]);
        } else {
            assert(s.push(x)[j] == x);
        }
    }
    assert(action_views(s.push(x)) =~= action_views(s).push(action_view(x)));
}

/// Disconnect each listed peer in turn: the model after all removals, and
/// one close instruction per peer that actually had a live connection.
pub open spec fn close_actions(m: ServiceModel, ids: Seq<PeerId>) -> (ServiceModel, Seq<
    ActionModel,
>)
    decreases ids.len(),
{
    if ids.len() == 0 {
        (m, Seq::empty())
    } else {
        let first = drop_node_spec(m, ids[0].0);
        let rest = close_actions(first.0, ids.skip(1));
        (rest.0, opt_actions(first.1) + rest.1)
    }
}

/// The instructions a batch of send requests produces against a fixed
/// model: targeted sends reach only registered peers, `None` targets
/// broadcast to everyone connected.
pub open spec fn send_actions(m: ServiceModel, sends: Seq<SendCommand>) -> Seq<ActionModel>
    decreases sends.len(),
{
    if sends.len() == 0 {
        Seq::empty()
    } else {
        let first = match sends[0].target {
            Some(peer) => opt_actions(
                send_message_spec(m, peer.0, sends[0].protocol, sends[0].data@),
            ),
            None => seq![
                ActionModel::Broadcast { protocol: sends[0].protocol, data: sends[0].data@ },
            ],
        };
        first + send_actions(m, sends.skip(1))
    }
}

/// What one cycle's command batch does, in the fixed priority order: all
/// dials, then all listens, then all disconnects, then the send batch.
/// Dials and listens become instructions without touching the model (their
/// outcomes are recorded when the multiplexer reports them); disconnects
/// shrink the registry; sends resolve against the registry as the
/// disconnects left it.
pub open spec fn dispatch_spec(m: ServiceModel, cmds: HandleCommands) -> (ServiceModel, Seq<
    ActionModel,
>) {
    let dial_acts = cmds.dials@.map_values(|a: Multiaddr| ActionModel::Dial { address: a@ });
    let listen_acts = cmds.listens@.map_values(
        |a: Multiaddr| ActionModel::Listen { address: a@ },
    );
    let closed = close_actions(m, cmds.disconnects@);
    let sent = send_actions(closed.0, cmds.sends@);
    (closed.0, dial_acts + listen_acts + closed.1 + sent)
}

impl<H> Service<H> {
    /// Apply one cycle's command batch in the fixed priority order — dial,
    /// listen, disconnect, send — and return the instructions in exactly
    /// that order.
    pub fn dispatch_commands(&mut self, cmds: HandleCommands) -> (r: Vec<NetAction>)
        ensures
            final(self).model() == dispatch_spec(old(self).model(), cmds).0,
            action_views(r@) == dispatch_spec(old(self).model(), cmds).1,
    {
        let ghost m1 = old(self).model();
        let ghost dial_acts = cmds.dials@.map_values(
            |a: Multiaddr| ActionModel::Dial { address: a@ },
        );
        let ghost listen_acts = cmds.listens@.map_values(
            |a: Multiaddr| ActionModel::Listen { address: a@ },
        );
        let ghost closed = close_actions(m1, cmds.disconnects@);
        let HandleCommands { dials, listens, disconnects, sends } = cmds;
        let mut actions: Vec<NetAction> = Vec::new();

        let mut i: usize = 0;
        while i < dials.len()
            invariant
                i <= dials@.len(),
                dials@ == cmds.dials@,
                dial_acts == cmds.dials@.map_values(
                    |a: Multiaddr| ActionModel::Dial { address: a@ },
                ),
                actions@.len() == i,
                action_views(actions@) == dial_acts.take(i as int),
                *self == *old(self),
            decreases dials@.len() - i,
        {
            let a = dials[i].clone();
            actions.push(NetAction::Dial { address: a });
            proof {
                assert(action_views(actions@) =~= dial_acts.take(i + 1));
            }
            i = i + 1;
        }
        proof {
            assert(dial_acts.take(dials@.len() as int) =~= dial_acts);
        }

        let mut i2: usize = 0;
        while i2 < listens.len()
            invariant
                i2 <= listens@.len(),
                listens@ == cmds.listens@,
                dial_acts == cmds.dials@.map_values(
                    |a: Multiaddr| ActionModel::Dial { address: a@ },
                ),
                listen_acts == cmds.listens@.map_values(
                    |a: Multiaddr| ActionModel::Listen { address: a@ },
                ),
                action_views(actions@) == dial_acts + listen_acts.take(i2 as int),
                *self == *old(self),
            decreases listens@.len() - i2,
        {
            let a = listens[i2].clone();
            let act_new = NetAction::Listen { address: a };
            let ghost gx = act_new;
            let ghost av = actions@;
            actions.push(act_new);
            proof {
                lemma_action_views_push(av, gx);
                assert(action_views(actions@) =~= dial_acts + listen_acts.take(i2 + 1));
            }
            i2 = i2 + 1;
        }
        proof {
            assert(dial_acts + listen_acts.take(listens@.len() as int) =~= dial_acts + listen_acts);
        }

        let ghost pre_close = action_views(actions@);
        let ghost mut cacc: Seq<ActionModel> = Seq::empty();
        proof {
            assert(cmds.disconnects@.skip(0) =~= cmds.disconnects@);
            assert(cacc + closed.1 =~= closed.1);
        }
        let mut k: usize = 0;
        while k < disconnects.len()
            invariant
                k <= disconnects@.len(),
                disconnects@ == cmds.disconnects@,
                m1 == old(self).model(),
                closed == close_actions(m1, cmds.disconnects@),
                pre_close == dial_acts + listen_acts,
                closed.0 == close_actions(self.model(), cmds.disconnects@.skip(k as int)).0,
                closed.1 == cacc + close_actions(self.model(), cmds.disconnects@.skip(k as int)).1,
                action_views(actions@) == pre_close + cacc,
            decreases disconnects@.len() - k,
        {
            let ghost rem = cmds.disconnects@.skip(k as int);
            let ghost prev = self.model();
            proof {
                assert(rem[0] == cmds.disconnects@[k as int]);
                assert(rem.skip(1) =~= cmds.disconnects@.skip(k + 1));
            }
            let act = self.drop_node(disconnects[k]);
            let ghost first = drop_node_spec(prev, cmds.disconnects@[k as int].0);
            proof {
                assert(close_actions(prev, rem).0 == close_actions(self.model(), rem.skip(1)).0);
                assert(close_actions(prev, rem).1 == opt_actions(first.1) + close_actions(
                    self.model(),
                    rem.skip(1),
                ).1);
                assert(closed.1 == (cacc + opt_actions(first.1)) + close_actions(
                    self.model(),
                    cmds.disconnects@.skip(k + 1),
                ).1) by {
                    assert(cacc + (opt_actions(first.1) + close_actions(
                        self.model(),
                        cmds.disconnects@.skip(k + 1),
                    ).1) =~= (cacc + opt_actions(first.1)) + close_actions(
                        self.model(),
                        cmds.disconnects@.skip(k + 1),
                    ).1);
                }
            }
            let ghost before_acts = action_views(actions@);
            match act {
                Some(a) => {
                    let ghost gx = a;
                    let ghost av = actions@;
                    actions.push(a);
                    proof {
                        lemma_action_views_push(av, gx);
                        cacc = cacc + opt_actions(first.1);
                        assert(action_views(actions@) =~= pre_close + cacc);
                    }
                },
                None => {
                    proof {
                        cacc = cacc + opt_actions(first.1);
                        assert(opt_actions(first.1) =~= Seq::<ActionModel>::empty());
                        assert(action_views(actions@) =~= pre_close + cacc);
                    }
                },
            }
            k = k + 1;
        }
        proof {
            assert(cmds.disconnects@.skip(cmds.disconnects@.len() as int) =~= Seq::<
                PeerId,
            >::empty());
            assert(closed.0 == self.model());
            assert(cacc + Seq::<ActionModel>::empty() =~= cacc);
            assert(closed.1 == cacc);
        }

        let ghost m2 = self.model();
        let ghost gsends = cmds.sends@;
        let ghost sent = send_actions(m2, gsends);
        let ghost pre_send = action_views(actions@);
        let ghost mut sacc: Seq<ActionModel> = Seq::empty();
        proof {
            assert(gsends.skip(0) =~= gsends);
            assert(sacc + sent =~= sent);
        }
        let mut sends = sends;
        while sends.len() > 0
            invariant
                sends@.len() <= gsends.len(),
                sends@ == gsends.skip(gsends.len() - sends@.len()),
                m2 == self.model(),
                sent == send_actions(m2, gsends),
                sacc + send_actions(m2, sends@) == sent,
                action_views(actions@) == pre_send + sacc,
            decreases sends@.len(),
        {
            let ghost rem = sends@;
            let ghost c = gsends.len() - rem.len();
            proof {
                assert(rem[0] == gsends[c]);
                assert(rem.skip(1) =~= gsends.skip(c + 1));
            }
            let cmd = sends.remove(0);
            proof {
                assert(sends@ =~= rem.skip(1));
            }
            let ghost first = match rem[0].target {
                Some(peer) => opt_actions(
                    send_message_spec(m2, peer.0, rem[0].protocol, rem[0].data@),
                ),
                None => seq![
                    ActionModel::Broadcast { protocol: rem[0].protocol, data: rem[0].data@ },
                ],
            };
            proof {
                assert(send_actions(m2, rem) == first + send_actions(m2, rem.skip(1)));
                assert(sent == (sacc + first) + send_actions(m2, sends@)) by {
                    assert(sacc + (first + send_actions(m2, sends@)) =~= (sacc + first)
                        + send_actions(m2, sends@));
                }
            }
            let ghost before_acts = action_views(actions@);
            let SendCommand { target, protocol, data } = cmd;
            match target {
                Some(peer) => {
                    let sent_one = self.send_custom_message(&peer, protocol, data);
                    match sent_one {
                        Some(a) => {
                            let ghost gx = a;
                            let ghost av = actions@;
                            actions.push(a);
                            proof {
                                lemma_action_views_push(av, gx);
                                sacc = sacc + first;
                                assert(action_views(actions@) =~= pre_send + sacc);
                            }
                        },
                        None => {
                            proof {
                                sacc = sacc + first;
                                assert(first =~= Seq::<ActionModel>::empty());
                                assert(action_views(actions@) =~= pre_send + sacc);
                            }
                        },
                    }
                },
                None => {
                    let a = self.broadcast(protocol, data);
                    let ghost gx = a;
                    let ghost av = actions@;
                    actions.push(a);
                    proof {
                        lemma_action_views_push(av, gx);
                        sacc = sacc + first;
                        assert(action_views(actions@) =~= pre_send + sacc);
                    }
                },
            }
        }
        proof {
            assert(send_actions(m2, sends@) =~= Seq::<ActionModel>::empty());
            assert(sacc + send_actions(m2, sends@) =~= sacc);
            assert(sent == sacc);
            assert(action_views(actions@) =~= dispatch_spec(m1, cmds).1);
            assert(self.model() == dispatch_spec(m1, cmds).0);
        }
        actions
    }
}

impl<H: ServiceHandle> Service<H> {
    /// Drain every command the application handle has to offer this cycle,
    /// in the fixed order: dial addresses to exhaustion, then listen
    /// addresses, then disconnect targets, then one batch of send
    /// requests. Only the handle is touched; the core state is not.
    fn drain_handle(&mut self) -> (cmds: HandleCommands)
        ensures
            final(self).model() == old(self).model(),
    {
        // Each drain loop carries a fuel bound so that it provably
        // terminates; no handle offers anywhere near that many commands in
        // one cycle.
        let mut dials: Vec<Multiaddr> = Vec::new();
        let mut fuel: u64 = u64::MAX;
        loop
            invariant
                self.model() == old(self).model(),
            decreases fuel,
        {
            let next = self.service_handle.new_dialer();
            proof {
                assert(self.nodes() =~= old(self).nodes());
                assert(self.model() =~~= old(self).model());
            }
            match next {
                Some(address) => { dials.push(address); },
                None => { break ; },
            }
            if fuel == 0 {
                break ;
            }
            fuel = fuel - 1;
        }
        let mut listens: Vec<Multiaddr> = Vec::new();
        let mut fuel: u64 = u64::MAX;
        loop
            invariant
                self.model() == old(self).model(),
            decreases fuel,
        {
            let next = self.service_handle.new_listen();
            proof {
                assert(self.nodes() =~= old(self).nodes());
                assert(self.model() =~~= old(self).model());
            }
            match next {
                Some(address) => { listens.push(address); },
                None => { break ; },
            }
            if fuel == 0 {
                break ;
            }
            fuel = fuel - 1;
        }
        let mut disconnects: Vec<PeerId> = Vec::new();
        let mut fuel: u64 = u64::MAX;
        loop
            invariant
                self.model() == old(self).model(),
            decreases fuel,
        {
            let next = self.service_handle.disconnect();
            proof {
                assert(self.nodes() =~= old(self).nodes());
                assert(self.model() =~~= old(self).model());
            }
            match next {
                Some(id) => { disconnects.push(id); },
                None => { break ; },
            }
            if fuel == 0 {
                break ;
            }
            fuel = fuel - 1;
        }
        let sends = self.service_handle.send_message();
        proof {
            assert(self.nodes() =~= old(self).nodes());
            assert(self.model() =~~= old(self).model());
        }
        HandleCommands { dials, listens, disconnects, sends }
    }

    /// One round of command intake: drain the handle, then apply the batch
    /// in the fixed priority order. The state and instructions that result
    /// are those of [`dispatch_spec`] on whatever batch the handle offered.
    pub fn handle_hook(&mut self) -> (r: Vec<NetAction>)
        ensures
            exists|cmds: HandleCommands|
                #![auto]
                final(self).model() == dispatch_spec(old(self).model(), cmds).0 && action_views(r@)
                    == dispatch_spec(old(self).model(), cmds).1,
    {
        let cmds = self.drain_handle();
        let ghost gcmds = cmds;
        let r = self.dispatch_commands(cmds);
        proof {
            assert(self.model() == dispatch_spec(old(self).model(), gcmds).0 && action_views(r@)
                == dispatch_spec(old(self).model(), gcmds).1);
        }
        r
    }

    /// One reactor cycle. The multiplexer's ready events are consumed in
    /// order until one translates; if one does, it is delivered to the
    /// handle's sink and the cycle reports progress without touching the
    /// handle's commands. Otherwise the handle is polled for its own
    /// progress, its commands are drained and applied, and the cycle
    /// reports no progress. Either way the instructions for the
    /// multiplexer come back to the caller, in order.
    pub fn poll(&mut self, ready: Vec<RawEvent>) -> (r: (bool, Vec<RawEvent>, Vec<NetAction>))
        ensures
            r.0 == (drive_spec(old(self).model(), ready@).event is Some),
            r.1@ == ready@.skip(drive_spec(old(self).model(), ready@).used),
            drive_spec(old(self).model(), ready@).event is Some ==> final(self).model()
                == drive_spec(old(self).model(), ready@).model && action_views(r.2@) == drive_spec(
                old(self).model(),
                ready@,
            ).actions,
            drive_spec(old(self).model(), ready@).event is None ==> exists|cmds: HandleCommands|
                #![auto]
                final(self).model() == dispatch_spec(
                    drive_spec(old(self).model(), ready@).model,
                    cmds,
                ).0 && action_views(r.2@) == drive_spec(old(self).model(), ready@).actions
                    + dispatch_spec(drive_spec(old(self).model(), ready@).model, cmds).1,
    {
        let ghost d = drive_spec(old(self).model(), ready@);
        let (sev, leftover, mut actions) = self.poll_swarm(ready);
        match sev {
            Some(e) => {
                self.service_handle.out_event(Some(e));
                (true, leftover, actions)
            },
            None => {
                let ghost s1 = *self;
                self.service_handle.poll();
                proof {
                    assert(self.nodes() =~= s1.nodes());
                    assert(self.model() =~~= s1.model());
                }
                let ghost mid = self.model();
                let ghost before_acts = actions@;
                let mut more = self.handle_hook();
                let ghost more_acts = more@;
                actions.append(&mut more);
                proof {
                    assert(actions@ == before_acts + more_acts);
                    let cmds = choose|cmds: HandleCommands|
                        #![auto]
                        self.model() == dispatch_spec(mid, cmds).0 && action_views(more_acts)
                            == dispatch_spec(mid, cmds).1;
                    assert(action_views(actions@) =~= action_views(before_acts) + action_views(
                        more_acts,
                    ));
                    assert(self.model() == dispatch_spec(d.model, cmds).0 && action_views(actions@)
                        == d.actions + dispatch_spec(d.model, cmds).1);
                }
                (false, leftover, actions)
            },
        }
    }
}

/// Create a new service around the given keypair and application handle.
/// It starts with an empty registry, no listening addresses and no pending
/// dials.
pub fn build_service<H: ServiceHandle>(local_private_key: Keypair, service_handle: H) -> (s:
    Service<H>)
    ensures
        s.model() == (ServiceModel {
            local_key: local_private_key.0,
            local_peer: local_private_key.0,
            nodes: Map::<u64, (Endpoint, Seq<Segment>)>::empty(),
            listening: Seq::<Seq<Segment>>::empty(),
            pending_dials: Seq::<Seq<Segment>>::empty(),
        }),
{
    let local_public_key = local_private_key.to_public_key();
    let local_peer_id = local_public_key.into_peer_id();
    let s = Service {
        local_public_key,
        local_peer_id,
        listening_address: Vec::new(),
        connected_nodes: HashMap::new(),
        need_connect: Vec::new(),
        service_handle,
    };
    proof {
        assert(s.model() =~~= (ServiceModel {
            local_key: local_private_key.0,
            local_peer: local_private_key.0,
            nodes: Map::<u64, (Endpoint, Seq<Segment>)>::empty(),
            listening: Seq::<Seq<Segment>>::empty(),
            pending_dials: Seq::<Seq<Segment>>::empty(),
        }));
    }
    s
}

} // verus!
