use std::cell::RefCell;
use std::rc::Rc;

use core_p2p::addr::{Keypair, Multiaddr, PeerId, Segment};
use core_p2p::event::{
    ConnectedPoint, Endpoint, NetAction, ProtocolEvent, RawEvent, SendCommand, ServiceEvent,
    ServiceHandle,
};
use core_p2p::service::{build_service, Service};

struct NullHandle;

impl ServiceHandle for NullHandle {
    fn out_event(&self, _event: Option<ServiceEvent>) {}
}

type Sink = Rc<RefCell<Vec<ServiceEvent>>>;

struct ScriptedHandle {
    sink: Sink,
    dials: Vec<Multiaddr>,
    listens: Vec<Multiaddr>,
    disconnects: Vec<PeerId>,
    sends: Vec<SendCommand>,
}

impl ScriptedHandle {
    fn quiet(sink: Sink) -> ScriptedHandle {
        ScriptedHandle {
            sink,
            dials: Vec::new(),
            listens: Vec::new(),
            disconnects: Vec::new(),
            sends: Vec::new(),
        }
    }
}

impl ServiceHandle for ScriptedHandle {
    fn out_event(&self, event: Option<ServiceEvent>) {
        if let Some(e) = event {
            self.sink.borrow_mut().push(e);
        }
    }

    fn new_dialer(&mut self) -> Option<Multiaddr> {
        if self.dials.is_empty() {
            None
        } else {
            Some(self.dials.remove(0))
        }
    }

    fn new_listen(&mut self) -> Option<Multiaddr> {
        if self.listens.is_empty() {
            None
        } else {
            Some(self.listens.remove(0))
        }
    }

    fn disconnect(&mut self) -> Option<PeerId> {
        if self.disconnects.is_empty() {
            None
        } else {
            Some(self.disconnects.remove(0))
        }
    }

    fn send_message(&mut self) -> Vec<SendCommand> {
        std::mem::take(&mut self.sends)
    }
}

fn ma(segs: Vec<Segment>) -> Multiaddr {
    Multiaddr::from_segments(segs)
}

fn connect_as<H: ServiceHandle>(svc: &mut Service<H>, id: u64, dialer: bool, addr: Multiaddr) {
    let endpoint = if dialer {
        ConnectedPoint::Dialer { address: addr }
    } else {
        ConnectedPoint::Listener { send_back_addr: addr }
    };
    let (ev, act) = svc.handle_raw_event(RawEvent::Connected { peer_id: PeerId(id), endpoint });
    assert!(ev.is_none());
    assert!(act.is_none());
}

#[test]
fn send_and_drop_are_noops_for_unknown_peer() {
    let mut svc = build_service(Keypair(1), NullHandle);
    assert!(svc.send_custom_message(&PeerId(42), 3, vec![9]).is_none());
    assert!(svc.drop_node(PeerId(42)).is_none());
    assert_eq!(svc.connected_count(), 0);
    assert_eq!(svc.pending_dial_count(), 0);
}

#[test]
fn drop_node_is_idempotent() {
    let mut svc = build_service(Keypair(1), NullHandle);
    connect_as(&mut svc, 5, true, ma(vec![Segment::Ip4(10, 0, 0, 1), Segment::Tcp(4001)]));
    assert_eq!(svc.connected_count(), 1);
    let first = svc.drop_node(PeerId(5));
    assert!(matches!(first, Some(NetAction::Close { peer: PeerId(5) })));
    assert_eq!(svc.connected_count(), 0);
    let second = svc.drop_node(PeerId(5));
    assert!(second.is_none());
    assert_eq!(svc.connected_count(), 0);
}

#[test]
fn listen_result_carries_local_identity() {
    let svc = build_service(Keypair(7), NullHandle);
    let bound = ma(vec![Segment::Ip4(127, 0, 0, 1), Segment::Tcp(30333)]);
    let advertised = svc.listen_on(Ok(bound.clone())).expect("bind succeeded");
    assert_eq!(advertised.last_segment(), Some(Segment::P2p(7)));
    assert!(bound.is_prefix_of(&advertised));
    assert_eq!(advertised.len(), bound.len() + 1);
}

#[test]
fn listen_failure_returns_address_unchanged() {
    let svc = build_service(Keypair(7), NullHandle);
    let wanted = ma(vec![Segment::Ip4(10, 0, 0, 9), Segment::Tcp(1)]);
    let back = svc.listen_on(Err(wanted.clone()));
    assert_eq!(back, Err(wanted));
}

#[test]
fn connected_and_closed_events_change_registry_size() {
    let mut svc = build_service(Keypair(1), NullHandle);
    connect_as(&mut svc, 5, true, ma(vec![Segment::Ip4(10, 0, 0, 1), Segment::Tcp(4001)]));
    assert_eq!(svc.connected_count(), 1);
    connect_as(&mut svc, 6, false, ma(vec![Segment::Ip4(10, 0, 0, 2), Segment::Tcp(4002)]));
    assert_eq!(svc.connected_count(), 2);

    let (ev, _) = svc.handle_raw_event(RawEvent::NodeClosed { peer_id: PeerId(5) });
    assert!(matches!(ev, Some(ServiceEvent::NodeClosed { id: PeerId(5) })));
    assert_eq!(svc.connected_count(), 1);

    let (ev, _) = svc.handle_raw_event(RawEvent::NodeError { peer_id: PeerId(6) });
    assert!(matches!(ev, Some(ServiceEvent::NodeClosed { id: PeerId(6) })));
    assert_eq!(svc.connected_count(), 0);
}

#[test]
fn cycle_with_only_keepalive_events_delivers_nothing() {
    let sink: Sink = Rc::new(RefCell::new(Vec::new()));
    let mut svc = build_service(Keypair(1), ScriptedHandle::quiet(sink.clone()));
    let ready = vec![
        RawEvent::NodeEvent { peer_id: PeerId(5), event: ProtocolEvent::PingStart },
        RawEvent::NodeEvent { peer_id: PeerId(5), event: ProtocolEvent::PingSuccess { millis: 12 } },
    ];
    let (progress, leftover, actions) = svc.poll(ready);
    assert!(!progress);
    assert!(leftover.is_empty());
    assert!(actions.is_empty());
    assert!(sink.borrow().is_empty());
}

#[test]
fn cycle_with_translatable_event_delivers_exactly_one() {
    let sink: Sink = Rc::new(RefCell::new(Vec::new()));
    let mut svc = build_service(Keypair(1), ScriptedHandle::quiet(sink.clone()));
    let ready = vec![
        RawEvent::NodeEvent {
            peer_id: PeerId(5),
            event: ProtocolEvent::CustomMessage { protocol: 1, data: vec![1] },
        },
        RawEvent::NodeEvent {
            peer_id: PeerId(5),
            event: ProtocolEvent::CustomMessage { protocol: 2, data: vec![2] },
        },
    ];
    let (progress, leftover, _) = svc.poll(ready);
    assert!(progress);
    assert_eq!(leftover.len(), 1);
    match &leftover[0] {
        RawEvent::NodeEvent { event: ProtocolEvent::CustomMessage { protocol, .. }, .. } => {
            assert_eq!(*protocol, 2);
        },
        other => panic!("expected the second message to remain, got {:?}", other),
    }
    let events = sink.borrow();
    assert_eq!(events.len(), 1);
    match &events[0] {
        ServiceEvent::CustomMessage { protocol, .. } => assert_eq!(*protocol, 1),
        other => panic!("expected the first message to be delivered, got {:?}", other),
    }
}

#[test]
fn command_order_is_dial_listen_disconnect_send() {
    let sink: Sink = Rc::new(RefCell::new(Vec::new()));
    let dial_addr = ma(vec![Segment::Ip4(10, 0, 0, 3), Segment::Tcp(4003)]);
    let listen_addr = ma(vec![Segment::Ip4(0, 0, 0, 0), Segment::Tcp(4004)]);
    let handle = ScriptedHandle {
        sink: sink.clone(),
        dials: vec![dial_addr.clone()],
        listens: vec![listen_addr.clone()],
        disconnects: vec![PeerId(5)],
        sends: vec![SendCommand { target: Some(PeerId(6)), protocol: 2, data: vec![8, 9] }],
    };
    let mut svc = build_service(Keypair(1), handle);
    connect_as(&mut svc, 5, true, ma(vec![Segment::Ip4(10, 0, 0, 1), Segment::Tcp(1)]));
    connect_as(&mut svc, 6, false, ma(vec![Segment::Ip4(10, 0, 0, 2), Segment::Tcp(2)]));

    let (progress, _, actions) = svc.poll(Vec::new());
    assert!(!progress);
    assert_eq!(actions.len(), 4);
    match &actions[0] {
        NetAction::Dial { address } => assert_eq!(*address, dial_addr),
        other => panic!("expected dial first, got {:?}", other),
    }
    match &actions[1] {
        NetAction::Listen { address } => assert_eq!(*address, listen_addr),
        other => panic!("expected listen second, got {:?}", other),
    }
    match &actions[2] {
        NetAction::Close { peer } => assert_eq!(*peer, PeerId(5)),
        other => panic!("expected close third, got {:?}", other),
    }
    match &actions[3] {
        NetAction::SendCustomMessage { peer, protocol, data } => {
            assert_eq!(*peer, PeerId(6));
            assert_eq!(*protocol, 2);
            assert_eq!(*data, vec![8, 9]);
        },
        other => panic!("expected send last, got {:?}", other),
    }
    assert_eq!(svc.connected_count(), 1);
}

#[test]
fn fresh_listen_scenario_ends_in_local_identity() {
    let sink: Sink = Rc::new(RefCell::new(Vec::new()));
    let wildcard = ma(vec![Segment::Ip4(0, 0, 0, 0), Segment::Tcp(0)]);
    let handle = ScriptedHandle {
        sink: sink.clone(),
        dials: Vec::new(),
        listens: vec![wildcard.clone()],
        disconnects: Vec::new(),
        sends: Vec::new(),
    };
    let mut svc = build_service(Keypair(77), handle);
    let (progress, _, actions) = svc.poll(Vec::new());
    assert!(!progress);
    assert_eq!(actions.len(), 1);
    match &actions[0] {
        NetAction::Listen { address } => assert_eq!(*address, wildcard),
        other => panic!("expected a listen instruction, got {:?}", other),
    }
    let bound = ma(vec![Segment::Ip4(0, 0, 0, 0), Segment::Tcp(42000)]);
    svc.record_bound_address(bound.clone());
    let advertised = svc.listen_on(Ok(bound.clone())).expect("bind succeeded");
    assert_eq!(advertised.last_segment(), Some(Segment::P2p(77)));
    assert!(bound.is_prefix_of(&advertised));
    assert_eq!(svc.listening_count(), 1);
}

#[test]
fn replaced_dialer_queues_original_address() {
    let mut svc = build_service(Keypair(1), NullHandle);
    let original = ma(vec![Segment::Ip4(10, 0, 0, 1), Segment::Tcp(4001)]);
    connect_as(&mut svc, 5, true, original.clone());
    let (ev, act) = svc.handle_raw_event(RawEvent::Replaced { peer_id: PeerId(5) });
    assert!(ev.is_none());
    assert!(act.is_none());
    assert_eq!(svc.connected_count(), 0);
    assert_eq!(svc.pending_dial_count(), 1);
    assert_eq!(svc.pending_dial(0), original);
}

#[test]
fn replaced_listener_leaves_queue_unchanged() {
    let mut svc = build_service(Keypair(1), NullHandle);
    connect_as(&mut svc, 5, false, ma(vec![Segment::Ip4(10, 0, 0, 1), Segment::Tcp(4001)]));
    let (ev, act) = svc.handle_raw_event(RawEvent::Replaced { peer_id: PeerId(5) });
    assert!(ev.is_none());
    assert!(act.is_none());
    assert_eq!(svc.connected_count(), 0);
    assert_eq!(svc.pending_dial_count(), 0);
}

#[test]
fn custom_message_translates_with_payload() {
    let sink: Sink = Rc::new(RefCell::new(Vec::new()));
    let mut svc = build_service(Keypair(1), ScriptedHandle::quiet(sink.clone()));
    connect_as(&mut svc, 9, true, ma(vec![Segment::Ip4(10, 0, 0, 9), Segment::Tcp(9)]));
    let ready = vec![RawEvent::NodeEvent {
        peer_id: PeerId(9),
        event: ProtocolEvent::CustomMessage { protocol: 7, data: vec![1, 2, 3] },
    }];
    let (progress, leftover, _) = svc.poll(ready);
    assert!(progress);
    assert!(leftover.is_empty());
    let events = sink.borrow();
    assert_eq!(events.len(), 1);
    match &events[0] {
        ServiceEvent::CustomMessage { id, protocol, data } => {
            assert_eq!(*id, PeerId(9));
            assert_eq!(*protocol, 7);
            assert_eq!(*data, vec![1, 2, 3]);
        },
        other => panic!("expected a custom message, got {:?}", other),
    }
}

#[test]
fn identify_request_from_unknown_peer_is_ignored() {
    let mut svc = build_service(Keypair(1), NullHandle);
    assert!(svc.respond_to_identify_request(&PeerId(99)).is_none());
    let (ev, act) = svc.event_handle(PeerId(99), ProtocolEvent::IdentificationRequest);
    assert!(ev.is_none());
    assert!(act.is_none());
}

#[test]
fn identify_request_from_known_peer_gets_full_answer() {
    let mut svc = build_service(Keypair(3), NullHandle);
    let seen_at = ma(vec![Segment::Ip4(10, 0, 0, 5), Segment::Tcp(5000)]);
    connect_as(&mut svc, 5, false, seen_at.clone());
    let listen1 = ma(vec![Segment::Ip4(127, 0, 0, 1), Segment::Tcp(30333)]);
    svc.record_bound_address(listen1.clone());
    let answer = svc.respond_to_identify_request(&PeerId(5)).expect("registered peer");
    match answer {
        NetAction::RespondIdentify { requester, public_key, listen_addresses, observed_addr } => {
            assert_eq!(requester, PeerId(5));
            assert_eq!(public_key.0, 3);
            assert_eq!(listen_addresses.len(), 1);
            assert_eq!(listen_addresses[0], listen1);
            assert_eq!(observed_addr, seen_at);
        },
        other => panic!("expected an identify answer, got {:?}", other),
    }
}

#[test]
fn identified_event_yields_node_info_and_learns_address() {
    let mut svc = build_service(Keypair(3), NullHandle);
    connect_as(&mut svc, 5, true, ma(vec![Segment::Ip4(10, 0, 0, 5), Segment::Tcp(5000)]));
    svc.record_bound_address(ma(vec![Segment::Ip4(192, 168, 0, 2), Segment::Tcp(30333)]));

    let remote_listens = vec![ma(vec![Segment::Ip4(10, 0, 0, 5), Segment::Tcp(7000)])];
    let observed = ma(vec![Segment::Ip4(8, 8, 4, 4), Segment::Tcp(5555)]);
    let (ev, act) = svc.event_handle(
        PeerId(5),
        ProtocolEvent::Identified { listen_addrs: remote_listens, observed_addr: observed.clone() },
    );
    assert!(act.is_none());
    match ev {
        Some(ServiceEvent::NodeInfo { id, listen_address }) => {
            assert_eq!(id, PeerId(5));
            assert_eq!(listen_address.len(), 1);
        },
        other => panic!("expected node info, got {:?}", other),
    }
    // The observed host was substituted into the known listen port.
    assert_eq!(svc.listening_count(), 2);
    assert_eq!(
        svc.listening_address(1),
        ma(vec![Segment::Ip4(8, 8, 4, 4), Segment::Tcp(30333)])
    );

    // Learning the same observation again adds nothing: the candidate is
    // already structurally present.
    svc.add_observed_addr(&observed);
    assert_eq!(svc.listening_count(), 2);
}

#[test]
fn dial_error_event_queues_address() {
    let mut svc = build_service(Keypair(1), NullHandle);
    let target = ma(vec![Segment::Ip4(10, 0, 0, 8), Segment::Tcp(8000)]);
    let (ev, act) = svc.handle_raw_event(RawEvent::DialError { multiaddr: target.clone() });
    assert!(ev.is_none());
    assert!(act.is_none());
    let (ev, act) =
        svc.handle_raw_event(RawEvent::UnknownPeerDialError { multiaddr: target.clone() });
    assert!(ev.is_none());
    assert!(act.is_none());
    assert_eq!(svc.pending_dial_count(), 2);
    assert_eq!(svc.pending_dial(0), target);
    assert_eq!(svc.pending_dial(1), target);
    assert_eq!(svc.connected_count(), 0);
}

#[test]
fn useless_handler_closes_node() {
    let mut svc = build_service(Keypair(1), NullHandle);
    connect_as(&mut svc, 5, true, ma(vec![Segment::Ip4(10, 0, 0, 1), Segment::Tcp(1)]));
    let (ev, act) = svc.event_handle(PeerId(5), ProtocolEvent::Useless);
    assert!(act.is_none());
    assert!(matches!(ev, Some(ServiceEvent::NodeClosed { id: PeerId(5) })));
    assert_eq!(svc.connected_count(), 0);
}

#[test]
fn incoming_connection_is_accepted() {
    let mut svc = build_service(Keypair(1), NullHandle);
    let from = ma(vec![Segment::Ip4(10, 0, 0, 4), Segment::Tcp(4)]);
    let (ev, act) = svc.handle_raw_event(RawEvent::IncomingConnection { send_back_addr: from });
    assert!(ev.is_none());
    assert!(matches!(act, Some(NetAction::AcceptIncoming)));
    // An acceptance failure is logged only: no state change, no event.
    let from = ma(vec![Segment::Ip4(10, 0, 0, 4), Segment::Tcp(4)]);
    let (ev, act) =
        svc.handle_raw_event(RawEvent::IncomingConnectionError { send_back_addr: from });
    assert!(ev.is_none());
    assert!(act.is_none());
    assert_eq!(svc.connected_count(), 0);
}

#[test]
fn listener_closed_changes_nothing() {
    let mut svc = build_service(Keypair(1), NullHandle);
    svc.record_bound_address(ma(vec![Segment::Ip4(0, 0, 0, 0), Segment::Tcp(30333)]));
    let gone = ma(vec![Segment::Ip4(0, 0, 0, 0), Segment::Tcp(30333)]);
    let (ev, act) = svc.handle_raw_event(RawEvent::ListenerClosed { listen_addr: gone });
    assert!(ev.is_none());
    assert!(act.is_none());
    assert_eq!(svc.listening_count(), 1);
}

#[test]
fn broadcast_is_one_instruction_for_everyone() {
    let svc = build_service(Keypair(1), NullHandle);
    let action = svc.broadcast(4, vec![5, 6]);
    match action {
        NetAction::Broadcast { protocol, data } => {
            assert_eq!(protocol, 4);
            assert_eq!(data, vec![5, 6]);
        },
        other => panic!("expected a broadcast, got {:?}", other),
    }
}

#[test]
fn send_reaches_only_registered_peers() {
    let mut svc = build_service(Keypair(1), NullHandle);
    connect_as(&mut svc, 5, true, ma(vec![Segment::Ip4(10, 0, 0, 1), Segment::Tcp(1)]));
    let action = svc.send_custom_message(&PeerId(5), 2, vec![7]).expect("peer is connected");
    match action {
        NetAction::SendCustomMessage { peer, protocol, data } => {
            assert_eq!(peer, PeerId(5));
            assert_eq!(protocol, 2);
            assert_eq!(data, vec![7]);
        },
        other => panic!("expected a send, got {:?}", other),
    }
}

#[test]
fn dial_submits_address_and_failure_is_recorded() {
    let mut svc = build_service(Keypair(1), NullHandle);
    let target = ma(vec![Segment::Ip4(10, 0, 0, 8), Segment::Tcp(8000)]);
    match svc.dial(target.clone()) {
        NetAction::Dial { address } => assert_eq!(address, target),
        other => panic!("expected a dial, got {:?}", other),
    }
    svc.record_failed_dial(target.clone());
    assert_eq!(svc.pending_dial_count(), 1);
    assert_eq!(svc.pending_dial(0), target);
}

#[test]
fn connection_roles_are_recorded() {
    let mut svc = build_service(Keypair(1), NullHandle);
    connect_as(&mut svc, 5, true, ma(vec![Segment::Ip4(10, 0, 0, 1), Segment::Tcp(1)]));
    connect_as(&mut svc, 6, false, ma(vec![Segment::Ip4(10, 0, 0, 2), Segment::Tcp(2)]));
    assert_eq!(svc.connected_role(&PeerId(5)), Some(Endpoint::Dialer));
    assert_eq!(svc.connected_role(&PeerId(6)), Some(Endpoint::Listener));
    assert_eq!(svc.connected_role(&PeerId(7)), None);
    assert!(svc.is_connected(&PeerId(5)));
    assert!(!svc.is_connected(&PeerId(7)));
}

#[test]
fn keypair_derives_identity() {
    let key = Keypair(11);
    assert_eq!(key.to_public_key().into_peer_id(), PeerId(11));
    let svc = build_service(key, NullHandle);
    assert_eq!(svc.local_peer_id(), PeerId(11));
    assert_eq!(svc.local_public_key().0, 11);
}

#[test]
fn multiaddr_prefix_and_equality_are_structural() {
    let a = ma(vec![Segment::Ip4(1, 2, 3, 4), Segment::Tcp(80)]);
    let b = ma(vec![Segment::Ip4(1, 2, 3, 4), Segment::Tcp(80)]);
    let c = ma(vec![Segment::Ip4(1, 2, 3, 4), Segment::Tcp(81)]);
    assert_eq!(a, b);
    assert_ne!(a, c);
    let longer = a.with_p2p(PeerId(9));
    assert!(a.is_prefix_of(&longer));
    assert!(!longer.is_prefix_of(&a));
    assert_eq!(longer.last_segment(), Some(Segment::P2p(9)));
    assert_eq!(longer.segment(0), Segment::Ip4(1, 2, 3, 4));
    assert!(Multiaddr::empty().is_prefix_of(&a));
}
