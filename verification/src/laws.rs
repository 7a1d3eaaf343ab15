//! Laws of the core, proved once and for all over the model.

use vstd::prelude::*;

use crate::addr::PeerId;
use crate::event::{HandleCommands, RawEvent};
use crate::service::{
    close_actions, dispatch_spec, drive_spec, drop_node_spec, opt_actions, send_actions,
    step_spec, translatable, ActionModel, ServiceModel,
};

verus! {

/// Disconnecting is idempotent: dropping a peer twice in a row leaves the
/// same observable state as dropping it once, and the second drop closes
/// nothing.
pub proof fn lemma_drop_node_idempotent(m: ServiceModel, id: u64)
    ensures
        drop_node_spec(drop_node_spec(m, id).0, id).0 == drop_node_spec(m, id).0,
        drop_node_spec(drop_node_spec(m, id).0, id).1 is None,
{
    assert(!drop_node_spec(m, id).0.nodes.contains_key(id));
}

/// A "connected" event for a previously absent peer grows the registry by
/// exactly one entry; a raw close or error for a present peer shrinks it
/// by exactly one.
pub proof fn lemma_registry_size(m: ServiceModel, ev: RawEvent)
    requires
        m.nodes.dom().finite(),
    ensures
        (ev matches RawEvent::Connected { peer_id, .. } && !m.nodes.contains_key(peer_id.0))
            ==> step_spec(m, ev).model.nodes.len() == m.nodes.len() + 1,
        (ev matches RawEvent::NodeClosed { peer_id } && m.nodes.contains_key(peer_id.0))
            ==> step_spec(m, ev).model.nodes.len() == m.nodes.len() - 1,
        (ev matches RawEvent::NodeError { peer_id } && m.nodes.contains_key(peer_id.0))
            ==> step_spec(m, ev).model.nodes.len() == m.nodes.len() - 1,
{
    match ev {
        RawEvent::Connected { peer_id, .. } => {
            if !m.nodes.contains_key(peer_id.0) {
                assert(step_spec(m, ev).model.nodes.dom() =~= m.nodes.dom().insert(peer_id.0));
            }
        },
        RawEvent::NodeClosed { peer_id } => {
            if m.nodes.contains_key(peer_id.0) {
                assert(step_spec(m, ev).model.nodes.dom() =~= m.nodes.dom().remove(peer_id.0));
            }
        },
        RawEvent::NodeError { peer_id } => {
            if m.nodes.contains_key(peer_id.0) {
                assert(step_spec(m, ev).model.nodes.dom() =~= m.nodes.dom().remove(peer_id.0));
            }
        },
        _ => {},
    }
}

/// An explicit drop of a present peer shrinks the registry by exactly one
/// entry; one of an absent peer leaves its size unchanged.
pub proof fn lemma_drop_node_size(m: ServiceModel, id: u64)
    requires
        m.nodes.dom().finite(),
    ensures
        m.nodes.contains_key(id) ==> drop_node_spec(m, id).0.nodes.len() == m.nodes.len() - 1,
        !m.nodes.contains_key(id) ==> drop_node_spec(m, id).0.nodes.len() == m.nodes.len(),
{
    if m.nodes.contains_key(id) {
        assert(drop_node_spec(m, id).0.nodes.dom() =~= m.nodes.dom().remove(id));
    }
}

/// One raw event surfaces an application event exactly when it is
/// translatable, whatever the state.
pub proof fn lemma_step_event_iff_translatable(m: ServiceModel, ev: RawEvent)
    ensures
        (step_spec(m, ev).event is Some) == translatable(ev),
{
}

/// Exactly one application event leaves the core per polling pass that has
/// a translatable event among the ready ones; a pass over keep-alive and
/// bookkeeping events alone surfaces none.
pub proof fn lemma_one_event_per_cycle(m: ServiceModel, evs: Seq<RawEvent>)
    ensures
        (drive_spec(m, evs).event is Some) <==> (exists|i: int|
            0 <= i < evs.len() && translatable(evs[i])),
    decreases evs.len(),
{
    if evs.len() == 0 {
    } else {
        let s = step_spec(m, evs[0]);
        lemma_step_event_iff_translatable(m, evs[0]);
        if s.event is Some {
            assert(translatable(evs[0]));
            assert(exists|i: int| 0 <= i < evs.len() && translatable(evs[i]));
        } else {
            lemma_one_event_per_cycle(s.model, evs.skip(1));
            if drive_spec(m, evs).event is Some {
                let j = choose|j: int|
                    0 <= j < evs.skip(1).len() && translatable(evs.skip(1)[j]);
                assert(evs.skip(1)[j] == evs[j + 1]);
                assert(exists|i: int| 0 <= i < evs.len() && translatable(evs[i]));
            }
            if exists|i: int| 0 <= i < evs.len() && translatable(evs[i]) {
                let i = choose|i: int| 0 <= i < evs.len() && translatable(evs[i]);
                assert(i != 0);
                assert(evs.skip(1)[i - 1] == evs[i]);
                assert(exists|j: int| 0 <= j < evs.skip(1).len() && translatable(evs.skip(1)[j]));
            }
        }
    }
}

/// Raw events are consumed in the order the multiplexer reported them: a
/// polling pass stops right after the first translatable event, and a pass
/// that surfaces nothing has consumed everything, none of it translatable.
pub proof fn lemma_drive_consumes_in_order(m: ServiceModel, evs: Seq<RawEvent>)
    ensures
        0 <= drive_spec(m, evs).used <= evs.len(),
        drive_spec(m, evs).event is Some ==> ({
            let u = drive_spec(m, evs).used;
            &&& 1 <= u <= evs.len()
            &&& translatable(evs[u - 1])
            &&& forall|j: int| 0 <= j < u - 1 ==> !translatable(evs[j])
        }),
        drive_spec(m, evs).event is None ==> drive_spec(m, evs).used == evs.len() && (forall|j: int|
            0 <= j < evs.len() ==> !translatable(evs[j])),
    decreases evs.len(),
{
    if evs.len() == 0 {
    } else {
        let s = step_spec(m, evs[0]);
        lemma_step_event_iff_translatable(m, evs[0]);
        if s.event is Some {
        } else {
            lemma_drive_consumes_in_order(s.model, evs.skip(1));
            let rest = drive_spec(s.model, evs.skip(1));
            if rest.event is Some {
                assert(evs.skip(1)[rest.used - 1] == evs[rest.used]);
                assert forall|j: int| 0 <= j < rest.used implies !translatable(evs[j]) by {
                    if j > 0 {
                        assert(evs.skip(1)[j - 1] == evs[j]);
                    }
                }
            } else {
                assert forall|j: int| 0 <= j < evs.len() implies !translatable(evs[j]) by {
                    if j > 0 {
                        assert(evs.skip(1)[j - 1] == evs[j]);
                    }
                }
            }
        }
    }
}

/// Disconnect commands yield close instructions only.
pub proof fn lemma_close_actions_only_close(m: ServiceModel, ids: Seq<PeerId>)
    ensures
        forall|i: int|
            0 <= i < close_actions(m, ids).1.len() ==> close_actions(m, ids).1[i] is Close,
    decreases ids.len(),
{
    if ids.len() == 0 {
    } else {
        let first = drop_node_spec(m, ids[0].0);
        let rest = close_actions(first.0, ids.skip(1));
        lemma_close_actions_only_close(first.0, ids.skip(1));
        assert forall|i: int| 0 <= i < close_actions(m, ids).1.len() implies close_actions(
            m,
            ids,
        ).1[i] is Close by {
            if i < opt_actions(first.1).len() {
                assert(close_actions(m, ids).1[i] == opt_actions(first.1)[i]);
            } else {
                assert(close_actions(m, ids).1[i] == rest.1[i - opt_actions(first.1).len()]);
            }
        }
    }
}

/// Send commands yield message instructions only.
pub proof fn lemma_send_actions_only_send(m: ServiceModel, sends: Seq<crate::event::SendCommand>)
    ensures
        forall|i: int|
            0 <= i < send_actions(m, sends).len() ==> (send_actions(m, sends)[i]
                is SendCustomMessage || send_actions(m, sends)[i] is Broadcast),
    decreases sends.len(),
{
    if sends.len() == 0 {
    } else {
        let first = match sends[0].target {
            Some(peer) => opt_actions(
                crate::service::send_message_spec(m, peer.0, sends[0].protocol, sends[0].data@),
            ),
            None => seq![
                ActionModel::Broadcast { protocol: sends[0].protocol, data: sends[0].data@ },
            ],
        };
        let rest = send_actions(m, sends.skip(1));
        lemma_send_actions_only_send(m, sends.skip(1));
        assert forall|i: int| 0 <= i < send_actions(m, sends).len() implies (send_actions(
            m,
            sends,
        )[i] is SendCustomMessage || send_actions(m, sends)[i] is Broadcast) by {
            if i < first.len() {
                assert(send_actions(m, sends)[i] == first[i]);
            } else {
                assert(send_actions(m, sends)[i] == rest[i - first.len()]);
            }
        }
    }
}

/// Command draining order is fixed: within one cycle's batch, every dial
/// instruction comes first, every listen instruction next, and every close
/// or send instruction after them.
pub proof fn lemma_dispatch_command_order(m: ServiceModel, cmds: HandleCommands)
    ensures
        ({
            let acts = dispatch_spec(m, cmds).1;
            let nd = cmds.dials@.len() as int;
            let nl = cmds.listens@.len() as int;
            &&& acts.len() >= nd + nl
            &&& forall|i: int| 0 <= i < nd ==> acts[i] is Dial
            &&& forall|i: int| nd <= i < nd + nl ==> acts[i] is Listen
            &&& forall|i: int|
                nd + nl <= i < acts.len() ==> (acts[i] is Close || acts[i] is SendCustomMessage
                    || acts[i] is Broadcast)
        }),
{
    let acts = dispatch_spec(m, cmds).1;
    let nd = cmds.dials@.len() as int;
    let nl = cmds.listens@.len() as int;
    let dial_acts = cmds.dials@.map_values(
        |a: crate::addr::Multiaddr| ActionModel::Dial { address: a@ },
    );
    let listen_acts = cmds.listens@.map_values(
        |a: crate::addr::Multiaddr| ActionModel::Listen { address: a@ },
    );
    let closed = close_actions(m, cmds.disconnects@);
    let sent = send_actions(closed.0, cmds.sends@);
    lemma_close_actions_only_close(m, cmds.disconnects@);
    lemma_send_actions_only_send(closed.0, cmds.sends@);
    assert forall|i: int| 0 <= i < nd implies acts[i] is Dial by {
        assert(acts[i] == dial_acts[i]);
    }
    assert forall|i: int| nd <= i < nd + nl implies acts[i] is Listen by {
        assert(acts[i] == listen_acts[i - nd]);
    }
    assert forall|i: int| nd + nl <= i < acts.len() implies (acts[i] is Close || acts[i]
        is SendCustomMessage || acts[i] is Broadcast) by {
        if i < nd + nl + closed.1.len() {
            assert(acts[i] == closed.1[i - nd - nl]);
        } else {
            assert(acts[i] == sent[i - nd - nl - closed.1.len()]);
        }
    }
}

} // verus!
