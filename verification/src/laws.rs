use vstd::prelude::*;

use crate::broadcast::BroadcastView;
use crate::echo::{echo_server_next, EchoReplyView, EchoServerView};
use crate::handlers::{
    distinct_names, echo_next, init_next, lemma_neighbors_of_entry, lemma_sorted_elements_exist,
    sorted_elements, strictly_increasing, topology_next,
};
use crate::message::{wire_type, BodyView, EnvelopeView, MessageView};
use crate::node::{dispatch_admits, dispatch_next, HandlerKind, NodeView, OutcomeView};

verus! {

/// The node after it has handled `msgs`, in order.
pub open spec fn run_all(n: NodeView, b: BroadcastView, msgs: Seq<MessageView>) -> (
    NodeView,
    BroadcastView,
)
    decreases msgs.len(),
{
    if msgs.len() == 0 {
        (n, b)
    } else {
        let (n1, b1, _) = dispatch_next(n, b, msgs[0]);
        run_all(n1, b1, msgs.drop_first())
    }
}

/// Handling two lists of messages in turn is handling their concatenation.
pub proof fn lemma_run_all_concat(
    n: NodeView,
    b: BroadcastView,
    s1: Seq<MessageView>,
    s2: Seq<MessageView>,
)
    ensures
        run_all(n, b, s1 + s2) == ({
            let (n1, b1) = run_all(n, b, s1);
            run_all(n1, b1, s2)
        }),
    decreases s1.len(),
{
    if s1.len() > 0 {
        let (n1, b1, _) = dispatch_next(n, b, s1[0]);
        assert((s1 + s2)[0] == s1[0]);
        assert((s1 + s2).drop_first() =~= s1.drop_first() + s2);
        lemma_run_all_concat(n1, b1, s1.drop_first(), s2);
    } else {
        assert(s1 + s2 =~= s2);
    }
}

/// Over any list of messages, a node keeps every message that it has seen and its handlers,
/// and its set of messages stays finite.
pub proof fn law_known_messages_persist(n: NodeView, b: BroadcastView, msgs: Seq<MessageView>)
    ensures
        ({
            let (n1, b1) = run_all(n, b, msgs);
            &&& b.messages.subset_of(b1.messages)
            &&& n1.handlers == n.handlers
            &&& b.messages.finite() ==> b1.messages.finite()
        }),
    decreases msgs.len(),
{
    if msgs.len() > 0 {
        let (n1, b1, _) = dispatch_next(n, b, msgs[0]);
        law_monotone(n, b, msgs[0]);
        law_known_messages_persist(n1, b1, msgs.drop_first());
    }
}

/// The `broadcast` and `read` types go to the broadcast and read handlers.
pub open spec fn serves_broadcast(n: NodeView) -> bool {
    &&& n.handlers.contains_key("broadcast"@)
    &&& n.handlers["broadcast"@] == HandlerKind::Broadcast
    &&& n.handlers.contains_key("read"@)
    &&& n.handlers["read"@] == HandlerKind::Read
}

/// A message that a node has taken in with `broadcast` is in its answer to a following
/// `read`, which lists exactly the messages seen, each once, in increasing order.
pub proof fn law_read_after_broadcast(
    n: NodeView,
    b: BroadcastView,
    bm: MessageView,
    rm: MessageView,
)
    requires
        serves_broadcast(n),
        b.messages.finite(),
        bm.body is RequestBroadcast,
        rm.body is RequestRead,
    ensures
        ({
            let (n1, b1, o1) = dispatch_next(n, b, bm);
            let (n2, b2, o2) = dispatch_next(n1, b1, rm);
            &&& o1 == OutcomeView::Handled
            &&& o2 == OutcomeView::Handled
            &&& n2.outbox.last().dest == rm.src
            &&& n2.outbox.last().body matches BodyView::ResponseReadOk { messages, .. }
            &&& messages.contains(bm.body->message)
            &&& messages.to_set() == b.messages.insert(bm.body->message)
            &&& strictly_increasing(messages)
        }),
{
    let m = bm.body->message;
    let (n1, b1, o1) = dispatch_next(n, b, bm);
    assert(wire_type(bm.body) == "broadcast"@);
    assert(wire_type(rm.body) == "read"@);
    assert(n1.handlers == n.handlers);
    assert(b1.messages == b.messages.insert(m));
    lemma_sorted_elements_exist(b.messages.insert(m));
    let q = sorted_elements(b.messages.insert(m));
    assert(q.to_set().contains(m));
}

/// Once a node has taken in a message with `broadcast`, every later `read` lists it,
/// whatever other messages the node handles in between.
pub proof fn law_read_after_any_calls(
    n: NodeView,
    b: BroadcastView,
    before: Seq<MessageView>,
    bm: MessageView,
    after: Seq<MessageView>,
    rm: MessageView,
)
    requires
        serves_broadcast(n),
        b.messages.finite(),
        bm.body is RequestBroadcast,
        rm.body is RequestRead,
    ensures
        ({
            let (n1, b1) = run_all(n, b, before.push(bm) + after);
            let (n2, b2, o) = dispatch_next(n1, b1, rm);
            &&& o == OutcomeView::Handled
            &&& n2.outbox.last().body matches BodyView::ResponseReadOk { messages, .. }
            &&& messages.contains(bm.body->message)
            &&& strictly_increasing(messages)
        }),
{
    let m = bm.body->message;
    lemma_run_all_concat(n, b, before.push(bm), after);
    lemma_run_all_concat(n, b, before, seq![bm]);
    assert(before + seq![bm] =~= before.push(bm));
    let (na, ba) = run_all(n, b, before);
    law_known_messages_persist(n, b, before);
    assert(wire_type(bm.body) == "broadcast"@);
    let (nb, bb, _) = dispatch_next(na, ba, bm);
    assert(seq![bm].drop_first() =~= Seq::<MessageView>::empty());
    assert(seq![bm][0] == bm);
    assert(run_all(nb, bb, Seq::<MessageView>::empty()) == (nb, bb));
    assert(run_all(na, ba, seq![bm]) == (nb, bb));
    assert(bb.messages == ba.messages.insert(m));
    law_known_messages_persist(nb, bb, after);
    let (nc, bc) = run_all(nb, bb, after);
    assert(bc.messages.contains(m));
    assert(wire_type(rm.body) == "read"@);
    lemma_sorted_elements_exist(bc.messages);
    let q = sorted_elements(bc.messages);
    assert(q.to_set().contains(m));
}

/// The set of messages that a node ends with does not depend on the order in which two
/// broadcasts reach it.
pub proof fn law_broadcast_order(n: NodeView, b: BroadcastView, m1: MessageView, m2: MessageView)
    requires
        n.handlers.contains_key("broadcast"@),
        n.handlers["broadcast"@] == HandlerKind::Broadcast,
        m1.body is RequestBroadcast,
        m2.body is RequestBroadcast,
    ensures
        ({
            let (na, ba) = run_all(n, b, seq![m1, m2]);
            let (nb, bb) = run_all(n, b, seq![m2, m1]);
            &&& ba.messages == bb.messages
            &&& ba.messages == b.messages.insert(m1.body->message).insert(m2.body->message)
        }),
{
    assert(wire_type(m1.body) == "broadcast"@);
    assert(wire_type(m2.body) == "broadcast"@);
    assert(seq![m1, m2].drop_first() =~= seq![m2]);
    assert(seq![m2, m1].drop_first() =~= seq![m1]);
    assert(seq![m2].drop_first() =~= Seq::<MessageView>::empty());
    assert(seq![m1].drop_first() =~= Seq::<MessageView>::empty());
    let x = m1.body->message;
    let y = m2.body->message;
    let e = Seq::<MessageView>::empty();
    let (n1, b1, _) = dispatch_next(n, b, m1);
    law_monotone(n, b, m1);
    let (n2, b2, _) = dispatch_next(n1, b1, m2);
    assert(seq![m1, m2][0] == m1);
    assert(seq![m2][0] == m2);
    assert(run_all(n2, b2, e) == (n2, b2));
    assert(run_all(n1, b1, seq![m2]) == (n2, b2));
    assert(run_all(n, b, seq![m1, m2]) == (n2, b2));
    let (n3, b3, _) = dispatch_next(n, b, m2);
    law_monotone(n, b, m2);
    let (n4, b4, _) = dispatch_next(n3, b3, m1);
    assert(seq![m2, m1][0] == m2);
    assert(seq![m1][0] == m1);
    assert(run_all(n4, b4, e) == (n4, b4));
    assert(run_all(n3, b3, seq![m1]) == (n4, b4));
    assert(run_all(n, b, seq![m2, m1]) == (n4, b4));
    assert(b.messages.insert(x).insert(y) =~= b.messages.insert(y).insert(x));
}

/// Handling the same topology twice leaves the neighbours as the first time set them:
/// neighbours are replaced, never added to.
pub proof fn law_topology_twice(n: NodeView, b: BroadcastView, t1: MessageView, t2: MessageView)
    requires
        n.handlers.contains_key("topology"@),
        n.handlers["topology"@] == HandlerKind::Topology,
        t1.body is RequestTopology,
        t2.body is RequestTopology,
        t1.body->topology == t2.body->topology,
    ensures
        ({
            let (n1, b1, _) = dispatch_next(n, b, t1);
            let (n2, b2, _) = dispatch_next(n1, b1, t2);
            b2.neighbors == b1.neighbors
        }),
{
    assert(wire_type(t1.body) == "topology"@);
    assert(wire_type(t2.body) == "topology"@);
}

/// Only `init` changes a node's identity, only `topology` its neighbours and only
/// `broadcast` its set of messages, whatever handlers are registered.
pub proof fn law_fields_by_type(n: NodeView, b: BroadcastView, msg: MessageView)
    ensures
        ({
            let (n1, b1, _) = dispatch_next(n, b, msg);
            &&& !(msg.body is RequestInit) ==> n1.node_id == n.node_id && n1.node_ids == n.node_ids
            &&& !(msg.body is RequestTopology) ==> b1.neighbors == b.neighbors
            &&& !(msg.body is RequestBroadcast) ==> b1.messages == b.messages
        }),
{
}

/// A node gossips a broadcast message to each of its neighbours, in order, the first time
/// it sees the message, and never again; either way it records the message and answers
/// the sender with one `broadcast_ok`, and what it had sent before stays as it was.
pub proof fn law_broadcast_gossips_once(n: NodeView, b: BroadcastView, m: MessageView)
    requires
        n.handlers.contains_key("broadcast"@),
        n.handlers["broadcast"@] == HandlerKind::Broadcast,
        m.body is RequestBroadcast,
    ensures
        ({
            let message = m.body->message;
            let (n1, b1, o) = dispatch_next(n, b, m);
            let k = n.outbox.len();
            &&& o == OutcomeView::Handled
            &&& b1.messages == b.messages.insert(message)
            &&& b1.neighbors == b.neighbors
            &&& n1.outbox.subrange(0, k as int) == n.outbox
            &&& b.messages.contains(message) ==> n1.outbox.len() == k + 1
            &&& !b.messages.contains(message) ==> {
                &&& n1.outbox.len() == k + b.neighbors.len() + 1
                &&& forall|i: int|
                    0 <= i < b.neighbors.len() ==> #[trigger] n1.outbox[k + i] == (EnvelopeView {
                        src: n.node_id,
                        dest: b.neighbors[i],
                        body: BodyView::RequestBroadcast { msg_id: None, message },
                    })
            }
            &&& n1.outbox.last().dest == m.src
            &&& n1.outbox.last().body is ResponseBroadcastOk
        }),
{
    assert(wire_type(m.body) == "broadcast"@);
    let (n1, b1, o) = dispatch_next(n, b, m);
    let k = n.outbox.len();
    assert(n1.outbox.subrange(0, k as int) =~= n.outbox);
}

/// Handling the same broadcast message a second time sends nothing but its acknowledgement
/// and leaves the node's set of messages as the first time left it.
pub proof fn law_repeated_broadcast(n: NodeView, b: BroadcastView, m: MessageView)
    requires
        n.handlers.contains_key("broadcast"@),
        n.handlers["broadcast"@] == HandlerKind::Broadcast,
        m.body is RequestBroadcast,
    ensures
        ({
            let (n1, b1, _) = dispatch_next(n, b, m);
            let (n2, b2, _) = dispatch_next(n1, b1, m);
            &&& b2 == b1
            &&& n2.outbox.len() == n1.outbox.len() + 1
            &&& n2.outbox.last().dest == m.src
            &&& n2.outbox.last().body is ResponseBroadcastOk
        }),
{
    assert(wire_type(m.body) == "broadcast"@);
    let message = m.body->message;
    let (n1, b1, _) = dispatch_next(n, b, m);
    assert(b1.messages.contains(message));
    assert(b1.messages.insert(message) =~= b1.messages);
}

/// A node never forgets a message, and never takes back a message that it has sent.
pub proof fn law_monotone(n: NodeView, b: BroadcastView, msg: MessageView)
    ensures
        ({
            let (n1, b1, _) = dispatch_next(n, b, msg);
            &&& b.messages.subset_of(b1.messages)
            &&& n.outbox.len() <= n1.outbox.len()
            &&& n1.outbox.subrange(0, n.outbox.len() as int) == n.outbox
            &&& n1.handlers == n.handlers
        }),
{
    let (n1, b1, _) = dispatch_next(n, b, msg);
    assert(n1.outbox.subrange(0, n.outbox.len() as int) =~= n.outbox);
}

/// A message that a handler refuses, or that no handler takes, leaves the node as it was.
pub proof fn law_refusal_changes_nothing(n: NodeView, b: BroadcastView, msg: MessageView)
    ensures
        ({
            let (n1, b1, o) = dispatch_next(n, b, msg);
            o != OutcomeView::Handled ==> n1 == n && b1 == b
        }),
{
}

/// `reply` is the answer to the request `req`: of the matching type, naming its id.
pub open spec fn answers(reply: BodyView, req: BodyView) -> bool {
    match req {
        BodyView::RequestInit { msg_id, .. } => reply matches BodyView::ResponseInitOk {
            in_reply_to,
            ..
        } && in_reply_to == msg_id,
        BodyView::RequestEcho { msg_id, .. } => reply matches BodyView::ResponseEchoOk {
            in_reply_to,
            ..
        } && in_reply_to == msg_id,
        BodyView::RequestTopology { msg_id, .. } => reply matches BodyView::ResponseTopologyOk {
            in_reply_to,
            ..
        } && in_reply_to == msg_id,
        BodyView::RequestBroadcast { msg_id, .. } => reply matches BodyView::ResponseBroadcastOk {
            in_reply_to,
            ..
        } && in_reply_to == msg_id,
        BodyView::RequestRead { msg_id } => reply matches BodyView::ResponseReadOk {
            in_reply_to,
            ..
        } && in_reply_to == msg_id,
        _ => false,
    }
}

/// Every request that a handler takes is answered, to its sender and naming its id, except
/// an `echo` addressed to another node, which is left unanswered.
pub proof fn law_requests_are_answered(n: NodeView, b: BroadcastView, msg: MessageView)
    ensures
        ({
            let (n1, b1, o) = dispatch_next(n, b, msg);
            o == OutcomeView::Handled && !(msg.body is RequestEcho && n.node_id != Some(msg.dest))
                ==> {
                &&& n1.outbox.len() > n.outbox.len()
                &&& n1.outbox.last().dest == msg.src
                &&& n1.outbox.last().src == n1.node_id
                &&& answers(n1.outbox.last().body, msg.body)
            }
        }),
{
}

/// The id that a body carries, if any.
pub open spec fn body_msg_id(body: BodyView) -> Option<u32> {
    match body {
        BodyView::RequestInit { msg_id, .. } => Some(msg_id),
        BodyView::RequestEcho { msg_id, .. } => Some(msg_id),
        BodyView::RequestTopology { msg_id, .. } => Some(msg_id),
        BodyView::RequestBroadcast { msg_id, .. } => msg_id,
        BodyView::RequestRead { msg_id } => Some(msg_id),
        BodyView::ResponseInitOk { msg_id, .. } => Some(msg_id),
        BodyView::ResponseEchoOk { msg_id, .. } => Some(msg_id),
        BodyView::ResponseTopologyOk { msg_id, .. } => Some(msg_id),
        BodyView::ResponseBroadcastOk { msg_id, .. } => msg_id,
        BodyView::ResponseReadOk { msg_id, .. } => Some(msg_id),
    }
}

/// The ids of the messages that a node has sent increase along its outbox and do not
/// exceed its counter, so that the next id it takes is new.
pub open spec fn ids_fresh(n: NodeView) -> bool {
    &&& forall|i: int|
        0 <= i < n.outbox.len() && #[trigger] body_msg_id(n.outbox[i].body) is Some
            ==> body_msg_id(n.outbox[i].body)->0 <= n.next_msg_id
    &&& forall|i: int, j: int|
        0 <= i < j < n.outbox.len() && #[trigger] body_msg_id(n.outbox[i].body) is Some
            && #[trigger] body_msg_id(n.outbox[j].body) is Some ==> body_msg_id(
            n.outbox[i].body,
        )->0 < body_msg_id(n.outbox[j].body)->0
}

/// Every message that a node handles keeps the ids of what it sends fresh: no two of the
/// messages that it sends carry the same id.
pub proof fn law_ids_stay_fresh(n: NodeView, b: BroadcastView, msg: MessageView)
    requires
        ids_fresh(n),
        dispatch_admits(n, msg),
    ensures
        ({
            let (n1, b1, _) = dispatch_next(n, b, msg);
            &&& ids_fresh(n1)
            &&& n.next_msg_id <= n1.next_msg_id <= n.next_msg_id + 1
        }),
{
    let (n1, b1, _) = dispatch_next(n, b, msg);
    let k = n.outbox.len();
    assert(n1.outbox.subrange(0, k as int) =~= n.outbox);
    assert forall|i: int| k <= i < n1.outbox.len() && #[trigger] body_msg_id(n1.outbox[i].body) is Some
        implies i == n1.outbox.len() - 1 && body_msg_id(n1.outbox[i].body)->0 == n1.next_msg_id
        && n.next_msg_id < n1.next_msg_id by {
    }
    assert forall|i: int| 0 <= i < k implies #[trigger] n1.outbox[i] == n.outbox[i] by {
        assert(n1.outbox.subrange(0, k as int)[i] == n1.outbox[i]);
    }
}

/// An echo server that was initialised under a name answers an `echo` addressed to that
/// name with the same text, sent back to its sender.
pub proof fn law_echo_after_init(s: EchoServerView, init: MessageView, echo: MessageView)
    requires
        init.body matches BodyView::RequestInit { node_id, .. } && echo.dest == node_id,
        echo.body is RequestEcho,
    ensures
        ({
            let (s1, _) = echo_server_next(s, init);
            let (s2, r) = echo_server_next(s1, echo);
            &&& r matches EchoReplyView::Respond(reply)
            &&& reply.dest == echo.src
            &&& reply.src == echo.dest
            &&& reply.body matches BodyView::ResponseEchoOk { echo: text, .. }
            &&& text == echo.body->RequestEcho_echo
        }),
{
}

/// `init` gives the node the id and the node list of the request, and its reply, sent back
/// to the request's sender, names that id and lists every id of the request, in order.
pub proof fn law_init_reply(n: NodeView, req: MessageView)
    requires
        req.body is RequestInit,
    ensures
        ({
            let (n1, r) = init_next(n, req);
            let (msg_id, node_id, node_ids) = (
                req.body->RequestInit_msg_id,
                req.body->RequestInit_node_id,
                req.body->RequestInit_node_ids,
            );
            &&& r == Ok::<(), Seq<char>>(())
            &&& n1.node_id == Some(node_id)
            &&& n1.node_ids.len() == node_ids.len()
            &&& forall|i: int| 0 <= i < node_ids.len() ==> #[trigger] n1.node_ids[i] == Some(node_ids[i])
            &&& n1.outbox.len() == n.outbox.len() + 1
            &&& n1.outbox.last().dest == req.src
            &&& n1.outbox.last().body matches BodyView::ResponseInitOk {
                node_id: reply_id,
                node_ids: reply_ids,
                in_reply_to,
                ..
            }
            &&& reply_id == node_id
            &&& reply_ids == node_ids
            &&& in_reply_to == msg_id
        }),
{
}

/// An `echo` addressed to the node is answered to its sender with the request's text,
/// unchanged, naming the request's id.
pub proof fn law_echo_reply(n: NodeView, req: MessageView)
    requires
        req.body is RequestEcho,
        n.node_id == Some(req.dest),
    ensures
        ({
            let (n1, r) = echo_next(n, req);
            &&& r == Ok::<(), Seq<char>>(())
            &&& n1.outbox.len() == n.outbox.len() + 1
            &&& n1.outbox.last().dest == req.src
            &&& n1.outbox.last().body matches BodyView::ResponseEchoOk { echo, in_reply_to, .. }
            &&& echo == req.body->RequestEcho_echo
            &&& in_reply_to == req.body->RequestEcho_msg_id
        }),
{
}

/// An `echo` addressed to another node changes nothing and sends nothing.
pub proof fn law_echo_elsewhere(n: NodeView, req: MessageView)
    requires
        req.body is RequestEcho,
        n.node_id != Some(req.dest),
    ensures
        echo_next(n, req) == (n, Ok::<(), Seq<char>>(())),
{
}

/// A `topology` that names an initialised node gives it exactly the list of its entry as
/// neighbours, whatever its neighbours were before; one that does not name it leaves them.
pub proof fn law_topology_sets_neighbors(n: NodeView, b: BroadcastView, req: MessageView, i: int)
    requires
        req.body is RequestTopology,
        distinct_names(req.body->topology),
        0 <= i < req.body->topology.len(),
        n.node_id == Some(req.body->topology[i].0),
    ensures
        ({
            let (n1, b1, r) = topology_next(n, b, req);
            &&& r == Ok::<(), Seq<char>>(())
            &&& b1.neighbors == req.body->topology[i].1
            &&& b1.messages == b.messages
            &&& n1.outbox.last().dest == req.src
            &&& n1.outbox.last().body is ResponseTopologyOk
        }),
{
    lemma_neighbors_of_entry(req.body->topology, i);
}

/// The stand-alone echo server answers `init` from the addressee back to the sender, naming
/// the request's id and node id and listing every id of the request, in order; and it then
/// answers an `echo` addressed to that node id with the request's text, unchanged.
pub proof fn law_echo_server_replies(s: EchoServerView, init: MessageView, echo: MessageView)
    requires
        init.body is RequestInit,
        echo.body is RequestEcho,
        echo.dest == init.body->RequestInit_node_id,
    ensures
        ({
            let (s1, r1) = echo_server_next(s, init);
            let (s2, r2) = echo_server_next(s1, echo);
            &&& r1 matches EchoReplyView::Respond(reply)
            &&& reply.src == init.dest
            &&& reply.dest == init.src
            &&& reply.body matches BodyView::ResponseInitOk { node_id, node_ids, in_reply_to, .. }
            &&& node_id == init.body->RequestInit_node_id
            &&& node_ids == init.body->RequestInit_node_ids
            &&& in_reply_to == init.body->RequestInit_msg_id
            &&& s1.node_id == Some(init.body->RequestInit_node_id)
            &&& r2 matches EchoReplyView::Respond(answer)
            &&& answer.dest == echo.src
            &&& answer.body matches BodyView::ResponseEchoOk { echo: text, in_reply_to: id, .. }
            &&& text == echo.body->RequestEcho_echo
            &&& id == echo.body->RequestEcho_msg_id
        }),
{
}

} // verus!
