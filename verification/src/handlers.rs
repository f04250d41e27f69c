use vstd::prelude::*;
use std::collections::HashSet;
use vstd::std_specs::iter::IteratorSpec;

use crate::broadcast::{BroadcastContext, BroadcastView};
use crate::message::{BodyView, EnvelopeView, Message, MessageBody, MessageView};
use crate::seal::Sealed;
use crate::node::{sent, HandlerKind, MessageHandler, Node, NodeView};

verus! {

broadcast use {vstd::string::to_string_from_display_ensures_for_str, vstd::std_specs::hash::group_hash_axioms};

// ---------------------------------------------------------------------------------------
// What the handlers do, stated over the mathematical states.
// ---------------------------------------------------------------------------------------

/// The node after it has taken the next message id.
pub open spec fn bump(n: NodeView) -> NodeView {
    NodeView { next_msg_id: (n.next_msg_id + 1) as u32, ..n }
}

/// Whether handling `req` with the handler `kind` takes a new message id.
pub open spec fn increments(kind: HandlerKind, n: NodeView, req: MessageView) -> bool {
    match kind {
        HandlerKind::Init => req.body is RequestInit,
        HandlerKind::Echo => req.body is RequestEcho && n.node_id == Some(req.dest),
        HandlerKind::Topology => req.body is RequestTopology,
        HandlerKind::Broadcast => req.body matches BodyView::RequestBroadcast { msg_id, .. }
            && msg_id is Some,
        HandlerKind::Read => req.body is RequestRead,
    }
}

/// The message counter does not overflow when `kind` handles `req`.
pub open spec fn admits(kind: HandlerKind, n: NodeView, req: MessageView) -> bool {
    increments(kind, n, req) ==> n.next_msg_id < u32::MAX
}

/// The error or success of a handler, as a value.
pub open spec fn result_view(r: Result<(), String>) -> Result<(), Seq<char>> {
    match r {
        Ok(_) => Ok(()),
        Err(e) => Err(e@),
    }
}

/// The ids of a node list that are present, in order.
pub open spec fn present_ids(s: Seq<Option<Seq<char>>>) -> Seq<Seq<char>>
    decreases s.len(),
{
    if s.len() == 0 {
        Seq::empty()
    } else {
        let rest = present_ids(s.drop_last());
        match s.last() {
            Some(id) => rest.push(id),
            None => rest,
        }
    }
}

/// `init`: the node takes its id and the list of all nodes, and answers `init_ok`.
pub open spec fn init_next(n: NodeView, req: MessageView) -> (NodeView, Result<(), Seq<char>>) {
    match req.body {
        BodyView::RequestInit { msg_id, node_id, node_ids } => {
            let n1 = bump(
                NodeView {
                    node_id: Some(node_id),
                    node_ids: node_ids.map_values(|id: Seq<char>| Some(id)),
                    ..n
                },
            );
            (
                sent(
                    n1,
                    req.src,
                    BodyView::ResponseInitOk {
                        msg_id: n1.next_msg_id,
                        node_id,
                        node_ids,
                        in_reply_to: msg_id,
                    },
                ),
                Ok(()),
            )
        },
        _ => (n, Err("Invalid message for InitHandler"@)),
    }
}

/// `echo`: a node answers `echo_ok` with the same text when the message is addressed to it,
/// and stays silent otherwise.
pub open spec fn echo_next(n: NodeView, req: MessageView) -> (NodeView, Result<(), Seq<char>>) {
    match req.body {
        BodyView::RequestEcho { msg_id, echo } => {
            if n.node_id == Some(req.dest) {
                let n1 = bump(n);
                (
                    sent(
                        n1,
                        req.src,
                        BodyView::ResponseEchoOk {
                            msg_id: n1.next_msg_id,
                            in_reply_to: msg_id,
                            echo,
                        },
                    ),
                    Ok(()),
                )
            } else {
                (n, Ok(()))
            }
        },
        _ => (n, Err("Invalid message for EchoHandler"@)),
    }
}

/// The neighbour list of `id` in a topology: that of the first entry for `id`.
pub open spec fn neighbors_of(topology: Seq<(Seq<char>, Seq<Seq<char>>)>, id: Seq<char>) -> Option<
    Seq<Seq<char>>,
>
    decreases topology.len(),
{
    if topology.len() == 0 {
        None
    } else if topology[0].0 == id {
        Some(topology[0].1)
    } else {
        neighbors_of(topology.drop_first(), id)
    }
}

/// No two entries of a topology name the same node, as in a topology read from a JSON object.
pub open spec fn distinct_names(topology: Seq<(Seq<char>, Seq<Seq<char>>)>) -> bool {
    forall|i: int, j: int|
        0 <= i < topology.len() && 0 <= j < topology.len() && i != j ==> #[trigger] topology[i].0
            != #[trigger] topology[j].0
}

/// In a topology whose names are distinct, the neighbour list of a named node is that of its
/// entry, whatever the order of the entries.
pub proof fn lemma_neighbors_of_entry(topology: Seq<(Seq<char>, Seq<Seq<char>>)>, i: int)
    requires
        distinct_names(topology),
        0 <= i < topology.len(),
    ensures
        neighbors_of(topology, topology[i].0) == Some(topology[i].1),
    decreases topology.len(),
{
    if i > 0 {
        let rest = topology.drop_first();
        assert(topology[0].0 != topology[i].0);
        assert(rest[i - 1] == topology[i]);
        assert(distinct_names(rest)) by {
            assert forall|a: int, b: int|
                0 <= a < rest.len() && 0 <= b < rest.len() && a != b implies #[trigger] rest[a].0
                != #[trigger] rest[b].0 by {
                assert(rest[a] == topology[a + 1]);
                assert(rest[b] == topology[b + 1]);
            }
        }
        lemma_neighbors_of_entry(rest, i - 1);
    }
}

/// In a topology whose names are distinct, a node that no entry names has no neighbour list.
pub proof fn lemma_neighbors_of_absent(topology: Seq<(Seq<char>, Seq<Seq<char>>)>, id: Seq<char>)
    requires
        forall|i: int| 0 <= i < topology.len() ==> #[trigger] topology[i].0 != id,
    ensures
        neighbors_of(topology, id) is None,
    decreases topology.len(),
{
    if topology.len() > 0 {
        let rest = topology.drop_first();
        assert forall|i: int| 0 <= i < rest.len() implies #[trigger] rest[i].0 != id by {
            assert(rest[i] == topology[i + 1]);
        }
        lemma_neighbors_of_absent(rest, id);
    }
}

/// `topology`: an initialised node that is named in the topology takes its neighbours from
/// it; every node answers `topology_ok`.
pub open spec fn topology_next(n: NodeView, b: BroadcastView, req: MessageView) -> (
    NodeView,
    BroadcastView,
    Result<(), Seq<char>>,
) {
    match req.body {
        BodyView::RequestTopology { msg_id, topology } => {
            let b1 = match n.node_id {
                Some(id) => match neighbors_of(topology, id) {
                    Some(ns) => BroadcastView { neighbors: ns, ..b },
                    None => b,
                },
                None => b,
            };
            let n1 = bump(n);
            (
                sent(
                    n1,
                    req.src,
                    BodyView::ResponseTopologyOk { msg_id: n1.next_msg_id, in_reply_to: msg_id },
                ),
                b1,
                Ok(()),
            )
        },
        _ => (n, b, Err("Invalid message for TopologyHandler"@)),
    }
}

/// The node after it has gossiped `message` to each of `dests`, in order.
pub open spec fn gossiped(n: NodeView, dests: Seq<Seq<char>>, message: u32) -> NodeView {
    NodeView {
        outbox: n.outbox + dests.map_values(
            |d: Seq<char>|
                EnvelopeView {
                    src: n.node_id,
                    dest: d,
                    body: BodyView::RequestBroadcast { msg_id: None, message },
                },
        ),
        ..n
    }
}

/// `broadcast`: the node records the message; the first time it sees it, it gossips it to
/// each neighbour (without a message id); it always answers `broadcast_ok`, with a new id
/// when the request had one.
pub open spec fn broadcast_next(n: NodeView, b: BroadcastView, req: MessageView) -> (
    NodeView,
    BroadcastView,
    Result<(), Seq<char>>,
) {
    match req.body {
        BodyView::RequestBroadcast { msg_id, message } => {
            let b1 = BroadcastView { messages: b.messages.insert(message), ..b };
            let n1 = if b.messages.contains(message) {
                n
            } else {
                gossiped(n, b.neighbors, message)
            };
            let n2 = if msg_id is Some {
                bump(n1)
            } else {
                n1
            };
            let reply_id = if msg_id is Some {
                Some(n2.next_msg_id)
            } else {
                None
            };
            (
                sent(
                    n2,
                    req.src,
                    BodyView::ResponseBroadcastOk { msg_id: reply_id, in_reply_to: msg_id },
                ),
                b1,
                Ok(()),
            )
        },
        _ => (n, b, Err("Invalid message for BroadcastHandler"@)),
    }
}

/// Every element is smaller than every later one.
pub open spec fn strictly_increasing(s: Seq<u32>) -> bool {
    forall|i: int, j: int| 0 <= i < j < s.len() ==> s[i] < s[j]
}

/// The elements of a finite set, in increasing order.
pub open spec fn sorted_elements(s: Set<u32>) -> Seq<u32> {
    choose|q: Seq<u32>| strictly_increasing(q) && q.to_set() == s
}

/// `read`: the node answers `read_ok` with every message that it has seen, in increasing order.
pub open spec fn read_next(n: NodeView, b: BroadcastView, req: MessageView) -> (
    NodeView,
    BroadcastView,
    Result<(), Seq<char>>,
) {
    match req.body {
        BodyView::RequestRead { msg_id } => {
            let n1 = bump(n);
            (
                sent(
                    n1,
                    req.src,
                    BodyView::ResponseReadOk {
                        msg_id: n1.next_msg_id,
                        in_reply_to: msg_id,
                        messages: sorted_elements(b.messages),
                    },
                ),
                b,
                Ok(()),
            )
        },
        _ => (n, b, Err("Invalid message for ReadHandler"@)),
    }
}

/// What the handler `kind` does with `req` on a broadcast node.
pub open spec fn handle_next(kind: HandlerKind, n: NodeView, b: BroadcastView, req: MessageView) -> (
    NodeView,
    BroadcastView,
    Result<(), Seq<char>>,
) {
    match kind {
        HandlerKind::Init => {
            let (n1, r) = init_next(n, req);
            (n1, b, r)
        },
        HandlerKind::Echo => {
            let (n1, r) = echo_next(n, req);
            (n1, b, r)
        },
        HandlerKind::Topology => topology_next(n, b, req),
        HandlerKind::Broadcast => broadcast_next(n, b, req),
        HandlerKind::Read => read_next(n, b, req),
    }
}

// ---------------------------------------------------------------------------------------
// Lemmas.
// ---------------------------------------------------------------------------------------

/// The present ids of a list in which every id is present are the ids themselves.
pub proof fn lemma_present_ids_of_wrapped(ids: Seq<Seq<char>>)
    ensures
        present_ids(ids.map_values(|id: Seq<char>| Some(id))) == ids,
    decreases ids.len(),
{
    let w = ids.map_values(|id: Seq<char>| Some(id));
    if ids.len() > 0 {
        lemma_present_ids_of_wrapped(ids.drop_last());
        assert(w.drop_last() =~= ids.drop_last().map_values(|id: Seq<char>| Some(id)));
        assert(ids.drop_last().push(ids.last()) =~= ids);
    } else {
        assert(ids =~= Seq::<Seq<char>>::empty());
    }
}

/// Two strictly increasing sequences with the same elements are equal.
pub proof fn lemma_sorted_unique(a: Seq<u32>, b: Seq<u32>)
    requires
        strictly_increasing(a),
        strictly_increasing(b),
        a.to_set() == b.to_set(),
    ensures
        a == b,
    decreases a.len(),
{
    if a.len() == 0 {
        if b.len() > 0 {
            assert(b.to_set().contains(b[0]));
            assert(a.contains(b[0]));
        }
        assert(a =~= b);
    } else if b.len() == 0 {
        assert(a.to_set().contains(a[0]));
        assert(b.contains(a[0]));
    } else {
        assert(a.to_set().contains(a[0]));
        assert(b.contains(a[0]));
        let j = choose|j: int| 0 <= j < b.len() && b[j] == a[0];
        assert(b[0] <= a[0]);
        assert(b.to_set().contains(b[0]));
        assert(a.contains(b[0]));
        let k = choose|k: int| 0 <= k < a.len() && a[k] == b[0];
        assert(a[0] <= b[0]);
        let a1 = a.drop_first();
        let b1 = b.drop_first();
        assert forall|x: u32| a1.to_set().contains(x) <==> b1.to_set().contains(x) by {
            if a1.contains(x) {
                let i = choose|i: int| 0 <= i < a1.len() && a1[i] == x;
                assert(a[i + 1] == x);
                assert(a.to_set().contains(x));
                assert(b.contains(x));
                let m = choose|m: int| 0 <= m < b.len() && b[m] == x;
                assert(m != 0);
                assert(b1[m - 1] == x);
            }
            if b1.contains(x) {
                let i = choose|i: int| 0 <= i < b1.len() && b1[i] == x;
                assert(b[i + 1] == x);
                assert(b.to_set().contains(x));
                assert(a.contains(x));
                let m = choose|m: int| 0 <= m < a.len() && a[m] == x;
                assert(m != 0);
                assert(a1[m - 1] == x);
            }
        }
        assert(a1.to_set() =~= b1.to_set());
        lemma_sorted_unique(a1, b1);
        assert(a =~= b) by {
            assert forall|i: int| 0 <= i < a.len() implies a[i] == b[i] by {
                if i > 0 {
                    assert(a[i] == a1[i - 1]);
                    assert(b[i] == b1[i - 1]);
                }
            }
        }
    }
}

/// Appending an element adds it to the sequence's set.
pub proof fn lemma_push_to_set(s: Seq<u32>, x: u32)
    ensures
        s.push(x).to_set() == s.to_set().insert(x),
{
    let t = s.push(x);
    assert forall|y: u32| t.to_set().contains(y) <==> s.to_set().insert(x).contains(y) by {
        if t.contains(y) && y != x {
            let i = choose|i: int| 0 <= i < t.len() && t[i] == y;
            assert(s[i] == y);
        }
        if s.contains(y) {
            let i = choose|i: int| 0 <= i < s.len() && s[i] == y;
            assert(t[i] == y);
        }
        if y == x {
            assert(t[s.len() as int] == x);
        }
    }
    assert(t.to_set() =~= s.to_set().insert(x));
}

/// Every finite set has its elements in increasing order.
pub proof fn lemma_sorted_elements_exist(s: Set<u32>)
    requires
        s.finite(),
    ensures
        strictly_increasing(sorted_elements(s)),
        sorted_elements(s).to_set() == s,
    decreases s.len(),
{
    if s.len() == 0 {
        let q = Seq::<u32>::empty();
        assert(q.to_set() =~= s);
        assert(strictly_increasing(q));
    } else {
        let leq = |a: u32, b: u32| a <= b;
        assert(vstd::relations::total_ordering(leq));
        s.find_unique_maximal_ensures(leq);
        let m = s.find_unique_maximal(leq);
        s.lemma_maximal_equivalent_greatest(leq, m);
        let r = s.remove(m);
        lemma_sorted_elements_exist(r);
        let q0 = sorted_elements(r);
        let q = q0.push(m);
        assert forall|i: int| 0 <= i < q0.len() implies q0[i] < m by {
            assert(q0.to_set().contains(q0[i]));
            assert(leq(q0[i], m));
        }
        assert(strictly_increasing(q)) by {
            assert forall|i: int, j: int| 0 <= i < j < q.len() implies q[i] < q[j] by {
                if j == q0.len() {
                    assert(q0[i] < m);
                }
            }
        }
        lemma_push_to_set(q0, m);
        assert(r.insert(m) =~= s);
        assert(strictly_increasing(q) && q.to_set() == s);
    }
}

/// A strictly increasing sequence of a set's elements is its sorted elements.
pub proof fn lemma_sorted_elements(q: Seq<u32>, s: Set<u32>)
    requires
        strictly_increasing(q),
        q.to_set() == s,
    ensures
        sorted_elements(s) == q,
{
    let r = sorted_elements(s);
    assert(strictly_increasing(r) && r.to_set() == s);
    lemma_sorted_unique(r, q);
}

// ---------------------------------------------------------------------------------------
// Helpers.
// ---------------------------------------------------------------------------------------

/// A copy of a list of strings.
pub(crate) fn clone_strings(v: &Vec<String>) -> (r: Vec<String>)
    ensures
        r.deep_view() == v.deep_view(),
{
    let mut r: Vec<String> = Vec::new();
    let n = v.len();
    let mut i: usize = 0;
    while i < n
        invariant
            n == v.len(),
            i <= n,
            r.deep_view() == v.deep_view().take(i as int),
        decreases n - i,
    {
        let ghost prev = r.deep_view();
        let s = v[i].clone();
        r.push(s);
        assert(r.deep_view() =~= prev.push(v.deep_view()[i as int]));
        assert(r.deep_view() =~= v.deep_view().take(i + 1));
        i = i + 1;
    }
    assert(v.deep_view().take(n as int) =~= v.deep_view());
    r
}

/// Every id of the list, as a present id.
pub(crate) fn wrap_ids(v: &Vec<String>) -> (r: Vec<Option<String>>)
    ensures
        r.deep_view() == v.deep_view().map_values(|id: Seq<char>| Some(id)),
{
    let mut r: Vec<Option<String>> = Vec::new();
    let n = v.len();
    let mut i: usize = 0;
    while i < n
        invariant
            n == v.len(),
            i <= n,
            r.deep_view() == v.deep_view().take(i as int).map_values(|id: Seq<char>| Some(id)),
        decreases n - i,
    {
        let ghost prev = r.deep_view();
        let s = v[i].clone();
        r.push(Some(s));
        assert(r.deep_view() =~= prev.push(Some(v.deep_view()[i as int])));
        assert(r.deep_view() =~= v.deep_view().take(i + 1).map_values(|id: Seq<char>| Some(id)));
        i = i + 1;
    }
    assert(v.deep_view().take(n as int) =~= v.deep_view());
    r
}

/// The present ids of a node list, in order.
pub(crate) fn flatten_ids(v: &Vec<Option<String>>) -> (r: Vec<String>)
    ensures
        r.deep_view() == present_ids(v.deep_view()),
{
    let mut r: Vec<String> = Vec::new();
    let n = v.len();
    let mut i: usize = 0;
    while i < n
        invariant
            n == v.len(),
            i <= n,
            r.deep_view() == present_ids(v.deep_view().take(i as int)),
        decreases n - i,
    {
        assert(v.deep_view().take(i + 1).drop_last() =~= v.deep_view().take(i as int));
        match &v[i] {
            Some(id) => {
                r.push(id.clone());
                assert(r.deep_view() =~= present_ids(v.deep_view().take(i + 1)));
            },
            None => {},
        }
        i = i + 1;
    }
    assert(v.deep_view().take(n as int) =~= v.deep_view());
    r
}

/// The index of the first topology entry for `id`.
fn find_entry(topology: &Vec<(String, Vec<String>)>, id: &String) -> (r: Option<usize>)
    ensures
        match r {
            Some(i) => i < topology.len() && neighbors_of(topology.deep_view(), id@) == Some(
                topology@[i as int].1.deep_view(),
            ),
            None => neighbors_of(topology.deep_view(), id@) is None,
        },
{
    let ghost t = topology.deep_view();
    let n = topology.len();
    let mut i: usize = 0;
    assert(t.skip(0) =~= t);
    while i < n
        invariant
            n == topology.len(),
            t == topology.deep_view(),
            i <= n,
            neighbors_of(t, id@) == neighbors_of(t.skip(i as int), id@),
        decreases n - i,
    {
        assert(t.skip(i as int)[0] == t[i as int]);
        if topology[i].0 == *id {
            return Some(i);
        }
        assert(t.skip(i as int).drop_first() =~= t.skip(i + 1));
        i = i + 1;
    }
    None
}

/// The messages of a set in increasing order.
pub fn sorted_messages(messages: &HashSet<u32>) -> (r: Vec<u32>)
    ensures
        strictly_increasing(r@),
        r@.to_set() == messages@,
        r@ == sorted_elements(messages@),
        messages@.finite(),
{
    let mut v: Vec<u32> = Vec::new();
    let iter = messages.iter();
    let ghost all = vstd::std_specs::hash::spec_hash_keys_iter(messages).remaining().unref();
    proof {
        assert(iter == vstd::std_specs::hash::spec_hash_keys_iter(messages));
    }
    for x in it: iter
        invariant
            it.seq().unref() == all,
            all.to_set() == messages@,
            strictly_increasing(v@),
            v@.to_set() == all.take(it.index()).to_set(),
        ensures
            strictly_increasing(v@),
            v@.to_set() == all.take(all.len() as int).to_set(),
    {
        let x: u32 = *x;
        let ghost before = v@;
        let n = v.len();
        let mut p: usize = 0;
        while p < n && v[p] < x
            invariant
                n == v.len(),
                v@ == before,
                p <= n,
                forall|j: int| 0 <= j < p ==> v@[j] < x,
            decreases n - p,
        {
            p = p + 1;
        }
        let ghost k = it.index();
        proof {
            assert(all.take(k + 1) =~= all.take(k).push(x));
            lemma_push_to_set(all.take(k), x);
        }
        if p < n && v[p] == x {
            proof {
                assert(before.to_set().insert(x) =~= before.to_set()) by {
                    assert(before[p as int] == x);
                }
            }
        } else {
            v.insert(p, x);
            proof {
                assert(v@ == before.insert(p as int, x));
                assert forall|a: int, b: int| 0 <= a < b < v@.len() implies v@[a] < v@[b] by {
                    if p < n {
                        assert(before[p as int] > x);
                    }
                    if b < p {
                    } else if b == p {
                    } else if a < p {
                        assert(v@[b] == before[b - 1]);
                        if p < n {
                            assert(before[p as int] <= before[b - 1]);
                        }
                    } else if a == p {
                        assert(v@[b] == before[b - 1]);
                        assert(p < n);
                        assert(before[p as int] <= before[b - 1]);
                    } else {
                        assert(v@[a] == before[a - 1]);
                        assert(v@[b] == before[b - 1]);
                    }
                }
                assert forall|y: u32| v@.to_set().contains(y) <==> before.to_set().insert(x).contains(y) by {
                    if v@.contains(y) {
                        let i = choose|i: int| 0 <= i < v@.len() && v@[i] == y;
                        if y != x {
                            if i < p {
                                assert(before[i] == y);
                            } else {
                                assert(before[i - 1] == y);
                            }
                        }
                    }
                    if before.contains(y) {
                        let i = choose|i: int| 0 <= i < before.len() && before[i] == y;
                        if i < p {
                            assert(v@[i] == y);
                        } else {
                            assert(v@[i + 1] == y);
                        }
                    }
                    if y == x {
                        assert(v@[p as int] == x);
                    }
                }
                assert(v@.to_set() =~= before.to_set().insert(x));
            }
        }
    }
    proof {
        assert(all.take(all.len() as int) =~= all);
        lemma_sorted_elements(v@, messages@);
        vstd::seq_lib::seq_to_set_is_finite(v@);
    }
    v
}

// ---------------------------------------------------------------------------------------
// The handlers.
// ---------------------------------------------------------------------------------------

impl<C> Node<C> {
    /// Handles `init`; any other message is refused.
    pub fn handle_init(&mut self, req: Message) -> (res: Result<(), String>)
        requires
            admits(HandlerKind::Init, old(self)@, req@),
        ensures
            (final(self)@, result_view(res)) == init_next(old(self)@, req@),
            final(self).ctx == old(self).ctx,
    {
        let Message { src, dest: _, body } = req;
        match body {
            MessageBody::RequestInit { msg_id, node_id, node_ids } => {
                self.node_id = Some(node_id.clone());
                self.node_ids = wrap_ids(&node_ids);
                self.next_msg_id = self.next_msg_id + 1;
                let reply_ids = flatten_ids(&self.node_ids);
                proof {
                    lemma_present_ids_of_wrapped(node_ids.deep_view());
                }
                let my_id = node_id.clone();
                self.send(
                    src,
                    MessageBody::ResponseInitOk {
                        in_reply_to: msg_id,
                        msg_id: self.next_msg_id,
                        node_id: my_id,
                        node_ids: reply_ids,
                    },
                );
                Ok(())
            },
            _ => Err("Invalid message for InitHandler".to_string()),
        }
    }

    /// Handles `echo` addressed to this node; any other message is refused.
    pub fn handle_echo(&mut self, req: Message) -> (res: Result<(), String>)
        requires
            admits(HandlerKind::Echo, old(self)@, req@),
        ensures
            (final(self)@, result_view(res)) == echo_next(old(self)@, req@),
            final(self).ctx == old(self).ctx,
    {
        let Message { src, dest, body } = req;
        match body {
            MessageBody::RequestEcho { msg_id, echo } => {
                let is_mine = match &self.node_id {
                    Some(id) => *id == dest,
                    None => false,
                };
                if is_mine {
                    self.next_msg_id = self.next_msg_id + 1;
                    self.send(
                        src,
                        MessageBody::ResponseEchoOk {
                            in_reply_to: msg_id,
                            echo,
                            msg_id: self.next_msg_id,
                        },
                    );
                }
                Ok(())
            },
            _ => Err("Invalid message for EchoHandler".to_string()),
        }
    }
}

impl Node<BroadcastContext> {
    /// Handles `topology`; any other message is refused.
    pub fn handle_topology(&mut self, req: Message) -> (res: Result<(), String>)
        requires
            admits(HandlerKind::Topology, old(self)@, req@),
        ensures
            (final(self)@, final(self).ctx@, result_view(res)) == topology_next(
                old(self)@,
                old(self).ctx@,
                req@,
            ),
    {
        let Message { src, dest: _, body } = req;
        match body {
            MessageBody::RequestTopology { msg_id, topology } => {
                match &self.node_id {
                    Some(id) => {
                        match find_entry(&topology, id) {
                            Some(i) => {
                                self.ctx.neighbors = clone_strings(&topology[i].1);
                            },
                            None => {},
                        }
                    },
                    None => {},
                }
                self.next_msg_id = self.next_msg_id + 1;
                self.send(
                    src,
                    MessageBody::ResponseTopologyOk { msg_id: self.next_msg_id, in_reply_to: msg_id },
                );
                Ok(())
            },
            _ => Err("Invalid message for TopologyHandler".to_string()),
        }
    }

    /// Handles `broadcast`; any other message is refused.
    pub fn handle_broadcast(&mut self, req: Message) -> (res: Result<(), String>)
        requires
            admits(HandlerKind::Broadcast, old(self)@, req@),
        ensures
            (final(self)@, final(self).ctx@, result_view(res)) == broadcast_next(
                old(self)@,
                old(self).ctx@,
                req@,
            ),
    {
        let Message { src, dest: _, body } = req;
        match body {
            MessageBody::RequestBroadcast { msg_id, message } => {
                let is_new = self.ctx.messages.insert(message);
                if is_new {
                    let neighbors = clone_strings(&self.ctx.neighbors);
                    let ghost start = self@;
                    let ghost dests = neighbors.deep_view();
                    let n = neighbors.len();
                    let mut i: usize = 0;
                    assert(self@ == gossiped(start, dests.take(0), message)) by {
                        assert(start.outbox + dests.take(0).map_values(
                            |d: Seq<char>|
                                EnvelopeView {
                                    src: start.node_id,
                                    dest: d,
                                    body: BodyView::RequestBroadcast { msg_id: None, message },
                                },
                        ) =~= start.outbox);
                    }
                    while i < n
                        invariant
                            n == neighbors.len(),
                            dests == neighbors.deep_view(),
                            i <= n,
                            self@ == gossiped(start, dests.take(i as int), message),
                            self.ctx.neighbors.deep_view() == old(self).ctx.neighbors.deep_view(),
                            self.ctx.messages@ == old(self).ctx.messages@.insert(message),
                            start.node_id == old(self)@.node_id,
                        decreases n - i,
                    {
                        let body = MessageBody::RequestBroadcast { msg_id: None, message };
                        self.send(neighbors[i].clone(), body);
                        assert(gossiped(start, dests.take(i + 1), message).outbox =~= gossiped(
                            start,
                            dests.take(i as int),
                            message,
                        ).outbox.push(
                            EnvelopeView {
                                src: start.node_id,
                                dest: dests[i as int],
                                body: BodyView::RequestBroadcast { msg_id: None, message },
                            },
                        ));
                        i = i + 1;
                    }
                    assert(dests.take(n as int) =~= dests);
                }
                let reply_msg_id = if msg_id.is_some() {
                    self.next_msg_id = self.next_msg_id + 1;
                    Some(self.next_msg_id)
                } else {
                    None
                };
                self.send(
                    src,
                    MessageBody::ResponseBroadcastOk { msg_id: reply_msg_id, in_reply_to: msg_id },
                );
                Ok(())
            },
            _ => Err("Invalid message for BroadcastHandler".to_string()),
        }
    }

    /// Handles `read`; any other message is refused.
    pub fn handle_read(&mut self, req: Message) -> (res: Result<(), String>)
        requires
            admits(HandlerKind::Read, old(self)@, req@),
        ensures
            (final(self)@, final(self).ctx@, result_view(res)) == read_next(
                old(self)@,
                old(self).ctx@,
                req@,
            ),
            req@.body is RequestRead ==> {
                &&& old(self).ctx@.messages.finite()
                &&& final(self)@.outbox.last().body matches BodyView::ResponseReadOk { messages, .. }
                &&& strictly_increasing(messages)
                &&& messages.to_set() == old(self).ctx@.messages
            },
    {
        let Message { src, dest: _, body } = req;
        match body {
            MessageBody::RequestRead { msg_id } => {
                self.next_msg_id = self.next_msg_id + 1;
                let messages_vec = sorted_messages(&self.ctx.messages);
                self.send(
                    src,
                    MessageBody::ResponseReadOk {
                        msg_id: self.next_msg_id,
                        in_reply_to: msg_id,
                        messages: messages_vec,
                    },
                );
                Ok(())
            },
            _ => Err("Invalid message for ReadHandler".to_string()),
        }
    }
}

/// Answers `init`.
pub struct InitHandler;

/// Answers `echo`.
pub struct EchoHandler;

/// Takes the neighbours from `topology`.
pub struct TopologyHandler;

/// Records and gossips `broadcast` messages.
pub struct BroadcastHandler;

/// Answers `read` with the messages seen.
pub struct ReadHandler;

impl Sealed for InitHandler {}

impl Sealed for EchoHandler {}

impl Sealed for TopologyHandler {}

impl Sealed for BroadcastHandler {}

impl Sealed for ReadHandler {}

impl<C> MessageHandler<C> for InitHandler {
    open spec fn spec_kind(&self) -> HandlerKind {
        HandlerKind::Init
    }

    fn kind(&self) -> (k: HandlerKind) {
        HandlerKind::Init
    }

    fn handle(&self, node: &mut Node<C>, req: Message) -> (res: Result<(), String>)
        ensures
            (final(node)@, result_view(res)) == init_next(old(node)@, req@),
            final(node).ctx == old(node).ctx,
    {
        node.handle_init(req)
    }
}

impl<C> MessageHandler<C> for EchoHandler {
    open spec fn spec_kind(&self) -> HandlerKind {
        HandlerKind::Echo
    }

    fn kind(&self) -> (k: HandlerKind) {
        HandlerKind::Echo
    }

    fn handle(&self, node: &mut Node<C>, req: Message) -> (res: Result<(), String>)
        ensures
            (final(node)@, result_view(res)) == echo_next(old(node)@, req@),
            final(node).ctx == old(node).ctx,
    {
        node.handle_echo(req)
    }
}

impl MessageHandler<BroadcastContext> for TopologyHandler {
    open spec fn spec_kind(&self) -> HandlerKind {
        HandlerKind::Topology
    }

    fn kind(&self) -> (k: HandlerKind) {
        HandlerKind::Topology
    }

    fn handle(&self, node: &mut Node<BroadcastContext>, req: Message) -> (res: Result<(), String>)
        ensures
            (final(node)@, final(node).ctx@, result_view(res)) == topology_next(
                old(node)@,
                old(node).ctx@,
                req@,
            ),
    {
        node.handle_topology(req)
    }
}

impl MessageHandler<BroadcastContext> for BroadcastHandler {
    open spec fn spec_kind(&self) -> HandlerKind {
        HandlerKind::Broadcast
    }

    fn kind(&self) -> (k: HandlerKind) {
        HandlerKind::Broadcast
    }

    fn handle(&self, node: &mut Node<BroadcastContext>, req: Message) -> (res: Result<(), String>)
        ensures
            (final(node)@, final(node).ctx@, result_view(res)) == broadcast_next(
                old(node)@,
                old(node).ctx@,
                req@,
            ),
    {
        node.handle_broadcast(req)
    }
}

impl MessageHandler<BroadcastContext> for ReadHandler {
    open spec fn spec_kind(&self) -> HandlerKind {
        HandlerKind::Read
    }

    fn kind(&self) -> (k: HandlerKind) {
        HandlerKind::Read
    }

    fn handle(&self, node: &mut Node<BroadcastContext>, req: Message) -> (res: Result<(), String>)
        ensures
            (final(node)@, final(node).ctx@, result_view(res)) == read_next(
                old(node)@,
                old(node).ctx@,
                req@,
            ),
            req@.body is RequestRead ==> {
                &&& old(node).ctx@.messages.finite()
                &&& final(node)@.outbox.last().body matches BodyView::ResponseReadOk { messages, .. }
                &&& strictly_increasing(messages)
                &&& messages.to_set() == old(node).ctx@.messages
            },
    {
        node.handle_read(req)
    }
}

} // verus!
