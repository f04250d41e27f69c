use vstd::prelude::*;
use std::collections::HashSet;

use crate::handlers::{BroadcastHandler, ReadHandler, TopologyHandler};
use crate::node::{base_handlers, HandlerKind, Node, NodeView};

verus! {

broadcast use vstd::std_specs::hash::group_hash_axioms;

/// What a broadcast node keeps besides its identity: the neighbours that it gossips
/// to, and the set of messages that it has seen.
pub struct BroadcastContext {
    pub neighbors: Vec<String>,
    pub messages: HashSet<u32>,
}

/// The mathematical value of a [`BroadcastContext`].
pub struct BroadcastView {
    pub neighbors: Seq<Seq<char>>,
    pub messages: Set<u32>,
}

impl View for BroadcastContext {
    type V = BroadcastView;

    open spec fn view(&self) -> BroadcastView {
        BroadcastView { neighbors: self.neighbors.deep_view(), messages: self.messages@ }
    }
}

impl BroadcastContext {
    /// No neighbours and no messages.
    pub fn new() -> (c: Self)
        ensures
            c@ == (BroadcastView { neighbors: Seq::empty(), messages: Set::empty() }),
    {
        let c = BroadcastContext { neighbors: Vec::new(), messages: HashSet::new() };
        assert(c@.neighbors =~= Seq::empty());
        c
    }
}

/// The handlers of a broadcast node.
pub open spec fn broadcast_handlers() -> Map<Seq<char>, HandlerKind> {
    base_handlers()
        .insert("topology"@, HandlerKind::Topology)
        .insert("broadcast"@, HandlerKind::Broadcast)
        .insert("read"@, HandlerKind::Read)
}

/// A node of the broadcast workload.
pub struct Broadcast {
    pub node: Node<BroadcastContext>,
}

impl Broadcast {
    /// A fresh node with the `init`, `echo`, `topology`, `broadcast` and `read` handlers.
    pub fn new() -> (b: Self)
        ensures
            b.node@ == (NodeView {
                node_id: None,
                next_msg_id: 0,
                node_ids: Seq::empty(),
                handlers: broadcast_handlers(),
                outbox: Seq::empty(),
            }),
            b.node.ctx@ == (BroadcastView { neighbors: Seq::empty(), messages: Set::empty() }),
    {
        let ctx = BroadcastContext::new();
        let mut node = Node::new(ctx);
        node.register_handler("topology", TopologyHandler {});
        node.register_handler("broadcast", BroadcastHandler {});
        node.register_handler("read", ReadHandler {});
        Broadcast { node }
    }

    /// The context that the node's handlers work on.
    pub fn ctx(&self) -> (c: &BroadcastContext)
        ensures
            c == &self.node.ctx,
    {
        &self.node.ctx
    }
}

} // verus!
