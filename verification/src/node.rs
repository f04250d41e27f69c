use vstd::prelude::*;

use crate::broadcast::{BroadcastContext, BroadcastView};
use crate::seal::Sealed;
use crate::handlers::{
    admits, echo_next, handle_next, increments, init_next, result_view, BroadcastHandler, EchoHandler, InitHandler, ReadHandler,
    TopologyHandler,
};
use crate::message::{
    is_ignored_type, lemma_ignored_iff_response, wire_type, BodyView, Envelope, EnvelopeView,
    Message, MessageBody, MessageView,
};

verus! {

broadcast use vstd::string::to_string_from_display_ensures_for_str;

/// The handlers that a node can run for a message type.
#[derive(Debug, Clone, Copy, PartialEq, Eq, Structural)]
pub enum HandlerKind {
    Init,
    Echo,
    Topology,
    Broadcast,
    Read,
}

/// Which handler runs for which message type: a map keyed by the type's wire name.
pub struct HandlerTable {
    entries: Vec<(String, HandlerKind)>,
}

impl HandlerTable {
    /// No message type is registered twice.
    #[verifier::type_invariant]
    closed spec fn keys_distinct(self) -> bool {
        forall|i: int, j: int|
            0 <= i < self.entries.len() && 0 <= j < self.entries.len() && i != j
                ==> #[trigger] self.entries@[i].0@ != #[trigger] self.entries@[j].0@
    }

    closed spec fn has_key(self, k: Seq<char>) -> bool {
        exists|i: int| 0 <= i < self.entries.len() && #[trigger] self.entries@[i].0@ == k
    }

    closed spec fn index_of(self, k: Seq<char>) -> int {
        choose|i: int| 0 <= i < self.entries.len() && #[trigger] self.entries@[i].0@ == k
    }

    /// An empty table.
    pub fn new() -> (t: Self)
        ensures
            t@ == Map::<Seq<char>, HandlerKind>::empty(),
    {
        let t = HandlerTable { entries: Vec::new() };
        assert(t@ =~= Map::<Seq<char>, HandlerKind>::empty());
        t
    }

    /// Registers `kind` for the type `key`, replacing an earlier registration.
    pub fn insert(&mut self, key: String, kind: HandlerKind)
        ensures
            final(self)@ == old(self)@.insert(key@, kind),
    {
        proof {
            use_type_invariant(&*self);
        }
        let n = self.entries.len();
        let mut i: usize = 0;
        while i < n
            invariant
                n == self.entries.len(),
                i <= n,
                self.keys_distinct(),
                *self == *old(self),
                forall|j: int| 0 <= j < i ==> #[trigger] self.entries@[j].0@ != key@,
            decreases n - i,
        {
            if self.entries[i].0 == key {
                let ghost old_view = self@;
                let ghost old_entries = self.entries@;
                let mut entries = Vec::new();
                std::mem::swap(&mut entries, &mut self.entries);
                entries.set(i, (key, kind));
                proof {
                    assert(entries@ == old_entries.update(i as int, (key, kind)));
                }
                let t = HandlerTable { entries };
                proof {
                    assert(t.entries@[i as int].0@ == key@);
                    assert(t.has_key(key@));
                    assert(t.index_of(key@) == i);
                    assert forall|k: Seq<char>| #[trigger] t.has_key(k) implies old_view.contains_key(k) || k == key@ by {
                        let j = t.index_of(k);
                        if j != i {
                            assert(old_entries[j].0@ == k);
                        }
                    }
                    assert forall|k: Seq<char>| #[trigger] old_view.contains_key(k) implies t.has_key(k) by {
                        let j = choose|j: int| 0 <= j < old_entries.len() && #[trigger] old_entries[j].0@ == k;
                        assert(t.entries@[j].0@ == k || k == key@);
                    }
                    assert forall|k: Seq<char>| #[trigger] t.has_key(k) && k != key@ implies
                        t@[k] == old_view[k] by {
                        let j = t.index_of(k);
                        let j0 = choose|j0: int| 0 <= j0 < old_entries.len() && #[trigger] old_entries[j0].0@ == k;
                        assert(j0 != i);
                        assert(t.entries@[j0].0@ == k);
                    }
                    assert(t@ =~= old_view.insert(key@, kind));
                }
                *self = t;
                return;
            }
            i = i + 1;
        }
        let ghost old_view = self@;
        let ghost old_entries = self.entries@;
        let mut entries = Vec::new();
        std::mem::swap(&mut entries, &mut self.entries);
        entries.push((key, kind));
        let t = HandlerTable { entries };
        proof {
            assert(t.entries@ == old_entries.push((key, kind)));
            assert(t.entries@[n as int].0@ == key@);
            assert(t.has_key(key@));
            assert(t.index_of(key@) == n);
            assert forall|k: Seq<char>| #[trigger] t.has_key(k) implies old_view.contains_key(k) || k == key@ by {
                let j = t.index_of(k);
                if j != n {
                    assert(old_entries[j].0@ == k);
                }
            }
            assert forall|k: Seq<char>| #[trigger] old_view.contains_key(k) implies t.has_key(k) by {
                let j = choose|j: int| 0 <= j < old_entries.len() && #[trigger] old_entries[j].0@ == k;
                assert(t.entries@[j].0@ == k);
            }
            assert forall|k: Seq<char>| #[trigger] t.has_key(k) && k != key@ implies
                t@[k] == old_view[k] by {
                let j0 = choose|j0: int| 0 <= j0 < old_entries.len() && #[trigger] old_entries[j0].0@ == k;
                assert(t.entries@[j0].0@ == k);
            }
            assert(t@ =~= old_view.insert(key@, kind));
        }
        *self = t;
    }

    /// The handler registered for the type `key`, if any.
    pub fn get(&self, key: &String) -> (r: Option<HandlerKind>)
        ensures
            r == (if self@.contains_key(key@) { Some(self@[key@]) } else { None }),
    {
        proof {
            use_type_invariant(self);
        }
        let n = self.entries.len();
        let mut i: usize = 0;
        while i < n
            invariant
                n == self.entries.len(),
                i <= n,
                self.keys_distinct(),
                forall|j: int| 0 <= j < i ==> #[trigger] self.entries@[j].0@ != key@,
            decreases n - i,
        {
            if self.entries[i].0 == *key {
                proof {
                    assert(self.has_key(key@));
                    assert(self.index_of(key@) == i);
                }
                return Some(self.entries[i].1);
            }
            i = i + 1;
        }
        proof {
            assert(!self.has_key(key@));
        }
        None
    }
}

impl View for HandlerTable {
    type V = Map<Seq<char>, HandlerKind>;

    closed spec fn view(&self) -> Map<Seq<char>, HandlerKind> {
        Map::new(|k: Seq<char>| self.has_key(k), |k: Seq<char>| self.entries@[self.index_of(k)].1)
    }
}

/// The state of a Maelstrom node: its identity, its message counter, its handlers,
/// a context of its own, and the messages that it has sent and that are not yet written.
pub struct Node<C> {
    pub node_id: Option<String>,
    pub next_msg_id: u32,
    pub node_ids: Vec<Option<String>>,
    pub handlers: HandlerTable,
    pub ctx: C,
    pub outbox: Vec<Envelope>,
}

/// The mathematical state of a [`Node`], its context aside.
pub struct NodeView {
    pub node_id: Option<Seq<char>>,
    pub next_msg_id: u32,
    pub node_ids: Seq<Option<Seq<char>>>,
    pub handlers: Map<Seq<char>, HandlerKind>,
    pub outbox: Seq<EnvelopeView>,
}

impl<C> View for Node<C> {
    type V = NodeView;

    open spec fn view(&self) -> NodeView {
        NodeView {
            node_id: self.node_id.deep_view(),
            next_msg_id: self.next_msg_id,
            node_ids: self.node_ids.deep_view(),
            handlers: self.handlers@,
            outbox: self.outbox@.map_values(|e: Envelope| e@),
        }
    }
}

/// The node after it has sent `body` to `dest`: the envelope, with the node's id as its
/// source, is appended to the outbox.
pub open spec fn sent(n: NodeView, dest: Seq<char>, body: BodyView) -> NodeView {
    NodeView { outbox: n.outbox.push(EnvelopeView { src: n.node_id, dest, body }), ..n }
}

/// The handlers that every node has from its creation.
pub open spec fn base_handlers() -> Map<Seq<char>, HandlerKind> {
    map!["init"@ => HandlerKind::Init, "echo"@ => HandlerKind::Echo]
}

/// A handler of messages, registered with a node under a message type.
///
/// The trait is sealed: its implementations are the five handlers of this crate, which a
/// node runs by their kind.
pub trait MessageHandler<C>: Sealed {
    /// Which handler this is.
    spec fn spec_kind(&self) -> HandlerKind;

    fn kind(&self) -> (k: HandlerKind)
        ensures
            k == self.spec_kind(),
    ;

    /// Handles `req` on `node`: updates its state and sends its replies.
    fn handle(&self, node: &mut Node<C>, req: Message) -> (res: Result<(), String>)
        requires
            admits(self.spec_kind(), old(node)@, req@),
    ;
}

fn clone_opt_string(s: &Option<String>) -> (r: Option<String>)
    ensures
        r.deep_view() == s.deep_view(),
{
    match s {
        Some(x) => Some(x.clone()),
        None => None,
    }
}

impl<C> Node<C> {
    /// A node that has not been initialised yet, with the `init` and `echo` handlers.
    pub fn new(ctx: C) -> (node: Self)
        ensures
            node@ == (NodeView {
                node_id: None,
                next_msg_id: 0,
                node_ids: Seq::empty(),
                handlers: base_handlers(),
                outbox: Seq::empty(),
            }),
            node.ctx == ctx,
    {
        let mut handlers = HandlerTable::new();
        handlers.insert("init".to_string(), HandlerKind::Init);
        handlers.insert("echo".to_string(), HandlerKind::Echo);
        let node = Node {
            node_id: None,
            next_msg_id: 0,
            node_ids: Vec::new(),
            handlers,
            ctx,
            outbox: Vec::new(),
        };
        assert(node@.node_ids =~= Seq::empty());
        assert(node@.outbox =~= Seq::empty());
        assert(node@.handlers =~= base_handlers());
        node
    }

    /// Registers `handler` for messages of type `msg_type`, replacing an earlier one.
    pub fn register_handler<T: MessageHandler<C>>(&mut self, msg_type: &str, handler: T)
        ensures
            final(self)@ == (NodeView {
                handlers: old(self)@.handlers.insert(msg_type@, handler.spec_kind()),
                ..old(self)@
            }),
            final(self).ctx == old(self).ctx,
    {
        let kind = handler.kind();
        self.handlers.insert(msg_type.to_string(), kind);
    }

    /// Sends `body` to `dest`: the envelope goes to the outbox.
    pub fn send(&mut self, dest: String, body: MessageBody)
        ensures
            final(self)@ == sent(old(self)@, dest@, body@),
            final(self).ctx == old(self).ctx,
    {
        let src = clone_opt_string(&self.node_id);
        let env = Envelope { src, dest, body };
        self.outbox.push(env);
        assert(self@.outbox =~= old(self)@.outbox.push(env@));
    }

    /// Hands out the messages sent so far and empties the outbox.
    pub fn take_outbox(&mut self) -> (sent: Vec<Envelope>)
        ensures
            sent@.map_values(|e: Envelope| e@) == old(self)@.outbox,
            final(self)@ == (NodeView { outbox: Seq::empty(), ..old(self)@ }),
            final(self).ctx == old(self).ctx,
    {
        let mut sent = Vec::new();
        std::mem::swap(&mut sent, &mut self.outbox);
        assert(self@.outbox =~= Seq::empty());
        sent
    }
}

/// What became of a message that a node received.
#[derive(Debug, Clone, PartialEq, Eq)]
pub enum Outcome {
    /// A handler took it and succeeded.
    Handled,
    /// A handler took it and refused it, with this error.
    Failed(String),
    /// No handler is registered for its type, which is not a reply either.
    NoHandler(String),
    /// It is a reply to this node, for which no handler is registered.
    Ignored,
}

pub enum OutcomeView {
    Handled,
    Failed(Seq<char>),
    NoHandler(Seq<char>),
    Ignored,
}

impl View for Outcome {
    type V = OutcomeView;

    open spec fn view(&self) -> OutcomeView {
        match self {
            Outcome::Handled => OutcomeView::Handled,
            Outcome::Failed(e) => OutcomeView::Failed(e@),
            Outcome::NoHandler(t) => OutcomeView::NoHandler(t@),
            Outcome::Ignored => OutcomeView::Ignored,
        }
    }
}

/// What a node with context `C` does with a message: the handler registered for its type
/// runs; without one, a reply is ignored and any other type is reported.
pub open spec fn dispatch_step<C: NodeContext>(n: NodeView, c: <C as View>::V, msg: MessageView) -> (
    NodeView,
    <C as View>::V,
    OutcomeView,
) {
    let t = wire_type(msg.body);
    if n.handlers.contains_key(t) {
        let (n1, c1, r) = C::step(n.handlers[t], n, c, msg);
        (
            n1,
            c1,
            match r {
                Ok(_) => OutcomeView::Handled,
                Err(e) => OutcomeView::Failed(e),
            },
        )
    } else if is_ignored_type(t) {
        (n, c, OutcomeView::Ignored)
    } else {
        (n, c, OutcomeView::NoHandler(t))
    }
}

/// What a broadcast node does with a message.
pub open spec fn dispatch_next(n: NodeView, b: BroadcastView, msg: MessageView) -> (
    NodeView,
    BroadcastView,
    OutcomeView,
) {
    dispatch_step::<BroadcastContext>(n, b, msg)
}

/// The message counter does not overflow when the node handles `msg`.
pub open spec fn dispatch_admits(n: NodeView, msg: MessageView) -> bool {
    let t = wire_type(msg.body);
    n.handlers.contains_key(t) ==> admits(n.handlers[t], n, msg)
}

/// What a node keeps besides its identity, and so which handlers it can run.
///
/// It is implemented by `()`, for a node with the `init` and `echo` handlers only, and by
/// [`BroadcastContext`], for a node of the broadcast workload.
pub trait NodeContext: Sized + View + Sealed {
    /// What the handler `kind` does with `req` on a node with this context.
    spec fn step(kind: HandlerKind, n: NodeView, c: <Self as View>::V, req: MessageView) -> (
        NodeView,
        <Self as View>::V,
        Result<(), Seq<char>>,
    );

    /// Runs the handler `kind` on `req`.
    fn run(kind: HandlerKind, node: &mut Node<Self>, req: Message) -> (res: Result<(), String>)
        requires
            admits(kind, old(node)@, req@),
        ensures
            (final(node)@, final(node).ctx@, result_view(res)) == Self::step(
                kind,
                old(node)@,
                old(node).ctx@,
                req@,
            ),
    ;
}

/// The error of a handler that needs a context that the node does not have.
pub open spec fn no_context_error(kind: HandlerKind) -> Seq<char> {
    match kind {
        HandlerKind::Topology => "TopologyHandler needs a broadcast context"@,
        HandlerKind::Broadcast => "BroadcastHandler needs a broadcast context"@,
        _ => "ReadHandler needs a broadcast context"@,
    }
}

impl Sealed for () {}

impl NodeContext for () {
    open spec fn step(kind: HandlerKind, n: NodeView, c: (), req: MessageView) -> (
        NodeView,
        (),
        Result<(), Seq<char>>,
    ) {
        match kind {
            HandlerKind::Init => {
                let (n1, r) = init_next(n, req);
                (n1, c, r)
            },
            HandlerKind::Echo => {
                let (n1, r) = echo_next(n, req);
                (n1, c, r)
            },
            _ => (n, c, Err(no_context_error(kind))),
        }
    }

    fn run(kind: HandlerKind, node: &mut Node<()>, req: Message) -> (res: Result<(), String>) {
        match kind {
            HandlerKind::Init => InitHandler.handle(node, req),
            HandlerKind::Echo => EchoHandler.handle(node, req),
            HandlerKind::Topology => Err("TopologyHandler needs a broadcast context".to_string()),
            HandlerKind::Broadcast => Err("BroadcastHandler needs a broadcast context".to_string()),
            HandlerKind::Read => Err("ReadHandler needs a broadcast context".to_string()),
        }
    }
}

impl Sealed for BroadcastContext {}

impl NodeContext for BroadcastContext {
    open spec fn step(kind: HandlerKind, n: NodeView, b: BroadcastView, req: MessageView) -> (
        NodeView,
        BroadcastView,
        Result<(), Seq<char>>,
    ) {
        handle_next(kind, n, b, req)
    }

    fn run(kind: HandlerKind, node: &mut Node<BroadcastContext>, req: Message) -> (res: Result<
        (),
        String,
    >) {
        match kind {
            HandlerKind::Init => InitHandler.handle(node, req),
            HandlerKind::Echo => EchoHandler.handle(node, req),
            HandlerKind::Topology => TopologyHandler.handle(node, req),
            HandlerKind::Broadcast => BroadcastHandler.handle(node, req),
            HandlerKind::Read => ReadHandler.handle(node, req),
        }
    }
}

impl<C: NodeContext> Node<C> {
    /// Whether the message counter has room for handling `msg`.
    pub fn admits_message(&self, msg: &Message) -> (r: bool)
        ensures
            r == dispatch_admits(self@, msg@),
    {
        let msg_type = msg.msg_type().to_string();
        match self.handlers.get(&msg_type) {
            Some(kind) => {
                let takes_id = match kind {
                    HandlerKind::Init => matches!(msg.body, MessageBody::RequestInit { .. }),
                    HandlerKind::Echo => match &msg.body {
                        MessageBody::RequestEcho { .. } => match &self.node_id {
                            Some(id) => *id == msg.dest,
                            None => false,
                        },
                        _ => false,
                    },
                    HandlerKind::Topology => matches!(msg.body, MessageBody::RequestTopology { .. }),
                    HandlerKind::Broadcast => match &msg.body {
                        MessageBody::RequestBroadcast { msg_id, .. } => msg_id.is_some(),
                        _ => false,
                    },
                    HandlerKind::Read => matches!(msg.body, MessageBody::RequestRead { .. }),
                };
                assert(takes_id == increments(kind, self@, msg@));
                !takes_id || self.next_msg_id < u32::MAX
            },
            None => true,
        }
    }

    /// Handles `msg` with the handler registered for its type.
    pub fn handle_message(&mut self, msg: Message) -> (out: Outcome)
        requires
            dispatch_admits(old(self)@, msg@),
        ensures
            (final(self)@, final(self).ctx@, out@) == dispatch_step::<C>(
                old(self)@,
                old(self).ctx@,
                msg@,
            ),
    {
        let msg_type = msg.msg_type().to_string();
        let handler_opt = self.handlers.get(&msg_type);
        match handler_opt {
            Some(kind) => {
                let r = C::run(kind, self, msg);
                match r {
                    Ok(()) => Outcome::Handled,
                    Err(e) => Outcome::Failed(e),
                }
            },
            None => {
                proof {
                    lemma_ignored_iff_response(msg@.body);
                }
                if msg.body.is_response() {
                    Outcome::Ignored
                } else {
                    Outcome::NoHandler(msg_type)
                }
            },
        }
    }
}

} // verus!
