use vstd::prelude::*;

verus! {

/// The body of a Maelstrom message, tagged by its `type`.
///
/// A topology maps node names to their neighbour lists; it is held as a list of
/// `(node, neighbours)` entries, in which a lookup takes the first entry of a name. A
/// topology read from a JSON object names each node once, and then the lookup gives the
/// node's own entry (`handlers::lemma_neighbors_of_entry`).
#[allow(inconsistent_fields)]
#[derive(Debug, Clone, PartialEq, Eq)]
pub enum MessageBody {
    RequestInit { msg_id: u32, node_id: String, node_ids: Vec<String> },
    RequestEcho { msg_id: u32, echo: String },
    RequestTopology { msg_id: u32, topology: Vec<(String, Vec<String>)> },
    RequestBroadcast { msg_id: Option<u32>, message: u32 },
    RequestRead { msg_id: u32 },
    ResponseInitOk { msg_id: u32, node_id: String, node_ids: Vec<String>, in_reply_to: u32 },
    ResponseEchoOk { msg_id: u32, in_reply_to: u32, echo: String },
    ResponseTopologyOk { msg_id: u32, in_reply_to: u32 },
    ResponseBroadcastOk { msg_id: Option<u32>, in_reply_to: Option<u32> },
    ResponseReadOk { msg_id: u32, in_reply_to: u32, messages: Vec<u32> },
}

/// The mathematical value of a [`MessageBody`]: strings become character sequences.
#[allow(inconsistent_fields)]
pub enum BodyView {
    RequestInit { msg_id: u32, node_id: Seq<char>, node_ids: Seq<Seq<char>> },
    RequestEcho { msg_id: u32, echo: Seq<char> },
    RequestTopology { msg_id: u32, topology: Seq<(Seq<char>, Seq<Seq<char>>)> },
    RequestBroadcast { msg_id: Option<u32>, message: u32 },
    RequestRead { msg_id: u32 },
    ResponseInitOk { msg_id: u32, node_id: Seq<char>, node_ids: Seq<Seq<char>>, in_reply_to: u32 },
    ResponseEchoOk { msg_id: u32, in_reply_to: u32, echo: Seq<char> },
    ResponseTopologyOk { msg_id: u32, in_reply_to: u32 },
    ResponseBroadcastOk { msg_id: Option<u32>, in_reply_to: Option<u32> },
    ResponseReadOk { msg_id: u32, in_reply_to: u32, messages: Seq<u32> },
}

impl View for MessageBody {
    type V = BodyView;

    open spec fn view(&self) -> BodyView {
        match self {
            MessageBody::RequestInit { msg_id, node_id, node_ids } => BodyView::RequestInit {
                msg_id: *msg_id,
                node_id: node_id@,
                node_ids: node_ids.deep_view(),
            },
            MessageBody::RequestEcho { msg_id, echo } => BodyView::RequestEcho {
                msg_id: *msg_id,
                echo: echo@,
            },
            MessageBody::RequestTopology { msg_id, topology } => BodyView::RequestTopology {
                msg_id: *msg_id,
                topology: topology.deep_view(),
            },
            MessageBody::RequestBroadcast { msg_id, message } => BodyView::RequestBroadcast {
                msg_id: *msg_id,
                message: *message,
            },
            MessageBody::RequestRead { msg_id } => BodyView::RequestRead { msg_id: *msg_id },
            MessageBody::ResponseInitOk { msg_id, node_id, node_ids, in_reply_to } =>
                BodyView::ResponseInitOk {
                    msg_id: *msg_id,
                    node_id: node_id@,
                    node_ids: node_ids.deep_view(),
                    in_reply_to: *in_reply_to,
                },
            MessageBody::ResponseEchoOk { msg_id, in_reply_to, echo } => BodyView::ResponseEchoOk {
                msg_id: *msg_id,
                in_reply_to: *in_reply_to,
                echo: echo@,
            },
            MessageBody::ResponseTopologyOk { msg_id, in_reply_to } =>
                BodyView::ResponseTopologyOk { msg_id: *msg_id, in_reply_to: *in_reply_to },
            MessageBody::ResponseBroadcastOk { msg_id, in_reply_to } =>
                BodyView::ResponseBroadcastOk { msg_id: *msg_id, in_reply_to: *in_reply_to },
            MessageBody::ResponseReadOk { msg_id, in_reply_to, messages } =>
                BodyView::ResponseReadOk {
                    msg_id: *msg_id,
                    in_reply_to: *in_reply_to,
                    messages: messages@,
                },
        }
    }
}

/// The wire name of a body's `type`.
pub open spec fn wire_type(body: BodyView) -> Seq<char> {
    match body {
        BodyView::RequestInit { .. } => "init"@,
        BodyView::RequestEcho { .. } => "echo"@,
        BodyView::RequestTopology { .. } => "topology"@,
        BodyView::RequestBroadcast { .. } => "broadcast"@,
        BodyView::RequestRead { .. } => "read"@,
        BodyView::ResponseInitOk { .. } => "init_ok"@,
        BodyView::ResponseEchoOk { .. } => "echo_ok"@,
        BodyView::ResponseTopologyOk { .. } => "topology_ok"@,
        BodyView::ResponseBroadcastOk { .. } => "broadcast_ok"@,
        BodyView::ResponseReadOk { .. } => "read_ok"@,
    }
}

/// The message types that a node receives as replies and leaves unanswered.
pub open spec fn is_ignored_type(t: Seq<char>) -> bool {
    ||| t == "broadcast_ok"@
    ||| t == "read_ok"@
    ||| t == "init_ok"@
    ||| t == "echo_ok"@
    ||| t == "topology_ok"@
}

/// A body is a reply exactly when its type is one of the ignored types.
pub proof fn lemma_ignored_iff_response(body: BodyView)
    ensures
        is_ignored_type(wire_type(body)) <==> is_response(body),
{
    reveal_strlit("init");
    reveal_strlit("echo");
    reveal_strlit("topology");
    reveal_strlit("broadcast");
    reveal_strlit("read");
    reveal_strlit("init_ok");
    reveal_strlit("echo_ok");
    reveal_strlit("topology_ok");
    reveal_strlit("broadcast_ok");
    reveal_strlit("read_ok");
    let t = wire_type(body);
    if !is_response(body) {
        assert(t.len() == 4 || t.len() == 8 || t.len() == 9);
        assert("broadcast_ok"@.len() == 12);
        assert("read_ok"@.len() == 7);
        assert("init_ok"@.len() == 7);
        assert("echo_ok"@.len() == 7);
        assert("topology_ok"@.len() == 11);
    }
}

/// Whether a body is one of the `*_ok` replies.
pub open spec fn is_response(body: BodyView) -> bool {
    ||| body is ResponseInitOk
    ||| body is ResponseEchoOk
    ||| body is ResponseTopologyOk
    ||| body is ResponseBroadcastOk
    ||| body is ResponseReadOk
}

impl MessageBody {
    /// Whether this body is one of the `*_ok` replies.
    pub fn is_response(&self) -> (r: bool)
        ensures
            r == is_response(self@),
    {
        match self {
            MessageBody::ResponseInitOk { .. } => true,
            MessageBody::ResponseEchoOk { .. } => true,
            MessageBody::ResponseTopologyOk { .. } => true,
            MessageBody::ResponseBroadcastOk { .. } => true,
            MessageBody::ResponseReadOk { .. } => true,
            _ => false,
        }
    }
}

/// A message as it arrives: its sender, its addressee and its body.
#[derive(Debug, Clone, PartialEq, Eq)]
pub struct Message {
    pub src: String,
    pub dest: String,
    pub body: MessageBody,
}

pub struct MessageView {
    pub src: Seq<char>,
    pub dest: Seq<char>,
    pub body: BodyView,
}

impl View for Message {
    type V = MessageView;

    open spec fn view(&self) -> MessageView {
        MessageView { src: self.src@, dest: self.dest@, body: self.body@ }
    }
}

impl Message {
    /// The wire name of this message's type.
    pub fn msg_type(&self) -> (t: &str)
        ensures
            t@ == wire_type(self.body@),
    {
        match &self.body {
            MessageBody::RequestInit { .. } => "init",
            MessageBody::RequestEcho { .. } => "echo",
            MessageBody::RequestTopology { .. } => "topology",
            MessageBody::RequestBroadcast { .. } => "broadcast",
            MessageBody::RequestRead { .. } => "read",
            MessageBody::ResponseInitOk { .. } => "init_ok",
            MessageBody::ResponseEchoOk { .. } => "echo_ok",
            MessageBody::ResponseTopologyOk { .. } => "topology_ok",
            MessageBody::ResponseBroadcastOk { .. } => "broadcast_ok",
            MessageBody::ResponseReadOk { .. } => "read_ok",
        }
    }
}

/// A message that a node sends: its `src` is the node's own id, absent before `init`.
#[derive(Debug, Clone, PartialEq, Eq)]
pub struct Envelope {
    pub src: Option<String>,
    pub dest: String,
    pub body: MessageBody,
}

pub struct EnvelopeView {
    pub src: Option<Seq<char>>,
    pub dest: Seq<char>,
    pub body: BodyView,
}

impl View for Envelope {
    type V = EnvelopeView;

    open spec fn view(&self) -> EnvelopeView {
        EnvelopeView { src: self.src.deep_view(), dest: self.dest@, body: self.body@ }
    }
}

} // verus!
