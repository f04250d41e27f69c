use vstd::prelude::*;

use crate::handlers::{flatten_ids, lemma_present_ids_of_wrapped, wrap_ids};
use crate::message::{BodyView, Message, MessageBody, MessageView};

verus! {

/// A node of the echo workload, standing on its own.
pub struct EchoServer {
    node_id: Option<String>,
    next_msg_id: u32,
    node_ids: Vec<Option<String>>,
}

/// The mathematical state of an [`EchoServer`].
pub struct EchoServerView {
    pub node_id: Option<Seq<char>>,
    pub next_msg_id: u32,
    pub node_ids: Seq<Option<Seq<char>>>,
}

impl View for EchoServer {
    type V = EchoServerView;

    closed spec fn view(&self) -> EchoServerView {
        EchoServerView {
            node_id: self.node_id.deep_view(),
            next_msg_id: self.next_msg_id,
            node_ids: self.node_ids.deep_view(),
        }
    }
}

/// What an echo server does with a request.
#[derive(Debug, Clone, PartialEq, Eq)]
pub enum EchoReply {
    /// It answers with this message.
    Respond(Message),
    /// It stays silent: an `echo` addressed to another node.
    Silent,
    /// It does not handle messages of this type.
    Unsupported,
}

pub enum EchoReplyView {
    Respond(MessageView),
    Silent,
    Unsupported,
}

impl View for EchoReply {
    type V = EchoReplyView;

    open spec fn view(&self) -> EchoReplyView {
        match self {
            EchoReply::Respond(m) => EchoReplyView::Respond(m@),
            EchoReply::Silent => EchoReplyView::Silent,
            EchoReply::Unsupported => EchoReplyView::Unsupported,
        }
    }
}

/// Whether answering `req` takes a new message id.
pub open spec fn echo_server_increments(s: EchoServerView, req: MessageView) -> bool {
    ||| req.body is RequestInit
    ||| (req.body is RequestEcho && s.node_id == Some(req.dest))
}

/// What an echo server does with `req`: `init` sets its identity and is answered with
/// `init_ok`; an `echo` addressed to it is answered with `echo_ok` carrying the same text.
/// The answer goes from the request's addressee back to its sender.
pub open spec fn echo_server_next(s: EchoServerView, req: MessageView) -> (
    EchoServerView,
    EchoReplyView,
) {
    match req.body {
        BodyView::RequestInit { msg_id, node_id, node_ids } => {
            let s1 = EchoServerView {
                node_id: Some(node_id),
                node_ids: node_ids.map_values(|id: Seq<char>| Some(id)),
                next_msg_id: (s.next_msg_id + 1) as u32,
            };
            (
                s1,
                EchoReplyView::Respond(
                    MessageView {
                        src: req.dest,
                        dest: req.src,
                        body: BodyView::ResponseInitOk {
                            msg_id: s1.next_msg_id,
                            node_id,
                            node_ids,
                            in_reply_to: msg_id,
                        },
                    },
                ),
            )
        },
        BodyView::RequestEcho { msg_id, echo } => {
            if s.node_id == Some(req.dest) {
                let s1 = EchoServerView { next_msg_id: (s.next_msg_id + 1) as u32, ..s };
                (
                    s1,
                    EchoReplyView::Respond(
                        MessageView {
                            src: req.dest,
                            dest: req.src,
                            body: BodyView::ResponseEchoOk {
                                msg_id: s1.next_msg_id,
                                in_reply_to: msg_id,
                                echo,
                            },
                        },
                    ),
                )
            } else {
                (s, EchoReplyView::Silent)
            }
        },
        _ => (s, EchoReplyView::Unsupported),
    }
}

impl EchoServer {
    /// A server that has not been initialised yet.
    pub fn new() -> (s: Self)
        ensures
            s@ == (EchoServerView { node_id: None, next_msg_id: 0, node_ids: Seq::empty() }),
    {
        let s = EchoServer { node_id: None, node_ids: Vec::new(), next_msg_id: 0 };
        assert(s@.node_ids =~= Seq::empty());
        s
    }

    /// Whether the message counter has room for answering `request`.
    pub fn admits(&self, request: &Message) -> (r: bool)
        ensures
            r == (echo_server_increments(self@, request@) ==> self@.next_msg_id < u32::MAX),
    {
        let takes_id = match &request.body {
            MessageBody::RequestInit { .. } => true,
            MessageBody::RequestEcho { .. } => match &self.node_id {
                Some(id) => *id == request.dest,
                None => false,
            },
            _ => false,
        };
        !takes_id || self.next_msg_id < u32::MAX
    }

    /// Answers `request`.
    pub fn handle_request(&mut self, request: Message) -> (reply: EchoReply)
        requires
            echo_server_increments(old(self)@, request@) ==> old(self)@.next_msg_id < u32::MAX,
        ensures
            (final(self)@, reply@) == echo_server_next(old(self)@, request@),
    {
        let Message { src, dest, body } = request;
        match body {
            MessageBody::RequestInit { msg_id, node_id, node_ids } => {
                self.node_id = Some(node_id.clone());
                self.node_ids = wrap_ids(&node_ids);
                self.next_msg_id = self.next_msg_id + 1;
                let reply_ids = flatten_ids(&self.node_ids);
                proof {
                    lemma_present_ids_of_wrapped(node_ids.deep_view());
                }
                EchoReply::Respond(
                    Message {
                        src: dest,
                        dest: src,
                        body: MessageBody::ResponseInitOk {
                            in_reply_to: msg_id,
                            msg_id: self.next_msg_id,
                            node_id,
                            node_ids: reply_ids,
                        },
                    },
                )
            },
            MessageBody::RequestEcho { msg_id, echo } => {
                let is_mine = match &self.node_id {
                    Some(id) => *id == dest,
                    None => false,
                };
                if is_mine {
                    self.next_msg_id = self.next_msg_id + 1;
                    EchoReply::Respond(
                        Message {
                            src: dest,
                            dest: src,
                            body: MessageBody::ResponseEchoOk {
                                in_reply_to: msg_id,
                                echo,
                                msg_id: self.next_msg_id,
                            },
                        },
                    )
                } else {
                    EchoReply::Silent
                }
            },
            _ => EchoReply::Unsupported,
        }
    }
}

} // verus!
