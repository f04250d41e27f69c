use maelstrom_rs::broadcast::{Broadcast, BroadcastContext};
use maelstrom_rs::handlers::{
    BroadcastHandler, EchoHandler, InitHandler, ReadHandler, TopologyHandler,
};
use maelstrom_rs::message::{Envelope, Message, MessageBody};
use maelstrom_rs::node::{HandlerKind, MessageHandler, Node, Outcome};

fn s(x: &str) -> String {
    x.to_string()
}

fn msg(src: &str, dest: &str, body: MessageBody) -> Message {
    Message { src: s(src), dest: s(dest), body }
}

fn env(src: Option<&str>, dest: &str, body: MessageBody) -> Envelope {
    Envelope { src: src.map(s), dest: s(dest), body }
}

fn init_msg(id: &str, ids: &[&str], msg_id: u32) -> Message {
    msg(
        "c0",
        id,
        MessageBody::RequestInit {
            msg_id,
            node_id: s(id),
            node_ids: ids.iter().map(|x| s(x)).collect(),
        },
    )
}

fn started(id: &str, neighbors: &[&str]) -> Broadcast {
    let mut b = Broadcast::new();
    assert_eq!(b.node.handle_message(init_msg(id, &["n1", "n2", "n3"], 1)), Outcome::Handled);
    b.node.ctx.neighbors = neighbors.iter().map(|x| s(x)).collect();
    b.node.take_outbox();
    b
}

#[test]
fn msg_type_names_every_body() {
    let cases = vec![
        (MessageBody::RequestInit { msg_id: 1, node_id: s("n1"), node_ids: vec![] }, "init"),
        (MessageBody::RequestEcho { msg_id: 1, echo: s("x") }, "echo"),
        (MessageBody::RequestTopology { msg_id: 1, topology: vec![] }, "topology"),
        (MessageBody::RequestBroadcast { msg_id: None, message: 3 }, "broadcast"),
        (MessageBody::RequestRead { msg_id: 1 }, "read"),
        (
            MessageBody::ResponseInitOk { msg_id: 1, node_id: s("n1"), node_ids: vec![], in_reply_to: 1 },
            "init_ok",
        ),
        (MessageBody::ResponseEchoOk { msg_id: 1, in_reply_to: 1, echo: s("x") }, "echo_ok"),
        (MessageBody::ResponseTopologyOk { msg_id: 1, in_reply_to: 1 }, "topology_ok"),
        (MessageBody::ResponseBroadcastOk { msg_id: None, in_reply_to: None }, "broadcast_ok"),
        (MessageBody::ResponseReadOk { msg_id: 1, in_reply_to: 1, messages: vec![] }, "read_ok"),
    ];
    for (body, name) in cases {
        let m = msg("a", "b", body.clone());
        assert_eq!(m.msg_type(), name);
        assert_eq!(body.is_response(), name.ends_with("_ok"));
    }
}

#[test]
fn new_node_is_uninitialised() {
    let node = Node::new(BroadcastContext::new());
    assert_eq!(node.node_id, None);
    assert_eq!(node.next_msg_id, 0);
    assert!(node.node_ids.is_empty());
    assert!(node.outbox.is_empty());
}

#[test]
fn init_sets_identity_and_answers() {
    let mut b = Broadcast::new();
    let out = b.node.handle_message(init_msg("n2", &["n1", "n2"], 7));
    assert_eq!(out, Outcome::Handled);
    assert_eq!(b.node.node_id, Some(s("n2")));
    assert_eq!(b.node.node_ids, vec![Some(s("n1")), Some(s("n2"))]);
    assert_eq!(b.node.next_msg_id, 1);
    assert_eq!(
        b.node.take_outbox(),
        vec![env(
            Some("n2"),
            "c0",
            MessageBody::ResponseInitOk {
                msg_id: 1,
                node_id: s("n2"),
                node_ids: vec![s("n1"), s("n2")],
                in_reply_to: 7,
            }
        )]
    );
    assert!(b.node.outbox.is_empty());
}

#[test]
fn echo_is_answered_only_when_addressed_to_the_node() {
    let mut b = started("n1", &[]);
    let out = b.node.handle_message(msg("c1", "n1", MessageBody::RequestEcho { msg_id: 4, echo: s("hello") }));
    assert_eq!(out, Outcome::Handled);
    assert_eq!(
        b.node.take_outbox(),
        vec![env(Some("n1"), "c1", MessageBody::ResponseEchoOk { msg_id: 2, in_reply_to: 4, echo: s("hello") })]
    );
    let out = b.node.handle_message(msg("c1", "n9", MessageBody::RequestEcho { msg_id: 5, echo: s("x") }));
    assert_eq!(out, Outcome::Handled);
    assert!(b.node.outbox.is_empty());
    assert_eq!(b.node.next_msg_id, 2);
}

#[test]
fn echo_before_init_is_silent() {
    let mut b = Broadcast::new();
    let out = b.node.handle_message(msg("c1", "n1", MessageBody::RequestEcho { msg_id: 4, echo: s("x") }));
    assert_eq!(out, Outcome::Handled);
    assert!(b.node.outbox.is_empty());
}

#[test]
fn topology_takes_the_nodes_own_entry() {
    let mut b = started("n1", &[]);
    let topology = vec![
        (s("n2"), vec![s("n1")]),
        (s("n1"), vec![s("n2"), s("n3")]),
    ];
    let out = b.node.handle_message(msg("c1", "n1", MessageBody::RequestTopology { msg_id: 9, topology }));
    assert_eq!(out, Outcome::Handled);
    assert_eq!(b.ctx().neighbors, vec![s("n2"), s("n3")]);
    assert_eq!(
        b.node.take_outbox(),
        vec![env(Some("n1"), "c1", MessageBody::ResponseTopologyOk { msg_id: 2, in_reply_to: 9 })]
    );
}

#[test]
fn topology_without_the_node_keeps_neighbours() {
    let mut b = started("n1", &["n7"]);
    let topology = vec![(s("n2"), vec![s("n1")])];
    b.node.handle_message(msg("c1", "n1", MessageBody::RequestTopology { msg_id: 9, topology }));
    assert_eq!(b.ctx().neighbors, vec![s("n7")]);
    assert_eq!(b.node.outbox.len(), 1);
}

#[test]
fn topology_before_init_is_answered_from_no_one() {
    let mut b = Broadcast::new();
    let topology = vec![(s("n1"), vec![s("n2")])];
    b.node.handle_message(msg("c1", "n1", MessageBody::RequestTopology { msg_id: 3, topology }));
    assert!(b.ctx().neighbors.is_empty());
    assert_eq!(
        b.node.take_outbox(),
        vec![env(None, "c1", MessageBody::ResponseTopologyOk { msg_id: 1, in_reply_to: 3 })]
    );
}

#[test]
fn first_broadcast_is_gossiped_and_acknowledged() {
    let mut b = started("n1", &["n2", "n3"]);
    let out = b.node.handle_message(msg("c1", "n1", MessageBody::RequestBroadcast { msg_id: Some(5), message: 42 }));
    assert_eq!(out, Outcome::Handled);
    assert!(b.ctx().messages.contains(&42));
    assert_eq!(
        b.node.take_outbox(),
        vec![
            env(Some("n1"), "n2", MessageBody::RequestBroadcast { msg_id: None, message: 42 }),
            env(Some("n1"), "n3", MessageBody::RequestBroadcast { msg_id: None, message: 42 }),
            env(Some("n1"), "c1", MessageBody::ResponseBroadcastOk { msg_id: Some(2), in_reply_to: Some(5) }),
        ]
    );
}

#[test]
fn repeated_broadcast_is_only_acknowledged() {
    let mut b = started("n1", &["n2"]);
    b.node.handle_message(msg("c1", "n1", MessageBody::RequestBroadcast { msg_id: Some(5), message: 42 }));
    b.node.take_outbox();
    b.node.handle_message(msg("n2", "n1", MessageBody::RequestBroadcast { msg_id: None, message: 42 }));
    assert_eq!(
        b.node.take_outbox(),
        vec![env(Some("n1"), "n2", MessageBody::ResponseBroadcastOk { msg_id: None, in_reply_to: None })]
    );
    assert_eq!(b.ctx().messages.len(), 1);
    assert_eq!(b.node.next_msg_id, 2);
}

#[test]
fn read_lists_messages_in_increasing_order() {
    let mut b = started("n1", &[]);
    for m in [30u32, 4, 17, 4, 99] {
        b.node.handle_message(msg("c1", "n1", MessageBody::RequestBroadcast { msg_id: None, message: m }));
    }
    b.node.take_outbox();
    let out = b.node.handle_message(msg("c1", "n1", MessageBody::RequestRead { msg_id: 8 }));
    assert_eq!(out, Outcome::Handled);
    assert_eq!(
        b.node.take_outbox(),
        vec![env(
            Some("n1"),
            "c1",
            MessageBody::ResponseReadOk { msg_id: 2, in_reply_to: 8, messages: vec![4, 17, 30, 99] }
        )]
    );
}

#[test]
fn read_after_broadcast_reports_the_message() {
    let mut b = started("n1", &["n2"]);
    b.node.handle_message(msg("c1", "n1", MessageBody::RequestBroadcast { msg_id: Some(1), message: 7 }));
    b.node.handle_message(msg("c1", "n1", MessageBody::RequestRead { msg_id: 2 }));
    let sent = b.node.take_outbox();
    match &sent.last().unwrap().body {
        MessageBody::ResponseReadOk { messages, .. } => assert_eq!(messages, &vec![7]),
        other => panic!("unexpected {:?}", other),
    }
}

#[test]
fn read_of_an_empty_node_is_empty() {
    let mut b = started("n1", &[]);
    b.node.handle_message(msg("c1", "n1", MessageBody::RequestRead { msg_id: 3 }));
    assert_eq!(
        b.node.take_outbox(),
        vec![env(Some("n1"), "c1", MessageBody::ResponseReadOk { msg_id: 2, in_reply_to: 3, messages: vec![] })]
    );
}

#[test]
fn replies_are_ignored() {
    let mut b = started("n1", &[]);
    let out = b.node.handle_message(msg("n2", "n1", MessageBody::ResponseBroadcastOk { msg_id: None, in_reply_to: None }));
    assert_eq!(out, Outcome::Ignored);
    let out = b.node.handle_message(msg("n2", "n1", MessageBody::ResponseReadOk { msg_id: 1, in_reply_to: 1, messages: vec![] }));
    assert_eq!(out, Outcome::Ignored);
    assert!(b.node.outbox.is_empty());
    assert_eq!(b.node.next_msg_id, 1);
}

#[test]
fn unregistered_request_has_no_handler() {
    let mut node = Node::new(BroadcastContext::new());
    let out = node.handle_message(msg("c1", "n1", MessageBody::RequestRead { msg_id: 1 }));
    assert_eq!(out, Outcome::NoHandler(s("read")));
    assert!(node.outbox.is_empty());
    assert_eq!(node.next_msg_id, 0);
}

#[test]
fn mismatched_handler_refuses() {
    let mut b = started("n1", &[]);
    b.node.register_handler("read", EchoHandler);
    let out = b.node.handle_message(msg("c1", "n1", MessageBody::RequestRead { msg_id: 1 }));
    assert_eq!(out, Outcome::Failed(s("Invalid message for EchoHandler")));
    assert!(b.node.outbox.is_empty());
    assert_eq!(b.node.next_msg_id, 1);
}

#[test]
fn each_handler_refuses_foreign_messages() {
    let mut node = Node::new(BroadcastContext::new());
    let foreign = || msg("c", "n", MessageBody::ResponseTopologyOk { msg_id: 1, in_reply_to: 1 });
    assert_eq!(InitHandler.handle(&mut node, foreign()), Err(s("Invalid message for InitHandler")));
    assert_eq!(EchoHandler.handle(&mut node, foreign()), Err(s("Invalid message for EchoHandler")));
    assert_eq!(TopologyHandler.handle(&mut node, foreign()), Err(s("Invalid message for TopologyHandler")));
    assert_eq!(BroadcastHandler.handle(&mut node, foreign()), Err(s("Invalid message for BroadcastHandler")));
    assert_eq!(ReadHandler.handle(&mut node, foreign()), Err(s("Invalid message for ReadHandler")));
    assert!(node.outbox.is_empty());
}

#[test]
fn handler_kinds() {
    assert_eq!(MessageHandler::<()>::kind(&InitHandler), HandlerKind::Init);
    assert_eq!(MessageHandler::<()>::kind(&EchoHandler), HandlerKind::Echo);
    assert_eq!(TopologyHandler.kind(), HandlerKind::Topology);
    assert_eq!(BroadcastHandler.kind(), HandlerKind::Broadcast);
    assert_eq!(ReadHandler.kind(), HandlerKind::Read);
}

#[test]
fn counter_at_its_limit_is_refused_only_when_it_would_grow() {
    let mut b = started("n1", &[]);
    b.node.next_msg_id = u32::MAX;
    let read = msg("c1", "n1", MessageBody::RequestRead { msg_id: 1 });
    assert!(!b.node.admits_message(&read));
    let gossip = msg("n2", "n1", MessageBody::RequestBroadcast { msg_id: None, message: 1 });
    assert!(b.node.admits_message(&gossip));
    let other = msg("c1", "n1", MessageBody::RequestEcho { msg_id: 1, echo: s("x") });
    assert!(!b.node.admits_message(&other));
    let elsewhere = msg("c1", "n5", MessageBody::RequestEcho { msg_id: 1, echo: s("x") });
    assert!(b.node.admits_message(&elsewhere));
    assert_eq!(b.node.handle_message(gossip), Outcome::Handled);
}

#[test]
fn generic_node_runs_init_and_echo() {
    let mut node: Node<()> = Node::new(());
    assert_eq!(node.handle_init(init_msg("n3", &["n3"], 2)), Ok(()));
    assert_eq!(node.handle_echo(msg("c1", "n3", MessageBody::RequestEcho { msg_id: 3, echo: s("e") })), Ok(()));
    let sent = node.take_outbox();
    assert_eq!(sent.len(), 2);
    assert_eq!(sent[1], env(Some("n3"), "c1", MessageBody::ResponseEchoOk { msg_id: 2, in_reply_to: 3, echo: s("e") }));
}

#[test]
fn plain_node_dispatches_init_and_echo() {
    let mut node: Node<()> = Node::new(());
    assert_eq!(node.handle_message(init_msg("n4", &["n4"], 1)), Outcome::Handled);
    let echo = msg("c1", "n4", MessageBody::RequestEcho { msg_id: 2, echo: s("hi") });
    assert!(node.admits_message(&echo));
    assert_eq!(node.handle_message(echo), Outcome::Handled);
    let read = msg("c1", "n4", MessageBody::RequestRead { msg_id: 3 });
    assert_eq!(node.handle_message(read), Outcome::NoHandler(s("read")));
    let ok = msg("n1", "n4", MessageBody::ResponseEchoOk { msg_id: 1, in_reply_to: 1, echo: s("x") });
    assert_eq!(node.handle_message(ok), Outcome::Ignored);
    let sent = node.take_outbox();
    assert_eq!(sent.len(), 2);
    assert_eq!(sent[1], env(Some("n4"), "c1", MessageBody::ResponseEchoOk { msg_id: 2, in_reply_to: 2, echo: s("hi") }));
}

#[test]
fn repeated_topology_replaces_neighbours() {
    let mut b = started("n1", &[]);
    let t = || vec![(s("n1"), vec![s("n2")]), (s("n2"), vec![s("n1")])];
    b.node.handle_message(msg("c1", "n1", MessageBody::RequestTopology { msg_id: 1, topology: t() }));
    b.node.handle_message(msg("c1", "n1", MessageBody::RequestTopology { msg_id: 2, topology: t() }));
    assert_eq!(b.ctx().neighbors, vec![s("n2")]);
}

#[test]
fn broadcast_order_does_not_matter() {
    let mut a = started("n1", &[]);
    let mut c = started("n1", &[]);
    let bm = |m: u32| msg("c1", "n1", MessageBody::RequestBroadcast { msg_id: Some(1), message: m });
    a.node.handle_message(bm(1));
    a.node.handle_message(bm(2));
    c.node.handle_message(bm(2));
    c.node.handle_message(bm(1));
    assert_eq!(a.ctx().messages, c.ctx().messages);
}
