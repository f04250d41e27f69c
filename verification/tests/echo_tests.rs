use maelstrom_rs::echo::{EchoReply, EchoServer};
use maelstrom_rs::message::{Message, MessageBody};

fn s(x: &str) -> String {
    x.to_string()
}

fn msg(src: &str, dest: &str, body: MessageBody) -> Message {
    Message { src: s(src), dest: s(dest), body }
}

#[test]
fn echo_server_init_and_echo() {
    let mut server = EchoServer::new();
    let init = msg(
        "c0",
        "n1",
        MessageBody::RequestInit { msg_id: 1, node_id: s("n1"), node_ids: vec![s("n1"), s("n2")] },
    );
    assert_eq!(
        server.handle_request(init),
        EchoReply::Respond(msg(
            "n1",
            "c0",
            MessageBody::ResponseInitOk {
                msg_id: 1,
                node_id: s("n1"),
                node_ids: vec![s("n1"), s("n2")],
                in_reply_to: 1
            }
        ))
    );
    let echo = msg("c1", "n1", MessageBody::RequestEcho { msg_id: 5, echo: s("Please echo 35") });
    assert_eq!(
        server.handle_request(echo),
        EchoReply::Respond(msg(
            "n1",
            "c1",
            MessageBody::ResponseEchoOk { msg_id: 2, in_reply_to: 5, echo: s("Please echo 35") }
        ))
    );
}

#[test]
fn echo_server_is_silent_for_other_nodes() {
    let mut server = EchoServer::new();
    let echo = msg("c1", "n1", MessageBody::RequestEcho { msg_id: 5, echo: s("x") });
    assert_eq!(server.handle_request(echo), EchoReply::Silent);
    let init = msg("c0", "n1", MessageBody::RequestInit { msg_id: 1, node_id: s("n1"), node_ids: vec![] });
    server.handle_request(init);
    let echo = msg("c1", "n2", MessageBody::RequestEcho { msg_id: 6, echo: s("x") });
    assert_eq!(server.handle_request(echo), EchoReply::Silent);
}

#[test]
fn echo_server_leaves_other_types() {
    let mut server = EchoServer::new();
    let read = msg("c1", "n1", MessageBody::RequestRead { msg_id: 1 });
    assert!(server.admits(&read));
    assert_eq!(server.handle_request(read), EchoReply::Unsupported);
    let ok = msg("c1", "n1", MessageBody::ResponseEchoOk { msg_id: 1, in_reply_to: 1, echo: s("x") });
    assert_eq!(server.handle_request(ok), EchoReply::Unsupported);
}
