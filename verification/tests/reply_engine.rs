use rust_maelstrom::error::ProtocolViolation;
use rust_maelstrom::identity::InnerNode;
use rust_maelstrom::protocol::{Body, Message, Payload, Topology};
use rust_maelstrom::reply::{generate_id, IntoResponse};
use rust_maelstrom::state::NodeState;
use std::collections::HashSet;

fn message(src: &str, dest: &str, msg_id: Option<usize>, payload: Payload) -> Message {
    Message {
        src: src.to_string(),
        dest: dest.to_string(),
        body: Body { msg_id, in_reply_to: None, payload },
    }
}

fn node(id: &str, counter: usize) -> NodeState {
    NodeState::with_identity(InnerNode { msg_id: counter, node_id: id.to_string() })
}

#[test]
fn echo_is_answered_with_the_same_text() {
    let ctx = node("n1", 4);
    let reply = message("c1", "n1", Some(11), Payload::Echo { echo: "hello there".to_string() })
        .response(&ctx)
        .expect("echo is a request");
    assert_eq!(reply.src, "n1");
    assert_eq!(reply.dest, "c1");
    assert_eq!(reply.body.msg_id, Some(4));
    assert_eq!(reply.body.in_reply_to, Some(11));
    match reply.body.payload {
        Payload::EchoOk { echo } => assert_eq!(echo, "hello there"),
        other => panic!("not echo_ok: {:?}", other),
    }
}

#[test]
fn generate_joins_node_id_and_counter() {
    let ctx = node("n3", 17);
    let reply = message("c1", "n3", Some(2), Payload::Generate)
        .response(&ctx)
        .expect("generate is a request");
    assert_eq!(reply.body.msg_id, Some(17));
    match reply.body.payload {
        Payload::GenerateOk { id } => assert_eq!(id, "n3-17"),
        other => panic!("not generate_ok: {:?}", other),
    }
}

#[test]
fn generated_ids_follow_the_format() {
    assert_eq!(generate_id(&"n1".to_string(), 0), "n1-0");
    assert_eq!(generate_id(&"n1".to_string(), 10), "n1-10");
    assert_eq!(generate_id(&"".to_string(), 7), "-7");
    assert_eq!(generate_id(&"a-b".to_string(), 305), "a-b-305");
    assert_eq!(
        generate_id(&"node".to_string(), usize::MAX),
        format!("{}-{}", "node", usize::MAX)
    );
}

#[test]
fn generated_ids_differ_between_nodes_and_between_counters() {
    let mut ids = HashSet::new();
    for name in ["n1", "n2", "n1-1", "n"] {
        for counter in [0usize, 1, 2, 11, 12, 112] {
            assert!(ids.insert(generate_id(&name.to_string(), counter)));
        }
    }
    assert_eq!(ids.len(), 24);
}

#[test]
fn init_after_the_handshake_is_acknowledged_without_a_new_identity() {
    let mut ctx = node("n1", 3);
    let again = message(
        "c9",
        "n1",
        Some(5),
        Payload::Init { node_id: "other".to_string(), node_ids: vec!["other".to_string()] },
    );
    let reply = ctx.handle_message(again).expect("init is a request").expect("it gets a reply");
    assert!(matches!(reply.body.payload, Payload::InitOk));
    assert_eq!(reply.body.in_reply_to, Some(5));
    assert_eq!(reply.body.msg_id, Some(3));
    assert_eq!(ctx.node_id(), "n1");
    assert_eq!(ctx.next_msg_id(), 4);
}

#[test]
fn every_request_kind_has_its_reply_kind() {
    let ctx = node("n1", 0);
    let mut topology = Topology::new();
    topology.insert("n1".to_string(), vec![]);
    let cases = vec![
        (Payload::Echo { echo: "x".to_string() }, "echo_ok"),
        (Payload::Generate, "generate_ok"),
        (Payload::Init { node_id: "n1".to_string(), node_ids: vec![] }, "init_ok"),
        (Payload::Broadcast { message: 1 }, "broadcast_ok"),
        (Payload::Read, "read_ok"),
        (Payload::Topology { topology }, "topology_ok"),
    ];
    for (request, expected) in cases {
        let reply = message("c1", "n1", Some(1), request).response(&ctx).expect("a request");
        let kind = match reply.body.payload {
            Payload::EchoOk { .. } => "echo_ok",
            Payload::GenerateOk { .. } => "generate_ok",
            Payload::InitOk => "init_ok",
            Payload::BroadcastOk => "broadcast_ok",
            Payload::ReadOk { .. } => "read_ok",
            Payload::TopologyOk => "topology_ok",
            _ => "other",
        };
        assert_eq!(kind, expected);
    }
}

#[test]
fn a_payload_that_is_no_request_is_a_violation() {
    let ctx = node("n1", 0);
    let strays = vec![
        Payload::InitOk,
        Payload::EchoOk { echo: "x".to_string() },
        Payload::GenerateOk { id: "n2-0".to_string() },
        Payload::BroadcastOk,
        Payload::ReadOk { messages: HashSet::new() },
        Payload::TopologyOk,
        Payload::Gossip { messages: HashSet::new() },
    ];
    for stray in strays {
        let outcome = message("n2", "n1", Some(1), stray).response(&ctx);
        assert_eq!(outcome.err(), Some(ProtocolViolation::UnexpectedPayload));
    }
}

#[test]
fn a_stray_reply_leaves_the_node_as_it_was() {
    let mut ctx = node("n1", 6);
    ctx.observe(2);
    let outcome = ctx.handle_message(message("n2", "n1", Some(1), Payload::BroadcastOk));
    assert_eq!(outcome.err(), Some(ProtocolViolation::UnexpectedPayload));
    assert_eq!(ctx.next_msg_id(), 6);
    assert_eq!(ctx.seen().len(), 1);
    let outcome = ctx.reply(message("n2", "n1", Some(1), Payload::TopologyOk));
    assert_eq!(outcome.err(), Some(ProtocolViolation::UnexpectedPayload));
    assert_eq!(ctx.next_msg_id(), 6);
}

#[test]
fn a_reply_is_correlated_to_its_request() {
    let mut ctx = node("n1", 0);
    for n in [0usize, 1, 7, 1000, usize::MAX] {
        let reply = ctx.reply(message("c1", "n1", Some(n), Payload::Read)).expect("a request");
        assert_eq!(reply.body.in_reply_to, Some(n));
    }
    let reply = ctx.reply(message("c1", "n1", None, Payload::Read)).expect("a request");
    assert_eq!(reply.body.in_reply_to, None);
}

#[test]
fn read_ok_carries_a_copy_of_the_set() {
    let mut ctx = node("n1", 0);
    ctx.observe(1);
    let reply = message("c1", "n1", Some(1), Payload::Read).response(&ctx).expect("a request");
    ctx.observe(2);
    match reply.body.payload {
        Payload::ReadOk { messages } => {
            assert_eq!(messages, [1usize].into_iter().collect::<HashSet<usize>>())
        }
        other => panic!("not read_ok: {:?}", other),
    }
    assert_eq!(ctx.seen().len(), 2);
    assert_eq!(ctx.next_msg_id(), 0);
}

#[test]
fn the_trait_gives_the_reply_of_the_engine() {
    let ctx = node("n1", 2);
    let by_trait = IntoResponse::response(&ctx, message("c1", "n1", Some(8), Payload::Generate))
        .expect("a request");
    let direct =
        message("c1", "n1", Some(8), Payload::Generate).response(&ctx).expect("a request");
    assert_eq!(by_trait.src, direct.src);
    assert_eq!(by_trait.dest, direct.dest);
    assert_eq!(by_trait.body.msg_id, direct.body.msg_id);
    assert_eq!(by_trait.body.in_reply_to, direct.body.in_reply_to);
    match (by_trait.body.payload, direct.body.payload) {
        (Payload::GenerateOk { id: left }, Payload::GenerateOk { id: right }) => {
            assert_eq!(left, "n1-2");
            assert_eq!(right, "n1-2");
        }
        other => panic!("not generate_ok twice: {:?}", other),
    }
}

#[test]
fn a_bare_identity_answers_init_only() {
    let inner = InnerNode { msg_id: 0, node_id: "n1".to_string() };
    let init = message(
        "c0",
        "n1",
        Some(1),
        Payload::Init { node_id: "n1".to_string(), node_ids: vec!["n1".to_string()] },
    );
    let reply = inner.response(init).expect("init is answered");
    assert!(matches!(reply.body.payload, Payload::InitOk));
    assert_eq!(reply.body.msg_id, Some(0));
    assert_eq!(reply.body.in_reply_to, Some(1));
    assert_eq!(reply.src, "n1");
    assert_eq!(reply.dest, "c0");

    for other in [Payload::Read, Payload::Generate, Payload::InitOk, Payload::Broadcast { message: 1 }] {
        let outcome = inner.response(message("c0", "n1", Some(2), other));
        assert_eq!(outcome.err(), Some(ProtocolViolation::UnexpectedPayload));
    }
}

#[test]
fn the_handshake_names_the_node_and_counts_the_acknowledgement() {
    let init = message(
        "c0",
        "n7",
        Some(1),
        Payload::Init {
            node_id: "n7".to_string(),
            node_ids: vec!["n6".to_string(), "n7".to_string()],
        },
    );
    let (inner, ack) = InnerNode::new(init).expect("init starts a node");
    assert_eq!(inner.node_id, "n7");
    assert_eq!(inner.msg_id, 1);
    assert!(matches!(ack.body.payload, Payload::InitOk));
    assert_eq!(ack.body.msg_id, Some(0));
    assert_eq!(ack.body.in_reply_to, Some(1));

    let outcome = InnerNode::new(message("c0", "n7", Some(1), Payload::Generate));
    assert_eq!(outcome.err().map(|v| v.describe()), Some("did not receive init message".to_string()));
    let outcome = NodeState::new(message("c0", "n7", Some(1), Payload::InitOk));
    assert_eq!(outcome.err(), Some(ProtocolViolation::ExpectedInit));
}

#[test]
fn a_fresh_identity_has_no_name_and_has_sent_nothing() {
    let inner = InnerNode::default();
    assert_eq!(inner.msg_id, 0);
    assert_eq!(inner.node_id, "");
}

#[test]
fn the_reply_of_an_identity_is_counted() {
    let mut inner = InnerNode { msg_id: 9, node_id: "n1".to_string() };
    let init = message("c0", "n1", Some(4), Payload::Init { node_id: "n1".to_string(), node_ids: vec![] });
    let reply = inner.reply(init).expect("init is answered");
    assert_eq!(reply.body.msg_id, Some(9));
    assert_eq!(inner.msg_id, 10);
    let outcome = inner.reply(message("c0", "n1", Some(5), Payload::Read));
    assert_eq!(outcome.err(), Some(ProtocolViolation::UnexpectedPayload));
    assert_eq!(inner.msg_id, 10);
    assert_eq!(inner.node_id, "n1");
}

#[test]
fn every_payload_has_its_wire_name() {
    let mut topology = Topology::new();
    topology.insert("n1".to_string(), vec!["n2".to_string()]);
    let cases = vec![
        (Payload::Init { node_id: "n1".to_string(), node_ids: vec![] }, "init"),
        (Payload::InitOk, "init_ok"),
        (Payload::Echo { echo: "x".to_string() }, "echo"),
        (Payload::EchoOk { echo: "x".to_string() }, "echo_ok"),
        (Payload::Generate, "generate"),
        (Payload::GenerateOk { id: "n1-0".to_string() }, "generate_ok"),
        (Payload::Broadcast { message: 1 }, "broadcast"),
        (Payload::BroadcastOk, "broadcast_ok"),
        (Payload::Read, "read"),
        (Payload::ReadOk { messages: HashSet::new() }, "read_ok"),
        (Payload::Topology { topology }, "topology"),
        (Payload::TopologyOk, "topology_ok"),
        (Payload::Gossip { messages: HashSet::new() }, "gossip"),
    ];
    for (payload, name) in cases {
        assert_eq!(payload.kind(), name);
    }
}

#[test]
fn a_reply_is_named_after_its_request() {
    let ctx = node("n1", 0);
    let mut topology = Topology::new();
    topology.insert("n1".to_string(), vec![]);
    let requests = vec![
        Payload::Echo { echo: "x".to_string() },
        Payload::Generate,
        Payload::Init { node_id: "n1".to_string(), node_ids: vec![] },
        Payload::Broadcast { message: 1 },
        Payload::Read,
        Payload::Topology { topology },
    ];
    for request in requests {
        let expected = format!("{}_ok", request.kind());
        let reply = message("c1", "n1", Some(1), request).response(&ctx).expect("a request");
        assert_eq!(reply.body.payload.kind(), expected);
    }
}

#[test]
fn violations_describe_themselves() {
    assert_eq!(ProtocolViolation::ExpectedInit.describe(), "did not receive init message");
    assert_eq!(ProtocolViolation::UnexpectedPayload.describe(), "unexpected message received");
    assert_eq!(ProtocolViolation::MissingTopology.describe(), "missing topology for node");
}
