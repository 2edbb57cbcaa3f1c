use rust_maelstrom::control::{ControlLoop, Event};
use rust_maelstrom::protocol::{Body, Message, Payload, Topology};
use std::collections::HashSet;

fn request(dest: &str, msg_id: usize, payload: Payload) -> Message {
    Message {
        src: "c0".to_string(),
        dest: dest.to_string(),
        body: Body { msg_id: Some(msg_id), in_reply_to: None, payload },
    }
}

fn cluster(edges: &[(&str, &[&str])]) -> Vec<ControlLoop> {
    let mut topology = Topology::new();
    for (node, neighbours) in edges {
        topology.insert(node.to_string(), neighbours.iter().map(|n| n.to_string()).collect());
    }
    let mut nodes = Vec::new();
    for (node, _) in edges {
        let init = request(node, 1, Payload::Init { node_id: node.to_string(), node_ids: vec![] });
        let (mut control, _ack) = ControlLoop::start(init).expect("init starts a node");
        control
            .step(Event::External(request(node, 2, Payload::Topology { topology: topology.clone() })))
            .expect("the topology names every node");
        nodes.push(control);
    }
    nodes
}

fn broadcast(nodes: &mut Vec<ControlLoop>, at: usize, value: usize) {
    let dest = nodes[at].node().node_id().clone();
    nodes[at]
        .step(Event::External(request(&dest, 3, Payload::Broadcast { message: value })))
        .expect("broadcast is a request");
}

fn tick(nodes: &mut Vec<ControlLoop>, at: usize) {
    let sent = nodes[at].step(Event::Gossip).expect("a tick never fails");
    for message in sent {
        let dest = message.dest.clone();
        for node in nodes.iter_mut() {
            if *node.node().node_id() == dest {
                let reply =
                    node.step(Event::External(message.clone())).expect("gossip is accepted");
                assert!(reply.is_empty());
            }
        }
    }
}

fn set(values: &[usize]) -> HashSet<usize> {
    values.iter().copied().collect()
}

#[test]
fn a_ring_converges_within_its_diameter() {
    let mut nodes = cluster(&[("n1", &["n2"]), ("n2", &["n3"]), ("n3", &["n1"])]);
    broadcast(&mut nodes, 0, 10);
    broadcast(&mut nodes, 1, 20);
    broadcast(&mut nodes, 2, 30);
    broadcast(&mut nodes, 2, 31);
    for order in [[2usize, 1, 0], [0, 2, 1]] {
        for at in order {
            tick(&mut nodes, at);
        }
    }
    for node in &nodes {
        assert_eq!(node.node().seen(), &set(&[10, 20, 30, 31]));
    }
    for at in [1usize, 1, 0, 2] {
        tick(&mut nodes, at);
    }
    for node in &nodes {
        assert_eq!(node.node().seen(), &set(&[10, 20, 30, 31]));
    }
}

#[test]
fn one_round_in_a_bad_order_is_not_enough_for_a_ring() {
    let mut nodes = cluster(&[("n1", &["n2"]), ("n2", &["n3"]), ("n3", &["n1"])]);
    broadcast(&mut nodes, 0, 10);
    for at in [2usize, 1, 0] {
        tick(&mut nodes, at);
    }
    assert_eq!(nodes[1].node().seen(), &set(&[10]));
    assert!(nodes[2].node().seen().is_empty());
}

#[test]
fn a_line_with_edges_both_ways_converges() {
    let mut nodes = cluster(&[
        ("a", &["b"]),
        ("b", &["a", "c"]),
        ("c", &["b", "d"]),
        ("d", &["c"]),
    ]);
    broadcast(&mut nodes, 0, 1);
    broadcast(&mut nodes, 3, 4);
    for _round in 0..3 {
        for at in [3usize, 2, 1, 0] {
            tick(&mut nodes, at);
        }
    }
    for node in &nodes {
        assert_eq!(node.node().seen(), &set(&[1, 4]));
    }
}

#[test]
fn a_node_that_nobody_gossips_to_learns_nothing() {
    let mut nodes = cluster(&[("n1", &["n2"]), ("n2", &["n1"]), ("n3", &["n1"])]);
    broadcast(&mut nodes, 0, 10);
    broadcast(&mut nodes, 2, 30);
    for _round in 0..4 {
        for at in [0usize, 1, 2] {
            tick(&mut nodes, at);
        }
    }
    assert_eq!(nodes[0].node().seen(), &set(&[10, 30]));
    assert_eq!(nodes[1].node().seen(), &set(&[10, 30]));
    assert_eq!(nodes[2].node().seen(), &set(&[30]));
}

#[test]
fn gossip_to_a_node_outside_the_cluster_is_lost() {
    let mut nodes = cluster(&[("n1", &["n9", "n2"]), ("n2", &["n1"])]);
    broadcast(&mut nodes, 0, 5);
    tick(&mut nodes, 0);
    assert_eq!(nodes[1].node().seen(), &set(&[5]));
}
