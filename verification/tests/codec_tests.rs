use agentblocks::codec::{deserialize_workflow, serialize_workflow};
use agentblocks::model::{Connection, Coord, NodeKind, Position, Workflow, WorkflowNode};

fn pos(x: i64, y: i64) -> Position {
    Position { x: Coord::Finite(x), y: Coord::Finite(y) }
}

fn assert_same_workflow(a: &Workflow, b: &Workflow) {
    assert_eq!(a.id, b.id);
    assert_eq!(a.name, b.name);
    assert_eq!(a.nodes.len(), b.nodes.len());
    for (na, nb) in a.nodes.iter().zip(b.nodes.iter()) {
        assert_eq!(na.id, nb.id);
        assert_eq!(na.position, nb.position);
        match (&na.kind, &nb.kind) {
            (
                NodeKind::Variable { name: n1, value: v1 },
                NodeKind::Variable { name: n2, value: v2 },
            ) => {
                assert_eq!(n1, n2);
                assert_eq!(v1, v2);
            },
            (NodeKind::Print { message: m1 }, NodeKind::Print { message: m2 }) => {
                assert_eq!(m1, m2);
            },
            (NodeKind::Other { tag: t1 }, NodeKind::Other { tag: t2 }) => {
                assert_eq!(t1, t2);
            },
            _ => panic!("node kinds differ"),
        }
    }
    assert_eq!(a.connections.len(), b.connections.len());
    for (ca, cb) in a.connections.iter().zip(b.connections.iter()) {
        assert_eq!(ca.id, cb.id);
        assert_eq!(ca.source_node, cb.source_node);
        assert_eq!(ca.target_node, cb.target_node);
    }
}

fn sample_workflow() -> Workflow {
    Workflow {
        id: String::from("wf-7"),
        name: String::from("sample"),
        nodes: vec![
            WorkflowNode {
                id: String::from("n1"),
                position: pos(-3, 12),
                kind: NodeKind::Variable {
                    name: String::from("greeting"),
                    value: String::from("hello"),
                },
            },
            WorkflowNode {
                id: String::from("n2"),
                position: Position { x: Coord::Nan, y: Coord::Finite(0) },
                kind: NodeKind::Print { message: String::from("greeting") },
            },
            WorkflowNode {
                id: String::from("n3"),
                position: pos(0, 0),
                kind: NodeKind::Other { tag: String::from("widget") },
            },
        ],
        connections: vec![Connection {
            id: String::from("c1"),
            source_node: String::from("n1"),
            target_node: String::from("n2"),
        }],
    }
}

#[test]
fn round_trip_restores_a_full_workflow() {
    let w = sample_workflow();
    let text = serialize_workflow(&w);
    let back = deserialize_workflow(&text).expect("round trip must parse");
    assert_same_workflow(&w, &back);
}

#[test]
fn round_trip_restores_an_empty_workflow() {
    let w = Workflow {
        id: String::from(""),
        name: String::from(""),
        nodes: Vec::new(),
        connections: Vec::new(),
    };
    let text = serialize_workflow(&w);
    let back = deserialize_workflow(&text).expect("round trip must parse");
    assert_same_workflow(&w, &back);
}

#[test]
fn round_trip_survives_quotes_and_backslashes() {
    let w = Workflow {
        id: String::from("q\"uo\\te"),
        name: String::from("a \\ b \" c"),
        nodes: vec![WorkflowNode {
            id: String::from("n\"1"),
            position: pos(5, 5),
            kind: NodeKind::Variable {
                name: String::from("x\\"),
                value: String::from("say \"hi\""),
            },
        }],
        connections: Vec::new(),
    };
    let text = serialize_workflow(&w);
    let back = deserialize_workflow(&text).expect("round trip must parse");
    assert_same_workflow(&w, &back);
}

#[test]
fn round_trip_survives_extreme_coordinates() {
    let w = Workflow {
        id: String::from("x"),
        name: String::from("x"),
        nodes: vec![WorkflowNode {
            id: String::from("n"),
            position: Position { x: Coord::Finite(i64::MIN), y: Coord::Finite(i64::MAX) },
            kind: NodeKind::Other { tag: String::from("t") },
        }],
        connections: Vec::new(),
    };
    let text = serialize_workflow(&w);
    let back = deserialize_workflow(&text).expect("round trip must parse");
    assert_same_workflow(&w, &back);
}

#[test]
fn serialized_form_is_the_documented_document() {
    let w = Workflow {
        id: String::from("id1"),
        name: String::from("nm"),
        nodes: vec![WorkflowNode {
            id: String::from("n1"),
            position: pos(1, -2),
            kind: NodeKind::Print { message: String::from("m") },
        }],
        connections: Vec::new(),
    };
    let text = serialize_workflow(&w);
    let expected = "{\n  \"id\": \"id1\",\n  \"name\": \"nm\",\n  \"nodes\": [{\"id\": \"n1\", \"position\": {\"x\": 1, \"y\": -2}, \"node_type\": \"print\", \"properties\": {\"message\": \"m\"}}],\n  \"connections\": []\n}";
    assert_eq!(text, expected);
}

#[test]
fn nan_coordinate_serializes_as_null() {
    let w = Workflow {
        id: String::from("i"),
        name: String::from("n"),
        nodes: vec![WorkflowNode {
            id: String::from("n1"),
            position: Position { x: Coord::Nan, y: Coord::Finite(0) },
            kind: NodeKind::Other { tag: String::from("t") },
        }],
        connections: Vec::new(),
    };
    let text = serialize_workflow(&w);
    assert!(text.contains("{\"x\": null, \"y\": 0}"));
}

#[test]
fn malformed_documents_are_rejected() {
    assert!(deserialize_workflow("").is_err());
    assert!(deserialize_workflow("{}").is_err());
    assert!(deserialize_workflow("{\n  \"id\": \"a\"").is_err());
    assert!(deserialize_workflow("not json at all").is_err());
    let w = sample_workflow();
    let mut text = serialize_workflow(&w);
    text.push('x');
    assert!(deserialize_workflow(&text).is_err(), "trailing garbage must be rejected");
}

#[test]
fn variable_node_with_wrong_properties_shape_is_rejected() {
    let doc = "{\n  \"id\": \"i\",\n  \"name\": \"n\",\n  \"nodes\": [{\"id\": \"n1\", \"position\": {\"x\": 0, \"y\": 0}, \"node_type\": \"variable\", \"properties\": {}}],\n  \"connections\": []\n}";
    assert!(deserialize_workflow(doc).is_err());
}

#[test]
fn round_trip_preserves_multiple_nodes_and_connections_in_order() {
    let mut w = sample_workflow();
    w.connections.push(Connection {
        id: String::from("c2"),
        source_node: String::from("n2"),
        target_node: String::from("n3"),
    });
    let text = serialize_workflow(&w);
    let back = deserialize_workflow(&text).expect("round trip must parse");
    assert_same_workflow(&w, &back);
}
