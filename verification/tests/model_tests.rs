use agentblocks::model::{Coord, NodeKind, Position, Workflow};

fn pos(x: i64, y: i64) -> Position {
    Position { x: Coord::Finite(x), y: Coord::Finite(y) }
}

#[test]
fn create_workflow_is_empty_with_fresh_id() {
    let w = agentblocks::model::create_workflow(String::from("My Flow"));
    assert_eq!(w.name, "My Flow");
    assert!(w.nodes.is_empty());
    assert!(w.connections.is_empty());
    assert_eq!(w.id.len(), 36);
}

#[test]
fn distinct_workflows_get_distinct_ids() {
    let a = agentblocks::model::create_workflow(String::from("a"));
    let b = agentblocks::model::create_workflow(String::from("b"));
    assert_ne!(a.id, b.id);
}

#[test]
fn add_variable_node_stamps_defaults() {
    let mut w = agentblocks::model::create_workflow(String::from("w"));
    agentblocks::model::add_node(&mut w, String::from("variable"), pos(1, 2));
    assert_eq!(w.nodes.len(), 1);
    let n = &w.nodes[0];
    assert_eq!(n.id.len(), 36);
    match &n.kind {
        NodeKind::Variable { name, value } => {
            assert_eq!(name, "myVariable");
            assert_eq!(value, "hello world");
        },
        _ => panic!("expected a variable node"),
    }
}

#[test]
fn add_print_node_stamps_default_message() {
    let mut w = agentblocks::model::create_workflow(String::from("w"));
    agentblocks::model::add_node(&mut w, String::from("print"), pos(0, 0));
    match &w.nodes[0].kind {
        NodeKind::Print { message } => assert_eq!(message, "myVariable"),
        _ => panic!("expected a print node"),
    }
}

#[test]
fn add_unknown_node_carries_its_tag_with_empty_properties() {
    let mut w = agentblocks::model::create_workflow(String::from("w"));
    agentblocks::model::add_node(&mut w, String::from("widget"), pos(0, 0));
    match &w.nodes[0].kind {
        NodeKind::Other { tag } => assert_eq!(tag, "widget"),
        _ => panic!("expected a catch-all node"),
    }
}

#[test]
fn update_position_of_added_node_never_fails() {
    let mut w = agentblocks::model::create_workflow(String::from("w"));
    agentblocks::model::add_node(&mut w, String::from("variable"), pos(0, 0));
    let id = w.nodes[0].id.clone();
    let r = agentblocks::model::update_node_position(&mut w, &id, pos(7, 9));
    assert!(r.is_ok());
    assert_eq!(w.nodes[0].position, pos(7, 9));
}

#[test]
fn update_properties_of_added_node_never_fails() {
    let mut w = agentblocks::model::create_workflow(String::from("w"));
    agentblocks::model::add_node(&mut w, String::from("variable"), pos(0, 0));
    let id = w.nodes[0].id.clone();
    let r = agentblocks::model::update_node_properties(
        &mut w,
        &id,
        NodeKind::Variable { name: String::from("x"), value: String::from("1") },
    );
    assert!(r.is_ok());
    match &w.nodes[0].kind {
        NodeKind::Variable { name, value } => {
            assert_eq!(name, "x");
            assert_eq!(value, "1");
        },
        _ => panic!("expected a variable node"),
    }
}

#[test]
fn update_position_with_absent_id_fails_and_leaves_workflow_unchanged() {
    let mut w = agentblocks::model::create_workflow(String::from("w"));
    agentblocks::model::add_node(&mut w, String::from("variable"), pos(3, 4));
    let old_id = w.nodes[0].id.clone();
    let r = agentblocks::model::update_node_position(&mut w, &String::from("no-such-id"), pos(8, 8));
    assert_eq!(r.unwrap_err(), "Node not found");
    assert_eq!(w.nodes.len(), 1);
    assert_eq!(w.nodes[0].id, old_id);
    assert_eq!(w.nodes[0].position, pos(3, 4));
}

#[test]
fn update_properties_with_absent_id_fails_and_leaves_workflow_unchanged() {
    let mut w = agentblocks::model::create_workflow(String::from("w"));
    agentblocks::model::add_node(&mut w, String::from("print"), pos(1, 1));
    let r = agentblocks::model::update_node_properties(
        &mut w,
        &String::from("missing"),
        NodeKind::Print { message: String::from("m") },
    );
    assert_eq!(r.unwrap_err(), "Node not found");
    match &w.nodes[0].kind {
        NodeKind::Print { message } => assert_eq!(message, "myVariable"),
        _ => panic!("expected the print node untouched"),
    }
}

#[test]
fn update_targets_first_match_by_id() {
    let mut w = agentblocks::model::create_workflow(String::from("w"));
    agentblocks::model::add_node(&mut w, String::from("variable"), pos(0, 0));
    agentblocks::model::add_node(&mut w, String::from("print"), pos(1, 1));
    let second_id = w.nodes[1].id.clone();
    let r = agentblocks::model::update_node_position(&mut w, &second_id, pos(5, 5));
    assert!(r.is_ok());
    assert_eq!(w.nodes[0].position, pos(0, 0));
    assert_eq!(w.nodes[1].position, pos(5, 5));
}

#[test]
fn make_kind_dispatches_on_tag() {
    match agentblocks::model::make_kind(String::from("variable")) {
        NodeKind::Variable { name, value } => {
            assert_eq!(name, "myVariable");
            assert_eq!(value, "hello world");
        },
        _ => panic!("expected variable defaults"),
    }
    match agentblocks::model::make_kind(String::from("print")) {
        NodeKind::Print { message } => assert_eq!(message, "myVariable"),
        _ => panic!("expected print defaults"),
    }
    match agentblocks::model::make_kind(String::from("mystery")) {
        NodeKind::Other { tag } => assert_eq!(tag, "mystery"),
        _ => panic!("expected catch-all"),
    }
    let _ = Workflow {
        id: String::new(),
        name: String::new(),
        nodes: Vec::new(),
        connections: Vec::new(),
    };
}
