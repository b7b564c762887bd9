use agentblocks::model::{Connection, Coord, NodeKind, Position, Workflow, WorkflowNode};
use agentblocks::run::{execution_result, ExecutionResult, RunOutcome};

fn pos(x: i64, y: i64) -> Position {
    Position { x: Coord::Finite(x), y: Coord::Finite(y) }
}

fn node(id: &str, p: Position, kind: NodeKind) -> WorkflowNode {
    WorkflowNode { id: String::from(id), position: p, kind }
}

fn variable(name: &str, value: &str) -> NodeKind {
    NodeKind::Variable { name: String::from(name), value: String::from(value) }
}

fn print(message: &str) -> NodeKind {
    NodeKind::Print { message: String::from(message) }
}

fn workflow(nodes: Vec<WorkflowNode>) -> Workflow {
    Workflow { id: String::from("wf-1"), name: String::from("flow"), nodes, connections: Vec::new() }
}

#[test]
fn ordering_is_by_y_then_x_and_stable() {
    let nodes = vec![
        node("a", pos(0, 5), variable("a", "1")),
        node("b", pos(0, 1), variable("b", "2")),
        node("c", pos(1, 1), variable("c", "3")),
    ];
    let ordered = agentblocks::order::order_nodes(&nodes);
    let ids: Vec<&str> = ordered.iter().map(|n| n.id.as_str()).collect();
    assert_eq!(ids, vec!["b", "c", "a"]);
}

#[test]
fn ordering_keeps_insertion_order_for_equal_positions() {
    let nodes = vec![
        node("first", pos(2, 2), variable("a", "1")),
        node("second", pos(2, 2), variable("b", "2")),
        node("third", pos(2, 2), variable("c", "3")),
    ];
    let ordered = agentblocks::order::order_nodes(&nodes);
    let ids: Vec<&str> = ordered.iter().map(|n| n.id.as_str()).collect();
    assert_eq!(ids, vec!["first", "second", "third"]);
}

#[test]
fn ordering_treats_nan_coordinates_as_equal() {
    let nan = Position { x: Coord::Nan, y: Coord::Nan };
    let nodes = vec![
        node("n1", nan, variable("a", "1")),
        node("n2", pos(0, 0), variable("b", "2")),
        node("n3", nan, variable("c", "3")),
    ];
    let ordered = agentblocks::order::order_nodes(&nodes);
    let ids: Vec<&str> = ordered.iter().map(|n| n.id.as_str()).collect();
    assert_eq!(ids, vec!["n1", "n2", "n3"]);
}

#[test]
fn variable_then_print_emits_assignment_and_reference() {
    let w = workflow(vec![
        node("v", pos(0, 0), variable("x", "hi")),
        node("p", pos(0, 1), print("x")),
    ]);
    let code = agentblocks::codegen::compile_workflow(&w);
    assert_eq!(code, "# Generated Python Code\nx = \"hi\"\nprint(x)\n");
}

#[test]
fn print_of_undeclared_message_emits_a_literal() {
    let w = workflow(vec![node("p", pos(0, 0), print("hello there"))]);
    let code = agentblocks::codegen::compile_workflow(&w);
    assert_eq!(code, "# Generated Python Code\nprint(\"hello there\")\n");
}

#[test]
fn print_before_declaration_emits_a_literal() {
    let w = workflow(vec![
        node("p", pos(0, 0), print("x")),
        node("v", pos(0, 1), variable("x", "hi")),
    ]);
    let code = agentblocks::codegen::compile_workflow(&w);
    assert_eq!(code, "# Generated Python Code\nprint(\"x\")\nx = \"hi\"\n");
}

#[test]
fn unknown_node_contributes_one_comment_and_never_aborts() {
    let w = workflow(vec![
        node("u", pos(0, 0), NodeKind::Other { tag: String::from("widget") }),
        node("v", pos(0, 1), variable("x", "1")),
    ]);
    let code = agentblocks::codegen::compile_workflow(&w);
    assert_eq!(code, "# Generated Python Code\n# Unknown node type: widget\nx = \"1\"\n");
    let comment_lines = code.lines().filter(|l| l.starts_with("# Unknown node type:")).count();
    assert_eq!(comment_lines, 1);
}

#[test]
fn later_variable_binding_overwrites_earlier_one() {
    let w = workflow(vec![
        node("v1", pos(0, 0), variable("x", "1")),
        node("v2", pos(0, 1), variable("x", "2")),
        node("p", pos(0, 2), print("x")),
    ]);
    let code = agentblocks::codegen::compile_workflow(&w);
    assert_eq!(code, "# Generated Python Code\nx = \"1\"\nx = \"2\"\nprint(x)\n");
}

#[test]
fn generated_code_follows_position_order_not_insertion_order() {
    let w = workflow(vec![
        node("p", pos(1, 0), print("greeting")),
        node("v", pos(0, 0), variable("greeting", "hello")),
    ]);
    let code = agentblocks::codegen::compile_workflow(&w);
    assert_eq!(code, "# Generated Python Code\ngreeting = \"hello\"\nprint(greeting)\n");
}

#[test]
fn successful_run_reports_stdout_and_no_error() {
    let r: ExecutionResult = execution_result(
        String::from("code"),
        RunOutcome::Finished {
            exit_ok: true,
            stdout: String::from("hello\n"),
            stderr: String::new(),
        },
    );
    assert!(r.success);
    assert_eq!(r.output, "hello\n");
    assert!(r.error.is_none());
}

#[test]
fn failed_run_reports_stderr_and_the_source() {
    let r = execution_result(
        String::from("the source"),
        RunOutcome::Finished {
            exit_ok: false,
            stdout: String::from("partial"),
            stderr: String::from("Traceback"),
        },
    );
    assert!(!r.success);
    assert_eq!(r.output, "the source");
    assert_eq!(r.error.as_deref(), Some("Traceback"));
}

#[test]
fn write_failure_is_reported_distinctly() {
    let r = execution_result(
        String::from("src"),
        RunOutcome::WriteFailed(String::from("disk full")),
    );
    assert!(!r.success);
    assert_eq!(r.output, "src");
    assert_eq!(r.error.as_deref(), Some("Failed to write Python file: disk full"));
}

#[test]
fn spawn_failure_is_reported_distinctly() {
    let r = execution_result(
        String::from("src"),
        RunOutcome::SpawnFailed(String::from("no interpreter")),
    );
    assert!(!r.success);
    assert_eq!(r.output, "src");
    assert_eq!(r.error.as_deref(), Some("Failed to execute Python: no interpreter"));
}

#[test]
fn connections_play_no_part_in_generated_code() {
    let mut w = workflow(vec![node("v", pos(0, 0), variable("x", "1"))]);
    w.connections.push(Connection {
        id: String::from("c1"),
        source_node: String::from("v"),
        target_node: String::from("v"),
    });
    let code = agentblocks::codegen::compile_workflow(&w);
    assert_eq!(code, "# Generated Python Code\nx = \"1\"\n");
}
