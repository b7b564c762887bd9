//! The document model: workflows, nodes, connections, canvas positions,
//! and the value-semantics operations that build and edit them.

use vstd::prelude::*;

verus! {

/// One coordinate of a canvas position. A coordinate is either an ordered
/// finite value or `Nan`, a degenerate value that compares as equal to
/// everything (the orderer must never reject a position, only degrade).
#[derive(Clone, Copy, PartialEq, Eq, Structural, Debug)]
pub enum Coord {
    Finite(i64),
    Nan,
}

/// A 2-D canvas position, used purely as a sort key for execution order.
#[derive(Clone, Copy, PartialEq, Eq, Structural, Debug)]
pub struct Position {
    pub x: Coord,
    pub y: Coord,
}

/// The typed payload of a node: one variant per recognized node type,
/// plus a catch-all for unrecognized tags.
#[derive(Debug)]
pub enum NodeKind {
    Variable { name: String, value: String },
    Print { message: String },
    Other { tag: String },
}

/// A node of the workflow graph: an identity, a canvas position, and a
/// typed payload.
#[derive(Debug)]
pub struct WorkflowNode {
    pub id: String,
    pub position: Position,
    pub kind: NodeKind,
}

/// A directed edge between two nodes. Recorded and persisted, but not
/// consumed by the compiler: execution order comes from positions.
#[derive(Debug)]
pub struct Connection {
    pub id: String,
    pub source_node: String,
    pub target_node: String,
}

/// The whole document: identity, name, nodes and connections in
/// insertion order.
#[derive(Debug)]
pub struct Workflow {
    pub id: String,
    pub name: String,
    pub nodes: Vec<WorkflowNode>,
    pub connections: Vec<Connection>,
}

/// Mathematical model of a `NodeKind`.
#[verifier::ext_equal]
pub ghost enum KindV {
    Variable { name: Seq<char>, value: Seq<char> },
    Print { message: Seq<char> },
    Other { tag: Seq<char> },
}

/// Mathematical model of a `WorkflowNode`.
#[verifier::ext_equal]
pub ghost struct NodeV {
    pub id: Seq<char>,
    pub position: Position,
    pub kind: KindV,
}

/// Mathematical model of a `Connection`.
#[verifier::ext_equal]
pub ghost struct ConnV {
    pub id: Seq<char>,
    pub source_node: Seq<char>,
    pub target_node: Seq<char>,
}

/// Mathematical model of a `Workflow`.
#[verifier::ext_equal]
pub ghost struct WorkflowV {
    pub id: Seq<char>,
    pub name: Seq<char>,
    pub nodes: Seq<NodeV>,
    pub connections: Seq<ConnV>,
}

impl View for NodeKind {
    type V = KindV;

    open spec fn view(&self) -> KindV {
        match self {
            NodeKind::Variable { name, value } => KindV::Variable {
                name: name@,
                value: value@,
            },
            NodeKind::Print { message } => KindV::Print { message: message@ },
            NodeKind::Other { tag } => KindV::Other { tag: tag@ },
        }
    }
}

impl View for WorkflowNode {
    type V = NodeV;

    open spec fn view(&self) -> NodeV {
        NodeV { id: self.id@, position: self.position, kind: self.kind@ }
    }
}

impl View for Connection {
    type V = ConnV;

    open spec fn view(&self) -> ConnV {
        ConnV {
            id: self.id@,
            source_node: self.source_node@,
            target_node: self.target_node@,
        }
    }
}

impl View for Workflow {
    type V = WorkflowV;

    open spec fn view(&self) -> WorkflowV {
        WorkflowV {
            id: self.id@,
            name: self.name@,
            nodes: self.nodes@.map_values(|n: WorkflowNode| n@),
            connections: self.connections@.map_values(|c: Connection| c@),
        }
    }
}

/// A kind is well formed when a catch-all tag is not one of the
/// recognized tags, so that every payload has exactly one representation.
pub open spec fn kind_wf(k: KindV) -> bool {
    match k {
        KindV::Other { tag } => tag != "variable"@ && tag != "print"@,
        _ => true,
    }
}

/// A workflow is well formed when every node's kind is well formed.
pub open spec fn workflow_wf(w: WorkflowV) -> bool {
    forall|i: int| 0 <= i < w.nodes.len() ==> kind_wf(#[trigger] w.nodes[i].kind)
}

/// Index of the first node whose id is `id`: a linear scan, first match
/// wins. Duplicate ids are not validated; later duplicates are shadowed.
pub open spec fn find_node(nodes: Seq<NodeV>, id: Seq<char>) -> Option<int>
    decreases nodes.len(),
{
    if nodes.len() <= 0 {
        None
    } else if nodes[0].id == id {
        Some(0int)
    } else {
        match find_node(nodes.skip(1), id) {
            Some(i) => Some(i + 1),
            None => None,
        }
    }
}

/// What the first match means: a found index holds the id and nothing
/// before it does; a miss means no node holds the id at all.
pub proof fn lemma_find_characterization(nodes: Seq<NodeV>, id: Seq<char>)
    ensures
        match find_node(nodes, id) {
            Some(i) => 0 <= i < nodes.len() && nodes[i].id == id && (forall|j: int|
                0 <= j < i ==> (#[trigger] nodes[j]).id != id),
            None => forall|j: int| 0 <= j < nodes.len() ==> (#[trigger] nodes[j]).id != id,
        },
    decreases nodes.len(),
{
    if nodes.len() > 0 && nodes[0].id != id {
        let rest = nodes.skip(1);
        lemma_find_characterization(rest, id);
        if find_node(rest, id) is Some {
            let i = find_node(rest, id)->0;
            assert(rest[i] == nodes[i + 1]);
            assert forall|j: int| 0 <= j < i + 1 implies (#[trigger] nodes[j]).id != id by {
                if j > 0 {
                    assert(rest[j - 1] == nodes[j]);
                }
            }
        } else {
            assert forall|j: int| 0 <= j < nodes.len() implies (#[trigger] nodes[j]).id != id by {
                if j > 0 {
                    assert(rest[j - 1] == nodes[j]);
                }
            }
        }
    }
}

/// Shifting a scan: when the first `k` nodes do not hold the id, the
/// search result is the search over the remainder, offset by `k`.
pub proof fn lemma_find_skip(nodes: Seq<NodeV>, id: Seq<char>, k: int)
    requires
        0 <= k <= nodes.len(),
        forall|j: int| 0 <= j < k ==> (#[trigger] nodes[j]).id != id,
    ensures
        find_node(nodes, id) == match find_node(nodes.skip(k), id) {
            Some(i) => Some(i + k),
            None => None::<int>,
        },
    decreases k,
{
    if k > 0 {
        lemma_find_skip(nodes.skip(1), id, k - 1);
        assert(nodes.skip(1).skip(k - 1) =~= nodes.skip(k));
    } else {
        assert(nodes.skip(0) =~= nodes);
    }
}

/// A node just appended is always found: looking up `n.id` in
/// `nodes.push(n)` never yields `None`, so an update keyed by the id of
/// a freshly added node never fails with "Node not found".
pub proof fn lemma_find_added(nodes: Seq<NodeV>, n: NodeV)
    ensures
        find_node(nodes.push(n), n.id) is Some,
    decreases nodes.len(),
{
    if nodes.len() == 0 {
        assert(nodes.push(n)[0] == n);
    } else if nodes.push(n)[0].id != n.id {
        lemma_find_added(nodes.skip(1), n);
        assert(nodes.push(n).skip(1) =~= nodes.skip(1).push(n));
    }
}

/// The default payload stamped onto a freshly created node of the given
/// type tag.
pub open spec fn default_kind(tag: Seq<char>) -> KindV {
    if tag == "variable"@ {
        KindV::Variable { name: "myVariable"@, value: "hello world"@ }
    } else if tag == "print"@ {
        KindV::Print { message: "myVariable"@ }
    } else {
        KindV::Other { tag: tag }
    }
}

/// Builds the default payload for a node type tag: recognized tags get
/// their conventional starting properties, anything else is carried as a
/// catch-all payload.
pub fn make_kind(node_type: String) -> (k: NodeKind)
    ensures
        k@ == default_kind(node_type@),
        kind_wf(k@),
{
    let variable_tag: String = String::from_str("variable");
    let print_tag: String = String::from_str("print");
    if node_type == variable_tag {
        NodeKind::Variable {
            name: String::from_str("myVariable"),
            value: String::from_str("hello world"),
        }
    } else if node_type == print_tag {
        NodeKind::Print { message: String::from_str("myVariable") }
    } else {
        NodeKind::Other { tag: node_type }
    }
}

/// Creates an empty workflow with a fresh identity and the given name.
pub fn create_workflow(name: String) -> (w: Workflow)
    ensures
        w@.name == name@,
        w@.nodes == Seq::<NodeV>::empty(),
        w@.connections == Seq::<ConnV>::empty(),
        w@.id.len() == 36,
        workflow_wf(w@),
{
    let w = Workflow {
        id: crate::outside::fresh_id(),
        name,
        nodes: Vec::new(),
        connections: Vec::new(),
    };
    proof {
        assert(w@.nodes =~= Seq::<NodeV>::empty());
        assert(w@.connections =~= Seq::<ConnV>::empty());
    }
    w
}

/// Appends a node of the given type at the given position, with a fresh
/// id and the type's default payload. Everything else is unchanged.
pub fn add_node(workflow: &mut Workflow, node_type: String, position: Position)
    ensures
        final(workflow)@.id == old(workflow)@.id,
        final(workflow)@.name == old(workflow)@.name,
        final(workflow)@.connections == old(workflow)@.connections,
        final(workflow)@.nodes.len() == old(workflow)@.nodes.len() + 1,
        final(workflow)@.nodes.drop_last() == old(workflow)@.nodes,
        final(workflow)@.nodes.last().position == position,
        final(workflow)@.nodes.last().kind == default_kind(node_type@),
        final(workflow)@.nodes.last().id.len() == 36,
        workflow_wf(old(workflow)@) ==> workflow_wf(final(workflow)@),
{
    let kind = make_kind(node_type);
    let node = WorkflowNode { id: crate::outside::fresh_id(), position, kind };
    workflow.nodes.push(node);
    proof {
        assert(workflow@.nodes.drop_last() =~= old(workflow)@.nodes);
        if workflow_wf(old(workflow)@) {
            assert forall|i: int| 0 <= i < workflow@.nodes.len() implies kind_wf(
                #[trigger] workflow@.nodes[i].kind,
            ) by {
                if i < old(workflow)@.nodes.len() {
                    assert(workflow@.nodes.drop_last()[i] == workflow@.nodes[i]);
                } else {
                    assert(workflow@.nodes[i] == workflow@.nodes.last());
                }
            }
        }
    }
}

/// Moves the first node with the given id to a new position. When no
/// node holds the id, fails with "Node not found" and leaves the
/// workflow exactly as it was.
pub fn update_node_position(workflow: &mut Workflow, node_id: &String, position: Position) -> (r:
    Result<(), String>)
    ensures
        match find_node(old(workflow)@.nodes, node_id@) {
            Some(i) => {
                &&& r is Ok
                &&& final(workflow)@.nodes == old(workflow)@.nodes.update(
                    i,
                    (NodeV {
                        id: old(workflow)@.nodes[i].id,
                        position: position,
                        kind: old(workflow)@.nodes[i].kind,
                    }),
                )
                &&& final(workflow)@.id == old(workflow)@.id
                &&& final(workflow)@.name == old(workflow)@.name
                &&& final(workflow)@.connections == old(workflow)@.connections
            },
            None => {
                &&& r is Err
                &&& r->Err_0@ == "Node not found"@
                &&& final(workflow)@ == old(workflow)@
            },
        },
        workflow_wf(old(workflow)@) ==> workflow_wf(final(workflow)@),
{
    match find_index(&workflow.nodes, node_id) {
        Some(i) => {
            let mut node = workflow.nodes.remove(i);
            node.position = position;
            workflow.nodes.insert(i, node);
            proof {
                assert(workflow@.nodes =~= old(workflow)@.nodes.update(
                    i as int,
                    (NodeV {
                        id: old(workflow)@.nodes[i as int].id,
                        position: position,
                        kind: old(workflow)@.nodes[i as int].kind,
                    }),
                ));
                if workflow_wf(old(workflow)@) {
                    assert forall|j: int| 0 <= j < workflow@.nodes.len() implies kind_wf(
                        #[trigger] workflow@.nodes[j].kind,
                    ) by {
                        assert(old(workflow)@.nodes[j].kind == workflow@.nodes[j].kind);
                    }
                }
            }
            Ok(())
        },
        None => Err(String::from_str("Node not found")),
    }
}

/// Replaces the payload of the first node with the given id. When no
/// node holds the id, fails with "Node not found" and leaves the
/// workflow exactly as it was.
pub fn update_node_properties(workflow: &mut Workflow, node_id: &String, kind: NodeKind) -> (r:
    Result<(), String>)
    requires
        kind_wf(kind@),
    ensures
        match find_node(old(workflow)@.nodes, node_id@) {
            Some(i) => {
                &&& r is Ok
                &&& final(workflow)@.nodes == old(workflow)@.nodes.update(
                    i,
                    (NodeV {
                        id: old(workflow)@.nodes[i].id,
                        position: old(workflow)@.nodes[i].position,
                        kind: kind@,
                    }),
                )
                &&& final(workflow)@.id == old(workflow)@.id
                &&& final(workflow)@.name == old(workflow)@.name
                &&& final(workflow)@.connections == old(workflow)@.connections
            },
            None => {
                &&& r is Err
                &&& r->Err_0@ == "Node not found"@
                &&& final(workflow)@ == old(workflow)@
            },
        },
        workflow_wf(old(workflow)@) ==> workflow_wf(final(workflow)@),
{
    let ghost k = kind@;
    match find_index(&workflow.nodes, node_id) {
        Some(i) => {
            let mut node = workflow.nodes.remove(i);
            node.kind = kind;
            workflow.nodes.insert(i, node);
            proof {
                assert(workflow@.nodes =~= old(workflow)@.nodes.update(
                    i as int,
                    (NodeV {
                        id: old(workflow)@.nodes[i as int].id,
                        position: old(workflow)@.nodes[i as int].position,
                        kind: k,
                    }),
                ));
                if workflow_wf(old(workflow)@) {
                    assert forall|j: int| 0 <= j < workflow@.nodes.len() implies kind_wf(
                        #[trigger] workflow@.nodes[j].kind,
                    ) by {
                        if j != i as int {
                            assert(old(workflow)@.nodes[j].kind == workflow@.nodes[j].kind);
                        }
                    }
                }
            }
            Ok(())
        },
        None => Err(String::from_str("Node not found")),
    }
}

/// Linear scan for the first node holding the given id.
fn find_index(nodes: &Vec<WorkflowNode>, id: &String) -> (r: Option<usize>)
    ensures
        match r {
            Some(i) => i < nodes@.len() && find_node(nodes@.map_values(|n: WorkflowNode| n@), id@)
                == Some(i as int),
            None => find_node(nodes@.map_values(|n: WorkflowNode| n@), id@) is None,
        },
{
    proof {
        lemma_find_characterization(nodes@.map_values(|n: WorkflowNode| n@), id@);
    }
    let ghost nv = nodes@.map_values(|n: WorkflowNode| n@);
    let mut i: usize = 0;
    while i < nodes.len()
        invariant
            0 <= i <= nodes.len(),
            nv == nodes@.map_values(|n: WorkflowNode| n@),
            forall|j: int| 0 <= j < i ==> (#[trigger] nv[j]).id != id@,
        decreases nodes.len() - i,
    {
        if nodes[i].id == *id {
            proof {
                lemma_find_skip(nv, id@, i as int);
                assert(nv.skip(i as int)[0] == nv[i as int]);
            }
            return Some(i);
        }
        i += 1;
    }
    proof {
        lemma_find_skip(nv, id@, i as int);
        assert(nv.skip(i as int).len() == 0);
    }
    None
}

} // verus!

