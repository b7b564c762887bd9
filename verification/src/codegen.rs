//! The code generator: walks the ordered node sequence once, tracking the
//! variable names declared so far, and emits one Python statement (or
//! comment) per node under a fixed header line.

use vstd::prelude::*;
use vstd::string::StringExecFns;
use crate::model::KindV;
use crate::model::NodeKind;
use crate::model::NodeV;
use crate::model::Workflow;
use crate::model::WorkflowNode;
use crate::order::order_nodes;
use crate::order::sort_nodes;

verus! {

/// The source line (or lines) one node contributes, given the set of
/// variable names declared before it: a variable node declares, a print
/// node prints by reference when its message names a declared variable
/// and as a literal otherwise, and an unknown node contributes exactly
/// one comment line. Literal emission does not escape embedded quotes.
pub open spec fn gen_node(n: NodeV, vars: Set<Seq<char>>) -> Seq<char> {
    match n.kind {
        KindV::Variable { name, value } => name + " = \""@ + value + "\"\n"@,
        KindV::Print { message } => if vars.contains(message) {
            "print("@ + message + ")\n"@
        } else {
            "print(\""@ + message + "\")\n"@
        },
        KindV::Other { tag } => "# Unknown node type: "@ + tag + "\n"@,
    }
}

/// The declared-variable names after one node: a variable node binds its
/// name (overwriting any earlier binding), everything else binds nothing.
pub open spec fn vars_after(n: NodeV, vars: Set<Seq<char>>) -> Set<Seq<char>> {
    match n.kind {
        KindV::Variable { name, value } => vars.insert(name),
        _ => vars,
    }
}

/// The declared-variable names after a whole node sequence.
pub open spec fn vars_after_seq(s: Seq<NodeV>, vars: Set<Seq<char>>) -> Set<Seq<char>>
    decreases s.len(),
{
    if s.len() == 0 {
        vars
    } else {
        vars_after_seq(s.skip(1), vars_after(s[0], vars))
    }
}

/// The lines a node sequence contributes, threading the declared names
/// left to right.
pub open spec fn gen_lines(s: Seq<NodeV>, vars: Set<Seq<char>>) -> Seq<char>
    decreases s.len(),
{
    if s.len() == 0 {
        Seq::empty()
    } else {
        gen_node(s[0], vars) + gen_lines(s.skip(1), vars_after(s[0], vars))
    }
}

/// The whole generated program for a workflow's nodes: the fixed header
/// comment, then the lines of the nodes in execution order, starting
/// with no declared variables.
pub open spec fn gen_code(nodes: Seq<NodeV>) -> Seq<char> {
    "# Generated Python Code\n"@ + gen_lines(sort_nodes(nodes), Set::empty())
}

/// Generating for one more node at the end extends the text by that
/// node's lines under the names declared so far, and binds its name if
/// it declares one.
proof fn lemma_gen_lines_snoc(s: Seq<NodeV>, n: NodeV, vars: Set<Seq<char>>)
    ensures
        gen_lines(s.push(n), vars) == gen_lines(s, vars) + gen_node(n, vars_after_seq(s, vars)),
        vars_after_seq(s.push(n), vars) == vars_after(n, vars_after_seq(s, vars)),
    decreases s.len(),
{
    if s.len() == 0 {
        let e = Seq::<NodeV>::empty();
        assert(s.push(n)[0] == n);
        assert(s.push(n).skip(1) =~= e);
        assert(gen_lines(s.push(n), vars) == gen_node(n, vars) + gen_lines(
            e,
            vars_after(n, vars),
        ));
        assert(vars_after_seq(s, vars) == vars);
        assert(gen_node(n, vars) + Seq::<char>::empty() =~= Seq::<char>::empty() + gen_node(
            n,
            vars,
        ));
        assert(vars_after_seq(s.push(n), vars) == vars_after_seq(e, vars_after(n, vars)));
    } else {
        let ghost va0 = vars_after(s[0], vars);
        assert(s.push(n)[0] == s[0]);
        assert(s.push(n).skip(1) =~= s.skip(1).push(n));
        lemma_gen_lines_snoc(s.skip(1), n, va0);
        assert(gen_lines(s.push(n), vars) == gen_node(s[0], vars) + gen_lines(
            s.skip(1).push(n),
            va0,
        ));
        assert(gen_lines(s, vars) == gen_node(s[0], vars) + gen_lines(s.skip(1), va0));
        assert(vars_after_seq(s, vars) == vars_after_seq(s.skip(1), va0));
        assert(vars_after_seq(s.push(n), vars) == vars_after_seq(s.skip(1).push(n), va0));
        assert(gen_node(s[0], vars) + (gen_lines(s.skip(1), va0) + gen_node(
            n,
            vars_after_seq(s.skip(1), va0),
        )) =~= (gen_node(s[0], vars) + gen_lines(s.skip(1), va0)) + gen_node(
            n,
            vars_after_seq(s.skip(1), va0),
        ));
    }
}

/// The set of views of a sequence of strings.
pub open spec fn strs_set(v: Seq<String>) -> Set<Seq<char>> {
    Set::new(|x: Seq<char>| exists|i: int| 0 <= i < v.len() && v[i]@ == x)
}

proof fn lemma_strs_set_push(v: Seq<String>, s: String)
    ensures
        strs_set(v.push(s)) == strs_set(v).insert(s@),
{
    assert forall|x: Seq<char>| strs_set(v.push(s)).contains(x) implies strs_set(v).insert(
        s@,
    ).contains(x) by {
        let i = choose|i: int| 0 <= i < v.push(s).len() && v.push(s)[i]@ == x;
        if i < v.len() {
            assert(v[i]@ == x);
        }
    }
    assert forall|x: Seq<char>| strs_set(v).insert(s@).contains(x) implies strs_set(
        v.push(s),
    ).contains(x) by {
        if x == s@ {
            assert(v.push(s)[v.len() as int]@ == x);
        } else {
            let i = choose|i: int| 0 <= i < v.len() && v[i]@ == x;
            assert(v.push(s)[i]@ == x);
        }
    }
    assert(strs_set(v.push(s)) =~= strs_set(v).insert(s@));
}

/// Whether `s` is among the declared names.
fn contains_name(names: &Vec<String>, s: &String) -> (r: bool)
    ensures
        r == strs_set(names@).contains(s@),
{
    let mut i: usize = 0;
    while i < names.len()
        invariant
            0 <= i <= names.len(),
            forall|j: int| 0 <= j < i ==> (#[trigger] names@[j])@ != s@,
        decreases names.len() - i,
    {
        if names[i] == *s {
            assert(strs_set(names@).contains(s@));
            return true;
        }
        i += 1;
    }
    assert(!strs_set(names@).contains(s@));
    false
}

/// Generates the program text for the given nodes: orders them by
/// position, then emits the header line and one statement or comment per
/// node, resolving print messages against the variables declared so far.
pub fn generate_code(nodes: &Vec<WorkflowNode>) -> (r: String)
    ensures
        r@ == gen_code(nodes@.map_values(|n: WorkflowNode| n@)),
{
    let ordered = order_nodes(nodes);
    let ghost ov = ordered@.map_values(|n: WorkflowNode| n@);
    let mut code = String::from_str("# Generated Python Code\n");
    let mut names: Vec<String> = Vec::new();
    let mut i: usize = 0;
    proof {
        assert(ov.take(0) =~= Seq::<NodeV>::empty());
        assert(code@ =~= "# Generated Python Code\n"@ + gen_lines(ov.take(0), Set::empty()));
    }
    while i < ordered.len()
        invariant
            0 <= i <= ordered.len(),
            ov == ordered@.map_values(|n: WorkflowNode| n@),
            code@ == "# Generated Python Code\n"@ + gen_lines(ov.take(i as int), Set::empty()),
            strs_set(names@) == vars_after_seq(ov.take(i as int), Set::empty()),
        decreases ordered.len() - i,
    {
        let ghost prefix = ov.take(i as int);
        let ghost vars = vars_after_seq(prefix, Set::empty());
        let node = &ordered[i];
        match &node.kind {
            NodeKind::Variable { name, value } => {
                let ghost names0 = names@;
                code.append(name.as_str());
                code.append(" = \"");
                code.append(value.as_str());
                code.append("\"\n");
                names.push(name.clone());
                proof {
                    lemma_strs_set_push(names0, names@[names0.len() as int]);
                    assert(names0.push(names@[names0.len() as int]) =~= names@);
                    assert(names@[names0.len() as int]@ == name@);
                }
            },
            NodeKind::Print { message } => {
                if contains_name(&names, message) {
                    code.append("print(");
                    code.append(message.as_str());
                    code.append(")\n");
                } else {
                    code.append("print(\"");
                    code.append(message.as_str());
                    code.append("\")\n");
                }
            },
            NodeKind::Other { tag } => {
                code.append("# Unknown node type: ");
                code.append(tag.as_str());
                code.append("\n");
            },
        }
        i += 1;
        proof {
            lemma_gen_lines_snoc(prefix, ov[i - 1 as int], Set::empty());
            assert(ov.take(i as int) =~= prefix.push(ov[i - 1 as int]));
            assert(code@ =~= "# Generated Python Code\n"@ + gen_lines(
                ov.take(i as int),
                Set::empty(),
            ));
        }
    }
    proof {
        assert(ov.take(i as int) =~= ov);
    }
    code
}

/// Compiles a workflow to program text.
pub fn compile_workflow(w: &Workflow) -> (r: String)
    ensures
        r@ == gen_code(w@.nodes),
{
    generate_code(&w.nodes)
}

} // verus!
