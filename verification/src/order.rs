//! The topological orderer: a deterministic, stable ordering of nodes by
//! canvas position (y first, then x). Connections play no part; positions
//! alone decide execution order.

use vstd::prelude::*;
use crate::model::Coord;
use crate::model::NodeKind;
use crate::model::NodeV;
use crate::model::Position;
use crate::model::WorkflowNode;

verus! {

/// Strict order on coordinates: only finite values are ordered; a `Nan`
/// coordinate is ordered before or after nothing.
pub open spec fn coord_lt(a: Coord, b: Coord) -> bool {
    a is Finite && b is Finite && a->0 < b->0
}

/// `a` sorts strictly before `b`: y is the primary key and x the
/// secondary key; an incomparable (Nan) coordinate pair counts as equal.
pub open spec fn pos_before(a: Position, b: Position) -> bool {
    coord_lt(a.y, b.y) || (!coord_lt(a.y, b.y) && !coord_lt(b.y, a.y) && coord_lt(a.x, b.x))
}

/// Where a node lands among already-placed nodes: it walks in from the
/// right past every node it sorts strictly before, so ties keep their
/// original relative order (the sort is stable).
pub open spec fn insert_ordered(n: NodeV, s: Seq<NodeV>) -> Seq<NodeV>
    decreases s.len(),
{
    if s.len() == 0 {
        seq![n]
    } else if pos_before(n.position, s.last().position) {
        insert_ordered(n, s.drop_last()).push(s.last())
    } else {
        s.push(n)
    }
}

/// The execution order of a node sequence: stable insertion sort under
/// `pos_before`.
pub open spec fn sort_nodes(s: Seq<NodeV>) -> Seq<NodeV>
    decreases s.len(),
{
    if s.len() == 0 {
        Seq::empty()
    } else {
        insert_ordered(s.last(), sort_nodes(s.drop_last()))
    }
}

fn coord_lt_exec(a: Coord, b: Coord) -> (r: bool)
    ensures
        r == coord_lt(a, b),
{
    match (a, b) {
        (Coord::Finite(av), Coord::Finite(bv)) => av < bv,
        _ => false,
    }
}

fn pos_before_exec(a: &Position, b: &Position) -> (r: bool)
    ensures
        r == pos_before(*a, *b),
{
    if coord_lt_exec(a.y, b.y) {
        true
    } else if coord_lt_exec(b.y, a.y) {
        false
    } else {
        coord_lt_exec(a.x, b.x)
    }
}

/// A value-identical copy of a node.
pub fn clone_node(n: &WorkflowNode) -> (r: WorkflowNode)
    ensures
        r@ == n@,
{
    let kind = match &n.kind {
        NodeKind::Variable { name, value } => NodeKind::Variable {
            name: name.clone(),
            value: value.clone(),
        },
        NodeKind::Print { message } => NodeKind::Print { message: message.clone() },
        NodeKind::Other { tag } => NodeKind::Other { tag: tag.clone() },
    };
    WorkflowNode { id: n.id.clone(), position: n.position, kind }
}

/// Inserting at the boundary index found by scanning from the right is
/// exactly what `insert_ordered` computes.
proof fn lemma_insert_at(n: NodeV, s: Seq<NodeV>, k: int)
    requires
        0 <= k <= s.len(),
        forall|j: int| k <= j < s.len() ==> pos_before(n.position, (#[trigger] s[j]).position),
        k > 0 ==> !pos_before(n.position, s[k - 1].position),
    ensures
        insert_ordered(n, s) == s.subrange(0, k).push(n) + s.skip(k),
    decreases s.len(),
{
    if s.len() == 0 {
        assert(insert_ordered(n, s) =~= s.subrange(0, 0).push(n) + s.skip(0));
    } else if pos_before(n.position, s.last().position) {
        assert(k < s.len());
        lemma_insert_at(n, s.drop_last(), k);
        assert(s.drop_last().subrange(0, k) =~= s.subrange(0, k));
        assert((s.subrange(0, k).push(n) + s.drop_last().skip(k)).push(s.last()) =~= s.subrange(
            0,
            k,
        ).push(n) + s.skip(k));
    } else {
        assert(k == s.len());
        assert(insert_ordered(n, s) =~= s.subrange(0, k).push(n) + s.skip(k));
    }
}

/// Sorts nodes into execution order: stable insertion sort by position,
/// y before x, incomparable pairs left in place.
pub fn order_nodes(nodes: &Vec<WorkflowNode>) -> (r: Vec<WorkflowNode>)
    ensures
        r@.map_values(|n: WorkflowNode| n@) == sort_nodes(nodes@.map_values(|n: WorkflowNode| n@)),
{
    let ghost nv = nodes@.map_values(|n: WorkflowNode| n@);
    let mut out: Vec<WorkflowNode> = Vec::new();
    let mut i: usize = 0;
    proof {
        assert(out@.map_values(|n: WorkflowNode| n@) =~= sort_nodes(nv.take(0)));
    }
    while i < nodes.len()
        invariant
            0 <= i <= nodes.len(),
            nv == nodes@.map_values(|n: WorkflowNode| n@),
            out@.len() == i,
            out@.map_values(|n: WorkflowNode| n@) == sort_nodes(nv.take(i as int)),
        decreases nodes.len() - i,
    {
        let node = clone_node(&nodes[i]);
        let ghost osq = out@.map_values(|n: WorkflowNode| n@);
        let mut k: usize = out.len();
        while k > 0 && pos_before_exec(&node.position, &out[k - 1].position)
            invariant
                0 <= k <= out.len(),
                osq == out@.map_values(|n: WorkflowNode| n@),
                node@ == nv[i as int],
                forall|j: int|
                    k <= j < osq.len() ==> pos_before(nv[i as int].position, (#[trigger] osq[j]).position),
            decreases k,
        {
            k -= 1;
        }
        out.insert(k, node);
        i += 1;
        proof {
            lemma_insert_at(nv[i - 1 as int], osq, k as int);
            assert(out@.map_values(|n: WorkflowNode| n@) =~= osq.subrange(0, k as int).push(
                nv[i - 1 as int],
            ) + osq.skip(k as int));
            assert(nv.take(i as int).drop_last() =~= nv.take(i - 1 as int));
            assert(nv.take(i as int).last() == nv[i - 1 as int]);
        }
    }
    proof {
        assert(nv.take(i as int) =~= nv);
    }
    out
}

/// The strict order is asymmetric: no pair of positions sorts strictly
/// before one another both ways.
pub proof fn lemma_pos_before_asymmetric(a: Position, b: Position)
    ensures
        pos_before(a, b) ==> !pos_before(b, a),
{
}

/// No adjacent inversion: each node of a sorted sequence does not sort
/// strictly before its predecessor.
pub open spec fn ordered_adjacent(s: Seq<NodeV>) -> bool {
    forall|j: int|
        0 <= j < s.len() - 1 ==> !pos_before((#[trigger] s[j + 1]).position, s[j].position)
}

proof fn lemma_insert_ordered_adjacent(n: NodeV, s: Seq<NodeV>)
    requires
        ordered_adjacent(s),
    ensures
        ordered_adjacent(insert_ordered(n, s)),
    decreases s.len(),
{
    if s.len() == 0 {
    } else if pos_before(n.position, s.last().position) {
        assert(ordered_adjacent(s.drop_last())) by {
            assert(forall|j: int|
                0 <= j < s.drop_last().len() ==> #[trigger] s.drop_last()[j] == s[j]);
        }
        lemma_insert_ordered_adjacent(n, s.drop_last());
        let t = insert_ordered(n, s.drop_last());
        assert forall|j: int|
            0 <= j < t.push(s.last()).len() - 1 implies !pos_before(
            (#[trigger] t.push(s.last())[j + 1]).position,
            t.push(s.last())[j].position,
        ) by {
            if j + 1 < t.len() {
                assert(t.push(s.last())[j] == t[j]);
                assert(t.push(s.last())[j + 1] == t[j + 1]);
            } else {
                // the appended old last element follows `n` or the element
                // that `n` displaced; either way no inversion arises
                assert(t.push(s.last())[j] == t[t.len() - 1]);
                assert(t.push(s.last())[j + 1] == s.last());
                if s.len() >= 2 {
                    assert(!pos_before(s[s.len() - 2 + 1].position, s[s.len() - 2].position));
                    assert(s.drop_last().last() == s[s.len() - 2]);
                }
                lemma_insert_last_no_inversion(n, s.drop_last(), s.last());
            }
        }
    } else {
        assert forall|j: int|
            0 <= j < s.push(n).len() - 1 implies !pos_before(
            (#[trigger] s.push(n)[j + 1]).position,
            s.push(n)[j].position,
        ) by {
            if j + 1 < s.len() {
                assert(s.push(n)[j] == s[j]);
                assert(s.push(n)[j + 1] == s[j + 1]);
            } else {
                assert(s.push(n)[j] == s.last());
                assert(s.push(n)[j + 1] == n);
            }
        }
    }
}

/// The last element of `insert_ordered(n, s)` never sorts strictly after
/// an element `m` that sorted no earlier than every element of `s`.
proof fn lemma_insert_last_no_inversion(n: NodeV, s: Seq<NodeV>, m: NodeV)
    requires
        s.len() > 0 ==> !pos_before(m.position, s.last().position),
        !pos_before(m.position, n.position) || pos_before(n.position, m.position),
    ensures
        !pos_before(m.position, insert_ordered(n, s).last().position),
    decreases s.len(),
{
    if s.len() == 0 {
    } else if pos_before(n.position, s.last().position) {
        assert(insert_ordered(n, s).last() == s.last());
    } else {
        assert(insert_ordered(n, s).last() == n);
    }
}

/// Sorting never loses, duplicates or invents a node: the result is a
/// permutation of the input.
pub proof fn lemma_sort_nodes_permutation(s: Seq<NodeV>)
    ensures
        sort_nodes(s).to_multiset() == s.to_multiset(),
    decreases s.len(),
{
    broadcast use vstd::seq_lib::group_to_multiset_ensures;

    if s.len() > 0 {
        lemma_sort_nodes_permutation(s.drop_last());
        lemma_insert_multiset(s.last(), sort_nodes(s.drop_last()));
        assert(s =~= s.drop_last().push(s.last()));
    }
}

proof fn lemma_insert_multiset(n: NodeV, s: Seq<NodeV>)
    ensures
        insert_ordered(n, s).to_multiset() == s.push(n).to_multiset(),
    decreases s.len(),
{
    broadcast use vstd::seq_lib::group_to_multiset_ensures;

    if s.len() == 0 {
        assert(insert_ordered(n, s) =~= s.push(n));
    } else if pos_before(n.position, s.last().position) {
        lemma_insert_multiset(n, s.drop_last());
        assert(s.drop_last().push(n).to_multiset() == s.drop_last().to_multiset().insert(n));
        assert(insert_ordered(n, s.drop_last()).push(s.last()).to_multiset() == insert_ordered(
            n,
            s.drop_last(),
        ).to_multiset().insert(s.last()));
        assert(s.push(n).to_multiset() == s.to_multiset().insert(n));
        assert(s =~= s.drop_last().push(s.last()));
        assert(s.to_multiset() == s.drop_last().to_multiset().insert(s.last()));
    }
}

/// The execution order has no adjacent inversion: no node sorts strictly
/// before the node placed just before it.
pub proof fn lemma_sort_nodes_ordered(s: Seq<NodeV>)
    ensures
        ordered_adjacent(sort_nodes(s)),
    decreases s.len(),
{
    if s.len() > 0 {
        lemma_sort_nodes_ordered(s.drop_last());
        lemma_insert_ordered_adjacent(s.last(), sort_nodes(s.drop_last()));
    }
}

} // verus!
