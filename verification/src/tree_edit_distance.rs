//! Structural helpers of the tree edit distance: when two nodes match, and
//! how many nodes a subtree holds.

use vstd::prelude::*;

use crate::ast::{kinds_equal, Ast, AstNode, NodeId, NodeKind};

verus! {

/// Kinds whose nodes match on kind alone.
pub open spec fn is_structural(kind: NodeKind) -> bool {
    kind is Module || kind is Class || kind is Function || kind is Method || kind is Block
        || kind is IfStatement || kind is ForLoop || kind is WhileLoop
}

/// Two optional texts are equal.
pub open spec fn texts_equal(a: Option<String>, b: Option<String>) -> bool {
    match (a, b) {
        (Some(x), Some(y)) => x@ == y@,
        (None, None) => true,
        _ => false,
    }
}

/// Two nodes match when they have the same kind and, unless the kind is
/// structural, the same text.
pub open spec fn nodes_match_spec(node1: AstNode, node2: AstNode) -> bool {
    kinds_equal(node1.kind, node2.kind) && (is_structural(node1.kind) || texts_equal(
        node1.text,
        node2.text,
    ))
}

/// The matching law: nodes of different kinds never match; nodes of one
/// kind match when their texts agree; and where they do not agree, only
/// the eight structural kinds (module, class, function, method, block,
/// `if`, `for`, `while`) still match, so two expression nodes such as
/// `a + b` and `a - b` never do.
pub proof fn lemma_nodes_match_texts(node1: AstNode, node2: AstNode)
    ensures
        nodes_match_spec(node1, node2) ==> kinds_equal(node1.kind, node2.kind),
        nodes_match_spec(node1, node2) && !(node1.kind is Module || node1.kind is Class
            || node1.kind is Function || node1.kind is Method || node1.kind is Block
            || node1.kind is IfStatement || node1.kind is ForLoop || node1.kind is WhileLoop) ==> (
        (node1.text is None && node2.text is None) || (node1.text is Some && node2.text is Some
            && node1.text->0@ == node2.text->0@)),
        kinds_equal(node1.kind, node2.kind) && ((node1.text is None && node2.text is None) || (
        node1.text is Some && node2.text is Some && node1.text->0@ == node2.text->0@))
            ==> nodes_match_spec(node1, node2),
{
}

/// Check if two nodes match (same kind and similar text).
pub fn nodes_match(node1: &AstNode, node2: &AstNode) -> (r: bool)
    ensures
        r == nodes_match_spec(*node1, *node2),
{
    if node1.kind != node2.kind {
        return false;
    }
    match node1.kind {
        NodeKind::Module
        | NodeKind::Class
        | NodeKind::Function
        | NodeKind::Method
        | NodeKind::Block
        | NodeKind::IfStatement
        | NodeKind::ForLoop
        | NodeKind::WhileLoop => true,
        _ => match (&node1.text, &node2.text) {
            (Some(a), Some(b)) => a.eq(b),
            (None, None) => true,
            _ => false,
        },
    }
}

/// Number of nodes of the subtree at `id` down to depth `fuel` (a node that
/// is not found counts for nothing). Children are counted once per
/// reference.
pub open spec fn tree_size(ast: Ast, id: NodeId, fuel: nat) -> nat
    decreases fuel, 0nat,
{
    if fuel == 0 {
        0
    } else {
        match ast.lookup(id) {
            None => 0,
            Some(n) => 1 + forest_size(ast, n.children@, (fuel - 1) as nat),
        }
    }
}

/// Number of nodes of the subtrees at `ids` down to depth `fuel`.
pub open spec fn forest_size(ast: Ast, ids: Seq<NodeId>, fuel: nat) -> nat
    decreases fuel, ids.len(),
{
    if ids.len() == 0 {
        0
    } else {
        forest_size(ast, ids.drop_last(), fuel) + tree_size(ast, ids.last(), fuel)
    }
}

/// Number of nodes of the subtrees on a stack whose entries sit at the
/// given depths, counted down to depth `fuel` from the top.
spec fn stack_size(ast: Ast, stack: Seq<NodeId>, depths: Seq<nat>, fuel: nat) -> nat
    decreases stack.len(),
{
    if stack.len() == 0 || depths.len() == 0 {
        0
    } else {
        stack_size(ast, stack.drop_last(), depths.drop_last(), fuel) + tree_size(
            ast,
            stack.last(),
            if fuel >= depths.last() {
                (fuel - depths.last()) as nat
            } else {
                0
            },
        )
    }
}

/// How many of the depths are below `fuel`.
spec fn count_below(depths: Seq<nat>, fuel: nat) -> nat
    decreases depths.len(),
{
    if depths.len() == 0 {
        0
    } else {
        count_below(depths.drop_last(), fuel) + if depths.last() < fuel {
            1nat
        } else {
            0nat
        }
    }
}

proof fn lemma_count_below_all(depths: Seq<nat>, fuel: nat)
    requires
        forall|i: int| 0 <= i < depths.len() ==> #[trigger] depths[i] < fuel,
    ensures
        count_below(depths, fuel) == depths.len(),
    decreases depths.len(),
{
    if depths.len() > 0 {
        assert forall|i: int| 0 <= i < depths.drop_last().len() implies #[trigger] depths.drop_last()[i]
            < fuel by {
            assert(depths.drop_last()[i] == depths[i]);
        }
        lemma_count_below_all(depths.drop_last(), fuel);
    }
}

proof fn lemma_count_below_bound(depths: Seq<nat>, fuel: nat)
    ensures
        count_below(depths, fuel) <= depths.len(),
    decreases depths.len(),
{
    if depths.len() > 0 {
        lemma_count_below_bound(depths.drop_last(), fuel);
    }
}

/// Pushing children at depth `d` adds their forest at the matching fuel.
proof fn lemma_stack_push_children(
    ast: Ast,
    stack: Seq<NodeId>,
    depths: Seq<nat>,
    children: Seq<NodeId>,
    d: nat,
    fuel: nat,
)
    requires
        stack.len() == depths.len(),
    ensures
        stack_size(
            ast,
            stack + children,
            depths + Seq::new(children.len(), |i: int| d),
            fuel,
        ) == stack_size(ast, stack, depths, fuel) + forest_size(
            ast,
            children,
            if fuel >= d {
                (fuel - d) as nat
            } else {
                0
            },
        ),
    decreases children.len(),
{
    let f = if fuel >= d {
        (fuel - d) as nat
    } else {
        0
    };
    if children.len() > 0 {
        let cs = children.drop_last();
        lemma_stack_push_children(ast, stack, depths, cs, d, fuel);
        let s2 = stack + children;
        let d2 = depths + Seq::new(children.len(), |i: int| d);
        assert(s2.drop_last() =~= stack + cs);
        assert(d2.drop_last() =~= depths + Seq::new(cs.len(), |i: int| d));
        assert(s2.last() == children.last());
        assert(d2.last() == d);
    } else {
        assert(stack + children =~= stack);
        assert(depths + Seq::new(children.len(), |i: int| d) =~= depths);
    }
}

/// With fuel 0 nothing is counted.
proof fn lemma_forest_size_zero(ast: Ast, ids: Seq<NodeId>)
    ensures
        forest_size(ast, ids, 0) == 0,
    decreases ids.len(),
{
    if ids.len() > 0 {
        lemma_forest_size_zero(ast, ids.drop_last());
        assert(tree_size(ast, ids.last(), 0) == 0);
    }
}

/// From depth `f` on, the subtree at `id` has `s` nodes: the subtree is
/// finite, of size `s`.
pub open spec fn size_settles(ast: Ast, id: NodeId, f: nat, s: nat) -> bool {
    forall|g: nat| g >= f ==> #[trigger] tree_size(ast, id, g) == s
}

/// Maximum number of nodes `count_nodes` counts.
pub const MAX_NODES_TO_COUNT: usize = 1000;

/// Count the nodes of a subtree (iteratively, without recursion), stopping
/// at 1000. The result is the size of the subtree, or 1000 where the
/// subtree has at least 1000 nodes (or is infinite, when a node is its own
/// descendant).
pub fn count_nodes(ast: &Ast, node_id: NodeId) -> (r: usize)
    ensures
        r <= MAX_NODES_TO_COUNT,
        r < MAX_NODES_TO_COUNT ==> exists|f: nat| #[trigger] size_settles(*ast, node_id, f, r as nat),
        r == MAX_NODES_TO_COUNT ==> exists|f: nat| #[trigger] tree_size(*ast, node_id, f)
            >= MAX_NODES_TO_COUNT,
{
    let mut count: usize = 0;
    let mut stack: Vec<NodeId> = Vec::new();
    stack.push(node_id);
    let ghost mut depths: Seq<nat> = seq![0nat];
    let ghost mut counted: Seq<nat> = Seq::empty();
    let ghost mut top: nat = 1;
    proof {
        assert forall|f: nat| #[trigger] tree_size(*ast, node_id, f) == count_below(counted, f) + stack_size(*ast, stack@, depths, f) by {
            assert(stack@.drop_last().len() == 0);
            assert(stack@.last() == node_id);
            assert(depths.last() == 0);
            assert(stack_size(*ast, stack@.drop_last(), depths.drop_last(), f) == 0);
            assert(count_below(counted, f) == 0);
        }
    }
    loop
        invariant
            count <= MAX_NODES_TO_COUNT,
            count == counted.len(),
            stack@.len() == depths.len(),
            forall|i: int| 0 <= i < counted.len() ==> #[trigger] counted[i] < top,
            forall|i: int| 0 <= i < depths.len() ==> #[trigger] depths[i] < top,
            forall|f: nat|
                #[trigger] tree_size(*ast, node_id, f) == count_below(counted, f) + stack_size(
                    *ast,
                    stack@,
                    depths,
                    f,
                ),
        decreases MAX_NODES_TO_COUNT - count, stack@.len(),
    {
        let ghost before = stack@;
        match stack.pop() {
            None => {
                proof {
                    lemma_count_below_all(counted, top);
                    assert(tree_size(*ast, node_id, top) == count);
                    assert forall|g: nat| g >= top implies #[trigger] tree_size(*ast, node_id, g)
                        == count by {
                        assert(forall|i: int| 0 <= i < counted.len() ==> #[trigger] counted[i] < g);
                        lemma_count_below_all(counted, g);
                    }
                    assert(size_settles(*ast, node_id, top, count as nat));
                }
                return count;
            },
            Some(current_id) => {
                let ghost d = depths.last();
                proof {
                    assert(before.drop_last() =~= stack@);
                    assert(before.last() == current_id);
                }
                if count >= MAX_NODES_TO_COUNT {
                    proof {
                        lemma_count_below_all(counted, top);
                        assert(tree_size(*ast, node_id, top) >= count);
                    }
                    return MAX_NODES_TO_COUNT;
                }
                match ast.get_node(current_id) {
                    Some(node) => {
                        count = count + 1;
                        let ghost children = node.children@;
                        let ghost old_depths = depths.drop_last();
                        let ghost old_stack = stack@;
                        let mut k: usize = 0;
                        while k < node.children.len()
                            invariant
                                k <= node.children@.len(),
                                children == node.children@,
                                stack@ == old_stack + children.take(k as int),
                            decreases node.children@.len() - k,
                        {
                            stack.push(node.children[k]);
                            proof {
                                assert(children.take(k as int + 1) =~= children.take(k as int).push(children[k as int]));
                            }
                            k = k + 1;
                        }
                        proof {
                            assert(children.take(k as int) =~= children);
                            let new_depths = old_depths + Seq::new(children.len(), |i: int| d + 1);
                            assert forall|f: nat| #[trigger] tree_size(*ast, node_id, f) == count_below(counted.push(d), f) + stack_size(*ast, stack@, new_depths, f) by {
                                lemma_stack_push_children(*ast, old_stack, old_depths, children, d + 1, f);
                                if f > d {
                                    assert(tree_size(*ast, current_id, (f - d) as nat) == 1 + forest_size(*ast, children, (f - d - 1) as nat));
                                } else {
                                    lemma_forest_size_zero(*ast, children);
                                }
                                assert(counted.push(d).drop_last() =~= counted);
                            }
                            counted = counted.push(d);
                            depths = new_depths;
                            top = top + 1 + d;
                        }
                    },
                    None => {
                        proof {
                            assert forall|f: nat| #[trigger] tree_size(*ast, node_id, f) == count_below(counted, f) + stack_size(*ast, stack@, depths.drop_last(), f) by {
                            }
                            depths = depths.drop_last();
                        }
                    },
                }
            },
        }
    }
}

} // verus!
