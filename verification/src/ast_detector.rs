//! Structural side of the AST-based detector: subtree sizes, structural
//! hashes, the subtrees worth comparing and the candidate pairs that share
//! a hash.

use std::collections::hash_map::DefaultHasher;
use std::hash::Hasher;
use vstd::bytes::{spec_u64_to_le_bytes, u64_to_le_bytes};
use vstd::prelude::*;
use vstd::std_specs::hash::DefaultHasherAdditionalSpecFns;
use vstd::string::*;
use vstd::utf8::*;

use crate::ast::{Ast, AstNode, NodeId, NodeKind, Span};
use crate::grouping::{group_keys, group_positions, grouped_by_hash, lists_hashes, positions_of};
use crate::source::SourceFile;
use crate::token_detector::extract_content;
use crate::tree_edit_distance::{forest_size, size_settles, tree_size};

verus! {

/// Every node reachable from `id` lies less than `d` levels below it: the
/// subtree at `id` is finite, of depth below `d`. An id that no node has
/// is a subtree of no node.
pub open spec fn within_depth(ast: Ast, id: NodeId, d: nat) -> bool
    decreases d, 0nat,
{
    match ast.lookup(id) {
        None => true,
        Some(n) => d > 0 && all_within_depth(ast, n.children@, (d - 1) as nat),
    }
}

/// Each of the subtrees at `ids` is of depth below `d`.
pub open spec fn all_within_depth(ast: Ast, ids: Seq<NodeId>, d: nat) -> bool
    decreases d, ids.len(),
{
    if ids.len() == 0 {
        true
    } else {
        all_within_depth(ast, ids.drop_last(), d) && within_depth(ast, ids.last(), d)
    }
}

/// A member of a forest of depth below `d` is of depth below `d`.
proof fn lemma_all_within_depth(ast: Ast, ids: Seq<NodeId>, d: nat, k: int)
    requires
        all_within_depth(ast, ids, d),
        0 <= k < ids.len(),
    ensures
        within_depth(ast, ids[k], d),
    decreases ids.len(),
{
    if k < ids.len() - 1 {
        lemma_all_within_depth(ast, ids.drop_last(), d, k);
    }
}

/// The subtree at `id` is finite (no node is its own descendant).
pub open spec fn finite_subtree(ast: Ast, id: NodeId) -> bool {
    exists|d: nat| #[trigger] within_depth(ast, id, d)
}

/// A depth that bounds the finite subtree at `id`.
pub open spec fn subtree_depth(ast: Ast, id: NodeId) -> nat {
    choose|d: nat| #[trigger] within_depth(ast, id, d)
}

/// Number of nodes of the finite subtree at `id`, a child counted once per
/// reference to it.
pub open spec fn subtree_size(ast: Ast, id: NodeId) -> nat {
    tree_size(ast, id, subtree_depth(ast, id))
}

/// The children of a node of a subtree of depth below `d` have subtrees of
/// depth below `d - 1`.
proof fn lemma_child_within(ast: Ast, id: NodeId, d: nat, n: AstNode, k: int)
    requires
        within_depth(ast, id, d),
        ast.lookup(id) == Some(n),
        0 <= k < n.children@.len(),
    ensures
        d > 0,
        within_depth(ast, n.children@[k], (d - 1) as nat),
{
    lemma_all_within_depth(ast, n.children@, (d - 1) as nat, k);
}

/// Counting down to depth `d` adds up the children's counts at depth
/// `d - 1`, in order.
proof fn lemma_forest_push(ast: Ast, ids: Seq<NodeId>, k: int, f: nat)
    requires
        0 <= k < ids.len(),
    ensures
        forest_size(ast, ids.take(k + 1), f) == forest_size(ast, ids.take(k), f) + tree_size(
            ast,
            ids[k],
            f,
        ),
{
    assert(ids.take(k + 1).drop_last() =~= ids.take(k));
}

/// A forest counts at least each of its trees.
proof fn lemma_forest_bounds(ast: Ast, ids: Seq<NodeId>, k: int, f: nat)
    requires
        0 <= k <= ids.len(),
    ensures
        forest_size(ast, ids.take(k), f) <= forest_size(ast, ids, f),
    decreases ids.len() - k,
{
    if k < ids.len() {
        lemma_forest_push(ast, ids, k, f);
        lemma_forest_bounds(ast, ids, k + 1, f);
    } else {
        assert(ids.take(k) =~= ids);
    }
}

fn count_subtree_at(ast: &Ast, node_id: NodeId, Ghost(d): Ghost<nat>) -> (r: usize)
    requires
        within_depth(*ast, node_id, d),
        tree_size(*ast, node_id, d) <= usize::MAX,
    ensures
        r == tree_size(*ast, node_id, d),
    decreases d,
{
    match ast.get_node(node_id) {
        None => 0,
        Some(node) => {
            let ghost children = node.children@;
            let ghost f = (d - 1) as nat;
            let mut count: usize = 1;
            let mut i: usize = 0;
            while i < node.children.len()
                invariant
                    i <= children.len(),
                    children == node.children@,
                    ast.lookup(node_id) == Some(*node),
                    within_depth(*ast, node_id, d),
                    d > 0,
                    f == d - 1,
                    tree_size(*ast, node_id, d) <= usize::MAX,
                    tree_size(*ast, node_id, d) == 1 + forest_size(*ast, children, f),
                    count == 1 + forest_size(*ast, children.take(i as int), f),
                decreases children.len() - i,
            {
                proof {
                    lemma_child_within(*ast, node_id, d, *node, i as int);
                    lemma_forest_push(*ast, children, i as int, f);
                    lemma_forest_bounds(*ast, children, i as int + 1, f);
                }
                let c = count_subtree_at(ast, node.children[i], Ghost(f));
                count = count + c;
                i = i + 1;
            }
            proof {
                assert(children.take(i as int) =~= children);
            }
            count
        },
    }
}

/// Counting a finite subtree deeper than its depth bound changes nothing:
/// its size does not depend on the bound chosen.
pub proof fn lemma_tree_size_settles(ast: Ast, id: NodeId, d: nat, e: nat)
    requires
        within_depth(ast, id, d),
        d <= e,
    ensures
        tree_size(ast, id, e) == tree_size(ast, id, d),
    decreases d, 0nat,
{
    match ast.lookup(id) {
        None => {},
        Some(n) => {
            lemma_forest_size_settles(ast, n.children@, (d - 1) as nat, (e - 1) as nat);
        },
    }
}

/// Counting a forest of finite subtrees deeper than their depth bound
/// changes nothing.
pub proof fn lemma_forest_size_settles(ast: Ast, ids: Seq<NodeId>, d: nat, e: nat)
    requires
        all_within_depth(ast, ids, d),
        d <= e,
    ensures
        forest_size(ast, ids, e) == forest_size(ast, ids, d),
    decreases d, ids.len(),
{
    if ids.len() > 0 {
        lemma_forest_size_settles(ast, ids.drop_last(), d, e);
        lemma_tree_size_settles(ast, ids.last(), d, e);
    }
}

/// Where the bounded count (`count_nodes`) stays below its limit, it is the
/// size of the subtree (`count_subtree_nodes`).
pub proof fn lemma_bounded_count_agrees(ast: Ast, id: NodeId, f: nat, r: nat)
    requires
        finite_subtree(ast, id),
        size_settles(ast, id, f, r),
    ensures
        r == subtree_size(ast, id),
{
    let d = subtree_depth(ast, id);
    let g = if d >= f {
        d
    } else {
        f
    };
    lemma_tree_size_settles(ast, id, d, g);
    assert(tree_size(ast, id, g) == r);
}

/// Count the nodes of a finite subtree.
pub fn count_subtree_nodes(ast: &Ast, node_id: NodeId) -> (r: usize)
    requires
        finite_subtree(*ast, node_id),
        subtree_size(*ast, node_id) <= usize::MAX,
    ensures
        r == subtree_size(*ast, node_id),
{
    let ghost d = subtree_depth(*ast, node_id);
    count_subtree_at(ast, node_id, Ghost(d))
}

/// Kinds of boilerplate that are never compared.
pub open spec fn is_trivial_kind(kind: NodeKind) -> bool {
    kind is Pass || kind is Break || kind is Continue || kind is Import || kind is ImportFrom
        || kind is Comment || kind is Docstring
}

/// Check if a subtree is trivial (boilerplate): an id that no node has, or a
/// node of a boilerplate kind.
pub fn is_trivial_subtree(ast: &Ast, node_id: NodeId) -> (r: bool)
    ensures
        r == match ast.lookup(node_id) {
            None => true,
            Some(n) => is_trivial_kind(n.kind),
        },
{
    let node = match ast.get_node(node_id) {
        Some(n) => n,
        None => return true,
    };
    match node.kind {
        NodeKind::Pass
        | NodeKind::Break
        | NodeKind::Continue
        | NodeKind::Import
        | NodeKind::ImportFrom
        | NodeKind::Comment
        | NodeKind::Docstring => true,
        _ => false,
    }
}

/// How a kind is labelled for hashing: its name as `{:?}` prints it (an
/// unknown kind's text in quotes, its characters as they stand).
pub open spec fn kind_label(kind: NodeKind) -> Seq<char> {
    match kind {
        NodeKind::Unknown(s) => "Unknown(\""@ + s@ + "\")"@,
        _ => kind.display(),
    }
}

fn kind_label_text(kind: &NodeKind) -> (r: String)
    ensures
        r@ == kind_label(*kind),
{
    match kind {
        NodeKind::Unknown(s) => {
            let mut r = "Unknown(\"".to_owned();
            r.append(s.as_str());
            r.append("\")");
            r
        },
        _ => kind.to_display_string(),
    }
}

/// The number of children that a node's hash takes in.
pub const HASHED_CHILDREN: usize = 5;

/// What is written into the hasher for a node: its label as a string is
/// hashed (its UTF-8 bytes, then the byte 0xff), then each child hash as a
/// `u64` (its eight little-endian bytes).
pub open spec fn hash_writes(label: Seq<char>, child_hashes: Seq<u64>) -> Seq<Seq<u8>> {
    seq![encode_utf8(label), seq![0xffu8]] + Seq::new(
        child_hashes.len(),
        |i: int| spec_u64_to_le_bytes(child_hashes[i]),
    )
}

/// The structural hash of the subtree at `id`, computed down to depth `d`:
/// the default hasher over the node's kind label and the hashes of its
/// first five children; 0 for an id that no node has.
pub open spec fn subtree_hash(ast: Ast, id: NodeId, d: nat) -> u64
    decreases d, 0nat,
{
    if d == 0 {
        0
    } else {
        match ast.lookup(id) {
            None => 0,
            Some(n) => DefaultHasher::spec_finish(
                hash_writes(
                    kind_label(n.kind),
                    child_hashes(
                        ast,
                        n.children@.take(
                            if n.children@.len() < HASHED_CHILDREN {
                                n.children@.len() as int
                            } else {
                                HASHED_CHILDREN as int
                            },
                        ),
                        (d - 1) as nat,
                    ),
                ),
            ),
        }
    }
}

/// The structural hashes of the subtrees at `ids`, computed down to depth
/// `d`.
pub open spec fn child_hashes(ast: Ast, ids: Seq<NodeId>, d: nat) -> Seq<u64>
    decreases d, ids.len(),
{
    if ids.len() == 0 {
        Seq::<u64>::empty()
    } else {
        child_hashes(ast, ids.drop_last(), d).push(subtree_hash(ast, ids.last(), d))
    }
}

/// The structural hash of a finite subtree.
pub open spec fn structural_hash(ast: Ast, id: NodeId) -> u64 {
    subtree_hash(ast, id, subtree_depth(ast, id))
}

fn hash_subtree_at(ast: &Ast, node_id: NodeId, Ghost(d): Ghost<nat>) -> (r: u64)
    requires
        within_depth(*ast, node_id, d),
    ensures
        r == subtree_hash(*ast, node_id, d),
    decreases d,
{
    let node = match ast.get_node(node_id) {
        Some(n) => n,
        None => return 0,
    };
    let ghost f = (d - 1) as nat;
    let ghost children = node.children@;
    let label = kind_label_text(&node.kind);
    let mut hasher = DefaultHasher::new();
    hasher.write(label.as_str().as_bytes());
    let separator: Vec<u8> = vec![0xffu8];
    hasher.write(separator.as_slice());
    let limit: usize = if node.children.len() < HASHED_CHILDREN {
        node.children.len()
    } else {
        HASHED_CHILDREN
    };
    let ghost first: Seq<Seq<u8>> = seq![encode_utf8(label@), seq![0xffu8]];
    proof {
        assert(separator@ =~= seq![0xffu8]);
        assert(hasher@ =~= hash_writes(label@, child_hashes(*ast, children.take(0), f)));
    }
    let mut i: usize = 0;
    while i < limit
        invariant
            i <= limit <= children.len(),
            children == node.children@,
            ast.lookup(node_id) == Some(*node),
            within_depth(*ast, node_id, d),
            d > 0,
            f == d - 1,
            hasher@ == hash_writes(label@, child_hashes(*ast, children.take(i as int), f)),
        decreases limit - i,
    {
        proof {
            lemma_child_within(*ast, node_id, d, *node, i as int);
        }
        let h = hash_subtree_at(ast, node.children[i], Ghost(f));
        let bytes = u64_to_le_bytes(h);
        hasher.write(bytes.as_slice());
        proof {
            let prev = child_hashes(*ast, children.take(i as int), f);
            assert(children.take(i as int + 1).drop_last() =~= children.take(i as int));
            assert(child_hashes(*ast, children.take(i as int + 1), f) == prev.push(h));
            assert(hash_writes(label@, prev.push(h)) =~= hash_writes(label@, prev).push(
                spec_u64_to_le_bytes(h),
            ));
        }
        i = i + 1;
    }
    hasher.finish()
}

/// Create a structural hash of a finite subtree for candidate filtering:
/// the node's kind and, recursively, its first five children.
pub fn hash_subtree(ast: &Ast, node_id: NodeId) -> (r: u64)
    requires
        finite_subtree(*ast, node_id),
    ensures
        r == structural_hash(*ast, node_id),
{
    let ghost d = subtree_depth(*ast, node_id);
    hash_subtree_at(ast, node_id, Ghost(d))
}

/// A subtree worth comparing: where it is rooted, how many nodes it has and
/// its structural hash.
#[derive(Debug, Clone, Copy, PartialEq, Eq, Structural)]
pub struct SubtreeInfo {
    pub root_id: NodeId,
    pub size: usize,
    pub hash: u64,
}

/// Every node of the AST roots a finite subtree whose size fits a `usize`.
pub open spec fn subtrees_countable(ast: Ast) -> bool {
    forall|i: int|
        0 <= i < ast.nodes@.len() ==> finite_subtree(ast, #[trigger] ast.nodes@[i].id)
            && subtree_size(ast, ast.nodes@[i].id) <= usize::MAX
}

/// The subtree at `id` is trivial: no node has the id, or its node is of a
/// boilerplate kind.
pub open spec fn trivial_at(ast: Ast, id: NodeId) -> bool {
    match ast.lookup(id) {
        None => true,
        Some(n) => is_trivial_kind(n.kind),
    }
}

/// The subtree at `id` has at least `min_nodes` nodes and is not trivial.
pub open spec fn worth_comparing(ast: Ast, id: NodeId, min_nodes: usize) -> bool {
    subtree_size(ast, id) >= min_nodes && !trivial_at(ast, id)
}

/// What is recorded of the subtree at `id`.
pub open spec fn subtree_info(ast: Ast, id: NodeId) -> SubtreeInfo {
    SubtreeInfo {
        root_id: id,
        size: subtree_size(ast, id) as usize,
        hash: structural_hash(ast, id),
    }
}

/// The subtrees worth comparing among those rooted at the ids of the first
/// `n` nodes, in node order.
pub open spec fn meaningful_subtrees(ast: Ast, min_nodes: usize, n: int) -> Seq<SubtreeInfo>
    decreases n,
{
    if n <= 0 {
        Seq::<SubtreeInfo>::empty()
    } else {
        let rest = meaningful_subtrees(ast, min_nodes, n - 1);
        let id = ast.nodes@[n - 1].id;
        if worth_comparing(ast, id, min_nodes) {
            rest.push(subtree_info(ast, id))
        } else {
            rest
        }
    }
}

/// Which subtrees are extracted: of the first `n` nodes, every one whose
/// subtree has at least `min_nodes` nodes and whose kind is not one of the
/// boilerplate kinds (pass, break, continue, the two imports, comments and
/// docstrings) is extracted, a class, a function or a method among them;
/// every extracted subtree has such a root, enough nodes, and records its
/// size and hash.
pub proof fn lemma_extracted_subtrees(ast: Ast, min_nodes: usize, n: int)
    requires
        0 <= n <= ast.nodes@.len(),
    ensures
        forall|k: int|
            #![trigger ast.nodes@[k]]
            0 <= k < n && subtree_size(ast, ast.nodes@[k].id) >= min_nodes && (ast.lookup(
                ast.nodes@[k].id,
            ) matches Some(nd) && !(nd.kind is Pass || nd.kind is Break || nd.kind is Continue
                || nd.kind is Import || nd.kind is ImportFrom || nd.kind is Comment
                || nd.kind is Docstring)) ==> meaningful_subtrees(ast, min_nodes, n).contains(
                subtree_info(ast, ast.nodes@[k].id),
            ),
        forall|i: int|
            #![trigger meaningful_subtrees(ast, min_nodes, n)[i]]
            0 <= i < meaningful_subtrees(ast, min_nodes, n).len() ==> {
                let st = meaningful_subtrees(ast, min_nodes, n)[i];
                &&& st == subtree_info(ast, st.root_id)
                &&& subtree_size(ast, st.root_id) >= min_nodes
                &&& ast.lookup(st.root_id) matches Some(nd) && !(nd.kind is Pass || nd.kind is Break
                    || nd.kind is Continue || nd.kind is Import || nd.kind is ImportFrom
                    || nd.kind is Comment || nd.kind is Docstring)
            },
    decreases n,
{
    if n > 0 {
        lemma_extracted_subtrees(ast, min_nodes, n - 1);
        let rest = meaningful_subtrees(ast, min_nodes, n - 1);
        let cur = meaningful_subtrees(ast, min_nodes, n);
        assert forall|i: int| 0 <= i < rest.len() implies cur[i] == rest[i] by {}
        assert forall|k: int|
            #![trigger ast.nodes@[k]]
            0 <= k < n && subtree_size(ast, ast.nodes@[k].id) >= min_nodes && (ast.lookup(
                ast.nodes@[k].id,
            ) matches Some(nd) && !(nd.kind is Pass || nd.kind is Break || nd.kind is Continue
                || nd.kind is Import || nd.kind is ImportFrom || nd.kind is Comment
                || nd.kind is Docstring)) implies cur.contains(subtree_info(ast, ast.nodes@[k].id)) by {
            if k < n - 1 {
                let j = choose|j: int| 0 <= j < rest.len() && rest[j] == subtree_info(ast, ast.nodes@[k].id);
                assert(cur[j] == rest[j]);
            } else {
                assert(cur.last() == subtree_info(ast, ast.nodes@[k].id));
            }
        }
    }
}

/// Extract all meaningful subtrees from an AST: for each node in order, the
/// subtree rooted at its id, where it has at least `min_nodes` nodes and is
/// not boilerplate.
pub fn extract_subtrees(ast: &Ast, min_nodes: usize) -> (r: Vec<SubtreeInfo>)
    requires
        subtrees_countable(*ast),
    ensures
        r@ == meaningful_subtrees(*ast, min_nodes, ast.nodes@.len() as int),
{
    let mut subtrees: Vec<SubtreeInfo> = Vec::new();
    let mut i: usize = 0;
    while i < ast.nodes.len()
        invariant
            i <= ast.nodes@.len(),
            subtrees_countable(*ast),
            subtrees@ == meaningful_subtrees(*ast, min_nodes, i as int),
        decreases ast.nodes@.len() - i,
    {
        let id = ast.nodes[i].id;
        proof {
            assert(finite_subtree(*ast, ast.nodes@[i as int].id));
        }
        let size = count_subtree_nodes(ast, id);
        if size >= min_nodes {
            if !is_trivial_subtree(ast, id) {
                let hash = hash_subtree(ast, id);
                subtrees.push(SubtreeInfo { root_id: id, size, hash });
            }
        }
        i = i + 1;
    }
    subtrees
}

/// A candidate pair of subtrees that share a structural hash, each with
/// the index of the AST it comes from.
#[derive(Debug, Clone, Copy)]
pub struct CandidatePair {
    pub file1_idx: usize,
    pub subtree1: SubtreeInfo,
    pub file2_idx: usize,
    pub subtree2: SubtreeInfo,
}

/// The subtrees of one file, each with the index of that file.
pub open spec fn located_subtrees(file_idx: int, subtrees: Seq<SubtreeInfo>) -> Seq<
    (usize, SubtreeInfo),
> {
    Seq::new(subtrees.len(), |i: int| (file_idx as usize, subtrees[i]))
}

/// The meaningful subtrees of the first `n` ASTs, file by file.
pub open spec fn all_subtrees(asts: Seq<Ast>, min_nodes: usize, n: int) -> Seq<
    (usize, SubtreeInfo),
>
    decreases n,
{
    if n <= 0 {
        Seq::<(usize, SubtreeInfo)>::empty()
    } else {
        all_subtrees(asts, min_nodes, n - 1) + located_subtrees(
            n - 1,
            meaningful_subtrees(asts[n - 1], min_nodes, asts[n - 1].nodes@.len() as int),
        )
    }
}

/// The hashes of the subtrees, in order.
pub open spec fn subtree_hashes(entries: Seq<(usize, SubtreeInfo)>) -> Seq<u64> {
    Seq::new(entries.len(), |i: int| entries[i].1.hash)
}

/// The entries whose subtree has hash `h`, in order.
pub open spec fn sharing_hash(entries: Seq<(usize, SubtreeInfo)>, h: u64) -> Seq<
    (usize, SubtreeInfo),
>
    decreases entries.len(),
{
    if entries.len() == 0 {
        Seq::<(usize, SubtreeInfo)>::empty()
    } else {
        let m = sharing_hash(entries.drop_last(), h);
        if entries.last().1.hash == h {
            m.push(entries.last())
        } else {
            m
        }
    }
}

/// The candidate pair of two entries.
pub open spec fn pair_of(a: (usize, SubtreeInfo), b: (usize, SubtreeInfo)) -> CandidatePair {
    CandidatePair { file1_idx: a.0, subtree1: a.1, file2_idx: b.0, subtree2: b.1 }
}

/// The pairs of a group whose first member is among the first `i`: each
/// such member with every member after it, in order.
pub open spec fn pairs_before(g: Seq<(usize, SubtreeInfo)>, i: int) -> Seq<CandidatePair>
    decreases i,
{
    if i <= 0 {
        Seq::<CandidatePair>::empty()
    } else {
        pairs_before(g, i - 1) + Seq::new(
            (g.len() - i) as nat,
            |j: int| pair_of(g[i - 1], g[i + j]),
        )
    }
}

/// All pairs of members of a group, the earlier member first: (0, 1),
/// (0, 2), ..., (1, 2), ...
pub open spec fn all_pairs(g: Seq<(usize, SubtreeInfo)>) -> Seq<CandidatePair> {
    pairs_before(g, g.len() as int)
}

/// The pairs of the groups of the first `n` hashes in `keys`, group after
/// group.
pub open spec fn pairs_over(entries: Seq<(usize, SubtreeInfo)>, keys: Seq<u64>, n: int) -> Seq<
    CandidatePair,
>
    decreases n,
{
    if n <= 0 {
        Seq::<CandidatePair>::empty()
    } else {
        pairs_over(entries, keys, n - 1) + all_pairs(sharing_hash(entries, keys[n - 1]))
    }
}

/// The candidate pairs of a list of subtrees: grouped by hash, the groups
/// in the order of `keys` (which lists every hash once), all pairs within
/// each group.
pub open spec fn candidate_pairs(entries: Seq<(usize, SubtreeInfo)>, keys: Seq<u64>) -> Seq<
    CandidatePair,
> {
    pairs_over(entries, keys, keys.len() as int)
}

/// A pair joins two of the listed subtrees that have the same hash.
pub open spec fn joins_equal_hashes(entries: Seq<(usize, SubtreeInfo)>, p: CandidatePair) -> bool {
    &&& p.subtree1.hash == p.subtree2.hash
    &&& entries.contains((p.file1_idx, p.subtree1))
    &&& entries.contains((p.file2_idx, p.subtree2))
}

proof fn lemma_sharing_hash_members(entries: Seq<(usize, SubtreeInfo)>, h: u64)
    ensures
        forall|k: int|
            0 <= k < sharing_hash(entries, h).len() ==> (#[trigger] sharing_hash(entries, h)[k]).1.hash
                == h && entries.contains(sharing_hash(entries, h)[k]),
    decreases entries.len(),
{
    if entries.len() > 0 {
        let rest = entries.drop_last();
        lemma_sharing_hash_members(rest, h);
        let m = sharing_hash(rest, h);
        assert forall|k: int| 0 <= k < sharing_hash(entries, h).len() implies (#[trigger] sharing_hash(
            entries,
            h,
        )[k]).1.hash == h && entries.contains(sharing_hash(entries, h)[k]) by {
            if k < m.len() {
                assert(sharing_hash(entries, h)[k] == m[k]);
                let q = choose|q: int| 0 <= q < rest.len() && rest[q] == m[k];
                assert(entries[q] == m[k]);
            } else {
                assert(sharing_hash(entries, h)[k] == entries[entries.len() - 1]);
            }
        }
    }
}

proof fn lemma_pairs_before_join(entries: Seq<(usize, SubtreeInfo)>, g: Seq<(usize, SubtreeInfo)>, h: u64, i: int)
    requires
        0 <= i <= g.len(),
        forall|k: int| 0 <= k < g.len() ==> (#[trigger] g[k]).1.hash == h && entries.contains(g[k]),
    ensures
        forall|t: int|
            0 <= t < pairs_before(g, i).len() ==> joins_equal_hashes(entries, #[trigger] pairs_before(g, i)[t]),
    decreases i,
{
    if i > 0 {
        lemma_pairs_before_join(entries, g, h, i - 1);
        let a = pairs_before(g, i - 1);
        let b = Seq::new((g.len() - i) as nat, |j: int| pair_of(g[i - 1], g[i + j]));
        assert(pairs_before(g, i) == a + b);
        assert forall|t: int| 0 <= t < pairs_before(g, i).len() implies joins_equal_hashes(
            entries,
            #[trigger] pairs_before(g, i)[t],
        ) by {
            if t < a.len() {
                assert(pairs_before(g, i)[t] == a[t]);
            } else {
                let j = t - a.len();
                assert(pairs_before(g, i)[t] == pair_of(g[i - 1], g[i + j]));
                assert(g[i - 1].1.hash == h && entries.contains(g[i - 1]));
                assert(g[i + j].1.hash == h && entries.contains(g[i + j]));
            }
        }
    }
}

proof fn lemma_pairs_over_join(entries: Seq<(usize, SubtreeInfo)>, keys: Seq<u64>, n: int)
    requires
        n <= keys.len(),
    ensures
        forall|t: int|
            0 <= t < pairs_over(entries, keys, n).len() ==> joins_equal_hashes(
                entries,
                #[trigger] pairs_over(entries, keys, n)[t],
            ),
    decreases n,
{
    if n > 0 {
        lemma_pairs_over_join(entries, keys, n - 1);
        let g = sharing_hash(entries, keys[n - 1]);
        lemma_sharing_hash_members(entries, keys[n - 1]);
        lemma_pairs_before_join(entries, g, keys[n - 1], g.len() as int);
        let a = pairs_over(entries, keys, n - 1);
        let b = all_pairs(g);
        assert forall|t: int| 0 <= t < pairs_over(entries, keys, n).len() implies joins_equal_hashes(
            entries,
            #[trigger] pairs_over(entries, keys, n)[t],
        ) by {
            if t < a.len() {
                assert(pairs_over(entries, keys, n)[t] == a[t]);
            } else {
                assert(pairs_over(entries, keys, n)[t] == b[t - a.len()]);
            }
        }
    }
}

/// Every candidate pair joins two of the listed subtrees that have the
/// same structural hash.
pub proof fn lemma_candidate_pairs_share_hash(entries: Seq<(usize, SubtreeInfo)>, keys: Seq<u64>)
    ensures
        forall|t: int|
            0 <= t < candidate_pairs(entries, keys).len() ==> joins_equal_hashes(
                entries,
                #[trigger] candidate_pairs(entries, keys)[t],
            ),
{
    lemma_pairs_over_join(entries, keys, keys.len() as int);
}

/// The pairs of the groups of the first `n` hashes are the pairs within
/// the group of one of those hashes.
proof fn lemma_pairs_over_contain(
    entries: Seq<(usize, SubtreeInfo)>,
    keys: Seq<u64>,
    n: int,
    p: CandidatePair,
)
    requires
        n <= keys.len(),
    ensures
        pairs_over(entries, keys, n).contains(p) <==> exists|k: int|
            0 <= k < n && #[trigger] all_pairs(sharing_hash(entries, keys[k])).contains(p),
    decreases n,
{
    if n > 0 {
        lemma_pairs_over_contain(entries, keys, n - 1, p);
        let a = pairs_over(entries, keys, n - 1);
        let b = all_pairs(sharing_hash(entries, keys[n - 1]));
        assert(pairs_over(entries, keys, n) == a + b);
        if (a + b).contains(p) {
            let q = choose|q: int| 0 <= q < (a + b).len() && (a + b)[q] == p;
            if q < a.len() {
                assert(a[q] == p);
                assert(a.contains(p));
            } else {
                assert(b[q - a.len()] == p);
                assert(b.contains(p));
            }
        }
        if exists|k: int| 0 <= k < n && #[trigger] all_pairs(sharing_hash(entries, keys[k])).contains(p) {
            let k = choose|k: int|
                0 <= k < n && #[trigger] all_pairs(sharing_hash(entries, keys[k])).contains(p);
            if k < n - 1 {
                let q = choose|q: int| 0 <= q < a.len() && a[q] == p;
                assert((a + b)[q] == p);
            } else {
                let q = choose|q: int| 0 <= q < b.len() && b[q] == p;
                assert((a + b)[a.len() + q] == p);
            }
        }
    }
}

/// Which candidate pairs the subtrees form does not depend on the order in
/// which the map of hashes is walked: any two walks give the same pairs,
/// only in another order.
pub proof fn lemma_pairs_independent_of_walk(
    entries: Seq<(usize, SubtreeInfo)>,
    keys1: Seq<u64>,
    keys2: Seq<u64>,
)
    requires
        lists_hashes(subtree_hashes(entries), keys1),
        lists_hashes(subtree_hashes(entries), keys2),
    ensures
        candidate_pairs(entries, keys1).to_set() == candidate_pairs(entries, keys2).to_set(),
{
    let p1 = candidate_pairs(entries, keys1);
    let p2 = candidate_pairs(entries, keys2);
    assert forall|p: CandidatePair| p1.contains(p) implies p2.contains(p) by {
        lemma_pairs_over_contain(entries, keys1, keys1.len() as int, p);
        lemma_pairs_over_contain(entries, keys2, keys2.len() as int, p);
        let k = choose|k: int|
            0 <= k < keys1.len() && #[trigger] all_pairs(sharing_hash(entries, keys1[k])).contains(p);
        assert(keys1.contains(keys1[k]));
        let j = choose|j: int| 0 <= j < keys2.len() && keys2[j] == keys1[k];
        assert(all_pairs(sharing_hash(entries, keys2[j])).contains(p));
    }
    assert forall|p: CandidatePair| p2.contains(p) implies p1.contains(p) by {
        lemma_pairs_over_contain(entries, keys1, keys1.len() as int, p);
        lemma_pairs_over_contain(entries, keys2, keys2.len() as int, p);
        let k = choose|k: int|
            0 <= k < keys2.len() && #[trigger] all_pairs(sharing_hash(entries, keys2[k])).contains(p);
        assert(keys2.contains(keys2[k]));
        let j = choose|j: int| 0 <= j < keys1.len() && keys1[j] == keys2[k];
        assert(all_pairs(sharing_hash(entries, keys1[j])).contains(p));
    }
    assert(p1.to_set() =~= p2.to_set());
}

/// The entries at the given positions, in order.
pub open spec fn entries_at(entries: Seq<(usize, SubtreeInfo)>, positions: Seq<usize>) -> Seq<
    (usize, SubtreeInfo),
> {
    Seq::new(positions.len(), |j: int| entries[positions[j] as int])
}

/// The entries at the positions of a hash are the entries with that hash.
proof fn lemma_entries_at_positions(entries: Seq<(usize, SubtreeInfo)>, h: u64)
    requires
        entries.len() <= usize::MAX,
    ensures
        entries_at(entries, positions_of(subtree_hashes(entries), h)) =~= sharing_hash(entries, h),
        forall|j: int|
            0 <= j < positions_of(subtree_hashes(entries), h).len() ==> #[trigger] positions_of(
                subtree_hashes(entries),
                h,
            )[j] < entries.len(),
    decreases entries.len(),
{
    if entries.len() > 0 {
        let p = entries.drop_last();
        lemma_entries_at_positions(p, h);
        assert(subtree_hashes(entries).drop_last() =~= subtree_hashes(p));
        let pe = positions_of(subtree_hashes(entries), h);
        let pp = positions_of(subtree_hashes(p), h);
        assert forall|j: int| 0 <= j < pp.len() implies entries[pp[j] as int] == p[pp[j] as int] by {}
        assert(entries_at(entries, pp) =~= entries_at(p, pp));
        if entries.last().1.hash == h {
            assert(pe == pp.push((entries.len() - 1) as usize));
            assert(entries_at(entries, pe) =~= entries_at(entries, pp).push(entries.last()));
        } else {
            assert(pe == pp);
        }
    }
}

/// Appends all pairs of a group, the earlier member first.
fn push_pairs(group: &Vec<(usize, SubtreeInfo)>, out: &mut Vec<CandidatePair>)
    ensures
        final(out)@ == old(out)@ + all_pairs(group@),
{
    let ghost g = group@;
    let ghost start = out@;
    let mut i: usize = 0;
    while i < group.len()
        invariant
            i <= g.len(),
            g == group@,
            out@ == start + pairs_before(g, i as int),
        decreases g.len() - i,
    {
        let ghost before = out@;
        let mut j: usize = i + 1;
        while j < group.len()
            invariant
                i < j <= g.len(),
                g == group@,
                out@ == before + Seq::new(
                    (j - i - 1) as nat,
                    |k: int| pair_of(g[i as int], g[i + 1 + k]),
                ),
            decreases g.len() - j,
        {
            out.push(
                CandidatePair {
                    file1_idx: group[i].0,
                    subtree1: group[i].1,
                    file2_idx: group[j].0,
                    subtree2: group[j].1,
                },
            );
            proof {
                assert(out@ =~= before + Seq::new(
                    (j + 1 - i - 1) as nat,
                    |k: int| pair_of(g[i as int], g[i + 1 + k]),
                ));
            }
            j = j + 1;
        }
        proof {
            assert(pairs_before(g, i as int + 1) =~= pairs_before(g, i as int) + Seq::new(
                (j - i - 1) as nat,
                |k: int| pair_of(g[i as int], g[i + 1 + k]),
            ));
        }
        i = i + 1;
    }
}

/// Every AST of the list meets `subtrees_countable`.
pub open spec fn all_countable(asts: Seq<Ast>) -> bool {
    forall|i: int| 0 <= i < asts.len() ==> subtrees_countable(#[trigger] asts[i])
}

/// The size of the subtree at `node_id` where it is of depth below `d` and
/// its size fits a `usize`; none otherwise.
fn bounded_count(ast: &Ast, node_id: NodeId, d: usize) -> (r: Option<usize>)
    ensures
        r matches Some(s) ==> within_depth(*ast, node_id, d as nat) && s == tree_size(
            *ast,
            node_id,
            d as nat,
        ),
        r is None ==> !(within_depth(*ast, node_id, d as nat) && tree_size(*ast, node_id, d as nat)
            <= usize::MAX),
    decreases d,
{
    match ast.get_node(node_id) {
        None => Some(0),
        Some(node) => {
            if d == 0 {
                return None;
            }
            let ghost children = node.children@;
            let ghost f = (d - 1) as nat;
            let mut count: usize = 1;
            let mut i: usize = 0;
            while i < node.children.len()
                invariant
                    i <= children.len(),
                    children == node.children@,
                    ast.lookup(node_id) == Some(*node),
                    d > 0,
                    f == d - 1,
                    all_within_depth(*ast, children.take(i as int), f),
                    count == 1 + forest_size(*ast, children.take(i as int), f),
                decreases children.len() - i,
            {
                proof {
                    lemma_forest_push(*ast, children, i as int, f);
                    lemma_forest_bounds(*ast, children, i as int + 1, f);
                    assert(children.take(i as int + 1).drop_last() =~= children.take(i as int));
                }
                match bounded_count(ast, node.children[i], d - 1) {
                    None => {
                        proof {
                            if within_depth(*ast, node_id, d as nat) {
                                lemma_all_within_depth(*ast, children, f, i as int);
                            }
                        }
                        return None;
                    },
                    Some(c) => {
                        if count > usize::MAX - c {
                            return None;
                        }
                        count = count + c;
                    },
                }
                i = i + 1;
            }
            proof {
                assert(children.take(i as int) =~= children);
            }
            Some(count)
        },
    }
}

/// Every node roots a subtree of depth at most the number of nodes, whose
/// size fits a `usize`.
pub open spec fn depth_bounded(ast: Ast) -> bool {
    forall|i: int|
        0 <= i < ast.nodes@.len() ==> within_depth(ast, #[trigger] ast.nodes@[i].id, ast.nodes@.len() as nat)
            && tree_size(ast, ast.nodes@[i].id, ast.nodes@.len() as nat) <= usize::MAX
}

/// A tree whose subtrees are bounded by its number of nodes has countable
/// subtrees.
proof fn lemma_depth_bounded_countable(ast: Ast)
    requires
        depth_bounded(ast),
    ensures
        subtrees_countable(ast),
{
    let n = ast.nodes@.len() as nat;
    assert forall|i: int| 0 <= i < ast.nodes@.len() implies finite_subtree(ast, #[trigger] ast.nodes@[i].id)
        && subtree_size(ast, ast.nodes@[i].id) <= usize::MAX by {
        let id = ast.nodes@[i].id;
        assert(within_depth(ast, id, n));
        let d = subtree_depth(ast, id);
        let m = if d >= n {
            d
        } else {
            n
        };
        lemma_tree_size_settles(ast, id, d, m);
        lemma_tree_size_settles(ast, id, n, m);
    }
}

/// Whether every tree has countable subtrees, checked by counting each
/// subtree down to the tree's number of nodes (a node that is its own
/// descendant makes the count fail).
pub fn trees_countable(asts: &[Ast]) -> (r: bool)
    ensures
        r == forall|i: int| 0 <= i < asts@.len() ==> depth_bounded(#[trigger] asts@[i]),
        r ==> all_countable(asts@),
{
    let mut a: usize = 0;
    while a < asts.len()
        invariant
            a <= asts@.len(),
            forall|i: int| 0 <= i < a ==> depth_bounded(#[trigger] asts@[i]),
        decreases asts@.len() - a,
    {
        let ast = &asts[a];
        let n = ast.nodes.len();
        let mut k: usize = 0;
        while k < n
            invariant
                k <= n,
                a < asts@.len(),
                n == ast.nodes@.len(),
                *ast == asts@[a as int],
                forall|j: int|
                    0 <= j < k ==> within_depth(*ast, #[trigger] ast.nodes@[j].id, n as nat) && tree_size(
                        *ast,
                        ast.nodes@[j].id,
                        n as nat,
                    ) <= usize::MAX,
            decreases n - k,
        {
            match bounded_count(ast, ast.nodes[k].id, n) {
                Some(_) => {},
                None => {
                    proof {
                        let id = ast.nodes@[k as int].id;
                        assert(!(within_depth(*ast, id, n as nat) && tree_size(*ast, id, n as nat)
                            <= usize::MAX));
                        assert(!depth_bounded(asts@[a as int]));
                    }
                    return false;
                },
            }
            k = k + 1;
        }
        a = a + 1;
    }
    proof {
        assert forall|i: int| 0 <= i < asts@.len() implies subtrees_countable(#[trigger] asts@[i]) by {
            lemma_depth_bounded_countable(asts@[i]);
        }
    }
    true
}

/// The candidate pairs of parsed files: subtrees of at least
/// `min_tokens / 5` nodes (a node stands for about five tokens), grouped by
/// structural hash, every pair within each group.
pub fn find_subtree_candidates(asts: &[Ast], min_tokens: usize) -> (r: Vec<CandidatePair>)
    requires
        all_countable(asts@),
    ensures
        exists|keys: Seq<u64>|
            lists_hashes(subtree_hashes(all_subtrees(asts@, min_tokens / 5, asts@.len() as int)), keys)
                && r@ == #[trigger] candidate_pairs(
                all_subtrees(asts@, min_tokens / 5, asts@.len() as int),
                keys,
            ),
{
    let min_nodes = min_tokens / 5;
    let mut entries: Vec<(usize, SubtreeInfo)> = Vec::new();
    let mut f: usize = 0;
    while f < asts.len()
        invariant
            f <= asts@.len(),
            all_countable(asts@),
            min_nodes == min_tokens / 5,
            entries@ == all_subtrees(asts@, min_nodes, f as int),
        decreases asts@.len() - f,
    {
        proof {
            assert(subtrees_countable(asts@[f as int]));
        }
        let subtrees = extract_subtrees(&asts[f], min_nodes);
        let ghost before = entries@;
        let mut k: usize = 0;
        while k < subtrees.len()
            invariant
                k <= subtrees@.len(),
                entries@ == before + located_subtrees(f as int, subtrees@.take(k as int)),
            decreases subtrees@.len() - k,
        {
            entries.push((f, subtrees[k]));
            proof {
                assert(entries@ =~= before + located_subtrees(
                    f as int,
                    subtrees@.take(k as int + 1),
                ));
            }
            k = k + 1;
        }
        proof {
            assert(subtrees@.take(k as int) =~= subtrees@);
        }
        f = f + 1;
    }
    let ghost es = entries@;
    let mut hashes: Vec<u64> = Vec::new();
    let mut i: usize = 0;
    while i < entries.len()
        invariant
            i <= es.len(),
            es == entries@,
            hashes@ == subtree_hashes(es).take(i as int),
        decreases es.len() - i,
    {
        hashes.push(entries[i].1.hash);
        proof {
            assert(hashes@ =~= subtree_hashes(es).take(i as int + 1));
        }
        i = i + 1;
    }
    proof {
        assert(hashes@ =~= subtree_hashes(es));
    }
    let groups = group_positions(&hashes);
    proof {
        assert(es.len() == entries.len());
    }
    let ghost views = Seq::new(groups@.len(), |t: int| (groups@[t].0, groups@[t].1@));
    let ghost keys = group_keys(views);
    let mut candidates: Vec<CandidatePair> = Vec::new();
    let mut g: usize = 0;
    while g < groups.len()
        invariant
            g <= groups@.len(),
            es == entries@,
            es.len() <= usize::MAX,
            hashes@ == subtree_hashes(es),
            views == Seq::new(groups@.len(), |t: int| (groups@[t].0, groups@[t].1@)),
            keys == group_keys(views),
            grouped_by_hash(hashes@, views),
            candidates@ == pairs_over(es, keys, g as int),
        decreases groups@.len() - g,
    {
        let key = groups[g].0;
        let ghost positions = groups@[g as int].1@;
        proof {
            assert(views[g as int] == (key, positions));
            assert(positions == positions_of(subtree_hashes(es), key));
            lemma_entries_at_positions(es, key);
        }
        let mut members: Vec<(usize, SubtreeInfo)> = Vec::new();
        let mut j: usize = 0;
        while j < groups[g].1.len()
            invariant
                g < groups@.len(),
                j <= positions.len(),
                positions == groups@[g as int].1@,
                positions == positions_of(subtree_hashes(es), key),
                es == entries@,
                forall|k: int| 0 <= k < positions.len() ==> #[trigger] positions[k] < es.len(),
                members@ == entries_at(es, positions.take(j as int)),
            decreases positions.len() - j,
        {
            let at = groups[g].1[j];
            members.push(entries[at]);
            proof {
                assert(members@ =~= entries_at(es, positions.take(j as int + 1)));
            }
            j = j + 1;
        }
        proof {
            assert(positions.take(j as int) =~= positions);
            assert(members@ == sharing_hash(es, keys[g as int]));
        }
        push_pairs(&members, &mut candidates);
        g = g + 1;
    }
    proof {
        assert(lists_hashes(subtree_hashes(es), keys));
        assert(candidates@ == candidate_pairs(es, keys));
    }
    candidates
}

/// The end of a span, cut to the end of a text of `len` bytes.
pub open spec fn span_end_within(span: Span, len: nat) -> int {
    if span.end < len {
        span.end as int
    } else {
        len as int
    }
}

/// The text of a file can be sliced at a span (cut to the end of the
/// text): the span does not start after that end, and both ends fall on
/// character boundaries.
pub open spec fn span_slices(content: Seq<u8>, span: Span) -> bool {
    let e = span_end_within(span, content.len());
    span.start <= e && is_char_boundary(content, span.start as int) && is_char_boundary(content, e)
}

/// The clone instance that a node's span marks in a file: its path, lines
/// and columns, and the text of the span (cut to the end of the file).
pub fn clone_at_span(file: &SourceFile, span: &Span) -> (r: crate::clone::Clone)
    requires
        span_slices(encode_utf8(file.content@), *span),
        encode_utf8(file.content@).len() <= usize::MAX,
    ensures
        r.file == file.path,
        r.start_line == span.line_start,
        r.end_line == span.line_end,
        r.start_col == span.column_start,
        r.end_col == span.column_end,
        encode_utf8(r.content@) == encode_utf8(file.content@).subrange(
            span.start as int,
            span_end_within(*span, encode_utf8(file.content@).len()),
        ),
{
    let len = file.content.as_str().len();
    let end = if span.end < len {
        span.end
    } else {
        len
    };
    let content = extract_content(file.content.as_str(), span.start, end);
    crate::clone::Clone::new(
        file.path.clone(),
        span.line_start,
        span.line_end,
        span.column_start,
        span.column_end,
        content,
    )
}

} // verus!
