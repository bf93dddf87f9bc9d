use deja_vu::ast::{Ast, AstNode, NodeKind, Span};
use deja_vu::ast_detector::{
    clone_at_span, count_subtree_nodes, extract_subtrees, find_subtree_candidates, hash_subtree,
    is_trivial_subtree, trees_countable,
};
use deja_vu::source::SourceFile;
use deja_vu::tree_edit_distance::count_nodes;

fn span() -> Span {
    Span::new(0, 1, 1, 1, 0, 1)
}

/// Function(add) -> Return -> BinaryOp -> (Identifier a, Identifier b),
/// plus a Pass node.
fn sample(file: &str, name: &str) -> Ast {
    let mut ast = Ast::new(file.to_string());
    ast.add_node(AstNode::new(0, NodeKind::Function, span()).with_text(name.to_string()).with_children(vec![1]));
    ast.add_node(AstNode::new(1, NodeKind::Return, span()).with_children(vec![2]));
    ast.add_node(AstNode::new(2, NodeKind::BinaryOp, span()).with_children(vec![3, 4]));
    ast.add_node(AstNode::new(3, NodeKind::Identifier, span()).with_text("a".to_string()));
    ast.add_node(AstNode::new(4, NodeKind::Identifier, span()).with_text("b".to_string()));
    ast.add_node(AstNode::new(5, NodeKind::Pass, span()));
    ast
}

#[test]
fn subtree_sizes() {
    let ast = sample("a.py", "add");
    assert_eq!(count_subtree_nodes(&ast, 0), 5);
    assert_eq!(count_subtree_nodes(&ast, 2), 3);
    assert_eq!(count_subtree_nodes(&ast, 42), 0);
    // Agrees with the bounded count below its limit.
    assert_eq!(count_subtree_nodes(&ast, 0), count_nodes(&ast, 0));
}

#[test]
fn trivial_subtrees() {
    let ast = sample("a.py", "add");
    assert!(is_trivial_subtree(&ast, 5));
    assert!(is_trivial_subtree(&ast, 42));
    assert!(!is_trivial_subtree(&ast, 0));
}

#[test]
fn structural_hash_ignores_text() {
    let a = sample("a.py", "add");
    let b = sample("b.py", "plus");
    assert_eq!(hash_subtree(&a, 0), hash_subtree(&b, 0));
    assert_ne!(hash_subtree(&a, 0), hash_subtree(&a, 1));
    assert_eq!(hash_subtree(&a, 42), 0);
}

#[test]
fn extract_and_pair() {
    let a = sample("a.py", "add");
    let subtrees = extract_subtrees(&a, 3);
    let roots: Vec<usize> = subtrees.iter().map(|s| s.root_id).collect();
    assert_eq!(roots, vec![0, 1, 2]);
    assert_eq!(subtrees[0].size, 5);

    let b = sample("b.py", "plus");
    // min_tokens 15 gives subtrees of at least 3 nodes.
    let pairs = find_subtree_candidates(&[a, b], 15);
    assert_eq!(pairs.len(), 3);
    // The pairs come in the order the map of hashes is walked.
    let mut paired: Vec<usize> = Vec::new();
    for p in pairs.iter() {
        assert_eq!(p.file1_idx, 0);
        assert_eq!(p.file2_idx, 1);
        assert_eq!(p.subtree1.root_id, p.subtree2.root_id);
        assert_eq!(p.subtree1.hash, p.subtree2.hash);
        paired.push(p.subtree1.root_id);
    }
    paired.sort();
    assert_eq!(paired, roots);
}

#[test]
fn no_pairs_for_distinct_trees() {
    let a = sample("a.py", "add");
    let mut c = Ast::new("c.py".to_string());
    c.add_node(AstNode::new(0, NodeKind::Class, span()).with_children(vec![1, 2]));
    c.add_node(AstNode::new(1, NodeKind::Pass, span()));
    c.add_node(AstNode::new(2, NodeKind::Pass, span()));
    let pairs = find_subtree_candidates(&[a, c], 15);
    assert_eq!(pairs.len(), 0);
}

#[test]
fn clone_text_of_span() {
    let file = SourceFile::new("x.py".to_string(), "def f():\n    pass\n".to_string(), "python".to_string());
    let c = clone_at_span(&file, &Span::new(0, 8, 1, 1, 0, 8));
    assert_eq!(c.content, "def f():");
    assert_eq!(c.file, "x.py");
    // The end is cut to the end of the text.
    let c = clone_at_span(&file, &Span::new(9, 500, 2, 2, 4, 8));
    assert_eq!(c.content, "    pass\n");
}

#[test]
fn countable_trees_and_cycles() {
    let a = sample("a.py", "add");
    let b = sample("b.py", "plus");
    assert!(trees_countable(&[a.clone(), b]));
    // A node that is its own descendant makes counting impossible.
    let mut c = Ast::new("c.py".to_string());
    c.add_node(AstNode::new(0, NodeKind::Module, span()).with_children(vec![1]));
    c.add_node(AstNode::new(1, NodeKind::Block, span()).with_children(vec![0]));
    assert!(!trees_countable(&[a, c]));
    assert!(trees_countable(&[]));
}
