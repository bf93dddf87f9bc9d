use deja_vu::ast::{Ast, AstError, AstNode, NodeKind, Span};
use deja_vu::tree_edit_distance::{count_nodes, nodes_match};

#[test]
fn test_span_creation() {
    let span = Span::new(0, 10, 1, 1, 0, 10);
    assert_eq!(span.len(), 10);
    assert!(!span.is_empty());
}

#[test]
fn test_ast_node_creation() {
    let span = Span::new(0, 5, 1, 1, 0, 5);
    let node = AstNode::new(0, NodeKind::Function, span).with_text("my_function".to_string());

    assert_eq!(node.id, 0);
    assert_eq!(node.kind, NodeKind::Function);
    assert_eq!(node.text, Some("my_function".to_string()));
}

fn create_test_ast() -> Ast {
    let mut ast = Ast::new("test.py".to_string());

    // Function
    //   Return
    //     BinaryOp
    //       Identifier("a")
    //       Identifier("b")
    let func_node =
        AstNode::new(0, NodeKind::Function, Span::new(0, 20, 1, 3, 0, 0)).with_text("add".to_string());
    let return_node = AstNode::new(1, NodeKind::Return, Span::new(10, 20, 2, 2, 4, 14));
    let binop_node =
        AstNode::new(2, NodeKind::BinaryOp, Span::new(17, 22, 2, 2, 11, 16)).with_text("+".to_string());
    let id1_node =
        AstNode::new(3, NodeKind::Identifier, Span::new(17, 18, 2, 2, 11, 12)).with_text("a".to_string());
    let id2_node =
        AstNode::new(4, NodeKind::Identifier, Span::new(21, 22, 2, 2, 15, 16)).with_text("b".to_string());

    ast.add_node(func_node);
    ast.add_node(return_node);
    ast.add_node(binop_node);
    ast.add_node(id1_node);
    ast.add_node(id2_node);

    ast.get_node_mut(0).unwrap().children = vec![1];
    ast.get_node_mut(1).unwrap().children = vec![2];
    ast.get_node_mut(2).unwrap().children = vec![3, 4];

    ast.root = 0;
    ast
}

#[test]
fn test_count_nodes() {
    let ast = create_test_ast();

    // Root function node + return + binop + 2 identifiers = 5 nodes
    let count = count_nodes(&ast, 0);
    assert_eq!(count, 5);
}

#[test]
fn test_nodes_match() {
    let node1 = AstNode::new(0, NodeKind::Function, Span::new(0, 10, 1, 1, 0, 10))
        .with_text("foo".to_string());
    let node2 = AstNode::new(1, NodeKind::Function, Span::new(0, 10, 1, 1, 0, 10))
        .with_text("bar".to_string());

    // Functions match by kind regardless of name (for structural matching)
    assert!(nodes_match(&node1, &node2));

    let id1 = AstNode::new(0, NodeKind::Identifier, Span::new(0, 1, 1, 1, 0, 1))
        .with_text("x".to_string());
    let id2 = AstNode::new(1, NodeKind::Identifier, Span::new(0, 1, 1, 1, 0, 1))
        .with_text("y".to_string());

    // Identifiers don't match if text differs
    assert!(!nodes_match(&id1, &id2));
}

#[test]
fn span_empty_and_reversed() {
    assert!(Span::new(5, 5, 1, 1, 5, 5).is_empty());
    assert_eq!(Span::new(5, 5, 1, 1, 5, 5).len(), 0);
    assert!(!Span::new(7, 3, 1, 1, 7, 3).is_empty());
}

#[test]
fn get_node_finds_first_with_id() {
    let mut ast = Ast::new("x.py".to_string());
    ast.add_node(AstNode::new(7, NodeKind::Pass, Span::new(0, 4, 1, 1, 0, 4)));
    ast.add_node(AstNode::new(7, NodeKind::Break, Span::new(5, 10, 2, 2, 0, 5)));
    assert_eq!(ast.get_node(7).unwrap().kind, NodeKind::Pass);
    assert!(ast.get_node(8).is_none());
    assert!(ast.get_node_mut(8).is_none());
}

#[test]
fn node_kind_display_and_equality() {
    assert_eq!(NodeKind::IfStatement.to_display_string(), "IfStatement");
    assert_eq!(NodeKind::Unknown("Foo".to_string()).to_display_string(), "Unknown(Foo)");
    assert_eq!(NodeKind::Unknown("a".to_string()), NodeKind::Unknown("a".to_string()));
    assert_ne!(NodeKind::Unknown("a".to_string()), NodeKind::Unknown("b".to_string()));
    assert_ne!(NodeKind::Module, NodeKind::Class);
}

#[test]
fn ast_error_messages() {
    assert_eq!(
        AstError::ParseError("x".to_string()).message(),
        "Failed to parse source: x"
    );
    assert_eq!(
        AstError::InvalidStructure("y".to_string()).message(),
        "Invalid AST structure: y"
    );
    assert_eq!(
        AstError::UnsupportedNode("z".to_string()).message(),
        "Unsupported node type: z"
    );
}

#[test]
fn count_nodes_of_missing_id_is_zero() {
    let ast = create_test_ast();
    assert_eq!(count_nodes(&ast, 99), 0);
    assert_eq!(count_nodes(&ast, 2), 3);
}

#[test]
fn count_nodes_stops_at_limit_on_cycle() {
    let mut ast = Ast::new("loop.py".to_string());
    ast.add_node(AstNode::new(0, NodeKind::Block, Span::new(0, 1, 1, 1, 0, 1)));
    ast.get_node_mut(0).unwrap().children = vec![0];
    assert_eq!(count_nodes(&ast, 0), 1000);
}

#[test]
fn nodes_match_text_presence() {
    let a = AstNode::new(0, NodeKind::Literal, Span::new(0, 1, 1, 1, 0, 1));
    let b = AstNode::new(1, NodeKind::Literal, Span::new(0, 1, 1, 1, 0, 1));
    assert!(nodes_match(&a, &b));
    let c = AstNode::new(2, NodeKind::Literal, Span::new(0, 1, 1, 1, 0, 1)).with_text("1".to_string());
    assert!(!nodes_match(&a, &c));
    let d = AstNode::new(3, NodeKind::Identifier, Span::new(0, 1, 1, 1, 0, 1));
    assert!(!nodes_match(&a, &d));
}
