use deja_vu::ast::{AstError, NodeKind};
use deja_vu::python_ast::{PythonAstConverter, PythonAstParser, PythonParser};
use deja_vu::python_syntax::{
    convert_parsed_module, parse_python_to_generic_ast, stmts_clauses_filled, PyBoolOp, PyExpr, PyMod, PyOperator, PyParameter,
    PyStmt, TextRange,
};
use deja_vu::python_tokenizer::{LexedToken, PyTok, PythonTokenizer};
use deja_vu::token::{TokenType, TokenizationError};

/// Lexer results for `source`, each token placed at the next occurrence of
/// its text (an empty text marks the current position).
fn lex(source: &str, toks: Vec<(PyTok, &str)>) -> Vec<Result<LexedToken, String>> {
    let mut pos = 0;
    toks.into_iter()
        .map(|(tok, text)| {
            let start = if text.is_empty() { pos } else { pos + source[pos..].find(text).unwrap() };
            let end = start + text.len();
            pos = end;
            Ok(LexedToken { tok, start, end })
        })
        .collect()
}

fn name(s: &str) -> PyTok {
    PyTok::Name { name: s.to_string() }
}

fn string(s: &str) -> PyTok {
    PyTok::String { value: s.to_string() }
}

fn int_tok(s: &str) -> PyTok {
    PyTok::Int { value: s.to_string() }
}

/// The range of the first occurrence of `text` in `source` from `from` on.
fn range(source: &str, text: &str, from: usize) -> TextRange {
    let start = from + source[from..].find(text).unwrap();
    TextRange { start, end: start + text.len() }
}

fn name_expr(source: &str, id: &str, from: usize) -> PyExpr {
    PyExpr::Name { range: range(source, id, from), id: id.to_string() }
}

fn param(source: &str, id: &str, from: usize) -> PyParameter {
    PyParameter { range: range(source, id, from), name: id.to_string() }
}

#[test]
fn test_tokenize_simple_python() {
    let tokenizer = PythonTokenizer::new();
    let source = "def hello():\n    pass";

    let result = tokenizer.tokenize_python(source);
    assert!(result.is_ok());

    let tokens = result.unwrap();
    assert!(!tokens.is_empty());

    let keyword_count = tokens.iter().filter(|t| t.token_type == TokenType::Keyword).count();
    assert!(keyword_count >= 2); // 'def' and 'pass'
}

#[test]
fn test_tokenize_with_literals() {
    let tokenizer = PythonTokenizer::new();
    let source = "x = 42";

    let result = tokenizer.tokenize_python(source);
    assert!(result.is_ok());

    let tokens = result.unwrap();
    let literal_count = tokens.iter().filter(|t| t.token_type == TokenType::Literal).count();
    assert!(literal_count >= 1);
}

#[test]
fn test_line_numbers_are_correct() {
    let tokenizer = PythonTokenizer::new();
    let source = "def hello():\n    print('world')\n    return 42";

    let result = tokenizer.tokenize_python(source);
    assert!(result.is_ok());

    let tokens = result.unwrap();

    let def_token = tokens.iter().find(|t| t.value == "Def").unwrap();
    assert_eq!(def_token.line, 1, "def should be on line 1");

    let print_token = tokens.iter().find(|t| t.value == "print").unwrap();
    assert_eq!(print_token.line, 2, "print should be on line 2");

    let return_token = tokens.iter().find(|t| t.value == "Return").unwrap();
    assert_eq!(return_token.line, 3, "return should be on line 3");

    let num_token = tokens.iter().find(|t| t.value == "42").unwrap();
    assert_eq!(num_token.line, 3, "42 should be on line 3");
}

#[test]
fn test_column_numbers_are_correct() {
    let tokenizer = PythonTokenizer::new();
    let source = "x = 42 + y";

    let result = tokenizer.tokenize_python(source);
    assert!(result.is_ok());

    let tokens = result.unwrap();

    let x_token = tokens.iter().find(|t| t.value == "x").unwrap();
    assert_eq!(x_token.column, 0, "x should be at column 0");

    let eq_token = tokens
        .iter()
        .find(|t| matches!(t.token_type, TokenType::Operator) && t.start == 2)
        .unwrap();
    assert_eq!(eq_token.column, 2, "= should be at column 2");

    let num_token = tokens.iter().find(|t| t.value == "42").unwrap();
    assert_eq!(num_token.column, 4, "42 should be at column 4");

    let plus_token = tokens.iter().find(|t| t.start == 7).unwrap();
    assert_eq!(plus_token.column, 7, "+ should be at column 7");

    let y_token = tokens.iter().find(|t| t.value == "y").unwrap();
    assert_eq!(y_token.column, 9, "y should be at column 9");
}

#[test]
fn test_module_docstring_detected_as_comment() {
    let tokenizer = PythonTokenizer::new();
    let source = "\"\"\"Module-level docstring\"\"\"\ndef func():\n    pass\n";

    let tokens = tokenizer.tokenize_python(source).unwrap();
    let docstring = tokens.iter().find(|t| t.value.contains("Module-level docstring"));
    assert!(docstring.is_some(), "Should find the module docstring");
    assert_eq!(docstring.unwrap().token_type, TokenType::Comment);
}

#[test]
fn test_function_docstring_detected_as_comment() {
    let tokenizer = PythonTokenizer::new();
    let source = "def add(a, b):\n    \"\"\"Add two numbers together\"\"\"\n    return a + b\n";

    let tokens = tokenizer.tokenize_python(source).unwrap();
    let docstring = tokens.iter().find(|t| t.value.contains("Add two numbers together"));
    assert!(docstring.is_some(), "Should find the function docstring");
    assert_eq!(docstring.unwrap().token_type, TokenType::Comment);
}

#[test]
fn test_class_docstring_detected_as_comment() {
    let tokenizer = PythonTokenizer::new();
    let source =
        "class Calculator:\n    \"\"\"A simple calculator class\"\"\"\n    def __init__(self):\n        pass\n";

    let tokens = tokenizer.tokenize_python(source).unwrap();
    let docstring = tokens.iter().find(|t| t.value.contains("simple calculator class"));
    assert!(docstring.is_some(), "Should find the class docstring");
    assert_eq!(docstring.unwrap().token_type, TokenType::Comment);
}

#[test]
fn test_method_docstring_detected_as_comment() {
    let tokenizer = PythonTokenizer::new();
    let source =
        "class Calculator:\n    def add(self, a, b):\n        \"\"\"Add two numbers\"\"\"\n        return a + b\n";

    let tokens = tokenizer.tokenize_python(source).unwrap();
    let docstring = tokens.iter().find(|t| t.value.contains("Add two numbers"));
    assert!(docstring.is_some(), "Should find the method docstring");
    assert_eq!(docstring.unwrap().token_type, TokenType::Comment);
}

#[test]
fn test_non_docstring_strings_remain_literals() {
    let tokenizer = PythonTokenizer::new();
    let source =
        "def greet(name):\n    \"\"\"Greet someone\"\"\"\n    message = \"Hello, \" + name\n    return message\n";

    let tokens = tokenizer.tokenize_python(source).unwrap();

    let docstring = tokens.iter().find(|t| t.value.contains("Greet someone"));
    assert!(docstring.is_some());
    assert_eq!(docstring.unwrap().token_type, TokenType::Comment, "Docstring should be Comment");

    let regular_string = tokens.iter().find(|t| t.value.contains("Hello, "));
    assert!(regular_string.is_some(), "Should find regular string");
    assert_eq!(regular_string.unwrap().token_type, TokenType::Literal);
}

#[test]
fn tokenize_stops_at_first_lexical_error() {
    let tokenizer = PythonTokenizer::new();
    let source = "x $ y";
    let mut lexed = lex(source, vec![(name("x"), "x")]);
    lexed.push(Err("UnrecognizedToken '$'".to_string()));
    lexed.push(Err("second".to_string()));
    match tokenizer.tokenize_lexed(source, &lexed) {
        Err(TokenizationError::LexError(m)) => assert_eq!(m, "UnrecognizedToken '$'"),
        other => panic!("unexpected {:?}", other),
    }
}

#[test]
fn token_texts_and_positions() {
    let tokenizer = PythonTokenizer::new();
    let source = "a\n  é = 1.5";
    let lexed = lex(
        source,
        vec![
            (name("a"), "a"),
            (PyTok::Newline, "\n"),
            (name("é"), "é"),
            (PyTok::Equal, "="),
            (PyTok::Float { value: "1.5".to_string() }, "1.5"),
        ],
    );
    let tokens = tokenizer.tokenize_lexed(source, &lexed).unwrap();
    assert_eq!(tokens.len(), 5);
    assert_eq!(tokens[1].value, "\n");
    assert_eq!(tokens[1].token_type, TokenType::Whitespace);
    assert_eq!((tokens[2].line, tokens[2].column), (2, 2));
    // Columns count bytes from the start of the line.
    assert_eq!((tokens[3].line, tokens[3].column), (2, 5));
    assert_eq!(tokens[4].token_type, TokenType::Literal);
    assert_eq!(tokens[4].value, "1.5");
    assert_eq!(tokenizer.map_token_type(&PyTok::Def), TokenType::Keyword);
    assert_eq!(tokenizer.token_to_string(&PyTok::Indent), "    ");
    assert_eq!(
        tokenizer.token_to_string(&PyTok::Complex { real: "1".to_string(), imag: "2".to_string() }),
        "1+2j"
    );
}

#[test]
fn line_index_and_positions() {
    let starts = PythonTokenizer::build_line_index("ab\ncd\n\nx");
    assert_eq!(starts, vec![0, 3, 6, 7]);
    assert_eq!(PythonTokenizer::offset_to_position(0, &starts), (1, 0));
    assert_eq!(PythonTokenizer::offset_to_position(4, &starts), (2, 1));
    assert_eq!(PythonTokenizer::offset_to_position(6, &starts), (3, 0));
    assert_eq!(PythonTokenizer::offset_to_position(99, &starts), (4, 92));
}

fn add_function_module(source: &str) -> PyMod {
    // def add(a, b):
    //     return a + b
    let a_use = source.find("a + b").unwrap();
    let binop = PyExpr::BinOp {
        range: range(source, "a + b", 0),
        left: Box::new(name_expr(source, "a", a_use)),
        op: PyOperator::Add,
        right: Box::new(name_expr(source, "b", a_use)),
    };
    PyMod::Module {
        body: vec![PyStmt::FunctionDef {
            range: range(source, "def add(a, b):\n    return a + b", 0),
            name: "add".to_string(),
            args: vec![param(source, "a", 8), param(source, "b", 8)],
            body: vec![PyStmt::Return {
                range: range(source, "return a + b", 0),
                value: Some(Box::new(binop)),
            }],
        }],
    }
}

#[test]
fn test_python_ast_parser() {
    let parser = PythonAstParser::new();
    assert_eq!(parser.language(), "python");

    let source = "\ndef add(a, b):\n    return a + b\n";

    let ast = parser.parse(source, "test.py");
    assert!(ast.is_ok());
}

#[test]
fn test_parse_simple_function() {
    let source = "\ndef add(a, b):\n    return a + b\n";

    let ast = parse_python_to_generic_ast(source, "test.py").unwrap();
    assert_eq!(ast.nodes.len() > 0, true);

    let root = ast.get_node(ast.root).unwrap();
    assert_eq!(root.kind, NodeKind::Module);
    assert!(root.children.len() > 0);
}

#[test]
fn test_parse_class() {
    let source = "\nclass Calculator:\n    def add(self, a, b):\n        return a + b\n";

    let ast = parse_python_to_generic_ast(source, "test.py").unwrap();

    let root = ast.get_node(ast.root).unwrap();
    assert!(root.children.len() > 0);

    let class_node = ast.get_node(root.children[0]).unwrap();
    assert_eq!(class_node.kind, NodeKind::Class);
    assert_eq!(class_node.text, Some("Calculator".to_string()));
}

#[test]
fn test_parse_if_statement() {
    let source = "\nif x > 0:\n    print(\"positive\")\nelse:\n    print(\"negative\")\n";

    let ast = parse_python_to_generic_ast(source, "test.py").unwrap();
    let root = ast.get_node(ast.root).unwrap();

    let if_node = ast.get_node(root.children[0]).unwrap();
    assert_eq!(if_node.kind, NodeKind::IfStatement);
}

#[test]
fn test_parse_invalid_syntax() {
    let source = "def invalid syntax here";
    let result = parse_python_to_generic_ast(source, "test.py");
    assert!(result.is_err());
}

#[test]
fn parsed_source_matches_hand_built_module() {
    // The tree the parser builds from raw source converts to the same
    // generic tree as the module written out by hand.
    let source = "\ndef add(a, b):\n    return a + b\n";
    let parsed = parse_python_to_generic_ast(source, "test.py").unwrap();
    let built = convert_parsed_module(Ok(add_function_module(source)), source, "test.py").unwrap();
    assert_eq!(parsed.nodes.len(), built.nodes.len());
    for (a, b) in parsed.nodes.iter().zip(built.nodes.iter()) {
        assert_eq!(a.id, b.id);
        assert_eq!(a.kind, b.kind);
        assert_eq!(a.text, b.text);
        assert_eq!(a.children, b.children);
        assert_eq!((a.span.start, a.span.end), (b.span.start, b.span.end));
    }
}

#[test]
fn parse_error_message_is_prefixed() {
    match parse_python_to_generic_ast("def (", "m.py") {
        Err(AstError::ParseError(m)) => assert!(m.starts_with("Failed to parse Python: ")),
        other => panic!("unexpected {:?}", other.map(|a| a.nodes.len())),
    }
    match PythonAstParser::new().parse("x = 1\n", "m.py") {
        Ok(ast) => assert_eq!(ast.source_file, "m.py"),
        Err(_) => panic!("valid source refused"),
    }
}

#[test]
fn convert_simple_function() {
    let source = "\ndef add(a, b):\n    return a + b\n";
    let ast = convert_parsed_module(Ok(add_function_module(source)), source, "test.py").unwrap();
    assert_eq!(ast.nodes.len() > 0, true);

    let root = ast.get_node(ast.root).unwrap();
    assert_eq!(root.kind, NodeKind::Module);
    assert!(root.children.len() > 0);
}

#[test]
fn convert_class() {
    let source = "\nclass Calculator:\n    def add(self, a, b):\n        return a + b\n";
    let a_use = source.find("a + b").unwrap();
    let method = PyStmt::FunctionDef {
        range: range(source, "def add(self, a, b):\n        return a + b", 0),
        name: "add".to_string(),
        args: vec![param(source, "self", 0), param(source, "a", 30), param(source, "b", 30)],
        body: vec![PyStmt::Return {
            range: range(source, "return a + b", 0),
            value: Some(Box::new(PyExpr::BinOp {
                range: range(source, "a + b", 0),
                left: Box::new(name_expr(source, "a", a_use)),
                op: PyOperator::Add,
                right: Box::new(name_expr(source, "b", a_use)),
            })),
        }],
    };
    let module = PyMod::Module {
        body: vec![PyStmt::ClassDef {
            range: TextRange { start: 1, end: source.len() - 1 },
            name: "Calculator".to_string(),
            body: vec![method],
        }],
    };

    let ast = convert_parsed_module(Ok(module), source, "test.py").unwrap();
    let root = ast.get_node(ast.root).unwrap();
    assert!(root.children.len() > 0);

    let class_node = ast.get_node(root.children[0]).unwrap();
    assert_eq!(class_node.kind, NodeKind::Class);
    assert_eq!(class_node.text, Some("Calculator".to_string()));
}

fn print_call(source: &str, text: &str) -> PyStmt {
    let call_range = range(source, &format!("print(\"{}\")", text), 0);
    PyStmt::Expr {
        range: call_range,
        value: Box::new(PyExpr::Call {
            range: call_range,
            func: Box::new(name_expr(source, "print", call_range.start)),
            args: vec![PyExpr::StringLiteral { range: range(source, &format!("\"{}\"", text), 0) }],
        }),
    }
}

#[test]
fn convert_if_statement() {
    let source = "\nif x > 0:\n    print(\"positive\")\nelse:\n    print(\"negative\")\n";
    let module = PyMod::Module {
        body: vec![PyStmt::If {
            range: TextRange { start: 1, end: source.len() - 1 },
            body: vec![print_call(source, "positive")],
            elif_else_clauses: vec![vec![print_call(source, "negative")]],
        }],
    };

    let ast = convert_parsed_module(Ok(module), source, "test.py").unwrap();
    let root = ast.get_node(ast.root).unwrap();

    let if_node = ast.get_node(root.children[0]).unwrap();
    assert_eq!(if_node.kind, NodeKind::IfStatement);
}

#[test]
fn convert_parse_failure() {
    let source = "def invalid syntax here";
    let result = convert_parsed_module(
        Err("ParseError { error: UnrecognizedToken(Name, None) }".to_string()),
        source,
        "test.py",
    );
    assert!(result.is_err());
}

#[test]
fn test_parse_simple_python() {
    let parser = PythonParser::new();
    let source = r#"
def hello():
    print("Hello, world!")
"#;

    let result = parser.parse_source(source, "test.py");
    assert!(result.is_ok());
}

#[test]
fn test_parse_invalid_python() {
    let parser = PythonParser::new();
    let source = "def invalid syntax here";

    let result = parser.parse_source(source, "test.py");
    assert!(result.is_err());
}

#[test]
fn parse_source_module_tree() {
    let ast = PythonParser::new().parse_source("x = 1\n", "m.py").unwrap();
    assert_eq!(ast.nodes.len(), 1);
    assert_eq!(ast.nodes[0].kind, NodeKind::Module);
    assert_eq!(ast.source_file, "m.py");
    match PythonParser::new().parse_source("def (", "m.py") {
        Err(AstError::ParseError(m)) => assert!(m.starts_with("Failed to parse Python: ")),
        other => panic!("unexpected {:?}", other.map(|a| a.nodes.len())),
    }
    match PythonParser::new().convert_to_generic_ast(Err("bad".to_string()), "m.py") {
        Err(AstError::ParseError(m)) => assert_eq!(m, "Failed to parse Python: bad"),
        other => panic!("unexpected {:?}", other.map(|a| a.nodes.len())),
    }
}

#[test]
fn conversion_layout() {
    let source = "\ndef add(a, b):\n    return a + b\n";
    let ast = convert_parsed_module(Ok(add_function_module(source)), source, "test.py").unwrap();
    // Module, function, two parameters, return, binary operation, two names.
    assert_eq!(ast.nodes.len(), 8);
    let root = &ast.nodes[0];
    assert_eq!(root.id, 0);
    assert_eq!(root.span.start, 0);
    assert_eq!(root.span.end, source.len());
    assert_eq!(root.span.line_start, 1);
    assert_eq!(root.span.line_end, 3);
    assert_eq!(root.children, vec![1]);
    // Ids count up in pre-order, nodes are stored children first.
    let ids: Vec<usize> = ast.nodes.iter().map(|n| n.id).collect();
    assert_eq!(ids, vec![0, 2, 3, 6, 7, 5, 4, 1]);
    let func = ast.get_node(1).unwrap();
    assert_eq!(func.kind, NodeKind::Function);
    assert_eq!(func.text, Some("add".to_string()));
    assert_eq!(func.children, vec![2, 3, 4]);
    assert_eq!((func.span.line_start, func.span.column_start), (2, 0));
    let binop = ast.get_node(5).unwrap();
    assert_eq!(binop.kind, NodeKind::BinaryOp);
    assert_eq!(binop.text, Some("Add".to_string()));
    assert_eq!(binop.children, vec![6, 7]);
    assert_eq!((binop.span.line_start, binop.span.column_start), (3, 11));
    let param = ast.get_node(2).unwrap();
    assert_eq!(param.kind, NodeKind::Parameter);
    assert_eq!(param.text, Some("a".to_string()));
}

#[test]
fn conversion_expressions_and_errors() {
    let source = "x";
    let r = TextRange { start: 0, end: 1 };
    let module = PyMod::Module {
        body: vec![
            PyStmt::Expr {
                range: r,
                value: Box::new(PyExpr::BoolOp {
                    range: r,
                    op: PyBoolOp::Or,
                    values: vec![PyExpr::NoneLiteral { range: r }, PyExpr::Other { range: r }],
                }),
            },
            PyStmt::Other { range: r },
            PyStmt::Pass { range: r },
        ],
    };
    let ast = convert_parsed_module(Ok(module), source, "m.py").unwrap();
    assert_eq!(ast.nodes[0].children, vec![1, 5, 6]);
    let boolop = ast.get_node(2).unwrap();
    assert_eq!(boolop.text, Some("Or".to_string()));
    assert_eq!(boolop.children, vec![3, 4]);
    assert_eq!(ast.get_node(3).unwrap().text, Some("$NONE".to_string()));
    assert_eq!(ast.get_node(4).unwrap().kind, NodeKind::Unknown("UnsupportedExpression".to_string()));
    assert_eq!(ast.get_node(5).unwrap().kind, NodeKind::Unknown("UnsupportedStatement".to_string()));
    assert_eq!(ast.get_node(6).unwrap().kind, NodeKind::Pass);

    match convert_parsed_module(Ok(PyMod::Expression), source, "m.py") {
        Err(AstError::UnsupportedNode(m)) => assert_eq!(m, "Only Module mode supported"),
        other => panic!("unexpected {:?}", other.map(|a| a.nodes.len())),
    }
    match convert_parsed_module(Err("boom".to_string()), source, "m.py") {
        Err(AstError::ParseError(m)) => assert_eq!(m, "Failed to parse Python: boom"),
        other => panic!("unexpected {:?}", other.map(|a| a.nodes.len())),
    }
    match PythonParser::new().convert_to_generic_ast(Ok(PyMod::Expression), "m.py") {
        Err(AstError::UnsupportedNode(m)) => assert_eq!(m, "Expression mode not supported"),
        other => panic!("unexpected {:?}", other.map(|a| a.nodes.len())),
    }
}

#[test]
fn converter_positions() {
    let conv = PythonAstConverter::new("ab\ncé\nx", "f.py");
    assert_eq!(conv.offset_to_position(0), (1, 0));
    assert_eq!(conv.offset_to_position(4), (2, 1));
    // An offset inside a character counts it as passed.
    assert_eq!(conv.offset_to_position(5), (2, 2));
    assert_eq!(conv.offset_to_position(100), (3, 1));
    let span = conv.create_span(3, 7);
    assert_eq!((span.line_start, span.column_start, span.line_end, span.column_end), (2, 0, 3, 0));
}

#[test]
fn module_ast_of_parser() {
    let ast = PythonParser::new().module_ast("m.py");
    assert_eq!(ast.nodes.len(), 1);
    assert_eq!(ast.nodes[0].kind, NodeKind::Module);
    assert_eq!(ast.source_file, "m.py");
}

#[test]
fn clauses_filled_check() {
    let source = "\nif x > 0:\n    print(\"positive\")\nelse:\n    print(\"negative\")\n";
    let filled = vec![PyStmt::If {
        range: TextRange { start: 1, end: source.len() - 1 },
        body: vec![print_call(source, "positive")],
        elif_else_clauses: vec![vec![print_call(source, "negative")]],
    }];
    assert!(stmts_clauses_filled(&filled));
    let empty_clause = vec![PyStmt::If {
        range: TextRange { start: 1, end: source.len() - 1 },
        body: vec![print_call(source, "positive")],
        elif_else_clauses: vec![vec![]],
    }];
    assert!(!stmts_clauses_filled(&empty_clause));
    assert!(stmts_clauses_filled(&vec![]));
}
