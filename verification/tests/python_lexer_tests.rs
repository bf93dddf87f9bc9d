use deja_vu::detector::{DetectionConfig, DetectionMode};
use deja_vu::python_tokenizer::PythonTokenizer;
use deja_vu::source::SourceFile;
use deja_vu::token::{Token, TokenType};
use deja_vu::token_detector::detect_in_tokens;

/// Tokens of Python source, lexed by the real lexer.
fn tokenize(source: &str) -> Vec<Token> {
    PythonTokenizer::new().tokenize_python(source).unwrap()
}

fn python_file(path: &str, code: &str) -> SourceFile {
    SourceFile::new(path.to_string(), code.to_string(), "python".to_string())
}

fn detect(files: &[SourceFile], config: &DetectionConfig) -> Vec<deja_vu::clone::CloneGroup> {
    let tokens: Vec<Vec<Token>> = files.iter().map(|f| tokenize(&f.content)).collect();
    detect_in_tokens(files, &tokens, config)
}

#[test]
fn test_same_docstring_different_code_not_duplicate() {
    let test_code1 = r#"
def process_data(items):
    """Process the input data"""
    total = 0
    for item in items:
        total += item * 2
    return total
"#;
    let test_code2 = r#"
def process_data(items):
    """Process the input data"""
    results = []
    for item in items:
        results.append(item + 10)
    return results
"#;
    let files = vec![python_file("test1.py", test_code1), python_file("test2.py", test_code2)];
    let config = DetectionConfig {
        mode: DetectionMode::Balanced,
        min_lines: 3,
        min_tokens: 10,
        ignore_comments: true,
        ignore_whitespace: true,
    };
    let clone_groups = detect(&files, &config);
    assert!(
        clone_groups.is_empty(),
        "Should not detect duplicate when only docstrings match but code is different"
    );
}

#[test]
fn test_tokenize_simple_duplicate_file() {
    let source = r#"def add(a, b):
    """Add two numbers"""
    result = a + b
    return result


def sum_values(x, y):
    """Sum two values (duplicate with renamed variables)"""
    result = x + y
    return result
"#;
    let result = PythonTokenizer::new().tokenize_python(source);
    assert!(result.is_ok());
    let tokens = result.unwrap();
    let normalized_count = tokens
        .iter()
        .filter(|t| !matches!(t.token_type, TokenType::Whitespace | TokenType::Comment))
        .count();
    assert!(normalized_count > 0);
    assert!(tokens.len() > 20, "Should have at least 20 tokens for two simple functions");
}

#[test]
fn renamed_function_in_same_file_detected() {
    let source = r#"def add(a, b):
    """Add two numbers"""
    result = a + b
    return result


def sum_values(x, y):
    """Sum two values (duplicate with renamed variables)"""
    result = x + y
    return result
"#;
    let files = vec![python_file("simple_duplicate.py", source)];
    let config = DetectionConfig {
        mode: DetectionMode::Fast,
        min_tokens: 5,
        min_lines: 2,
        ignore_comments: true,
        ignore_whitespace: true,
    };
    let groups = detect(&files, &config);
    assert!(!groups.is_empty(), "the two functions differ only in names");
    for group in &groups {
        assert!(group.instances.len() >= 2);
        // Both instances lie in the one file, the second function's below the first's.
        assert_eq!(group.instances[0].file, "simple_duplicate.py");
        assert!(group.instances[0].start_line < group.instances[1].start_line);
        assert!(group.instances[0].end_line <= group.instances[1].start_line);
    }
}

#[test]
fn docstring_text_is_left_out_of_every_group() {
    // Whatever order the groups come in, none shows a docstring.
    let test_code1 = "\ndef calculate(x):\n    \"\"\"First docstring\"\"\"\n    result = x * 2\n    return result\n";
    let test_code2 = "\ndef calculate(x):\n    \"\"\"Completely different\"\"\"\n    result = x * 2\n    return result\n";
    let files = vec![python_file("test1.py", test_code1), python_file("test2.py", test_code2)];
    let config = DetectionConfig {
        mode: DetectionMode::Balanced,
        min_lines: 2,
        min_tokens: 5,
        ignore_comments: true,
        ignore_whitespace: true,
    };
    let groups = detect(&files, &config);
    assert!(!groups.is_empty());
    for g in &groups {
        assert_eq!(g.instances.len(), 2);
        for c in &g.instances {
            assert!(!c.content.contains("docstring") && !c.content.contains("Completely"));
        }
    }
    // Where both files hold the same docstring and comments are kept, the
    // windows that span it match and show it.
    let same = vec![python_file("test1.py", test_code1), python_file("test2.py", test_code1)];
    let keep = DetectionConfig { ignore_comments: false, ..config };
    let shown = detect(&same, &keep);
    assert!(shown.iter().any(|g| g.instances.iter().any(|c| c.content.contains("\"\"\""))));
}

#[test]
fn class_docstring_text_is_left_out_of_every_group() {
    let code = |doc: &str| {
        format!(
            "\nclass Calculator:\n    \"\"\"{}\"\"\"\n\n    def add(self, a, b):\n        return a + b\n\n    def subtract(self, a, b):\n        return a - b\n",
            doc
        )
    };
    let files = vec![
        python_file("test1.py", &code("First calculator class with detailed documentation")),
        python_file("test2.py", &code("Second calculator class with different docs")),
    ];
    let config = DetectionConfig {
        mode: DetectionMode::Balanced,
        min_lines: 4,
        min_tokens: 10,
        ignore_comments: true,
        ignore_whitespace: true,
    };
    let groups = detect(&files, &config);
    assert!(!groups.is_empty());
    // The window that starts at the class spans the docstring's lines.
    assert!(groups.iter().any(|g| g.instances.iter().any(|c| c.content.starts_with("class Calculator:"))));
    for g in &groups {
        for c in &g.instances {
            assert!(!c.content.contains("detailed documentation") && !c.content.contains("different docs"));
        }
    }
}
