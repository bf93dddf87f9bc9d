use deja_vu::detector::{DetectionConfig, DetectionMode};
use deja_vu::source::SourceFile;
use deja_vu::token::{Token, TokenType};
use deja_vu::token_detector::{
    any_normalized, check_countable, detect_checked, detect_in_tokens, extract_content, find_candidates, normalize_tokens,
    DetectError,
};

/// The tokens the whitespace-splitting tokenizer of the detector tests gives.
fn mock_tokenize(source: &str) -> Vec<Token> {
    let mut tokens = Vec::new();
    let mut offset = 0;
    let line = 1;
    let mut col = 0;

    for word in source.split_whitespace() {
        let token_type = match word {
            "def" | "class" | "if" | "else" | "return" => TokenType::Keyword,
            _ if word.chars().all(|c| c.is_numeric()) => TokenType::Literal,
            _ => TokenType::Identifier,
        };

        tokens.push(Token::new(
            token_type,
            word.to_string(),
            offset,
            offset + word.len(),
            line,
            col,
        ));

        offset += word.len() + 1;
        col += word.len() + 1;
    }
    tokens
}

fn config(min_tokens: usize) -> DetectionConfig {
    DetectionConfig {
        mode: DetectionMode::Fast,
        min_tokens,
        min_lines: 1,
        ignore_comments: true,
        ignore_whitespace: true,
    }
}

fn detect(files: &[SourceFile], config: &DetectionConfig) -> Result<Vec<deja_vu::clone::CloneGroup>, DetectError> {
    let tokens: Vec<Vec<Token>> = files.iter().map(|f| mock_tokenize(&f.content)).collect();
    Ok(detect_in_tokens(files, &tokens, config))
}

#[test]
fn test_normalize_tokens() {
    let tokens = vec![
        Token::new(TokenType::Keyword, "def".to_string(), 0, 3, 1, 0),
        Token::new(TokenType::Identifier, "foo".to_string(), 4, 7, 1, 4),
        Token::new(TokenType::Literal, "42".to_string(), 10, 12, 1, 10),
    ];

    let normalized = normalize_tokens(&tokens, &DetectionConfig::default());
    assert_eq!(normalized.len(), 3);
    assert_eq!(normalized[0].value, "def");
    assert_eq!(normalized[0].original_index, 0);
    assert_eq!(normalized[1].value, "$ID");
    assert_eq!(normalized[1].original_index, 1);
    assert_eq!(normalized[2].value, "$LIT");
    assert_eq!(normalized[2].original_index, 2);
}

#[test]
fn test_normalize_tokens_with_comments() {
    let tokens = vec![
        Token::new(TokenType::Keyword, "def".to_string(), 0, 3, 1, 0),
        Token::new(TokenType::Comment, "# comment".to_string(), 4, 13, 1, 4),
        Token::new(TokenType::Identifier, "foo".to_string(), 14, 17, 1, 14),
    ];

    let normalized = normalize_tokens(&tokens, &DetectionConfig::default());
    assert_eq!(normalized.len(), 2);
    assert_eq!(normalized[0].value, "def");
    assert_eq!(normalized[0].original_index, 0);
    assert_eq!(normalized[1].value, "$ID");
    assert_eq!(normalized[1].original_index, 2);
}

#[test]
fn test_normalize_tokens_with_whitespace() {
    let tokens = vec![
        Token::new(TokenType::Keyword, "def".to_string(), 0, 3, 1, 0),
        Token::new(TokenType::Whitespace, "\n".to_string(), 3, 4, 1, 3),
        Token::new(TokenType::Identifier, "foo".to_string(), 4, 7, 2, 0),
    ];

    let normalized = normalize_tokens(&tokens, &DetectionConfig::default());
    assert_eq!(normalized.len(), 2);
    assert_eq!(normalized[0].value, "def");
    assert_eq!(normalized[0].original_index, 0);
    assert_eq!(normalized[1].value, "$ID");
    assert_eq!(normalized[1].original_index, 2);
}

#[test]
fn test_extract_content() {
    let source = "def foo():\n    return 42";
    let content = extract_content(source, 0, 10);
    assert_eq!(content, "def foo():");
}

#[test]
fn test_extract_content_out_of_bounds() {
    let source = "short";
    let content = extract_content(source, 0, 100);
    assert_eq!(content, "");
}

#[test]
fn test_detect_empty_files() {
    let config = DetectionConfig::default();
    let files: Vec<SourceFile> = vec![];

    let result = detect(&files, &config);
    assert!(result.is_ok());
    assert_eq!(result.unwrap().len(), 0);
}

#[test]
fn test_detect_single_file() {
    let files = vec![SourceFile::new(
        "test1.mock".to_string(),
        "def foo bar baz qux".to_string(),
        "mock".to_string(),
    )];

    let result = detect(&files, &config(3));
    assert!(result.is_ok());
    // Single file should not produce clones
    assert_eq!(result.unwrap().len(), 0);
}

#[test]
fn test_detect_identical_code() {
    let code = "def foo bar baz qux".to_string();
    let files = vec![
        SourceFile::new("test1.mock".to_string(), code.clone(), "mock".to_string()),
        SourceFile::new("test2.mock".to_string(), code.clone(), "mock".to_string()),
    ];

    let result = detect(&files, &config(3));
    assert!(result.is_ok());
    let groups = result.unwrap();

    // Should find at least one clone group with the identical code
    assert!(groups.len() > 0, "Should detect clones in identical code");
}

#[test]
fn test_detect_respects_min_tokens() {
    let code = "def foo bar".to_string();
    let files = vec![
        SourceFile::new("test1.mock".to_string(), code.clone(), "mock".to_string()),
        SourceFile::new("test2.mock".to_string(), code.clone(), "mock".to_string()),
    ];

    let result = detect(&files, &config(100));
    assert!(result.is_ok());
    let groups = result.unwrap();

    // Should not find clones because code is too short
    assert_eq!(groups.len(), 0);
}

#[test]
fn detect_groups_hold_instances_in_path_order() {
    let code = "def foo bar".to_string();
    let files = vec![
        SourceFile::new("b.mock".to_string(), code.clone(), "mock".to_string()),
        SourceFile::new("a.mock".to_string(), code.clone(), "mock".to_string()),
    ];
    let groups = detect(&files, &config(3)).unwrap();
    // Identifiers are placeholders, so both whole files are one window.
    assert_eq!(groups.len(), 1);
    let g = &groups[0];
    assert_eq!(g.size(), 2);
    assert_eq!(g.instances[0].file, "a.mock");
    assert_eq!(g.instances[1].file, "b.mock");
    assert_eq!(g.instances[0].content, "def foo bar");
    assert_eq!(g.instances[0].start_line, 1);
    assert_eq!(g.instances[0].end_line, 1);
    assert_eq!(g.instances[0].start_col, 0);
    assert_eq!(g.instances[0].end_col, 8);
    assert_eq!(g.clone_type, deja_vu::clone::CloneType::Type1);
    // The signature is the window hash in hexadecimal.
    assert!(g.signature.chars().all(|c| c.is_ascii_hexdigit()));
}

#[test]
fn detect_respects_min_lines() {
    let code = "def foo bar".to_string();
    let files = vec![
        SourceFile::new("a.mock".to_string(), code.clone(), "mock".to_string()),
        SourceFile::new("b.mock".to_string(), code.clone(), "mock".to_string()),
    ];
    let mut c = config(3);
    c.min_lines = 2;
    assert_eq!(detect(&files, &c).unwrap().len(), 0);
}

#[test]
fn detect_zero_window_without_tokens() {
    let none: Vec<SourceFile> = Vec::new();
    assert_eq!(detect(&none, &config(0)).unwrap().len(), 0);
    // Detection with a window of zero tokens needs files without tokens to hash.
    let comment_only = vec![vec![Token::new(TokenType::Comment, "# x".to_string(), 0, 3, 1, 0)]];
    assert!(!any_normalized(&comment_only, &config(0)));
    assert!(any_normalized(&vec![mock_tokenize("def")], &config(0)));
    let files = vec![SourceFile::new("a.mock".to_string(), "# x".to_string(), "mock".to_string())];
    assert_eq!(detect_in_tokens(&files, &comment_only, &config(0)).len(), 0);
}

#[test]
fn countable_candidates() {
    let code = "def foo bar".to_string();
    let files = vec![
        SourceFile::new("a.mock".to_string(), code.clone(), "mock".to_string()),
        SourceFile::new("b.mock".to_string(), code.clone(), "mock".to_string()),
    ];
    let tokens: Vec<Vec<Token>> = files.iter().map(|f| mock_tokenize(&f.content)).collect();
    let candidates = find_candidates(&files, &tokens, &config(3));
    assert_eq!(candidates.len(), 1);
    assert_eq!(candidates[0].1.len(), 2);
    assert!(check_countable(&candidates));
    // A window that ends on a line before its start cannot be counted.
    let backwards = vec![
        Token::new(TokenType::Keyword, "def".to_string(), 0, 3, 5, 0),
        Token::new(TokenType::Identifier, "foo".to_string(), 4, 7, 5, 4),
        Token::new(TokenType::Identifier, "bar".to_string(), 8, 11, 2, 8),
    ];
    let candidates = find_candidates(&files, &vec![backwards.clone(), backwards], &config(3));
    assert!(!check_countable(&candidates));
}

#[test]
fn detect_error_messages() {
    assert_eq!(
        DetectError::NoTokenizer("cobol".to_string()).message(),
        "No tokenizer registered for language: cobol"
    );
    assert!(DetectError::NoTokenizer("x".to_string()).message().contains("No tokenizer"));
}

#[test]
fn extract_content_char_boundaries() {
    let source = "héllo";
    // Byte 2 falls inside 'é'.
    assert_eq!(extract_content(source, 0, 2), "");
    assert_eq!(extract_content(source, 0, 3), "hé");
    assert_eq!(extract_content(source, 3, 1), "");
    assert_eq!(extract_content(source, 3, 6), "llo");
}

#[test]
fn renamed_copy_with_comment_is_detected() {
    let a = SourceFile::new("a.mock".to_string(), "def foo 1 return foo".to_string(), "mock".to_string());
    let b = SourceFile::new("b.mock".to_string(), "def bar # note 7 return bar".to_string(), "mock".to_string());
    let tokens_a = mock_tokenize(&a.content);
    let mut tokens_b = mock_tokenize(&b.content);
    // The words "# note" form one comment token between two tokens of the copy.
    tokens_b.remove(2);
    tokens_b[2] = Token::new(TokenType::Comment, "# note".to_string(), 8, 14, 1, 8);
    let values = |ts: &[Token]| -> Vec<String> { normalize_tokens(ts, &config(5)).into_iter().map(|n| n.value).collect() };
    assert_eq!(values(&tokens_a), values(&tokens_b));
    let files = vec![a, b];
    let groups = detect_in_tokens(&files, &vec![tokens_a, tokens_b], &config(5));
    assert_eq!(groups.len(), 1);
    assert_eq!(groups[0].size(), 2);
    assert_eq!(groups[0].instances[0].file, "a.mock");
    assert_eq!(groups[0].instances[1].file, "b.mock");
    // The skipped comment is not shown.
    assert_eq!(groups[0].instances[1].content, "def bar  7 return bar");
}

#[test]
fn repeated_runs_report_the_same_groups() {
    let a = SourceFile::new("a.mock".to_string(), "def foo 1 return foo class bar 2 if".to_string(), "mock".to_string());
    let b = SourceFile::new("b.mock".to_string(), "def x 3 return y class z 4 if".to_string(), "mock".to_string());
    let files = vec![a, b];
    let describe = |groups: Vec<deja_vu::clone::CloneGroup>| -> Vec<(String, Vec<(String, usize, usize)>)> {
        let mut out: Vec<(String, Vec<(String, usize, usize)>)> = groups
            .into_iter()
            .map(|g| {
                let inst = g.instances.iter().map(|c| (c.file.clone(), c.start_col, c.end_col)).collect();
                (g.signature, inst)
            })
            .collect();
        out.sort();
        out
    };
    let first = describe(detect(&files, &config(3)).unwrap());
    let second = describe(detect(&files, &config(3)).unwrap());
    // Every window of three normalized tokens repeats across the files.
    assert_eq!(first.len(), 7);
    assert_eq!(first, second);
}

#[test]
fn normalize_keeps_comments_and_whitespace_when_not_ignored() {
    let tokens = vec![
        Token::new(TokenType::Keyword, "def".to_string(), 0, 3, 1, 0),
        Token::new(TokenType::Comment, "# note".to_string(), 4, 10, 1, 4),
        Token::new(TokenType::Whitespace, "\n".to_string(), 10, 11, 1, 10),
        Token::new(TokenType::Identifier, "foo".to_string(), 11, 14, 2, 0),
    ];
    let mut c = config(3);
    c.ignore_comments = false;
    let kept = normalize_tokens(&tokens, &c);
    let values: Vec<(String, usize)> = kept.iter().map(|n| (n.value.clone(), n.original_index)).collect();
    assert_eq!(values, vec![("def".to_string(), 0), ("# note".to_string(), 1), ("$ID".to_string(), 3)]);
    c.ignore_whitespace = false;
    let all = normalize_tokens(&tokens, &c);
    assert_eq!(all.len(), 4);
    assert_eq!(all[2].value, "\n");
    c.ignore_comments = true;
    let no_comment = normalize_tokens(&tokens, &c);
    assert_eq!(no_comment.len(), 3);
    assert_eq!(no_comment[1].original_index, 2);
}

#[test]
fn detect_checked_tests_then_detects() {
    let code = "def foo bar".to_string();
    let files = vec![
        SourceFile::new("a.mock".to_string(), code.clone(), "mock".to_string()),
        SourceFile::new("b.mock".to_string(), code.clone(), "mock".to_string()),
    ];
    let tokens: Vec<Vec<Token>> = files.iter().map(|f| mock_tokenize(&f.content)).collect();
    let groups = detect_checked(&files, &tokens, &config(3)).unwrap();
    assert_eq!(groups.len(), 1);
    assert_eq!(groups[0].size(), 2);
    // A window of zero tokens over files with tokens cannot run.
    assert!(detect_checked(&files, &tokens, &config(0)).is_none());
    // Nor can a repeated window whose lines run backwards.
    let backwards = vec![
        Token::new(TokenType::Keyword, "def".to_string(), 0, 3, 5, 0),
        Token::new(TokenType::Identifier, "foo".to_string(), 4, 7, 5, 4),
        Token::new(TokenType::Identifier, "bar".to_string(), 8, 11, 2, 8),
    ];
    assert!(detect_checked(&files, &vec![backwards.clone(), backwards], &config(3)).is_none());
}

fn window(path: &str, start: usize, end: usize) -> deja_vu::token_detector::CloneCandidate {
    deja_vu::token_detector::CloneCandidate {
        file_path: path.to_string(),
        start_line: 1,
        end_line: 1,
        start_col: start,
        end_col: end,
        start_offset: start,
        end_offset: end,
        token_count: 3,
    }
}

#[test]
fn overlapping_windows_in_one_file_are_not_a_clone() {
    let files = vec![SourceFile::new("a.mock".to_string(), "x x x x x x".to_string(), "mock".to_string())];
    // Two windows of one file that overlap: the second repeats the first.
    let cands = vec![(7u64, vec![window("a.mock", 0, 5), window("a.mock", 2, 7)])];
    assert_eq!(deja_vu::token_detector::extend_candidates(&cands, &files, &vec![vec![]; files.len()], true, 1).len(), 0);
    // Two windows of one file that do not overlap are a clone.
    let apart = vec![(7u64, vec![window("a.mock", 0, 5), window("a.mock", 6, 11)])];
    let groups = deja_vu::token_detector::extend_candidates(&apart, &files, &vec![vec![]; files.len()], true, 1);
    assert_eq!(groups.len(), 1);
    assert_eq!(groups[0].instances.len(), 2);
    assert_eq!(groups[0].signature, "7");
}

#[test]
fn overlapping_windows_are_kept_in_groups_across_files() {
    let files = vec![
        SourceFile::new("a.mock".to_string(), "x x x x x x".to_string(), "mock".to_string()),
        SourceFile::new("b.mock".to_string(), "x x x x x x".to_string(), "mock".to_string()),
    ];
    let cands = vec![(10u64, vec![window("b.mock", 0, 5), window("a.mock", 2, 7), window("a.mock", 0, 5)])];
    let groups = deja_vu::token_detector::extend_candidates(&cands, &files, &vec![vec![]; files.len()], true, 1);
    assert_eq!(groups.len(), 1);
    assert_eq!(groups[0].signature, "a");
    let places: Vec<(String, usize)> =
        groups[0].instances.iter().map(|c| (c.file.clone(), c.start_col)).collect();
    // Sorted by file, then line; windows of one line keep their order.
    assert_eq!(places, vec![("a.mock".to_string(), 2), ("a.mock".to_string(), 0), ("b.mock".to_string(), 0)]);
    assert_eq!(groups[0].instances[1].content, "x x x");
}

#[test]
fn shown_content_leaves_out_skipped_comments() {
    let source = "a = 1 # note\nb = 2";
    let comment = Token {
        token_type: TokenType::Comment,
        value: "# note".to_string(),
        start: 6,
        end: 12,
        line: 1,
        column: 6,
    };
    let tokens = vec![comment];
    assert_eq!(deja_vu::token_detector::shown_content(source, &tokens, true, 0, source.len()), "a = 1 \nb = 2");
    assert_eq!(deja_vu::token_detector::shown_content(source, &tokens, false, 0, source.len()), source);
    // A comment that reaches past the window is kept.
    assert_eq!(deja_vu::token_detector::shown_content(source, &tokens, true, 0, 9), "a = 1 # n");
}
