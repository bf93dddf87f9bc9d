use deja_vu::clone::{Clone as CloneInstance, CloneGroup, CloneType};
use deja_vu::detector::{DetectionConfig, DetectionMode};
use deja_vu::hash::{hash_tokens, RollingHash};
use deja_vu::similarity::{levenshtein_distance, JaccardSimilarity, LevenshteinSimilarity};
use deja_vu::source::{DetectionResult, SourceFile};
use deja_vu::token::{Token, TokenSequence, TokenType, TokenizationError};

#[test]
fn test_clone_line_count() {
    let clone = CloneInstance::new("test.py".to_string(), 10, 15, 0, 10, "code".to_string());
    assert_eq!(clone.line_count(), 6);
}

#[test]
fn test_clone_group() {
    let mut group = CloneGroup::new(CloneType::Type1, "hash123".to_string());

    group.add_instance(CloneInstance::new("a.py".to_string(), 1, 5, 0, 10, "code".to_string()));
    group.add_instance(CloneInstance::new("b.py".to_string(), 10, 14, 0, 10, "code".to_string()));

    assert_eq!(group.size(), 2);
    // The average line count is the total over the size.
    assert_eq!(group.total_lines() as f64 / group.size() as f64, 5.0);
}

#[test]
fn test_hash_tokens() {
    let tokens1 = vec!["def".to_string(), "foo".to_string()];
    let tokens2 = vec!["def".to_string(), "foo".to_string()];
    let tokens3 = vec!["def".to_string(), "bar".to_string()];

    assert_eq!(hash_tokens(&tokens1), hash_tokens(&tokens2));
    assert_ne!(hash_tokens(&tokens1), hash_tokens(&tokens3));
}

#[test]
fn test_rolling_hash() {
    let mut roller = RollingHash::new(3);

    assert!(roller.push("def").is_none());
    assert!(roller.push("foo").is_none());
    let hash1 = roller.push("bar");
    assert!(hash1.is_some());

    let hash2 = roller.push("baz");
    assert!(hash2.is_some());
    assert_ne!(hash1, hash2);
}

fn create_test_sequence(tokens: Vec<&str>) -> TokenSequence {
    let tokens = tokens
        .into_iter()
        .enumerate()
        .map(|(i, t)| Token::new(TokenType::Keyword, t.to_string(), i * 4, i * 4 + 3, 1, i * 4))
        .collect();
    TokenSequence::new(tokens)
}

fn jaccard(a: &TokenSequence, b: &TokenSequence) -> f64 {
    let (intersection, union) = JaccardSimilarity.overlap(a, b);
    if union == 0 {
        0.0
    } else {
        intersection as f64 / union as f64
    }
}

#[test]
fn test_jaccard_identical() {
    let seq1 = create_test_sequence(vec!["def", "foo", "bar"]);
    let seq2 = create_test_sequence(vec!["def", "foo", "bar"]);
    assert_eq!(jaccard(&seq1, &seq2), 1.0);
}

#[test]
fn test_jaccard_different() {
    let seq1 = create_test_sequence(vec!["def", "foo"]);
    let seq2 = create_test_sequence(vec!["class", "bar"]);
    assert_eq!(jaccard(&seq1, &seq2), 0.0);
}

#[test]
fn test_levenshtein_distance() {
    assert_eq!(levenshtein_distance("kitten", "sitting"), 3);
    assert_eq!(levenshtein_distance("hello", "hello"), 0);
}

#[test]
fn test_token_normalize() {
    let token = Token::new(TokenType::Identifier, "foo".to_string(), 0, 3, 1, 0);
    assert_eq!(token.normalize(true), "$ID");
    assert_eq!(token.normalize(false), "foo");
}

#[test]
fn test_token_sequence() {
    let tokens = vec![
        Token::new(TokenType::Keyword, "def".to_string(), 0, 3, 1, 0),
        Token::new(TokenType::Identifier, "foo".to_string(), 4, 7, 1, 4),
    ];

    let seq = TokenSequence::new(tokens);
    assert_eq!(seq.significant_token_count(), 2);
    assert_eq!(seq.to_normalized_string(true), "def $ID");
}

#[test]
fn levenshtein_edge_cases() {
    assert_eq!(levenshtein_distance("", ""), 0);
    assert_eq!(levenshtein_distance("abc", ""), 3);
    assert_eq!(levenshtein_distance("", "abcd"), 4);
    // Counted in characters, not bytes.
    assert_eq!(levenshtein_distance("héllo", "hello"), 1);
    // Symmetric.
    assert_eq!(levenshtein_distance("flaw", "lawn"), levenshtein_distance("lawn", "flaw"));
    assert_eq!(levenshtein_distance("flaw", "lawn"), 2);
}

#[test]
fn levenshtein_similarity_parts() {
    let a = create_test_sequence(vec!["def", "foo"]);
    let b = create_test_sequence(vec!["def", "fox"]);
    // Keywords keep their text: "def foo" against "def fox".
    assert_eq!(LevenshteinSimilarity.distance_and_length(&a, &b), (1, 7));
    let empty = TokenSequence::new(Vec::new());
    assert_eq!(LevenshteinSimilarity.distance_and_length(&empty, &empty), (0, 0));
}

#[test]
fn jaccard_counts_distinct_texts() {
    let a = create_test_sequence(vec!["def", "foo", "foo"]);
    let b = create_test_sequence(vec!["foo", "bar"]);
    assert_eq!(JaccardSimilarity.overlap(&a, &b), (1, 3));
    let empty = TokenSequence::new(Vec::new());
    assert_eq!(JaccardSimilarity.overlap(&empty, &empty), (0, 0));
    // Identifiers count as one placeholder.
    let ids = TokenSequence::new(vec![
        Token::new(TokenType::Identifier, "x".to_string(), 0, 1, 1, 0),
        Token::new(TokenType::Identifier, "y".to_string(), 2, 3, 1, 2),
    ]);
    assert_eq!(JaccardSimilarity.overlap(&ids, &ids), (1, 1));
}

#[test]
fn rolling_hash_matches_fresh_window_after_reset() {
    let mut a = RollingHash::new(2);
    a.push("x");
    a.push("y");
    a.push("z");
    a.reset();
    assert!(a.push("p").is_none());
    let after_reset = a.push("q");
    let mut b = RollingHash::new(2);
    b.push("p");
    assert_eq!(b.push("q"), after_reset);
    // The window hash depends only on the last two tokens.
    let mut c = RollingHash::new(2);
    c.push("w");
    c.push("p");
    assert_eq!(c.push("q"), after_reset);
}

#[test]
fn rolling_hash_window_of_one() {
    let mut r = RollingHash::new(1);
    let h1 = r.push("a");
    assert!(h1.is_some());
    let h2 = r.push("a");
    assert_eq!(h1, h2);
}

#[test]
fn token_normalize_kinds() {
    let lit = Token::new(TokenType::Literal, "42".to_string(), 0, 2, 1, 0);
    assert_eq!(lit.normalize(false), "$LIT");
    let comment = Token::new(TokenType::Comment, "# c".to_string(), 0, 3, 1, 0);
    assert_eq!(comment.normalize(true), "");
    let ws = Token::new(TokenType::Whitespace, " ".to_string(), 0, 1, 1, 0);
    assert_eq!(ws.normalize(true), "");
    let op = Token::new(TokenType::Operator, "+".to_string(), 0, 1, 1, 0);
    assert_eq!(op.normalize(true), "+");
}

#[test]
fn token_sequence_lines_and_counts() {
    let seq = TokenSequence::new(vec![
        Token::new(TokenType::Keyword, "def".to_string(), 0, 3, 2, 0),
        Token::new(TokenType::Comment, "# c".to_string(), 4, 7, 3, 0),
        Token::new(TokenType::Identifier, "f".to_string(), 8, 9, 4, 0),
    ]);
    assert_eq!(seq.start_line, 2);
    assert_eq!(seq.end_line, 4);
    assert_eq!(seq.significant_token_count(), 2);
    assert_eq!(seq.to_normalized_string(false), "def f");
    let empty = TokenSequence::new(Vec::new());
    assert_eq!(empty.start_line, 0);
    assert_eq!(empty.end_line, 0);
    assert_eq!(empty.to_normalized_string(true), "");
}

#[test]
fn tokenization_error_message() {
    let e = TokenizationError::LexError("bad".to_string());
    assert_eq!(e.message(), "Lexical error: bad");
}

#[test]
fn clone_type_names() {
    assert_eq!(CloneType::Type1.as_str(), "Type-1");
    assert_eq!(CloneType::Type2.as_str(), "Type-2");
    assert_eq!(CloneType::Type3.as_str(), "Type-3");
    assert_eq!(CloneType::Type4.as_str(), "Type-4");
}

#[test]
fn detection_config_modes() {
    let d = DetectionConfig::default();
    assert_eq!(d.mode, DetectionMode::Balanced);
    assert_eq!(d.min_tokens, 50);
    assert_eq!(d.min_lines, 5);
    assert!(d.ignore_comments);
    assert!(d.ignore_whitespace);
    let f = DetectionConfig::fast();
    assert_eq!((f.mode, f.min_tokens, f.min_lines), (DetectionMode::Fast, 30, 5));
    let b = DetectionConfig::balanced();
    assert_eq!((b.mode, b.min_tokens, b.min_lines), (DetectionMode::Balanced, 20, 4));
    let p = DetectionConfig::precise();
    assert_eq!((p.mode, p.min_tokens, p.min_lines), (DetectionMode::Precise, 15, 3));
    assert!(p.ignore_comments && p.ignore_whitespace);
}

#[test]
fn detection_result_totals() {
    let mut g1 = CloneGroup::new(CloneType::Type1, "a".to_string());
    g1.add_instance(CloneInstance::new("a.py".to_string(), 1, 2, 0, 0, String::new()));
    g1.add_instance(CloneInstance::new("b.py".to_string(), 1, 2, 0, 0, String::new()));
    let mut g2 = CloneGroup::new(CloneType::Type2, "b".to_string());
    for _ in 0..3 {
        g2.add_instance(CloneInstance::new("c.py".to_string(), 1, 1, 0, 0, String::new()));
    }
    let r = DetectionResult::new(vec![g1, g2], 4, 17);
    assert_eq!(r.total_clones(), 5);
    assert_eq!(r.files_analyzed, 4);
    let f = SourceFile::new("x.py".to_string(), "pass".to_string(), "python".to_string());
    assert_eq!(f.language, "python");
}

#[test]
fn config_from_mode_name() {
    let c = DetectionConfig::from_mode_name("fast", 40, 6, true, false).unwrap();
    assert_eq!(c.mode, DetectionMode::Fast);
    assert_eq!(c.min_tokens, 40);
    assert_eq!(c.min_lines, 6);
    assert!(c.ignore_comments);
    assert!(!c.ignore_whitespace);
    assert_eq!(DetectionConfig::from_mode_name("balanced", 50, 5, true, true).unwrap().mode, DetectionMode::Balanced);
    assert_eq!(DetectionConfig::from_mode_name("precise", 50, 5, true, true).unwrap().mode, DetectionMode::Precise);
    let err = DetectionConfig::from_mode_name("Fast", 50, 5, true, true).unwrap_err();
    assert_eq!(err, "Invalid mode 'Fast'. Must be 'fast', 'balanced', or 'precise'");
}

#[test]
fn clone_describes_itself() {
    let c = deja_vu::clone::Clone::new("a.py".to_string(), 3, 7, 0, 4, "x".to_string());
    assert_eq!(c.describe(), "Clone(file='a.py', lines=3-7, 5 lines)");
    let one = deja_vu::clone::Clone::new("b.py".to_string(), 12, 12, 0, 4, "y".to_string());
    assert_eq!(one.describe(), "Clone(file='b.py', lines=12-12, 1 lines)");
}

#[test]
fn rolling_window_forgets_older_tokens() {
    let ts = ["a", "b", "c", "d", "e"];
    let mut r1 = RollingHash::new(2);
    for t in &ts[..4] {
        r1.push(t);
    }
    let mut r2 = RollingHash::new(2);
    r2.push("d");
    // Both windows end with the same two tokens.
    assert_eq!(r1.push("e"), r2.push("e"));
    // A reset roller behaves as a new one.
    let mut fresh = RollingHash::new(2);
    r1.reset();
    for t in &ts {
        assert_eq!(r1.push(t), fresh.push(t));
    }
}
