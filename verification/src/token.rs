//! Token-based representation of source code for fast clone detection.

use vstd::prelude::*;
use vstd::string::*;

verus! {

/// Token type for lexical analysis.
#[derive(Debug, Clone, Copy, PartialEq, Eq, Hash, Structural)]
pub enum TokenType {
    Keyword,
    Identifier,
    Literal,
    Operator,
    Delimiter,
    Comment,
    Whitespace,
    Unknown,
}

/// A token from lexical analysis: its type, its text, its byte range in the
/// source, and the (1-based) line and (0-based) column where it starts.
#[derive(Debug, Clone)]
pub struct Token {
    pub token_type: TokenType,
    pub value: String,
    pub start: usize,
    pub end: usize,
    pub line: usize,
    pub column: usize,
}

/// Comments and whitespace carry no code.
pub open spec fn is_insignificant(t: TokenType) -> bool {
    t == TokenType::Comment || t == TokenType::Whitespace
}

/// The text a token is compared by: identifiers (when asked) and literals
/// are replaced by placeholders, comments and whitespace by nothing.
pub open spec fn normalized_text(t: Token, ignore_identifiers: bool) -> Seq<char> {
    if t.token_type == TokenType::Identifier && ignore_identifiers {
        "$ID"@
    } else if t.token_type == TokenType::Literal {
        "$LIT"@
    } else if is_insignificant(t.token_type) {
        Seq::<char>::empty()
    } else {
        t.value@
    }
}

impl Token {
    pub fn new(
        token_type: TokenType,
        value: String,
        start: usize,
        end: usize,
        line: usize,
        column: usize,
    ) -> (r: Self)
        ensures
            r == (Token { token_type, value, start, end, line, column }),
    {
        Self { token_type, value, start, end, line, column }
    }

    /// A copy of this token with an equal value.
    pub fn duplicate(&self) -> (r: Self)
        ensures
            r == *self,
    {
        Token {
            token_type: self.token_type,
            value: self.value.clone(),
            start: self.start,
            end: self.end,
            line: self.line,
            column: self.column,
        }
    }

    /// Returns a normalized version of this token for comparison.
    pub fn normalize(&self, ignore_identifiers: bool) -> (r: String)
        ensures
            r@ == normalized_text(*self, ignore_identifiers),
    {
        match self.token_type {
            TokenType::Identifier if ignore_identifiers => "$ID".to_owned(),
            TokenType::Literal => "$LIT".to_owned(),
            TokenType::Comment | TokenType::Whitespace => String::new(),
            _ => self.value.clone(),
        }
    }
}

/// The parts joined by single spaces.
pub open spec fn join_with_spaces(parts: Seq<Seq<char>>) -> Seq<char>
    decreases parts.len(),
{
    if parts.len() == 0 {
        Seq::<char>::empty()
    } else if parts.len() == 1 {
        parts[0]
    } else {
        join_with_spaces(parts.drop_last()) + " "@ + parts.last()
    }
}

/// The non-empty normalized texts of the first `n` tokens, in order.
pub open spec fn nonempty_normalized(tokens: Seq<Token>, ignore_identifiers: bool, n: int) -> Seq<
    Seq<char>,
>
    decreases n,
{
    if n <= 0 {
        Seq::<Seq<char>>::empty()
    } else {
        let rest = nonempty_normalized(tokens, ignore_identifiers, n - 1);
        let text = normalized_text(tokens[n - 1], ignore_identifiers);
        if text.len() == 0 {
            rest
        } else {
            rest.push(text)
        }
    }
}

/// Number of tokens among the first `n` that are neither comments nor
/// whitespace.
pub open spec fn significant_count(tokens: Seq<Token>, n: int) -> nat
    decreases n,
{
    if n <= 0 {
        0
    } else {
        significant_count(tokens, n - 1) + if is_insignificant(tokens[n - 1].token_type) {
            0nat
        } else {
            1nat
        }
    }
}

proof fn lemma_significant_count_bound(tokens: Seq<Token>, n: int)
    ensures
        significant_count(tokens, n) <= if n < 0 {
            0
        } else {
            n
        },
    decreases n,
{
    if n > 0 {
        lemma_significant_count_bound(tokens, n - 1);
    }
}

/// A sequence of tokens representing a code fragment.
#[derive(Debug, Clone)]
pub struct TokenSequence {
    pub tokens: Vec<Token>,
    pub start_line: usize,
    pub end_line: usize,
}

impl TokenSequence {
    /// Wraps the tokens, taking the lines of the first and last token (0
    /// when there are none).
    pub fn new(tokens: Vec<Token>) -> (r: Self)
        ensures
            r.tokens@ == tokens@,
            r.start_line == (if tokens@.len() == 0 {
                0
            } else {
                tokens@[0].line
            }),
            r.end_line == (if tokens@.len() == 0 {
                0
            } else {
                tokens@.last().line
            }),
    {
        let start_line = if tokens.len() == 0 {
            0
        } else {
            tokens[0].line
        };
        let end_line = if tokens.len() == 0 {
            0
        } else {
            tokens[tokens.len() - 1].line
        };
        Self { tokens, start_line, end_line }
    }

    /// Returns the number of significant tokens (excluding whitespace and
    /// comments).
    pub fn significant_token_count(&self) -> (r: usize)
        ensures
            r == significant_count(self.tokens@, self.tokens@.len() as int),
    {
        let mut count: usize = 0;
        let mut i: usize = 0;
        while i < self.tokens.len()
            invariant
                i <= self.tokens@.len(),
                count == significant_count(self.tokens@, i as int),
            decreases self.tokens@.len() - i,
        {
            proof {
                lemma_significant_count_bound(self.tokens@, i as int);
            }
            match self.tokens[i].token_type {
                TokenType::Comment | TokenType::Whitespace => {},
                _ => {
                    count = count + 1;
                },
            }
            i = i + 1;
        }
        count
    }

    /// Returns the normalized texts of the tokens, empty ones left out,
    /// joined by single spaces.
    pub fn to_normalized_string(&self, ignore_identifiers: bool) -> (r: String)
        ensures
            r@ == join_with_spaces(
                nonempty_normalized(self.tokens@, ignore_identifiers, self.tokens@.len() as int),
            ),
    {
        let mut result = String::new();
        let mut any = false;
        let mut i: usize = 0;
        while i < self.tokens.len()
            invariant
                i <= self.tokens@.len(),
                any == (nonempty_normalized(self.tokens@, ignore_identifiers, i as int).len() > 0),
                result@ == join_with_spaces(
                    nonempty_normalized(self.tokens@, ignore_identifiers, i as int),
                ),
            decreases self.tokens@.len() - i,
        {
            let ghost before = nonempty_normalized(self.tokens@, ignore_identifiers, i as int);
            let text = self.tokens[i].normalize(ignore_identifiers);
            if !text.as_str().is_empty() {
                proof {
                    assert(text@.len() != 0);
                }
                if any {
                    result.append(" ");
                }
                result.append(text.as_str());
                proof {
                    let after = before.push(text@);
                    assert(after.drop_last() =~= before);
                    if !any {
                        assert(before.len() == 0);
                        assert(result@ =~= text@);
                    }
                }
                any = true;
            } else {
                proof {
                    assert(text@.len() == 0);
                }
            }
            i = i + 1;
        }
        result
    }
}

/// Error raised by a tokenizer.
#[derive(Debug, Clone)]
pub enum TokenizationError {
    /// The lexer rejected the source.
    LexError(String),
}

impl TokenizationError {
    /// A human-readable description of the error.
    pub fn message(&self) -> (r: String)
        ensures
            r@ == (match self {
                TokenizationError::LexError(m) => "Lexical error: "@ + m@,
            }),
    {
        match self {
            TokenizationError::LexError(m) => {
                let mut r = "Lexical error: ".to_owned();
                r.append(m.as_str());
                r
            },
        }
    }
}

/// A language-specific tokenizer.
pub trait LanguageTokenizer {
    /// Splits the source into tokens.
    fn tokenize(&self, source: &str) -> Result<Vec<Token>, TokenizationError>;

    /// The language this tokenizer handles.
    fn language(&self) -> &str;
}

} // verus!
