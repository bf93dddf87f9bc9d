//! Python tokenization for token-based clone detection: mapping lexed
//! Python tokens to generic tokens, locating them by line and column, and
//! telling docstrings apart from other strings.

use rustpython_parser::lexer::lex;
use rustpython_parser::Tok::{Complex, Float, Int, Name};
use rustpython_parser::{Mode, Tok};
use vstd::prelude::*;
use vstd::string::*;

use crate::text::str_eq;
use crate::token::{Token, TokenType, TokenizationError};

verus! {

/// A Python token as the lexer reports it: the kind of token, with the
/// text of its payload where it has one (numbers as they are written by
/// their `Display` implementation).
#[derive(Debug, Clone, PartialEq, Eq)]
pub enum PyTok {
    Name { name: String },
    Int { value: String },
    Float { value: String },
    Complex { real: String, imag: String },
    String { value: String },
    Newline,
    Indent,
    Dedent,
    EndOfFile,
    Lpar,
    Rpar,
    Lsqb,
    Rsqb,
    Colon,
    Comma,
    Semi,
    Plus,
    Minus,
    Star,
    Slash,
    Vbar,
    Amper,
    Less,
    Greater,
    Equal,
    Dot,
    Percent,
    Lbrace,
    Rbrace,
    EqEqual,
    NotEqual,
    LessEqual,
    GreaterEqual,
    Tilde,
    CircumFlex,
    LeftShift,
    RightShift,
    DoubleStar,
    DoubleStarEqual,
    PlusEqual,
    MinusEqual,
    StarEqual,
    SlashEqual,
    PercentEqual,
    AmperEqual,
    VbarEqual,
    CircumflexEqual,
    LeftShiftEqual,
    RightShiftEqual,
    DoubleSlash,
    DoubleSlashEqual,
    ColonEqual,
    At,
    AtEqual,
    Rarrow,
    Ellipsis,
    False,
    /// The `None` keyword.
    NoneConst,
    True,
    And,
    As,
    Assert,
    Async,
    Await,
    Break,
    Class,
    Continue,
    Def,
    Del,
    Elif,
    Else,
    Except,
    Finally,
    For,
    From,
    Global,
    If,
    Import,
    In,
    Is,
    Lambda,
    Nonlocal,
    Not,
    Or,
    Pass,
    Raise,
    Return,
    Try,
    While,
    Match,
    Type,
    Case,
    With,
    Yield,
    StartModule,
    StartInteractive,
    StartExpression,
    /// A token the lexer gave without a payload that this library reads,
    /// by its kind's name: the name of one of the kinds above, or of a kind
    /// the library does not tell apart.
    Other { name: String },
}

/// A lexed token with its byte range in the source.
#[derive(Debug, Clone)]
pub struct LexedToken {
    pub tok: PyTok,
    pub start: usize,
    pub end: usize,
}

/// The token type of a Python token.
pub open spec fn py_token_type(tok: PyTok) -> TokenType {
    match tok {
        PyTok::Name { .. } => TokenType::Identifier,
        PyTok::Int { .. } | PyTok::Float { .. } | PyTok::Complex { .. } | PyTok::String { .. } => TokenType::Literal,
        PyTok::Newline => TokenType::Whitespace,
        PyTok::Indent => TokenType::Whitespace,
        PyTok::Dedent => TokenType::Whitespace,
        PyTok::EndOfFile => TokenType::Unknown,
        PyTok::Lpar => TokenType::Delimiter,
        PyTok::Rpar => TokenType::Delimiter,
        PyTok::Lsqb => TokenType::Delimiter,
        PyTok::Rsqb => TokenType::Delimiter,
        PyTok::Colon => TokenType::Delimiter,
        PyTok::Comma => TokenType::Delimiter,
        PyTok::Semi => TokenType::Delimiter,
        PyTok::Plus => TokenType::Operator,
        PyTok::Minus => TokenType::Operator,
        PyTok::Star => TokenType::Operator,
        PyTok::Slash => TokenType::Operator,
        PyTok::Vbar => TokenType::Operator,
        PyTok::Amper => TokenType::Operator,
        PyTok::Less => TokenType::Operator,
        PyTok::Greater => TokenType::Operator,
        PyTok::Equal => TokenType::Operator,
        PyTok::Dot => TokenType::Operator,
        PyTok::Percent => TokenType::Operator,
        PyTok::Lbrace => TokenType::Delimiter,
        PyTok::Rbrace => TokenType::Delimiter,
        PyTok::EqEqual => TokenType::Operator,
        PyTok::NotEqual => TokenType::Operator,
        PyTok::LessEqual => TokenType::Operator,
        PyTok::GreaterEqual => TokenType::Operator,
        PyTok::Tilde => TokenType::Operator,
        PyTok::CircumFlex => TokenType::Operator,
        PyTok::LeftShift => TokenType::Operator,
        PyTok::RightShift => TokenType::Operator,
        PyTok::DoubleStar => TokenType::Operator,
        PyTok::DoubleStarEqual => TokenType::Operator,
        PyTok::PlusEqual => TokenType::Operator,
        PyTok::MinusEqual => TokenType::Operator,
        PyTok::StarEqual => TokenType::Operator,
        PyTok::SlashEqual => TokenType::Operator,
        PyTok::PercentEqual => TokenType::Operator,
        PyTok::AmperEqual => TokenType::Operator,
        PyTok::VbarEqual => TokenType::Operator,
        PyTok::CircumflexEqual => TokenType::Operator,
        PyTok::LeftShiftEqual => TokenType::Operator,
        PyTok::RightShiftEqual => TokenType::Operator,
        PyTok::DoubleSlash => TokenType::Operator,
        PyTok::DoubleSlashEqual => TokenType::Operator,
        PyTok::ColonEqual => TokenType::Operator,
        PyTok::At => TokenType::Operator,
        PyTok::AtEqual => TokenType::Operator,
        PyTok::Rarrow => TokenType::Operator,
        PyTok::Ellipsis => TokenType::Operator,
        PyTok::False => TokenType::Literal,
        PyTok::NoneConst => TokenType::Literal,
        PyTok::True => TokenType::Literal,
        PyTok::And => TokenType::Keyword,
        PyTok::As => TokenType::Keyword,
        PyTok::Assert => TokenType::Keyword,
        PyTok::Async => TokenType::Keyword,
        PyTok::Await => TokenType::Keyword,
        PyTok::Break => TokenType::Keyword,
        PyTok::Class => TokenType::Keyword,
        PyTok::Continue => TokenType::Keyword,
        PyTok::Def => TokenType::Keyword,
        PyTok::Del => TokenType::Keyword,
        PyTok::Elif => TokenType::Keyword,
        PyTok::Else => TokenType::Keyword,
        PyTok::Except => TokenType::Keyword,
        PyTok::Finally => TokenType::Keyword,
        PyTok::For => TokenType::Keyword,
        PyTok::From => TokenType::Keyword,
        PyTok::Global => TokenType::Keyword,
        PyTok::If => TokenType::Keyword,
        PyTok::Import => TokenType::Keyword,
        PyTok::In => TokenType::Keyword,
        PyTok::Is => TokenType::Keyword,
        PyTok::Lambda => TokenType::Keyword,
        PyTok::Nonlocal => TokenType::Keyword,
        PyTok::Not => TokenType::Keyword,
        PyTok::Or => TokenType::Keyword,
        PyTok::Pass => TokenType::Keyword,
        PyTok::Raise => TokenType::Keyword,
        PyTok::Return => TokenType::Keyword,
        PyTok::Try => TokenType::Keyword,
        PyTok::While => TokenType::Keyword,
        PyTok::Match => TokenType::Keyword,
        PyTok::Type => TokenType::Unknown,
        PyTok::Case => TokenType::Keyword,
        PyTok::With => TokenType::Keyword,
        PyTok::Yield => TokenType::Keyword,
        PyTok::StartModule => TokenType::Unknown,
        PyTok::StartInteractive => TokenType::Unknown,
        PyTok::StartExpression => TokenType::Unknown,
        PyTok::Other { .. } => TokenType::Unknown,
    }
}

/// The name of a token kind, as its `Debug` rendering starts.
pub open spec fn kind_name(tok: PyTok) -> Seq<char> {
    match tok {
        PyTok::Name { .. } => "Name"@,
        PyTok::Int { .. } => "Int"@,
        PyTok::Float { .. } => "Float"@,
        PyTok::Complex { .. } => "Complex"@,
        PyTok::String { .. } => "String"@,
        PyTok::Newline => "Newline"@,
        PyTok::Indent => "Indent"@,
        PyTok::Dedent => "Dedent"@,
        PyTok::EndOfFile => "EndOfFile"@,
        PyTok::Lpar => "Lpar"@,
        PyTok::Rpar => "Rpar"@,
        PyTok::Lsqb => "Lsqb"@,
        PyTok::Rsqb => "Rsqb"@,
        PyTok::Colon => "Colon"@,
        PyTok::Comma => "Comma"@,
        PyTok::Semi => "Semi"@,
        PyTok::Plus => "Plus"@,
        PyTok::Minus => "Minus"@,
        PyTok::Star => "Star"@,
        PyTok::Slash => "Slash"@,
        PyTok::Vbar => "Vbar"@,
        PyTok::Amper => "Amper"@,
        PyTok::Less => "Less"@,
        PyTok::Greater => "Greater"@,
        PyTok::Equal => "Equal"@,
        PyTok::Dot => "Dot"@,
        PyTok::Percent => "Percent"@,
        PyTok::Lbrace => "Lbrace"@,
        PyTok::Rbrace => "Rbrace"@,
        PyTok::EqEqual => "EqEqual"@,
        PyTok::NotEqual => "NotEqual"@,
        PyTok::LessEqual => "LessEqual"@,
        PyTok::GreaterEqual => "GreaterEqual"@,
        PyTok::Tilde => "Tilde"@,
        PyTok::CircumFlex => "CircumFlex"@,
        PyTok::LeftShift => "LeftShift"@,
        PyTok::RightShift => "RightShift"@,
        PyTok::DoubleStar => "DoubleStar"@,
        PyTok::DoubleStarEqual => "DoubleStarEqual"@,
        PyTok::PlusEqual => "PlusEqual"@,
        PyTok::MinusEqual => "MinusEqual"@,
        PyTok::StarEqual => "StarEqual"@,
        PyTok::SlashEqual => "SlashEqual"@,
        PyTok::PercentEqual => "PercentEqual"@,
        PyTok::AmperEqual => "AmperEqual"@,
        PyTok::VbarEqual => "VbarEqual"@,
        PyTok::CircumflexEqual => "CircumflexEqual"@,
        PyTok::LeftShiftEqual => "LeftShiftEqual"@,
        PyTok::RightShiftEqual => "RightShiftEqual"@,
        PyTok::DoubleSlash => "DoubleSlash"@,
        PyTok::DoubleSlashEqual => "DoubleSlashEqual"@,
        PyTok::ColonEqual => "ColonEqual"@,
        PyTok::At => "At"@,
        PyTok::AtEqual => "AtEqual"@,
        PyTok::Rarrow => "Rarrow"@,
        PyTok::Ellipsis => "Ellipsis"@,
        PyTok::False => "False"@,
        PyTok::NoneConst => "None"@,
        PyTok::True => "True"@,
        PyTok::And => "And"@,
        PyTok::As => "As"@,
        PyTok::Assert => "Assert"@,
        PyTok::Async => "Async"@,
        PyTok::Await => "Await"@,
        PyTok::Break => "Break"@,
        PyTok::Class => "Class"@,
        PyTok::Continue => "Continue"@,
        PyTok::Def => "Def"@,
        PyTok::Del => "Del"@,
        PyTok::Elif => "Elif"@,
        PyTok::Else => "Else"@,
        PyTok::Except => "Except"@,
        PyTok::Finally => "Finally"@,
        PyTok::For => "For"@,
        PyTok::From => "From"@,
        PyTok::Global => "Global"@,
        PyTok::If => "If"@,
        PyTok::Import => "Import"@,
        PyTok::In => "In"@,
        PyTok::Is => "Is"@,
        PyTok::Lambda => "Lambda"@,
        PyTok::Nonlocal => "Nonlocal"@,
        PyTok::Not => "Not"@,
        PyTok::Or => "Or"@,
        PyTok::Pass => "Pass"@,
        PyTok::Raise => "Raise"@,
        PyTok::Return => "Return"@,
        PyTok::Try => "Try"@,
        PyTok::While => "While"@,
        PyTok::Match => "Match"@,
        PyTok::Type => "Type"@,
        PyTok::Case => "Case"@,
        PyTok::With => "With"@,
        PyTok::Yield => "Yield"@,
        PyTok::StartModule => "StartModule"@,
        PyTok::StartInteractive => "StartInteractive"@,
        PyTok::StartExpression => "StartExpression"@,
        PyTok::Other { name } => name@,
    }
}

/// The name of a token kind.
pub fn kind_name_str(tok: &PyTok) -> (r: &'static str)
    requires
        !(*tok is Other),
    ensures
        r@ == kind_name(*tok),
{
    match tok {
        PyTok::Name { .. } => "Name",
        PyTok::Int { .. } => "Int",
        PyTok::Float { .. } => "Float",
        PyTok::Complex { .. } => "Complex",
        PyTok::String { .. } => "String",
        PyTok::Newline => "Newline",
        PyTok::Indent => "Indent",
        PyTok::Dedent => "Dedent",
        PyTok::EndOfFile => "EndOfFile",
        PyTok::Lpar => "Lpar",
        PyTok::Rpar => "Rpar",
        PyTok::Lsqb => "Lsqb",
        PyTok::Rsqb => "Rsqb",
        PyTok::Colon => "Colon",
        PyTok::Comma => "Comma",
        PyTok::Semi => "Semi",
        PyTok::Plus => "Plus",
        PyTok::Minus => "Minus",
        PyTok::Star => "Star",
        PyTok::Slash => "Slash",
        PyTok::Vbar => "Vbar",
        PyTok::Amper => "Amper",
        PyTok::Less => "Less",
        PyTok::Greater => "Greater",
        PyTok::Equal => "Equal",
        PyTok::Dot => "Dot",
        PyTok::Percent => "Percent",
        PyTok::Lbrace => "Lbrace",
        PyTok::Rbrace => "Rbrace",
        PyTok::EqEqual => "EqEqual",
        PyTok::NotEqual => "NotEqual",
        PyTok::LessEqual => "LessEqual",
        PyTok::GreaterEqual => "GreaterEqual",
        PyTok::Tilde => "Tilde",
        PyTok::CircumFlex => "CircumFlex",
        PyTok::LeftShift => "LeftShift",
        PyTok::RightShift => "RightShift",
        PyTok::DoubleStar => "DoubleStar",
        PyTok::DoubleStarEqual => "DoubleStarEqual",
        PyTok::PlusEqual => "PlusEqual",
        PyTok::MinusEqual => "MinusEqual",
        PyTok::StarEqual => "StarEqual",
        PyTok::SlashEqual => "SlashEqual",
        PyTok::PercentEqual => "PercentEqual",
        PyTok::AmperEqual => "AmperEqual",
        PyTok::VbarEqual => "VbarEqual",
        PyTok::CircumflexEqual => "CircumflexEqual",
        PyTok::LeftShiftEqual => "LeftShiftEqual",
        PyTok::RightShiftEqual => "RightShiftEqual",
        PyTok::DoubleSlash => "DoubleSlash",
        PyTok::DoubleSlashEqual => "DoubleSlashEqual",
        PyTok::ColonEqual => "ColonEqual",
        PyTok::At => "At",
        PyTok::AtEqual => "AtEqual",
        PyTok::Rarrow => "Rarrow",
        PyTok::Ellipsis => "Ellipsis",
        PyTok::False => "False",
        PyTok::NoneConst => "None",
        PyTok::True => "True",
        PyTok::And => "And",
        PyTok::As => "As",
        PyTok::Assert => "Assert",
        PyTok::Async => "Async",
        PyTok::Await => "Await",
        PyTok::Break => "Break",
        PyTok::Class => "Class",
        PyTok::Continue => "Continue",
        PyTok::Def => "Def",
        PyTok::Del => "Del",
        PyTok::Elif => "Elif",
        PyTok::Else => "Else",
        PyTok::Except => "Except",
        PyTok::Finally => "Finally",
        PyTok::For => "For",
        PyTok::From => "From",
        PyTok::Global => "Global",
        PyTok::If => "If",
        PyTok::Import => "Import",
        PyTok::In => "In",
        PyTok::Is => "Is",
        PyTok::Lambda => "Lambda",
        PyTok::Nonlocal => "Nonlocal",
        PyTok::Not => "Not",
        PyTok::Or => "Or",
        PyTok::Pass => "Pass",
        PyTok::Raise => "Raise",
        PyTok::Return => "Return",
        PyTok::Try => "Try",
        PyTok::While => "While",
        PyTok::Match => "Match",
        PyTok::Type => "Type",
        PyTok::Case => "Case",
        PyTok::With => "With",
        PyTok::Yield => "Yield",
        PyTok::StartModule => "StartModule",
        PyTok::StartInteractive => "StartInteractive",
        PyTok::StartExpression => "StartExpression",
        PyTok::Other { .. } => "",
    }
}

/// The text a Python token is reported with.
pub open spec fn token_text(tok: PyTok) -> Seq<char> {
    match tok {
        PyTok::Name { name } => name@,
        PyTok::Int { value } => value@,
        PyTok::Float { value } => value@,
        PyTok::Complex { real: re, imag: im } => re@ + "+"@ + im@ + "j"@,
        PyTok::String { value } => value@,
        PyTok::Newline => "\n"@,
        PyTok::Indent => "    "@,
        PyTok::Dedent => Seq::<char>::empty(),
        _ => kind_name(tok),
    }
}

/// The kind without a payload whose name is `name`, if there is one.
pub open spec fn unit_kind_named(name: Seq<char>) -> Option<PyTok> {
    if name == "Newline"@ {
        Some(PyTok::Newline)
    } else     if name == "Indent"@ {
        Some(PyTok::Indent)
    } else     if name == "Dedent"@ {
        Some(PyTok::Dedent)
    } else     if name == "EndOfFile"@ {
        Some(PyTok::EndOfFile)
    } else     if name == "Lpar"@ {
        Some(PyTok::Lpar)
    } else     if name == "Rpar"@ {
        Some(PyTok::Rpar)
    } else     if name == "Lsqb"@ {
        Some(PyTok::Lsqb)
    } else     if name == "Rsqb"@ {
        Some(PyTok::Rsqb)
    } else     if name == "Colon"@ {
        Some(PyTok::Colon)
    } else     if name == "Comma"@ {
        Some(PyTok::Comma)
    } else     if name == "Semi"@ {
        Some(PyTok::Semi)
    } else     if name == "Plus"@ {
        Some(PyTok::Plus)
    } else     if name == "Minus"@ {
        Some(PyTok::Minus)
    } else     if name == "Star"@ {
        Some(PyTok::Star)
    } else     if name == "Slash"@ {
        Some(PyTok::Slash)
    } else     if name == "Vbar"@ {
        Some(PyTok::Vbar)
    } else     if name == "Amper"@ {
        Some(PyTok::Amper)
    } else     if name == "Less"@ {
        Some(PyTok::Less)
    } else     if name == "Greater"@ {
        Some(PyTok::Greater)
    } else     if name == "Equal"@ {
        Some(PyTok::Equal)
    } else     if name == "Dot"@ {
        Some(PyTok::Dot)
    } else     if name == "Percent"@ {
        Some(PyTok::Percent)
    } else     if name == "Lbrace"@ {
        Some(PyTok::Lbrace)
    } else     if name == "Rbrace"@ {
        Some(PyTok::Rbrace)
    } else     if name == "EqEqual"@ {
        Some(PyTok::EqEqual)
    } else     if name == "NotEqual"@ {
        Some(PyTok::NotEqual)
    } else     if name == "LessEqual"@ {
        Some(PyTok::LessEqual)
    } else     if name == "GreaterEqual"@ {
        Some(PyTok::GreaterEqual)
    } else     if name == "Tilde"@ {
        Some(PyTok::Tilde)
    } else     if name == "CircumFlex"@ {
        Some(PyTok::CircumFlex)
    } else     if name == "LeftShift"@ {
        Some(PyTok::LeftShift)
    } else     if name == "RightShift"@ {
        Some(PyTok::RightShift)
    } else     if name == "DoubleStar"@ {
        Some(PyTok::DoubleStar)
    } else     if name == "DoubleStarEqual"@ {
        Some(PyTok::DoubleStarEqual)
    } else     if name == "PlusEqual"@ {
        Some(PyTok::PlusEqual)
    } else     if name == "MinusEqual"@ {
        Some(PyTok::MinusEqual)
    } else     if name == "StarEqual"@ {
        Some(PyTok::StarEqual)
    } else     if name == "SlashEqual"@ {
        Some(PyTok::SlashEqual)
    } else     if name == "PercentEqual"@ {
        Some(PyTok::PercentEqual)
    } else     if name == "AmperEqual"@ {
        Some(PyTok::AmperEqual)
    } else     if name == "VbarEqual"@ {
        Some(PyTok::VbarEqual)
    } else     if name == "CircumflexEqual"@ {
        Some(PyTok::CircumflexEqual)
    } else     if name == "LeftShiftEqual"@ {
        Some(PyTok::LeftShiftEqual)
    } else     if name == "RightShiftEqual"@ {
        Some(PyTok::RightShiftEqual)
    } else     if name == "DoubleSlash"@ {
        Some(PyTok::DoubleSlash)
    } else     if name == "DoubleSlashEqual"@ {
        Some(PyTok::DoubleSlashEqual)
    } else     if name == "ColonEqual"@ {
        Some(PyTok::ColonEqual)
    } else     if name == "At"@ {
        Some(PyTok::At)
    } else     if name == "AtEqual"@ {
        Some(PyTok::AtEqual)
    } else     if name == "Rarrow"@ {
        Some(PyTok::Rarrow)
    } else     if name == "Ellipsis"@ {
        Some(PyTok::Ellipsis)
    } else     if name == "False"@ {
        Some(PyTok::False)
    } else     if name == "None"@ {
        Some(PyTok::NoneConst)
    } else     if name == "True"@ {
        Some(PyTok::True)
    } else     if name == "And"@ {
        Some(PyTok::And)
    } else     if name == "As"@ {
        Some(PyTok::As)
    } else     if name == "Assert"@ {
        Some(PyTok::Assert)
    } else     if name == "Async"@ {
        Some(PyTok::Async)
    } else     if name == "Await"@ {
        Some(PyTok::Await)
    } else     if name == "Break"@ {
        Some(PyTok::Break)
    } else     if name == "Class"@ {
        Some(PyTok::Class)
    } else     if name == "Continue"@ {
        Some(PyTok::Continue)
    } else     if name == "Def"@ {
        Some(PyTok::Def)
    } else     if name == "Del"@ {
        Some(PyTok::Del)
    } else     if name == "Elif"@ {
        Some(PyTok::Elif)
    } else     if name == "Else"@ {
        Some(PyTok::Else)
    } else     if name == "Except"@ {
        Some(PyTok::Except)
    } else     if name == "Finally"@ {
        Some(PyTok::Finally)
    } else     if name == "For"@ {
        Some(PyTok::For)
    } else     if name == "From"@ {
        Some(PyTok::From)
    } else     if name == "Global"@ {
        Some(PyTok::Global)
    } else     if name == "If"@ {
        Some(PyTok::If)
    } else     if name == "Import"@ {
        Some(PyTok::Import)
    } else     if name == "In"@ {
        Some(PyTok::In)
    } else     if name == "Is"@ {
        Some(PyTok::Is)
    } else     if name == "Lambda"@ {
        Some(PyTok::Lambda)
    } else     if name == "Nonlocal"@ {
        Some(PyTok::Nonlocal)
    } else     if name == "Not"@ {
        Some(PyTok::Not)
    } else     if name == "Or"@ {
        Some(PyTok::Or)
    } else     if name == "Pass"@ {
        Some(PyTok::Pass)
    } else     if name == "Raise"@ {
        Some(PyTok::Raise)
    } else     if name == "Return"@ {
        Some(PyTok::Return)
    } else     if name == "Try"@ {
        Some(PyTok::Try)
    } else     if name == "While"@ {
        Some(PyTok::While)
    } else     if name == "Match"@ {
        Some(PyTok::Match)
    } else     if name == "Type"@ {
        Some(PyTok::Type)
    } else     if name == "Case"@ {
        Some(PyTok::Case)
    } else     if name == "With"@ {
        Some(PyTok::With)
    } else     if name == "Yield"@ {
        Some(PyTok::Yield)
    } else     if name == "StartModule"@ {
        Some(PyTok::StartModule)
    } else     if name == "StartInteractive"@ {
        Some(PyTok::StartInteractive)
    } else     if name == "StartExpression"@ {
        Some(PyTok::StartExpression)
    } else {
        None
    }
}

/// The kind without a payload whose name is `name`, if there is one.
fn unit_kind_named_exec(name: &str) -> (r: Option<PyTok>)
    ensures
        r == unit_kind_named(name@),
{
    if str_eq(name, "Newline") {
        Some(PyTok::Newline)
    } else     if str_eq(name, "Indent") {
        Some(PyTok::Indent)
    } else     if str_eq(name, "Dedent") {
        Some(PyTok::Dedent)
    } else     if str_eq(name, "EndOfFile") {
        Some(PyTok::EndOfFile)
    } else     if str_eq(name, "Lpar") {
        Some(PyTok::Lpar)
    } else     if str_eq(name, "Rpar") {
        Some(PyTok::Rpar)
    } else     if str_eq(name, "Lsqb") {
        Some(PyTok::Lsqb)
    } else     if str_eq(name, "Rsqb") {
        Some(PyTok::Rsqb)
    } else     if str_eq(name, "Colon") {
        Some(PyTok::Colon)
    } else     if str_eq(name, "Comma") {
        Some(PyTok::Comma)
    } else     if str_eq(name, "Semi") {
        Some(PyTok::Semi)
    } else     if str_eq(name, "Plus") {
        Some(PyTok::Plus)
    } else     if str_eq(name, "Minus") {
        Some(PyTok::Minus)
    } else     if str_eq(name, "Star") {
        Some(PyTok::Star)
    } else     if str_eq(name, "Slash") {
        Some(PyTok::Slash)
    } else     if str_eq(name, "Vbar") {
        Some(PyTok::Vbar)
    } else     if str_eq(name, "Amper") {
        Some(PyTok::Amper)
    } else     if str_eq(name, "Less") {
        Some(PyTok::Less)
    } else     if str_eq(name, "Greater") {
        Some(PyTok::Greater)
    } else     if str_eq(name, "Equal") {
        Some(PyTok::Equal)
    } else     if str_eq(name, "Dot") {
        Some(PyTok::Dot)
    } else     if str_eq(name, "Percent") {
        Some(PyTok::Percent)
    } else     if str_eq(name, "Lbrace") {
        Some(PyTok::Lbrace)
    } else     if str_eq(name, "Rbrace") {
        Some(PyTok::Rbrace)
    } else     if str_eq(name, "EqEqual") {
        Some(PyTok::EqEqual)
    } else     if str_eq(name, "NotEqual") {
        Some(PyTok::NotEqual)
    } else     if str_eq(name, "LessEqual") {
        Some(PyTok::LessEqual)
    } else     if str_eq(name, "GreaterEqual") {
        Some(PyTok::GreaterEqual)
    } else     if str_eq(name, "Tilde") {
        Some(PyTok::Tilde)
    } else     if str_eq(name, "CircumFlex") {
        Some(PyTok::CircumFlex)
    } else     if str_eq(name, "LeftShift") {
        Some(PyTok::LeftShift)
    } else     if str_eq(name, "RightShift") {
        Some(PyTok::RightShift)
    } else     if str_eq(name, "DoubleStar") {
        Some(PyTok::DoubleStar)
    } else     if str_eq(name, "DoubleStarEqual") {
        Some(PyTok::DoubleStarEqual)
    } else     if str_eq(name, "PlusEqual") {
        Some(PyTok::PlusEqual)
    } else     if str_eq(name, "MinusEqual") {
        Some(PyTok::MinusEqual)
    } else     if str_eq(name, "StarEqual") {
        Some(PyTok::StarEqual)
    } else     if str_eq(name, "SlashEqual") {
        Some(PyTok::SlashEqual)
    } else     if str_eq(name, "PercentEqual") {
        Some(PyTok::PercentEqual)
    } else     if str_eq(name, "AmperEqual") {
        Some(PyTok::AmperEqual)
    } else     if str_eq(name, "VbarEqual") {
        Some(PyTok::VbarEqual)
    } else     if str_eq(name, "CircumflexEqual") {
        Some(PyTok::CircumflexEqual)
    } else     if str_eq(name, "LeftShiftEqual") {
        Some(PyTok::LeftShiftEqual)
    } else     if str_eq(name, "RightShiftEqual") {
        Some(PyTok::RightShiftEqual)
    } else     if str_eq(name, "DoubleSlash") {
        Some(PyTok::DoubleSlash)
    } else     if str_eq(name, "DoubleSlashEqual") {
        Some(PyTok::DoubleSlashEqual)
    } else     if str_eq(name, "ColonEqual") {
        Some(PyTok::ColonEqual)
    } else     if str_eq(name, "At") {
        Some(PyTok::At)
    } else     if str_eq(name, "AtEqual") {
        Some(PyTok::AtEqual)
    } else     if str_eq(name, "Rarrow") {
        Some(PyTok::Rarrow)
    } else     if str_eq(name, "Ellipsis") {
        Some(PyTok::Ellipsis)
    } else     if str_eq(name, "False") {
        Some(PyTok::False)
    } else     if str_eq(name, "None") {
        Some(PyTok::NoneConst)
    } else     if str_eq(name, "True") {
        Some(PyTok::True)
    } else     if str_eq(name, "And") {
        Some(PyTok::And)
    } else     if str_eq(name, "As") {
        Some(PyTok::As)
    } else     if str_eq(name, "Assert") {
        Some(PyTok::Assert)
    } else     if str_eq(name, "Async") {
        Some(PyTok::Async)
    } else     if str_eq(name, "Await") {
        Some(PyTok::Await)
    } else     if str_eq(name, "Break") {
        Some(PyTok::Break)
    } else     if str_eq(name, "Class") {
        Some(PyTok::Class)
    } else     if str_eq(name, "Continue") {
        Some(PyTok::Continue)
    } else     if str_eq(name, "Def") {
        Some(PyTok::Def)
    } else     if str_eq(name, "Del") {
        Some(PyTok::Del)
    } else     if str_eq(name, "Elif") {
        Some(PyTok::Elif)
    } else     if str_eq(name, "Else") {
        Some(PyTok::Else)
    } else     if str_eq(name, "Except") {
        Some(PyTok::Except)
    } else     if str_eq(name, "Finally") {
        Some(PyTok::Finally)
    } else     if str_eq(name, "For") {
        Some(PyTok::For)
    } else     if str_eq(name, "From") {
        Some(PyTok::From)
    } else     if str_eq(name, "Global") {
        Some(PyTok::Global)
    } else     if str_eq(name, "If") {
        Some(PyTok::If)
    } else     if str_eq(name, "Import") {
        Some(PyTok::Import)
    } else     if str_eq(name, "In") {
        Some(PyTok::In)
    } else     if str_eq(name, "Is") {
        Some(PyTok::Is)
    } else     if str_eq(name, "Lambda") {
        Some(PyTok::Lambda)
    } else     if str_eq(name, "Nonlocal") {
        Some(PyTok::Nonlocal)
    } else     if str_eq(name, "Not") {
        Some(PyTok::Not)
    } else     if str_eq(name, "Or") {
        Some(PyTok::Or)
    } else     if str_eq(name, "Pass") {
        Some(PyTok::Pass)
    } else     if str_eq(name, "Raise") {
        Some(PyTok::Raise)
    } else     if str_eq(name, "Return") {
        Some(PyTok::Return)
    } else     if str_eq(name, "Try") {
        Some(PyTok::Try)
    } else     if str_eq(name, "While") {
        Some(PyTok::While)
    } else     if str_eq(name, "Match") {
        Some(PyTok::Match)
    } else     if str_eq(name, "Type") {
        Some(PyTok::Type)
    } else     if str_eq(name, "Case") {
        Some(PyTok::Case)
    } else     if str_eq(name, "With") {
        Some(PyTok::With)
    } else     if str_eq(name, "Yield") {
        Some(PyTok::Yield)
    } else     if str_eq(name, "StartModule") {
        Some(PyTok::StartModule)
    } else     if str_eq(name, "StartInteractive") {
        Some(PyTok::StartInteractive)
    } else     if str_eq(name, "StartExpression") {
        Some(PyTok::StartExpression)
    } else {
        None
    }
}

/// A lexed kind as the library tells it apart: a kind that the lexer gave
/// by its name becomes the kind of that name, where there is one.
pub open spec fn canonical(tok: PyTok) -> PyTok {
    match tok {
        PyTok::Other { name } => match unit_kind_named(name@) {
            Some(t) => t,
            None => tok,
        },
        _ => tok,
    }
}

impl PyTok {
    /// A copy of the token.
    pub fn duplicate(&self) -> (r: PyTok)
        ensures
            r == *self,
    {
        match self {
            PyTok::Name { name } => PyTok::Name { name: name.clone() },
            PyTok::Int { value } => PyTok::Int { value: value.clone() },
            PyTok::Float { value } => PyTok::Float { value: value.clone() },
            PyTok::Complex { real: re, imag: im } => PyTok::Complex { real: re.clone(), imag: im.clone() },
            PyTok::String { value } => PyTok::String { value: value.clone() },
            PyTok::Newline => PyTok::Newline,
            PyTok::Indent => PyTok::Indent,
            PyTok::Dedent => PyTok::Dedent,
            PyTok::EndOfFile => PyTok::EndOfFile,
            PyTok::Lpar => PyTok::Lpar,
            PyTok::Rpar => PyTok::Rpar,
            PyTok::Lsqb => PyTok::Lsqb,
            PyTok::Rsqb => PyTok::Rsqb,
            PyTok::Colon => PyTok::Colon,
            PyTok::Comma => PyTok::Comma,
            PyTok::Semi => PyTok::Semi,
            PyTok::Plus => PyTok::Plus,
            PyTok::Minus => PyTok::Minus,
            PyTok::Star => PyTok::Star,
            PyTok::Slash => PyTok::Slash,
            PyTok::Vbar => PyTok::Vbar,
            PyTok::Amper => PyTok::Amper,
            PyTok::Less => PyTok::Less,
            PyTok::Greater => PyTok::Greater,
            PyTok::Equal => PyTok::Equal,
            PyTok::Dot => PyTok::Dot,
            PyTok::Percent => PyTok::Percent,
            PyTok::Lbrace => PyTok::Lbrace,
            PyTok::Rbrace => PyTok::Rbrace,
            PyTok::EqEqual => PyTok::EqEqual,
            PyTok::NotEqual => PyTok::NotEqual,
            PyTok::LessEqual => PyTok::LessEqual,
            PyTok::GreaterEqual => PyTok::GreaterEqual,
            PyTok::Tilde => PyTok::Tilde,
            PyTok::CircumFlex => PyTok::CircumFlex,
            PyTok::LeftShift => PyTok::LeftShift,
            PyTok::RightShift => PyTok::RightShift,
            PyTok::DoubleStar => PyTok::DoubleStar,
            PyTok::DoubleStarEqual => PyTok::DoubleStarEqual,
            PyTok::PlusEqual => PyTok::PlusEqual,
            PyTok::MinusEqual => PyTok::MinusEqual,
            PyTok::StarEqual => PyTok::StarEqual,
            PyTok::SlashEqual => PyTok::SlashEqual,
            PyTok::PercentEqual => PyTok::PercentEqual,
            PyTok::AmperEqual => PyTok::AmperEqual,
            PyTok::VbarEqual => PyTok::VbarEqual,
            PyTok::CircumflexEqual => PyTok::CircumflexEqual,
            PyTok::LeftShiftEqual => PyTok::LeftShiftEqual,
            PyTok::RightShiftEqual => PyTok::RightShiftEqual,
            PyTok::DoubleSlash => PyTok::DoubleSlash,
            PyTok::DoubleSlashEqual => PyTok::DoubleSlashEqual,
            PyTok::ColonEqual => PyTok::ColonEqual,
            PyTok::At => PyTok::At,
            PyTok::AtEqual => PyTok::AtEqual,
            PyTok::Rarrow => PyTok::Rarrow,
            PyTok::Ellipsis => PyTok::Ellipsis,
            PyTok::False => PyTok::False,
            PyTok::NoneConst => PyTok::NoneConst,
            PyTok::True => PyTok::True,
            PyTok::And => PyTok::And,
            PyTok::As => PyTok::As,
            PyTok::Assert => PyTok::Assert,
            PyTok::Async => PyTok::Async,
            PyTok::Await => PyTok::Await,
            PyTok::Break => PyTok::Break,
            PyTok::Class => PyTok::Class,
            PyTok::Continue => PyTok::Continue,
            PyTok::Def => PyTok::Def,
            PyTok::Del => PyTok::Del,
            PyTok::Elif => PyTok::Elif,
            PyTok::Else => PyTok::Else,
            PyTok::Except => PyTok::Except,
            PyTok::Finally => PyTok::Finally,
            PyTok::For => PyTok::For,
            PyTok::From => PyTok::From,
            PyTok::Global => PyTok::Global,
            PyTok::If => PyTok::If,
            PyTok::Import => PyTok::Import,
            PyTok::In => PyTok::In,
            PyTok::Is => PyTok::Is,
            PyTok::Lambda => PyTok::Lambda,
            PyTok::Nonlocal => PyTok::Nonlocal,
            PyTok::Not => PyTok::Not,
            PyTok::Or => PyTok::Or,
            PyTok::Pass => PyTok::Pass,
            PyTok::Raise => PyTok::Raise,
            PyTok::Return => PyTok::Return,
            PyTok::Try => PyTok::Try,
            PyTok::While => PyTok::While,
            PyTok::Match => PyTok::Match,
            PyTok::Type => PyTok::Type,
            PyTok::Case => PyTok::Case,
            PyTok::With => PyTok::With,
            PyTok::Yield => PyTok::Yield,
            PyTok::StartModule => PyTok::StartModule,
            PyTok::StartInteractive => PyTok::StartInteractive,
            PyTok::StartExpression => PyTok::StartExpression,
            PyTok::Other { name } => PyTok::Other { name: name.clone() },
        }
    }
}

/// The canonical form of a lexed kind.
fn canonical_tok(tok: &PyTok) -> (r: PyTok)
    ensures
        r == canonical(*tok),
{
    match tok {
        PyTok::Other { name } => match unit_kind_named_exec(name.as_str()) {
            Some(t) => t,
            None => PyTok::Other { name: name.clone() },
        },
        _ => tok.duplicate(),
    }
}

/// Where the docstring detector stands in the token stream.
#[derive(Debug, Clone, Copy, PartialEq, Eq, Structural)]
pub enum DocstringState {
    /// At module level, first string is module docstring
    Module,
    /// Just saw 'def' keyword
    AfterDef,
    /// Just saw ':' after def
    AfterDefColon,
    /// Just saw indent after def:, next string is function docstring
    AfterDefIndent,
    /// Just saw 'class' keyword
    AfterClass,
    /// Just saw ':' after class
    AfterClassColon,
    /// Just saw indent after class:, next string is class docstring
    AfterClassIndent,
    /// In regular code, strings are not docstrings
    InCode,
}

/// Newlines, indents and dedents.
pub open spec fn is_layout(tok: PyTok) -> bool {
    tok is Newline || tok is Indent || tok is Dedent
}

/// Whether a token met in the given state is a docstring: a string at the
/// start of a module (before any code), or right after the indent that
/// opens a function or class body.
pub open spec fn docstring_here(state: DocstringState, seen_code: bool, tok: PyTok) -> bool {
    tok is String && match state {
        DocstringState::Module => !seen_code,
        DocstringState::AfterDefIndent => true,
        DocstringState::AfterClassIndent => true,
        _ => false,
    }
}

/// The detector's state after a token.
pub open spec fn docstring_next(state: DocstringState, seen_code: bool, tok: PyTok) -> (
    DocstringState,
    bool,
) {
    if tok is Def {
        (DocstringState::AfterDef, seen_code)
    } else if tok is Class {
        (DocstringState::AfterClass, seen_code)
    } else {
        match state {
            DocstringState::Module => if tok is String && !seen_code {
                (DocstringState::InCode, true)
            } else if !is_layout(tok) {
                (state, true)
            } else {
                (state, seen_code)
            },
            DocstringState::AfterDef => if tok is Colon {
                (DocstringState::AfterDefColon, seen_code)
            } else {
                (state, seen_code)
            },
            DocstringState::AfterDefColon => if tok is Indent {
                (DocstringState::AfterDefIndent, seen_code)
            } else {
                (state, seen_code)
            },
            DocstringState::AfterDefIndent => if tok is String || !(tok is Newline || tok is Indent) {
                (DocstringState::InCode, seen_code)
            } else {
                (state, seen_code)
            },
            DocstringState::AfterClass => if tok is Colon {
                (DocstringState::AfterClassColon, seen_code)
            } else {
                (state, seen_code)
            },
            DocstringState::AfterClassColon => if tok is Indent {
                (DocstringState::AfterClassIndent, seen_code)
            } else {
                (state, seen_code)
            },
            DocstringState::AfterClassIndent => if tok is String || !(tok is Newline || tok
                is Indent) {
                (DocstringState::InCode, seen_code)
            } else {
                (state, seen_code)
            },
            DocstringState::InCode => (state, seen_code),
        }
    }
}

/// The detector's state after the tokens `toks`, from `state`.
pub open spec fn detector_run(state: DocstringState, seen_code: bool, toks: Seq<PyTok>) -> (
    DocstringState,
    bool,
)
    decreases toks.len(),
{
    if toks.len() == 0 {
        (state, seen_code)
    } else {
        let (s, c) = detector_run(state, seen_code, toks.drop_last());
        docstring_next(s, c, toks.last())
    }
}

proof fn lemma_body_run(state: DocstringState, seen_code: bool, toks: Seq<PyTok>)
    requires
        state == DocstringState::AfterDefIndent || state == DocstringState::AfterClassIndent,
        forall|i: int| 0 <= i < toks.len() ==> !(#[trigger] toks[i] is Def) && !(toks[i] is Class),
    ensures
        (forall|i: int| 0 <= i < toks.len() ==> (#[trigger] toks[i] is Newline || toks[i] is Indent))
            ==> detector_run(state, seen_code, toks) == (state, seen_code),
        (exists|i: int| 0 <= i < toks.len() && !(#[trigger] toks[i] is Newline || toks[i] is Indent))
            ==> detector_run(state, seen_code, toks).0 == DocstringState::InCode,
    decreases toks.len(),
{
    if toks.len() > 0 {
        let p = toks.drop_last();
        assert forall|i: int| 0 <= i < p.len() implies !(#[trigger] p[i] is Def) && !(p[i] is Class) by {
            assert(p[i] == toks[i]);
        }
        lemma_body_run(state, seen_code, p);
        assert(toks.last() == toks[toks.len() - 1]);
        if exists|i: int| 0 <= i < toks.len() && !(#[trigger] toks[i] is Newline || toks[i] is Indent) {
            let i = choose|i: int| 0 <= i < toks.len() && !(#[trigger] toks[i] is Newline || toks[i] is Indent);
            if i < toks.len() - 1 {
                assert(p[i] == toks[i]);
            } else if forall|j: int| 0 <= j < p.len() ==> (#[trigger] p[j] is Newline || p[j] is Indent) {
            }
        } else {
            assert forall|j: int| 0 <= j < p.len() implies (#[trigger] p[j] is Newline || p[j] is Indent) by {
                assert(p[j] == toks[j]);
            }
        }
    }
}

/// The docstring law of a function or class body: after the indent that
/// opens it, a string is its docstring only while nothing but newlines and
/// indents has come; once any other token has been seen in the body (and
/// no new `def` or `class` has started), no later token is a docstring.
pub proof fn lemma_docstring_only_first_in_body(
    state: DocstringState,
    seen_code: bool,
    toks: Seq<PyTok>,
    t: PyTok,
)
    requires
        state == DocstringState::AfterDefIndent || state == DocstringState::AfterClassIndent,
        forall|i: int| 0 <= i < toks.len() ==> !(#[trigger] toks[i] is Def) && !(toks[i] is Class),
    ensures
        (exists|i: int| 0 <= i < toks.len() && !(#[trigger] toks[i] is Newline || toks[i] is Indent))
            ==> !docstring_here(
            detector_run(state, seen_code, toks).0,
            detector_run(state, seen_code, toks).1,
            t,
        ),
        (forall|i: int| 0 <= i < toks.len() ==> (#[trigger] toks[i] is Newline || toks[i] is Indent))
            ==> (docstring_here(
            detector_run(state, seen_code, toks).0,
            detector_run(state, seen_code, toks).1,
            t,
        ) <==> t is String),
{
    lemma_body_run(state, seen_code, toks);
}

proof fn lemma_run_append(state: DocstringState, seen_code: bool, a: Seq<PyTok>, b: Seq<PyTok>)
    ensures
        detector_run(state, seen_code, a + b) == detector_run(
            detector_run(state, seen_code, a).0,
            detector_run(state, seen_code, a).1,
            b,
        ),
    decreases b.len(),
{
    if b.len() == 0 {
        assert(a + b =~= a);
    } else {
        lemma_run_append(state, seen_code, a, b.drop_last());
        assert((a + b).drop_last() =~= a + b.drop_last());
        assert((a + b).last() == b.last());
    }
}

proof fn lemma_run_one(state: DocstringState, seen_code: bool, x: PyTok)
    ensures
        detector_run(state, seen_code, seq![x]) == docstring_next(state, seen_code, x),
{
    let one = seq![x];
    assert(one.drop_last() =~= Seq::<PyTok>::empty());
    assert(detector_run(state, seen_code, one.drop_last()) == (state, seen_code));
    assert(one.last() == x);
}

proof fn lemma_run_waits(state: DocstringState, seen_code: bool, toks: Seq<PyTok>)
    requires
        state == DocstringState::AfterDef || state == DocstringState::AfterClass
            || state == DocstringState::AfterDefColon || state == DocstringState::AfterClassColon,
        forall|i: int|
            0 <= i < toks.len() ==> !(#[trigger] toks[i] is Def) && !(toks[i] is Class) && !(
            (state == DocstringState::AfterDef || state == DocstringState::AfterClass)
                && toks[i] is Colon) && !((state == DocstringState::AfterDefColon || state
                == DocstringState::AfterClassColon) && toks[i] is Indent),
    ensures
        detector_run(state, seen_code, toks) == (state, seen_code),
    decreases toks.len(),
{
    if toks.len() > 0 {
        let p = toks.drop_last();
        assert forall|i: int| 0 <= i < p.len() implies !(#[trigger] p[i] is Def) && !(p[i] is Class) && !(
            (state == DocstringState::AfterDef || state == DocstringState::AfterClass)
                && p[i] is Colon) && !((state == DocstringState::AfterDefColon || state
                == DocstringState::AfterClassColon) && p[i] is Indent) by {
            assert(p[i] == toks[i]);
        }
        lemma_run_waits(state, seen_code, p);
        assert(toks.last() == toks[toks.len() - 1]);
    }
}

/// The way into a body: from any state, `def` (or `class`), then tokens
/// without a colon, the colon, tokens without an indent, and the indent,
/// leave the detector where the next string is the body's docstring.
pub proof fn lemma_body_opens(
    state: DocstringState,
    seen_code: bool,
    is_class: bool,
    head: Seq<PyTok>,
    gap: Seq<PyTok>,
    t: PyTok,
)
    requires
        forall|i: int|
            0 <= i < head.len() ==> !(#[trigger] head[i] is Def) && !(head[i] is Class) && !(head[i] is Colon),
        forall|i: int|
            0 <= i < gap.len() ==> !(#[trigger] gap[i] is Def) && !(gap[i] is Class) && !(gap[i] is Indent),
    ensures
        ({
            let opener = if is_class {
                PyTok::Class
            } else {
                PyTok::Def
            };
            let toks = seq![opener] + head + seq![PyTok::Colon] + gap + seq![PyTok::Indent];
            let r = detector_run(state, seen_code, toks);
            &&& r.0 == (if is_class {
                DocstringState::AfterClassIndent
            } else {
                DocstringState::AfterDefIndent
            })
            &&& (docstring_here(r.0, r.1, t) <==> t is String)
        }),
{
    let opener = if is_class {
        PyTok::Class
    } else {
        PyTok::Def
    };
    let s1 = seq![opener];
    let s2 = s1 + head;
    let s3 = s2 + seq![PyTok::Colon];
    let s4 = s3 + gap;
    let toks = s4 + seq![PyTok::Indent];
    let r1 = detector_run(state, seen_code, s1);
    let after = if is_class {
        DocstringState::AfterClass
    } else {
        DocstringState::AfterDef
    };
    lemma_run_one(state, seen_code, opener);
    assert(r1.0 == after);
    lemma_run_append(state, seen_code, s1, head);
    lemma_run_waits(r1.0, r1.1, head);
    let r2 = detector_run(state, seen_code, s2);
    assert(r2 == r1);
    lemma_run_append(state, seen_code, s2, seq![PyTok::Colon]);
    lemma_run_one(r2.0, r2.1, PyTok::Colon);
    let r3 = detector_run(state, seen_code, s3);
    assert(r3.0 == (if is_class {
        DocstringState::AfterClassColon
    } else {
        DocstringState::AfterDefColon
    }));
    lemma_run_append(state, seen_code, s3, gap);
    lemma_run_waits(r3.0, r3.1, gap);
    let r4 = detector_run(state, seen_code, s4);
    assert(r4 == r3);
    lemma_run_append(state, seen_code, s4, seq![PyTok::Indent]);
    lemma_run_one(r4.0, r4.1, PyTok::Indent);
}

proof fn lemma_module_run(toks: Seq<PyTok>)
    ensures
        (forall|i: int| 0 <= i < toks.len() ==> is_layout(#[trigger] toks[i]))
            ==> detector_run(DocstringState::Module, false, toks) == (DocstringState::Module, false),
        (exists|i: int| 0 <= i < toks.len() && !is_layout(#[trigger] toks[i])) && (forall|i: int|
            0 <= i < toks.len() ==> !(#[trigger] toks[i] is Def) && !(toks[i] is Class))
            ==> detector_run(DocstringState::Module, false, toks).1,
        (forall|i: int| 0 <= i < toks.len() ==> !(#[trigger] toks[i] is Def) && !(toks[i] is Class))
            ==> detector_run(DocstringState::Module, false, toks).0 == DocstringState::Module
            || detector_run(DocstringState::Module, false, toks).0 == DocstringState::InCode,
    decreases toks.len(),
{
    if toks.len() > 0 {
        let p = toks.drop_last();
        lemma_module_run(p);
        assert(toks.last() == toks[toks.len() - 1]);
        assert forall|i: int| 0 <= i < p.len() implies p[i] == toks[i] by {}
        if exists|i: int| 0 <= i < toks.len() && !is_layout(#[trigger] toks[i]) {
            let i = choose|i: int| 0 <= i < toks.len() && !is_layout(#[trigger] toks[i]);
            if i < toks.len() - 1 {
                assert(!is_layout(p[i]));
            }
        }
    }
}

/// The module docstring law: at the start of a file a string is the
/// module's docstring while nothing but newlines, indents and dedents has
/// come; once any other token has been seen, and no `def` or `class` has
/// come, no token is a docstring.
pub proof fn lemma_module_docstring_first(toks: Seq<PyTok>, t: PyTok)
    ensures
        (forall|i: int| 0 <= i < toks.len() ==> is_layout(#[trigger] toks[i])) ==> (docstring_here(
            detector_run(DocstringState::Module, false, toks).0,
            detector_run(DocstringState::Module, false, toks).1,
            t,
        ) <==> t is String),
        (exists|i: int| 0 <= i < toks.len() && !is_layout(#[trigger] toks[i])) && (forall|i: int|
            0 <= i < toks.len() ==> !(#[trigger] toks[i] is Def) && !(toks[i] is Class))
            ==> !docstring_here(
            detector_run(DocstringState::Module, false, toks).0,
            detector_run(DocstringState::Module, false, toks).1,
            t,
        ),
{
    lemma_module_run(toks);
}

/// State machine for detecting Python docstrings in a token stream.
#[derive(Debug, Clone, Copy)]
pub struct DocstringDetector {
    pub state: DocstringState,
    /// Whether any code has been seen at module level.
    pub seen_code: bool,
}

impl DocstringDetector {
    pub fn new() -> (r: Self)
        ensures
            r.state == DocstringState::Module,
            !r.seen_code,
    {
        Self { state: DocstringState::Module, seen_code: false }
    }

    /// Check if the current token is a docstring and update the state.
    pub fn is_docstring(&mut self, tok: &PyTok) -> (r: bool)
        ensures
            r == docstring_here(old(self).state, old(self).seen_code, *tok),
            (final(self).state, final(self).seen_code) == docstring_next(
                old(self).state,
                old(self).seen_code,
                *tok,
            ),
    {
        let is_string = matches!(tok, PyTok::String { .. });
        let is_docstring = match self.state {
            DocstringState::Module if is_string && !self.seen_code => true,
            DocstringState::AfterDefIndent if is_string => true,
            DocstringState::AfterClassIndent if is_string => true,
            _ => false,
        };
        self.update_state(tok);
        is_docstring
    }

    /// Update the state machine based on the current token.
    fn update_state(&mut self, tok: &PyTok)
        ensures
            (final(self).state, final(self).seen_code) == docstring_next(
                old(self).state,
                old(self).seen_code,
                *tok,
            ),
    {
        let newline = matches!(tok, PyTok::Newline);
        let indent = matches!(tok, PyTok::Indent);
        let dedent = matches!(tok, PyTok::Dedent);
        let string = matches!(tok, PyTok::String { .. });
        let colon = matches!(tok, PyTok::Colon);
        if matches!(tok, PyTok::Def) {
            self.state = DocstringState::AfterDef;
        } else if matches!(tok, PyTok::Class) {
            self.state = DocstringState::AfterClass;
        } else {
            match self.state {
                DocstringState::Module => {
                    if string && !self.seen_code {
                        self.state = DocstringState::InCode;
                        self.seen_code = true;
                    } else if !(newline || indent || dedent) {
                        self.seen_code = true;
                    }
                },
                DocstringState::AfterDef => {
                    if colon {
                        self.state = DocstringState::AfterDefColon;
                    }
                },
                DocstringState::AfterDefColon => {
                    if indent {
                        self.state = DocstringState::AfterDefIndent;
                    }
                },
                DocstringState::AfterDefIndent => {
                    if string || !(newline || indent) {
                        self.state = DocstringState::InCode;
                    }
                },
                DocstringState::AfterClass => {
                    if colon {
                        self.state = DocstringState::AfterClassColon;
                    }
                },
                DocstringState::AfterClassColon => {
                    if indent {
                        self.state = DocstringState::AfterClassIndent;
                    }
                },
                DocstringState::AfterClassIndent => {
                    if string || !(newline || indent) {
                        self.state = DocstringState::InCode;
                    }
                },
                DocstringState::InCode => {},
            }
        }
    }
}

/// The tokens of a source with the given bytes, from what the lexer
/// yielded for it: the first lexical error, or each lexed token typed
/// (docstrings as comments), given its text and placed by line and column.
pub open spec fn tokenized(
    bytes: Seq<u8>,
    lexed: Seq<Result<LexedToken, String>>,
    r: Result<Vec<Token>, TokenizationError>,
) -> bool {
    match first_lex_error(lexed, lexed.len() as int) {
        Some(k) => r matches Err(TokenizationError::LexError(m)) && lexed[k] matches Err(e) && m@ == e@,
        None => r matches Ok(tokens) && tokens@.len() == lexed.len() && forall|i: int|
            #![trigger tokens@[i]]
            0 <= i < tokens@.len() ==> python_token_matches(
                tokens@[i],
                line_starts_of(bytes, bytes.len() as int),
                lexed_tokens(lexed),
                i,
            ),
    }
}

/// What the RustPython lexer gives for a source in module mode, token by
/// token: each token with its byte range and kind (names, numbers and
/// strings with the text of their payload, every other kind by its name),
/// or the debug text of an error.
pub uninterp spec fn python_lex(source: Seq<char>) -> Seq<Result<LexedToken, String>>;

/// Calls `rustpython_parser::lexer::lex` in module mode and collects what
/// it yields. The contract claims only that the result is the named
/// function of the source.
#[verifier::external_body]
fn lex_python(source: &str) -> (r: Vec<Result<LexedToken, String>>)
    ensures
        r@ == python_lex(source@),
{
    lex(source, Mode::Module).map(|res| match res {
        Ok((tok, range)) => Ok(LexedToken { start: range.start().to_usize(), end: range.end().to_usize(), tok: match tok {
            Name { name } => PyTok::Name { name },
            Int { value } => PyTok::Int { value: value.to_string() },
            Float { value } => PyTok::Float { value: value.to_string() },
            Complex { real: re, imag: im } => PyTok::Complex { real: re.to_string(), imag: im.to_string() },
            Tok::String { value, .. } => PyTok::String { value },
            other => PyTok::Other { name: format!("{:?}", other) },
        } }),
        Err(e) => Err(format!("{:?}", e)),
    }).collect()
}

/// What the lexer yielded, with every kind in canonical form.
pub open spec fn canonical_lexed(lexed: Seq<Result<LexedToken, String>>) -> Seq<Result<LexedToken, String>> {
    lexed.map_values(
        |x: Result<LexedToken, String>|
            match x {
                Ok(t) => Ok(LexedToken { tok: canonical(t.tok), start: t.start, end: t.end }),
                Err(e) => Err(e),
            },
    )
}

/// Python tokenizer.
#[derive(Debug, Clone, Copy)]
pub struct PythonTokenizer;

impl PythonTokenizer {
    pub fn new() -> Self {
        Self
    }

    /// The token type of a lexed token.
    pub fn map_token_type(&self, tok: &PyTok) -> (r: TokenType)
        ensures
            r == py_token_type(*tok),
    {
        match tok {
            PyTok::Name { .. } => TokenType::Identifier,
            PyTok::Int { .. } | PyTok::Float { .. } | PyTok::Complex { .. } | PyTok::String { .. } => TokenType::Literal,
            PyTok::Newline | PyTok::Indent | PyTok::Dedent => TokenType::Whitespace,
            PyTok::EndOfFile | PyTok::Type | PyTok::StartModule | PyTok::StartInteractive | PyTok::StartExpression | PyTok::Other { .. } => TokenType::Unknown,
            PyTok::Lpar | PyTok::Rpar | PyTok::Lsqb | PyTok::Rsqb | PyTok::Colon | PyTok::Comma | PyTok::Semi | PyTok::Lbrace | PyTok::Rbrace => TokenType::Delimiter,
            PyTok::Plus | PyTok::Minus | PyTok::Star | PyTok::Slash | PyTok::Vbar | PyTok::Amper | PyTok::Less | PyTok::Greater | PyTok::Equal | PyTok::Dot | PyTok::Percent | PyTok::EqEqual | PyTok::NotEqual | PyTok::LessEqual | PyTok::GreaterEqual | PyTok::Tilde | PyTok::CircumFlex | PyTok::LeftShift | PyTok::RightShift | PyTok::DoubleStar | PyTok::DoubleStarEqual | PyTok::PlusEqual | PyTok::MinusEqual | PyTok::StarEqual | PyTok::SlashEqual | PyTok::PercentEqual | PyTok::AmperEqual | PyTok::VbarEqual | PyTok::CircumflexEqual | PyTok::LeftShiftEqual | PyTok::RightShiftEqual | PyTok::DoubleSlash | PyTok::DoubleSlashEqual | PyTok::ColonEqual | PyTok::At | PyTok::AtEqual | PyTok::Rarrow | PyTok::Ellipsis => TokenType::Operator,
            PyTok::False | PyTok::NoneConst | PyTok::True => TokenType::Literal,
            PyTok::And | PyTok::As | PyTok::Assert | PyTok::Async | PyTok::Await | PyTok::Break | PyTok::Class | PyTok::Continue | PyTok::Def | PyTok::Del | PyTok::Elif | PyTok::Else | PyTok::Except | PyTok::Finally | PyTok::For | PyTok::From | PyTok::Global | PyTok::If | PyTok::Import | PyTok::In | PyTok::Is | PyTok::Lambda | PyTok::Nonlocal | PyTok::Not | PyTok::Or | PyTok::Pass | PyTok::Raise | PyTok::Return | PyTok::Try | PyTok::While | PyTok::Match | PyTok::Case | PyTok::With | PyTok::Yield => TokenType::Keyword,
        }
    }

    /// The text a lexed token is reported with.
    pub fn token_to_string(&self, tok: &PyTok) -> (r: String)
        ensures
            r@ == token_text(*tok),
    {
        match tok {
            PyTok::Name { name } => name.clone(),
            PyTok::Int { value } => value.clone(),
            PyTok::Float { value } => value.clone(),
            PyTok::Complex { real: re, imag: im } => {
                let mut s = re.clone();
                s.append("+");
                s.append(im.as_str());
                s.append("j");
                s
            },
            PyTok::String { value } => value.clone(),
            PyTok::Newline => "\n".to_owned(),
            PyTok::Indent => "    ".to_owned(),
            PyTok::Dedent => String::new(),
            PyTok::Other { name } => name.clone(),
            _ => kind_name_str(tok).to_owned(),
        }
    }
}

/// The byte offsets at which lines start: 0, then one past every newline
/// byte among the first `n` bytes.
pub open spec fn line_starts_of(bytes: Seq<u8>, n: int) -> Seq<usize>
    decreases n,
{
    if n <= 0 {
        seq![0usize]
    } else {
        let p = line_starts_of(bytes, n - 1);
        if bytes[n - 1] == 10 {
            p.push(n as usize)
        } else {
            p
        }
    }
}

/// The offsets never decrease.
pub open spec fn is_sorted(starts: Seq<usize>) -> bool {
    forall|i: int, j: int| 0 <= i <= j < starts.len() ==> starts[i] <= starts[j]
}

/// How many line starts are at or before `offset`.
pub open spec fn starts_at_or_before(starts: Seq<usize>, offset: usize) -> int
    decreases starts.len(),
{
    if starts.len() == 0 {
        0
    } else {
        starts_at_or_before(starts.drop_last(), offset) + if starts.last() <= offset {
            1int
        } else {
            0int
        }
    }
}

/// The (1-based) line and (0-based) column of a byte offset, given the
/// offsets at which lines start: the line is the last one that starts at or
/// before the offset, the column the distance from that start. An offset
/// before every line start is at line 1, column 0.
pub open spec fn position_of(starts: Seq<usize>, offset: usize) -> (int, int) {
    let n = starts_at_or_before(starts, offset);
    if n == 0 {
        (1, 0)
    } else {
        (n, offset - starts[n - 1])
    }
}

/// In sorted line starts, those at or before an offset come first.
pub proof fn lemma_starts_at_or_before(starts: Seq<usize>, offset: usize)
    requires
        is_sorted(starts),
    ensures
        0 <= starts_at_or_before(starts, offset) <= starts.len(),
        forall|j: int|
            0 <= j < starts_at_or_before(starts, offset) ==> #[trigger] starts[j] <= offset,
        forall|j: int|
            starts_at_or_before(starts, offset) <= j < starts.len() ==> #[trigger] starts[j]
                > offset,
    decreases starts.len(),
{
    if starts.len() > 0 {
        let d = starts.drop_last();
        assert(is_sorted(d));
        lemma_starts_at_or_before(d, offset);
        let n = starts_at_or_before(d, offset);
        assert forall|j: int| 0 <= j < starts_at_or_before(starts, offset) implies #[trigger] starts[j]
            <= offset by {
            if j < n {
                assert(d[j] == starts[j]);
            }
        }
        assert forall|j: int|
            starts_at_or_before(starts, offset) <= j < starts.len() implies #[trigger] starts[j]
            > offset by {
            if j < starts.len() - 1 {
                assert(d[j] == starts[j]);
                if starts.last() <= offset {
                    assert(starts[j] <= starts[starts.len() - 1]);
                }
            }
        }
    }
}

/// The line starts of a text are sorted.
proof fn lemma_line_starts_sorted(bytes: Seq<u8>, n: int)
    requires
        0 <= n <= bytes.len(),
        bytes.len() <= usize::MAX,
    ensures
        is_sorted(line_starts_of(bytes, n)),
        line_starts_of(bytes, n).len() >= 1,
        line_starts_of(bytes, n)[0] == 0,
        forall|i: int|
            0 <= i < line_starts_of(bytes, n).len() ==> #[trigger] line_starts_of(bytes, n)[i] <= n,
    decreases n,
{
    if n > 0 {
        lemma_line_starts_sorted(bytes, n - 1);
        let p = line_starts_of(bytes, n - 1);
        if bytes[n - 1] == 10 {
            assert(p.push(n as usize)[0] == p[0]);
        }
    }
}

/// The detector's state after the first `n` lexed tokens.
pub open spec fn detector_after(lexed: Seq<LexedToken>, n: int) -> (DocstringState, bool)
    decreases n,
{
    if n <= 0 {
        (DocstringState::Module, false)
    } else {
        let s = detector_after(lexed, n - 1);
        docstring_next(s.0, s.1, lexed[n - 1].tok)
    }
}

/// The kinds of lexed tokens `k..i`.
pub open spec fn kinds_between(lexed: Seq<LexedToken>, k: int, i: int) -> Seq<PyTok> {
    lexed.subrange(k, i).map_values(|l: LexedToken| l.tok)
}

proof fn lemma_after_is_run(lexed: Seq<LexedToken>, k: int, i: int)
    requires
        0 <= k <= i <= lexed.len(),
    ensures
        detector_after(lexed, i) == detector_run(
            detector_after(lexed, k).0,
            detector_after(lexed, k).1,
            kinds_between(lexed, k, i),
        ),
    decreases i - k,
{
    if i > k {
        lemma_after_is_run(lexed, k, i - 1);
        assert(kinds_between(lexed, k, i).drop_last() =~= kinds_between(lexed, k, i - 1));
        assert(kinds_between(lexed, k, i).last() == lexed[i - 1].tok);
    } else {
        assert(kinds_between(lexed, k, i) =~= Seq::<PyTok>::empty());
    }
}

/// The docstring law of tokenization: if lexed token `k` is met right after
/// the indent that opens a function or class body, and among tokens
/// `k..i` there is no `def` or `class` but some token other than a newline
/// or indent, then token `i` is not reported as a docstring.
pub proof fn lemma_no_docstring_after_body_code(lexed: Seq<LexedToken>, k: int, i: int)
    requires
        0 <= k <= i < lexed.len(),
        detector_after(lexed, k).0 == DocstringState::AfterDefIndent || detector_after(lexed, k).0
            == DocstringState::AfterClassIndent,
        forall|j: int| k <= j < i ==> !(#[trigger] lexed[j].tok is Def) && !(lexed[j].tok is Class),
        exists|j: int| k <= j < i && !(#[trigger] lexed[j].tok is Newline || lexed[j].tok is Indent),
    ensures
        !docstring_here(detector_after(lexed, i).0, detector_after(lexed, i).1, lexed[i].tok),
{
    lemma_after_is_run(lexed, k, i);
    let toks = kinds_between(lexed, k, i);
    assert forall|q: int| 0 <= q < toks.len() implies !(#[trigger] toks[q] is Def) && !(toks[q] is Class) by {
        assert(toks[q] == lexed[k + q].tok);
    }
    let j = choose|j: int| k <= j < i && !(#[trigger] lexed[j].tok is Newline || lexed[j].tok is Indent);
    assert(toks[j - k] == lexed[j].tok);
    lemma_docstring_only_first_in_body(
        detector_after(lexed, k).0,
        detector_after(lexed, k).1,
        toks,
        lexed[i].tok,
    );
}

/// The generic token reported for lexed token `i` of a source whose line
/// starts are `starts`: docstrings are reported as comments.
pub open spec fn python_token_matches(
    t: Token,
    starts: Seq<usize>,
    lexed: Seq<LexedToken>,
    i: int,
) -> bool {
    let lt = lexed[i];
    let s = detector_after(lexed, i);
    let pos = position_of(starts, lt.start);
    &&& t.token_type == (if docstring_here(s.0, s.1, lt.tok) {
        TokenType::Comment
    } else {
        py_token_type(lt.tok)
    })
    &&& t.value@ == token_text(lt.tok)
    &&& t.start == lt.start
    &&& t.end == lt.end
    &&& t.line == pos.0
    &&& t.column == pos.1
}

/// Index of the first of the first `n` lexer results that is an error, if
/// any.
pub open spec fn first_lex_error(lexed: Seq<Result<LexedToken, String>>, n: int) -> Option<int>
    decreases n,
{
    if n <= 0 {
        None
    } else {
        match first_lex_error(lexed, n - 1) {
            Some(k) => Some(k),
            None => if lexed[n - 1] is Err {
                Some(n - 1)
            } else {
                None
            },
        }
    }
}

/// Once found among the first `n` results, an error stays the first.
proof fn lemma_first_lex_error_extends(lexed: Seq<Result<LexedToken, String>>, n: int, m: int)
    requires
        0 <= n <= m,
        first_lex_error(lexed, n) is Some,
    ensures
        first_lex_error(lexed, m) == first_lex_error(lexed, n),
    decreases m - n,
{
    if m > n {
        lemma_first_lex_error_extends(lexed, n, m - 1);
    }
}

/// The tokens of the lexer results (meaningful where a result is a token).
pub open spec fn lexed_tokens(lexed: Seq<Result<LexedToken, String>>) -> Seq<LexedToken> {
    Seq::new(lexed.len(), |i: int| lexed[i]->Ok_0)
}

impl PythonTokenizer {
    /// Build a line index mapping byte offsets to line starts.
    pub fn build_line_index(source: &str) -> (r: Vec<usize>)
        requires
            source.spec_bytes().len() <= usize::MAX,
        ensures
            r@ == line_starts_of(source.spec_bytes(), source.spec_bytes().len() as int),
    {
        let bytes = source.as_bytes();
        let mut line_starts: Vec<usize> = Vec::new();
        line_starts.push(0);
        let mut idx: usize = 0;
        while idx < bytes.len()
            invariant
                bytes@ == source.spec_bytes(),
                idx <= bytes@.len(),
                line_starts@ == line_starts_of(bytes@, idx as int),
            decreases bytes@.len() - idx,
        {
            if bytes[idx] == 10 {
                line_starts.push(idx + 1);
            }
            idx = idx + 1;
        }
        line_starts
    }

    /// Convert a byte offset to a (1-based line, 0-based column) position
    /// using the line index, by binary search.
    pub fn offset_to_position(offset: usize, line_starts: &[usize]) -> (r: (usize, usize))
        requires
            line_starts@.len() > 0,
            is_sorted(line_starts@),
        ensures
            r.0 == position_of(line_starts@, offset).0,
            r.1 == position_of(line_starts@, offset).1,
    {
        proof {
            lemma_starts_at_or_before(line_starts@, offset);
        }
        let mut lo: usize = 0;
        let mut hi: usize = line_starts.len();
        while lo < hi
            invariant
                0 <= lo <= hi <= line_starts@.len(),
                is_sorted(line_starts@),
                forall|j: int| 0 <= j < lo ==> #[trigger] line_starts@[j] <= offset,
                forall|j: int| hi <= j < line_starts@.len() ==> #[trigger] line_starts@[j] > offset,
            decreases hi - lo,
        {
            let mid = lo + (hi - lo) / 2;
            if line_starts[mid] <= offset {
                lo = mid + 1;
            } else {
                hi = mid;
            }
        }
        proof {
            let n = starts_at_or_before(line_starts@, offset);
            if n < lo {
                assert(line_starts@[n] > offset);
            }
            if lo < n {
                assert(line_starts@[lo as int] > offset);
            }
        }
        let line = if lo == 0 {
            0
        } else {
            lo - 1
        };
        let line_start = line_starts[line];
        let column = if offset >= line_start {
            offset - line_start
        } else {
            0
        };
        (line + 1, column)
    }

    /// Tokenize Python source: it is lexed, and the first lexical error
    /// stops tokenization; otherwise each token is typed (docstrings
    /// reported as comments), given its text, and placed by line and column.
    pub fn tokenize_python(&self, source: &str) -> (r: Result<Vec<Token>, TokenizationError>)
        requires
            source.spec_bytes().len() <= usize::MAX,
        ensures
            tokenized(source.spec_bytes(), canonical_lexed(python_lex(source@)), r),
    {
        let raw = lex_python(source);
        let mut lexed: Vec<Result<LexedToken, String>> = Vec::new();
        let mut i: usize = 0;
        while i < raw.len()
            invariant
                i <= raw@.len(),
                raw@ == python_lex(source@),
                lexed@ == canonical_lexed(raw@.take(i as int)),
            decreases raw@.len() - i,
        {
            let item = match &raw[i] {
                Ok(t) => Ok(LexedToken { tok: canonical_tok(&t.tok), start: t.start, end: t.end }),
                Err(e) => Err(e.clone()),
            };
            lexed.push(item);
            proof {
                assert(raw@.take(i as int + 1) =~= raw@.take(i as int).push(raw@[i as int]));
                assert(lexed@ =~= canonical_lexed(raw@.take(i as int + 1)));
            }
            i = i + 1;
        }
        proof {
            assert(raw@.take(i as int) =~= raw@);
        }
        self.tokenize_lexed(source, lexed.as_slice())
    }

    /// Tokenize Python source, given what the lexer yielded for it: the
    /// first lexical error stops tokenization; otherwise each token is typed
    /// (docstrings reported as comments), given its text, and placed by line
    /// and column.
    pub fn tokenize_lexed(&self, source: &str, lexed: &[Result<LexedToken, String>]) -> (r: Result<
        Vec<Token>,
        TokenizationError,
    >)
        requires
            source.spec_bytes().len() <= usize::MAX,
        ensures
            tokenized(source.spec_bytes(), lexed@, r),
    {
        let line_starts = Self::build_line_index(source);
        let ghost starts = line_starts@;
        let ghost toks = lexed_tokens(lexed@);
        proof {
            lemma_line_starts_sorted(source.spec_bytes(), source.spec_bytes().len() as int);
        }
        let mut result: Vec<Token> = Vec::new();
        let mut detector = DocstringDetector::new();
        let mut i: usize = 0;
        while i < lexed.len()
            invariant
                i <= lexed@.len(),
                toks == lexed_tokens(lexed@),
                starts == line_starts@,
                starts == line_starts_of(source.spec_bytes(), source.spec_bytes().len() as int),
                starts.len() > 0,
                is_sorted(starts),
                first_lex_error(lexed@, i as int) is None,
                (detector.state, detector.seen_code) == detector_after(toks, i as int),
                result@.len() == i,
                forall|j: int|
                    #![trigger result@[j]]
                    0 <= j < i ==> python_token_matches(result@[j], starts, toks, j),
            decreases lexed@.len() - i,
        {
            match &lexed[i] {
                Ok(lt) => {
                    proof {
                        assert(toks[i as int] == *lt);
                    }
                    let (start_line, start_col) = Self::offset_to_position(
                        lt.start,
                        line_starts.as_slice(),
                    );
                    let is_docstring = detector.is_docstring(&lt.tok);
                    let token_type = if is_docstring {
                        TokenType::Comment
                    } else {
                        self.map_token_type(&lt.tok)
                    };
                    let value = self.token_to_string(&lt.tok);
                    let token = Token::new(token_type, value, lt.start, lt.end, start_line, start_col);
                    result.push(token);
                },
                Err(e) => {
                    proof {
                        lemma_first_lex_error_extends(lexed@, i as int + 1, lexed@.len() as int);
                    }
                    return Err(TokenizationError::LexError(e.clone()));
                },
            }
            i = i + 1;
        }
        Ok(result)
    }
}

} // verus!
