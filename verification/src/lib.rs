//! Verified core of a code duplication detector.

pub mod ast;
pub mod ast_detector;
pub mod clone;
pub mod detector;
pub mod format;
pub mod grouping;
pub mod hash;
pub mod paths;
pub mod python_ast;
pub mod python_syntax;
pub mod python_tokenizer;
pub mod report;
pub mod rolling_window;
pub mod ruff_syntax;
pub mod similarity;
pub mod text;
pub mod source;
pub mod token;
pub mod token_detector;
pub mod tree_edit_distance;
pub mod utils;

pub use clone::{CloneGroup, CloneType};
pub use detector::{DetectionConfig, DetectionMode};
pub use source::{DetectionResult, SourceFile};
pub use token::Token;
