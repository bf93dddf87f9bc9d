//! Detection modes and configuration.

use vstd::prelude::*;

use crate::text::str_eq;

verus! {

/// Detection mode determines the algorithm and accuracy tradeoff.
#[derive(Debug, Clone, Copy, PartialEq, Eq, Structural)]
pub enum DetectionMode {
    /// Fast token-based detection (Type-1, Type-2)
    Fast,
    /// Balanced AST-based detection (Type-1, Type-2, Type-3)
    Balanced,
    /// Precise graph-based detection (All types including Type-4)
    Precise,
}

/// Configuration for clone detection.
///
/// The similarity threshold of the tree comparison is a real number and is
/// kept beside this configuration by the code that compares trees.
#[derive(Debug, Clone, Copy, PartialEq, Eq, Structural)]
pub struct DetectionConfig {
    /// Detection mode (Fast, Balanced, or Precise)
    pub mode: DetectionMode,
    /// Minimum number of tokens for a clone
    pub min_tokens: usize,
    /// Minimum number of lines for a clone
    pub min_lines: usize,
    /// Whether to ignore comments
    pub ignore_comments: bool,
    /// Whether to ignore whitespace
    pub ignore_whitespace: bool,
}

/// The default configuration: balanced mode, clones of at least 50 tokens
/// and 5 lines, comments and whitespace ignored.
pub open spec fn default_config() -> DetectionConfig {
    DetectionConfig {
        mode: DetectionMode::Balanced,
        min_tokens: 50,
        min_lines: 5,
        ignore_comments: true,
        ignore_whitespace: true,
    }
}

impl Default for DetectionConfig {
    fn default() -> (r: Self)
        ensures
            r == default_config(),
    {
        Self {
            mode: DetectionMode::Balanced,
            min_tokens: 50,
            min_lines: 5,
            ignore_comments: true,
            ignore_whitespace: true,
        }
    }
}

impl DetectionConfig {
    /// Fast mode looks for larger clones: at least 30 tokens and 5 lines.
    pub fn fast() -> (r: Self)
        ensures
            r == (DetectionConfig {
                mode: DetectionMode::Fast,
                min_tokens: 30,
                min_lines: 5,
                ..default_config()
            }),
    {
        Self { mode: DetectionMode::Fast, min_tokens: 30, min_lines: 5, ..Self::default() }
    }

    /// Balanced mode, for general use: at least 20 tokens and 4 lines.
    pub fn balanced() -> (r: Self)
        ensures
            r == (DetectionConfig {
                mode: DetectionMode::Balanced,
                min_tokens: 20,
                min_lines: 4,
                ..default_config()
            }),
    {
        Self { mode: DetectionMode::Balanced, min_tokens: 20, min_lines: 4, ..Self::default() }
    }

    /// Precise mode looks for smaller clones: at least 15 tokens and 3
    /// lines.
    pub fn precise() -> (r: Self)
        ensures
            r == (DetectionConfig {
                mode: DetectionMode::Precise,
                min_tokens: 15,
                min_lines: 3,
                ..default_config()
            }),
    {
        Self { mode: DetectionMode::Precise, min_tokens: 15, min_lines: 3, ..Self::default() }
    }
}

/// The mode a name selects: "fast", "balanced" or "precise".
pub open spec fn mode_named(name: Seq<char>) -> Option<DetectionMode> {
    if name == "fast"@ {
        Some(DetectionMode::Fast)
    } else if name == "balanced"@ {
        Some(DetectionMode::Balanced)
    } else if name == "precise"@ {
        Some(DetectionMode::Precise)
    } else {
        None
    }
}

/// The message that refuses an unknown mode name.
pub open spec fn invalid_mode_message(name: Seq<char>) -> Seq<char> {
    "Invalid mode '"@ + name + "'. Must be 'fast', 'balanced', or 'precise'"@
}

impl DetectionConfig {
    /// A configuration with the mode given by name ("fast", "balanced" or
    /// "precise") and the given limits and flags; any other mode name is
    /// refused with a message that lists the three.
    pub fn from_mode_name(
        mode: &str,
        min_tokens: usize,
        min_lines: usize,
        ignore_comments: bool,
        ignore_whitespace: bool,
    ) -> (r: Result<Self, String>)
        ensures
            mode_named(mode@) matches Some(m) ==> (r matches Ok(c) && c == (DetectionConfig {
                mode: m,
                min_tokens,
                min_lines,
                ignore_comments,
                ignore_whitespace,
            })),
            mode_named(mode@) is None ==> (r matches Err(message) && message@ == invalid_mode_message(
                mode@,
            )),
    {
        let detection_mode = if str_eq(mode, "fast") {
            DetectionMode::Fast
        } else if str_eq(mode, "balanced") {
            DetectionMode::Balanced
        } else if str_eq(mode, "precise") {
            DetectionMode::Precise
        } else {
            let mut message = "Invalid mode '".to_owned();
            message.append(mode);
            message.append("'. Must be 'fast', 'balanced', or 'precise'");
            return Err(message);
        };
        Ok(DetectionConfig { mode: detection_mode, min_tokens, min_lines, ignore_comments, ignore_whitespace })
    }
}

} // verus!
