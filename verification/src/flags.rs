//! The six matching options that govern how a pattern is compiled.

use vstd::prelude::*;

verus! {

/// An immutable snapshot of the six matching options. Each field maps one to
/// one onto an option of the matcher builder; no flag implies or excludes
/// another.
#[derive(Clone, Copy, PartialEq, Eq, Structural, Debug)]
pub struct FlagSet {
    /// `^` and `$` match at line boundaries, not just text boundaries.
    pub multiline: bool,
    /// Case folding during comparison.
    pub case_insensitive: bool,
    /// Unescaped whitespace and comments in the pattern source are ignored.
    pub ignore_whitespace: bool,
    /// `.` matches line-terminator characters.
    pub dot_matches_newline: bool,
    /// Unicode-aware character classes and codepoint-based matching.
    pub unicode: bool,
    /// The default greediness of quantifiers is inverted.
    pub swap_greed: bool,
}

impl FlagSet {
    /// The baseline flag set: every option off except Unicode-aware matching,
    /// which the underlying engine enables by default.
    pub fn baseline() -> (r: FlagSet)
        ensures
            !r.multiline,
            !r.case_insensitive,
            !r.ignore_whitespace,
            !r.dot_matches_newline,
            r.unicode,
            !r.swap_greed,
    {
        FlagSet {
            multiline: false,
            case_insensitive: false,
            ignore_whitespace: false,
            dot_matches_newline: false,
            unicode: true,
            swap_greed: false,
        }
    }
}

} // verus!
