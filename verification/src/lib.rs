//! A live pattern-matching tester's recompute pipeline: pattern compilation
//! under a composable flag set, fail-soft degradation on invalid patterns,
//! span-accurate match scanning with zero-width matches excluded, alternating
//! highlight-class assignment, and a pluralization-aware match-count summary.

pub mod catalog;
pub mod engine;
pub mod flags;
pub mod highlight;
pub mod pipeline;
pub mod summary;
pub mod text;

pub use catalog::{parse_examples, ExampleData};
pub use engine::CompiledPattern;
pub use flags::FlagSet;
pub use highlight::{assign_classes, HighlightClass, MatchSpan};
pub use pipeline::{recompute, ScanResult};
pub use summary::format_summary;
