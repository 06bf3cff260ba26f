//! The recompute pipeline.
//!
//! One call runs compile, scan, zero-width filtering, highlight-class
//! assignment, counting and summary formatting, in that order, and packages
//! the outcome. Every input combination — an empty pattern, an empty subject,
//! a syntactically invalid pattern — yields a complete, self-consistent
//! result; no error path is visible to the caller.

use vstd::prelude::*;

use crate::engine::{accepted_spans, compiles_under, to_int_spans, CompiledPattern};
use crate::flags::FlagSet;
use crate::highlight::{assign_classes, class_for, HighlightClass, MatchSpan};
use crate::summary::{format_summary, summary_model};

verus! {

/// The complete outcome of one recompute: the accepted match spans with
/// their highlight classes, how many there are, and the summary line.
pub struct ScanResult {
    pub spans: Vec<MatchSpan>,
    pub accepted_count: usize,
    pub summary_text: String,
}

/// What `recompute` promises of its result: the spans are exactly the
/// accepted matches of the pattern under the flags on the subject, in order,
/// with highlight classes alternating from `First`; the count is their
/// number; and the summary line renders that count. Since the right-hand
/// sides are functions of the three inputs alone, this pins the whole result.
pub open spec fn result_matches(
    r: ScanResult,
    pattern: Seq<char>,
    flags: FlagSet,
    subject: Seq<char>,
) -> bool {
    let acc = accepted_spans(pattern, flags, subject);
    &&& r.spans@.len() == acc.len()
    &&& r.accepted_count as int == acc.len()
    &&& (forall|i: int|
        0 <= i < acc.len() ==> (#[trigger] r.spans@[i]).start as int == acc[i].0
            && r.spans@[i].end as int == acc[i].1 && r.spans@[i].highlight_class == class_for(i))
    &&& r.summary_text@ == summary_model(acc.len() as int, pattern.len() == 0)
}

/// One full recompute over an immutable snapshot of the three inputs.
///
/// A pattern that does not compile is replaced by the empty fallback
/// matcher, so the call never fails: it returns a result with no spans and
/// the "no matches" summary, indistinguishable from a valid pattern that
/// finds nothing. Zero-width matches never appear among the spans and are
/// not counted; spans come in increasing, non-overlapping codepoint order.
pub fn recompute(pattern: &str, flags: FlagSet, subject: &str) -> (r: ScanResult)
    ensures
        result_matches(r, pattern@, flags, subject@),
        forall|i: int| 0 <= i < r.spans@.len() ==> (#[trigger] r.spans@[i]).start < r.spans@[i].end,
        forall|i: int| 0 <= i < r.spans@.len() ==> (#[trigger] r.spans@[i]).end <= subject@.len(),
        forall|i: int, j: int|
            0 <= i < j < r.spans@.len() ==> (#[trigger] r.spans@[i]).end <= (
            #[trigger] r.spans@[j]).start,
        (pattern@.len() == 0 || !compiles_under(pattern@, flags)) ==> (r.spans@.len() == 0
            && r.accepted_count == 0 && r.summary_text@ == "no matches"@),
{
    let compiled = CompiledPattern::compile(pattern, flags);
    let bare = compiled.scan(subject);
    let spans = assign_classes(&bare);
    let count = bare.len();
    let summary_text = format_summary(count, pattern.is_empty());
    let r = ScanResult { spans, accepted_count: count, summary_text };
    proof {
        let acc = accepted_spans(pattern@, flags, subject@);
        assert(to_int_spans(bare@) == acc);
        assert(bare@.len() == acc.len());
        assert forall|i: int| 0 <= i < acc.len() implies (#[trigger] r.spans@[i]).start as int
            == acc[i].0 && r.spans@[i].end as int == acc[i].1 by {
            assert(to_int_spans(bare@)[i] == acc[i]);
        }
    }
    r
}

/// Determinism: the recompute contract pins its result, so any two results
/// that meet it for the same pattern, flags and subject agree in every
/// observable part.
pub proof fn lemma_recompute_deterministic(
    r1: ScanResult,
    r2: ScanResult,
    pattern: Seq<char>,
    flags: FlagSet,
    subject: Seq<char>,
)
    requires
        result_matches(r1, pattern, flags, subject),
        result_matches(r2, pattern, flags, subject),
    ensures
        r1.spans@ == r2.spans@,
        r1.accepted_count == r2.accepted_count,
        r1.summary_text@ == r2.summary_text@,
{
    let acc = accepted_spans(pattern, flags, subject);
    assert forall|i: int| 0 <= i < r1.spans@.len() implies r1.spans@[i] == r2.spans@[i] by {
        assert(r1.spans@[i].start as int == acc[i].0);
        assert(r2.spans@[i].start as int == acc[i].0);
        assert(r1.spans@[i].end as int == acc[i].1);
        assert(r2.spans@[i].end as int == acc[i].1);
        assert(r1.spans@[i].highlight_class == class_for(i));
        assert(r2.spans@[i].highlight_class == class_for(i));
    }
    assert(r1.spans@ =~= r2.spans@);
}

/// Alternation: in any result that meets the recompute contract, the match
/// at ordinal position `i` carries the `First` class exactly when `i` is
/// even.
pub proof fn lemma_alternation(
    r: ScanResult,
    pattern: Seq<char>,
    flags: FlagSet,
    subject: Seq<char>,
    i: int,
)
    requires
        result_matches(r, pattern, flags, subject),
        0 <= i < r.spans@.len(),
    ensures
        (r.spans@[i].highlight_class == HighlightClass::First) <==> (i % 2 == 0),
{
}

} // verus!
