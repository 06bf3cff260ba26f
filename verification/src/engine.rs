//! Pattern compilation and match scanning.
//!
//! The matching itself is done by the external `regex` engine. Its two
//! observable outcomes — whether a pattern compiles under a flag set, and
//! which byte spans the successive matches cover — are functions of the
//! pattern, the flags and the subject alone, and are given names here
//! (`pattern_compiles`, `raw_match_spans`). Everything downstream of the
//! engine call — dropping zero-width spans and turning byte offsets into
//! codepoint offsets — is ordinary arithmetic over those names.

use vstd::prelude::*;

use crate::flags::FlagSet;
use crate::text::{
    char_offset, char_offset_at, chars_of, is_boundary, lemma_char_offset_mono,
    lemma_char_offset_props,
};

verus! {

/// Whether `pattern` compiles under the six options. The engine's answer
/// depends on its arguments alone.
pub uninterp spec fn pattern_compiles(
    pattern: Seq<char>,
    multiline: bool,
    case_insensitive: bool,
    ignore_whitespace: bool,
    dot_matches_newline: bool,
    unicode: bool,
    swap_greed: bool,
) -> bool;

/// The byte-offset spans of the successive non-overlapping matches of
/// `pattern` on `subject` under the six options, in left-to-right order,
/// with a pattern that does not compile replaced by the empty pattern.
/// The engine's answer depends on its arguments alone.
pub uninterp spec fn raw_match_spans(
    pattern: Seq<char>,
    multiline: bool,
    case_insensitive: bool,
    ignore_whitespace: bool,
    dot_matches_newline: bool,
    unicode: bool,
    swap_greed: bool,
    subject: Seq<char>,
) -> Seq<(usize, usize)>;

/// `pattern_compiles` under a whole flag set.
pub open spec fn compiles_under(pattern: Seq<char>, f: FlagSet) -> bool {
    pattern_compiles(
        pattern,
        f.multiline,
        f.case_insensitive,
        f.ignore_whitespace,
        f.dot_matches_newline,
        f.unicode,
        f.swap_greed,
    )
}

/// `raw_match_spans` under a whole flag set.
pub open spec fn raw_spans_under(pattern: Seq<char>, f: FlagSet, subject: Seq<char>) -> Seq<
    (usize, usize),
> {
    raw_match_spans(
        pattern,
        f.multiline,
        f.case_insensitive,
        f.ignore_whitespace,
        f.dot_matches_newline,
        f.unicode,
        f.swap_greed,
        subject,
    )
}

/// The spans of `raw` that are not zero-width, in order.
pub open spec fn nonempty_spans(raw: Seq<(usize, usize)>) -> Seq<(usize, usize)>
    decreases raw.len(),
{
    if raw.len() == 0 {
        Seq::empty()
    } else if raw.last().0 != raw.last().1 {
        nonempty_spans(raw.drop_last()).push(raw.last())
    } else {
        nonempty_spans(raw.drop_last())
    }
}

/// Byte-offset spans as codepoint-offset spans of `s`.
pub open spec fn to_char_spans(s: Seq<char>, spans: Seq<(usize, usize)>) -> Seq<(int, int)> {
    spans.map_values(|p: (usize, usize)| (char_offset(s, p.0 as int), char_offset(s, p.1 as int)))
}

/// A sequence of machine-width spans read as mathematical integers.
pub open spec fn to_int_spans(spans: Seq<(usize, usize)>) -> Seq<(int, int)> {
    spans.map_values(|p: (usize, usize)| (p.0 as int, p.1 as int))
}

/// The accepted matches of `pattern` under `f` on `subject`: every full-match
/// span the engine reports, zero-width spans excluded, as codepoint offsets.
pub open spec fn accepted_spans(pattern: Seq<char>, f: FlagSet, subject: Seq<char>) -> Seq<
    (int, int),
> {
    to_char_spans(subject, nonempty_spans(raw_spans_under(pattern, f, subject)))
}

/// Relies on `regex::RegexBuilder::build`, with each of the six options set by
/// its builder method (`multi_line`, `case_insensitive`, `ignore_whitespace`,
/// `dot_matches_new_line`, `unicode`, `swap_greed`): whether the pattern
/// compiles. Compilation is a pure function of the pattern and the options.
#[verifier::external_body]
fn try_build(pattern: &str, f: FlagSet) -> (ok: bool)
    ensures
        ok == pattern_compiles(
            pattern@,
            f.multiline,
            f.case_insensitive,
            f.ignore_whitespace,
            f.dot_matches_newline,
            f.unicode,
            f.swap_greed,
        ),
{
    regex::RegexBuilder::new(pattern)
        .multi_line(f.multiline)
        .case_insensitive(f.case_insensitive)
        .ignore_whitespace(f.ignore_whitespace)
        .dot_matches_new_line(f.dot_matches_newline)
        .unicode(f.unicode)
        .swap_greed(f.swap_greed)
        .build()
        .is_ok()
}

/// Relies on `regex::RegexBuilder::build` and `regex::Regex::find_iter`: the
/// iterator yields the successive non-overlapping matches, left to right, and
/// `regex::Match` documents that `start() <= end()` and that both offsets fall
/// on UTF-8 character boundaries of the haystack. A pattern that fails to
/// compile is replaced by the empty pattern, which matches only the empty
/// string, so every span of the replacement is zero-width; the empty pattern
/// itself likewise has only zero-width matches.
#[verifier::external_body]
fn find_byte_spans(pattern: &str, f: FlagSet, subject: &str) -> (r: Vec<(usize, usize)>)
    ensures
        r@ == raw_match_spans(
            pattern@,
            f.multiline,
            f.case_insensitive,
            f.ignore_whitespace,
            f.dot_matches_newline,
            f.unicode,
            f.swap_greed,
            subject@,
        ),
        forall|i: int| 0 <= i < r@.len() ==> (#[trigger] r@[i]).0 <= r@[i].1,
        forall|i: int|
            0 <= i < r@.len() ==> is_boundary(subject@, (#[trigger] r@[i]).0 as int) && is_boundary(
                subject@,
                r@[i].1 as int,
            ),
        forall|i: int, j: int|
            0 <= i < j < r@.len() ==> (#[trigger] r@[i]).1 <= (#[trigger] r@[j]).0,
        (pattern@.len() == 0 || !pattern_compiles(
            pattern@,
            f.multiline,
            f.case_insensitive,
            f.ignore_whitespace,
            f.dot_matches_newline,
            f.unicode,
            f.swap_greed,
        )) ==> (forall|i: int| 0 <= i < r@.len() ==> (#[trigger] r@[i]).0 == r@[i].1),
{
    let built = regex::RegexBuilder::new(pattern)
        .multi_line(f.multiline).case_insensitive(f.case_insensitive)
        .ignore_whitespace(f.ignore_whitespace).dot_matches_new_line(f.dot_matches_newline)
        .unicode(f.unicode).swap_greed(f.swap_greed).build();
    let re = match built {
        Ok(re) => re,
        Err(_) => regex::Regex::new("").unwrap(),
    };
    let mut out = Vec::new();
    for m in re.find_iter(subject) {
        out.push((m.start(), m.end()));
    }
    out
}

/// If every span of `raw` is zero-width, nothing survives the filter.
proof fn lemma_nonempty_spans_all_zero(raw: Seq<(usize, usize)>)
    requires
        forall|i: int| 0 <= i < raw.len() ==> (#[trigger] raw[i]).0 == raw[i].1,
    ensures
        nonempty_spans(raw).len() == 0,
    decreases raw.len(),
{
    if raw.len() > 0 {
        lemma_nonempty_spans_all_zero(raw.drop_last());
    }
}

/// Every span the filter keeps is one of the engine's spans.
proof fn lemma_nonempty_spans_membership(raw: Seq<(usize, usize)>)
    ensures
        forall|k: int|
            0 <= k < nonempty_spans(raw).len() ==> exists|j: int|
                0 <= j < raw.len() && raw[j] == #[trigger] nonempty_spans(raw)[k],
        forall|k: int|
            0 <= k < nonempty_spans(raw).len() ==> (#[trigger] nonempty_spans(raw)[k]).0
                != nonempty_spans(raw)[k].1,
    decreases raw.len(),
{
    if raw.len() > 0 {
        lemma_nonempty_spans_membership(raw.drop_last());
        let prev = nonempty_spans(raw.drop_last());
        assert forall|k: int| 0 <= k < prev.len() implies exists|j: int|
            0 <= j < raw.len() && raw[j] == #[trigger] prev[k] by {
            let j = choose|j: int| 0 <= j < raw.drop_last().len() && raw.drop_last()[j] == prev[k];
            assert(raw[j] == prev[k]);
        }
        if raw.last().0 != raw.last().1 {
            assert(raw[raw.len() - 1] == raw.last());
        }
    }
}

/// The filter keeps the left-to-right order: spans stay pairwise
/// non-overlapping and nondecreasing.
proof fn lemma_nonempty_spans_ordered(raw: Seq<(usize, usize)>)
    requires
        forall|i: int, j: int|
            0 <= i < j < raw.len() ==> (#[trigger] raw[i]).1 <= (#[trigger] raw[j]).0,
        forall|i: int| 0 <= i < raw.len() ==> (#[trigger] raw[i]).0 <= raw[i].1,
    ensures
        forall|k: int, l: int|
            0 <= k < l < nonempty_spans(raw).len() ==> (#[trigger] nonempty_spans(raw)[k]).1 <= (
            #[trigger] nonempty_spans(raw)[l]).0,
    decreases raw.len(),
{
    if raw.len() > 0 {
        let prev = raw.drop_last();
        lemma_nonempty_spans_ordered(prev);
        lemma_nonempty_spans_membership(prev);
        let ns = nonempty_spans(raw);
        if raw.last().0 != raw.last().1 {
            assert forall|k: int, l: int| 0 <= k < l < ns.len() implies (#[trigger] ns[k]).1 <= (
            #[trigger] ns[l]).0 by {
                if l == ns.len() - 1 {
                    let j = choose|j: int|
                        0 <= j < prev.len() && prev[j] == nonempty_spans(prev)[k];
                    assert(raw[j] == prev[j]);
                    assert(raw[j].1 <= raw[raw.len() - 1].0);
                } else {
                    assert(nonempty_spans(prev)[k].1 <= nonempty_spans(prev)[l].0);
                }
            }
        }
    }
}

/// Either a matcher successfully compiled from a pattern string and a flag
/// set, or the designated empty fallback, which matches nothing. Constructed
/// fresh on every compile request and never mutated.
pub struct CompiledPattern {
    pattern: String,
    flags: FlagSet,
    compiled: bool,
}

impl CompiledPattern {
    /// The pattern string this matcher was compiled from.
    pub closed spec fn spec_pattern(&self) -> Seq<char> {
        self.pattern@
    }

    /// The flag set this matcher was compiled under.
    pub closed spec fn spec_flags(&self) -> FlagSet {
        self.flags
    }

    /// This matcher is the empty fallback rather than a compiled pattern.
    pub closed spec fn spec_is_fallback(&self) -> bool {
        !self.compiled
    }

    /// The recorded compilation outcome agrees with the engine's.
    pub closed spec fn wf(&self) -> bool {
        self.compiled == compiles_under(self.pattern@, self.flags)
    }

    /// Turns a pattern string and a flag set into a ready-to-use matcher.
    /// A pattern that does not compile yields the empty fallback instead of
    /// an error, so a caller always has a usable matcher.
    pub fn compile(pattern: &str, flags: FlagSet) -> (r: CompiledPattern)
        ensures
            r.wf(),
            r.spec_pattern() == pattern@,
            r.spec_flags() == flags,
            r.spec_is_fallback() == !compiles_under(pattern@, flags),
    {
        let compiled = try_build(pattern, flags);
        CompiledPattern { pattern: pattern.to_owned(), flags, compiled }
    }

    /// Whether compilation failed and this matcher is the empty fallback.
    pub fn is_fallback(&self) -> (b: bool)
        ensures
            b == self.spec_is_fallback(),
    {
        !self.compiled
    }

    /// Runs the matcher over `subject` and yields the codepoint-offset span
    /// of every non-overlapping match, left to right, zero-width matches
    /// excluded.
    pub fn scan(&self, subject: &str) -> (r: Vec<(usize, usize)>)
        requires
            self.wf(),
        ensures
            to_int_spans(r@) =~= accepted_spans(self.spec_pattern(), self.spec_flags(), subject@),
            forall|i: int| 0 <= i < r@.len() ==> (#[trigger] r@[i]).0 < r@[i].1,
            forall|i: int| 0 <= i < r@.len() ==> (#[trigger] r@[i]).1 <= subject@.len(),
            forall|i: int, j: int|
                0 <= i < j < r@.len() ==> (#[trigger] r@[i]).1 <= (#[trigger] r@[j]).0,
            (self.spec_pattern().len() == 0 || !compiles_under(
                self.spec_pattern(),
                self.spec_flags(),
            )) ==> r@.len() == 0,
    {
        let cs = chars_of(subject);
        let raw = find_byte_spans(self.pattern.as_str(), self.flags, subject);
        let ghost rawseq = raw@;
        let mut out: Vec<(usize, usize)> = Vec::new();
        let mut i: usize = 0;
        while i < raw.len()
            invariant
                i <= raw.len(),
                raw@ == rawseq,
                cs@ == subject@,
                rawseq == raw_spans_under(self.spec_pattern(), self.spec_flags(), subject@),
                forall|k: int| 0 <= k < rawseq.len() ==> (#[trigger] rawseq[k]).0 <= rawseq[k].1,
                forall|k: int|
                    0 <= k < rawseq.len() ==> is_boundary(subject@, (#[trigger] rawseq[k]).0 as int)
                        && is_boundary(subject@, rawseq[k].1 as int),
                forall|k: int, l: int|
                    0 <= k < l < rawseq.len() ==> (#[trigger] rawseq[k]).1 <= (
                    #[trigger] rawseq[l]).0,
                to_int_spans(out@) == to_char_spans(subject@, nonempty_spans(rawseq.take(i as int))),
            decreases raw.len() - i,
        {
            let p = raw[i];
            let ghost s_old = rawseq.take(i as int);
            let ghost s_new = rawseq.take(i as int + 1);
            proof {
                assert(s_new.drop_last() =~= s_old);
                assert(s_new.last() == rawseq[i as int]);
                assert(s_new.len() > 0);
            }
            if p.0 != p.1 {
                let a = char_offset_at(&cs, p.0);
                let b = char_offset_at(&cs, p.1);
                out.push((a, b));
                proof {
                    assert(nonempty_spans(s_new) == nonempty_spans(s_old).push(
                        rawseq[i as int],
                    ));
                    let lhs = to_int_spans(out@);
                    let rhs = to_char_spans(subject@, nonempty_spans(s_new));
                    assert(nonempty_spans(s_new).len() == nonempty_spans(s_old).len() + 1);
                    assert(to_int_spans(out@).len() == out@.len());
                    assert(to_char_spans(subject@, nonempty_spans(s_old)).len()
                        == nonempty_spans(s_old).len());
                    assert(out@.len() == nonempty_spans(s_old).len() + 1);
                    assert(lhs.len() == rhs.len());
                    assert forall|k: int| 0 <= k < lhs.len() implies lhs[k] == rhs[k] by {
                        if k < lhs.len() - 1 {
                            assert(lhs[k] == to_char_spans(subject@, nonempty_spans(s_old))[k]);
                        } else {
                            assert(out@[k] == (a, b));
                            assert(nonempty_spans(s_new)[k] == rawseq[i as int]);
                        }
                    }
                    assert(lhs =~= rhs);
                }
            } else {
                proof {
                    assert(nonempty_spans(s_new) == nonempty_spans(s_old));
                }
            }
            i = i + 1;
        }
        proof {
            assert(rawseq.take(rawseq.len() as int) =~= rawseq);
            let ns = nonempty_spans(rawseq);
            lemma_nonempty_spans_membership(rawseq);
            lemma_nonempty_spans_ordered(rawseq);
            assert(to_int_spans(out@) =~= to_char_spans(subject@, ns));
            assert(out@.len() == ns.len());
            assert forall|k: int| 0 <= k < out@.len() implies ((#[trigger] out@[k]).0 < out@[
                k].1 && out@[k].1 <= subject@.len()) by {
                assert(exists|j: int| 0 <= j < rawseq.len() && rawseq[j] == ns[k]);
                let j = choose|j: int| 0 <= j < rawseq.len() && rawseq[j] == ns[k];
                assert(is_boundary(subject@, ns[k].0 as int));
                assert(is_boundary(subject@, ns[k].1 as int));
                lemma_char_offset_props(subject@, ns[k].0 as int);
                lemma_char_offset_props(subject@, ns[k].1 as int);
                lemma_char_offset_mono(subject@, ns[k].0 as int, ns[k].1 as int);
                assert(ns[k].0 < ns[k].1);
                assert(to_int_spans(out@)[k] == to_char_spans(subject@, ns)[k]);
            }
            assert forall|k: int, l: int| 0 <= k < l < out@.len() implies (#[trigger] out@[k]).1 <= (
            #[trigger] out@[l]).0 by {
                let jk = choose|j: int| 0 <= j < rawseq.len() && rawseq[j] == ns[k];
                let jl = choose|j: int| 0 <= j < rawseq.len() && rawseq[j] == ns[l];
                lemma_char_offset_mono(subject@, ns[k].1 as int, ns[l].0 as int);
                assert(to_int_spans(out@)[k] == to_char_spans(subject@, ns)[k]);
                assert(to_int_spans(out@)[l] == to_char_spans(subject@, ns)[l]);
            }
            if self.spec_pattern().len() == 0 || !compiles_under(
                self.spec_pattern(),
                self.spec_flags(),
            ) {
                lemma_nonempty_spans_all_zero(rawseq);
            }
        }
        out
    }
}

} // verus!
