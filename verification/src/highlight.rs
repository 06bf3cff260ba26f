//! Alternating highlight classes for adjacent matches.

use vstd::prelude::*;

verus! {

/// One of the two alternating highlight classes that keep adjacent matches
/// visually distinguishable even when they are contiguous.
#[derive(Clone, Copy, PartialEq, Eq, Structural, Debug)]
pub enum HighlightClass {
    First,
    Second,
}

/// A matched region: codepoint offsets into the subject text together with
/// the highlight class assigned to the match.
#[derive(Clone, Copy, PartialEq, Eq, Structural, Debug)]
pub struct MatchSpan {
    pub start: usize,
    pub end: usize,
    pub highlight_class: HighlightClass,
}

/// The class of the accepted match at ordinal position `i`: `First` on even
/// positions, `Second` on odd ones.
pub open spec fn class_for(i: int) -> HighlightClass {
    if i % 2 == 0 {
        HighlightClass::First
    } else {
        HighlightClass::Second
    }
}

/// Assigns the two highlight classes to bare spans, alternating by ordinal
/// position starting from `First`.
pub fn assign_classes(spans: &Vec<(usize, usize)>) -> (r: Vec<MatchSpan>)
    ensures
        r@.len() == spans@.len(),
        forall|i: int|
            0 <= i < r@.len() ==> (#[trigger] r@[i]).start == spans@[i].0 && r@[i].end
                == spans@[i].1 && r@[i].highlight_class == class_for(i),
{
    let mut r: Vec<MatchSpan> = Vec::new();
    let mut i: usize = 0;
    while i < spans.len()
        invariant
            i <= spans@.len(),
            r@.len() == i,
            forall|k: int|
                0 <= k < i ==> (#[trigger] r@[k]).start == spans@[k].0 && r@[k].end == spans@[k].1
                    && r@[k].highlight_class == class_for(k),
        decreases spans@.len() - i,
    {
        let p = spans[i];
        let hc = if i % 2 == 0 {
            HighlightClass::First
        } else {
            HighlightClass::Second
        };
        r.push(MatchSpan { start: p.0, end: p.1, highlight_class: hc });
        i = i + 1;
    }
    r
}

} // verus!
