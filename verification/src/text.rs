//! Codepoint-offset arithmetic over UTF-8 byte offsets.
//!
//! The match engine reports byte offsets into the subject text, while the
//! presentation layer addresses text by codepoint position. This module gives
//! the byte-offset model (`prefix_byte_len`, `is_boundary`) and the map
//! from a boundary byte offset to its codepoint offset.

use vstd::prelude::*;

verus! {

broadcast use vstd::string::group_string_axioms;

/// The number of bytes in the UTF-8 encoding of one character.
pub open spec fn char_utf8_len(c: char) -> int {
    if (c as u32) < 0x80 {
        1
    } else if (c as u32) < 0x800 {
        2
    } else if (c as u32) < 0x10000 {
        3
    } else {
        4
    }
}

/// The byte length of the UTF-8 encoding of the first `k` characters of `s`.
pub open spec fn prefix_byte_len(s: Seq<char>, k: int) -> int
    decreases k,
{
    if k <= 0 {
        0
    } else {
        prefix_byte_len(s, k - 1) + char_utf8_len(s[k - 1])
    }
}

/// `b` is a byte offset that falls on a character boundary of the UTF-8
/// encoding of `s`.
pub open spec fn is_boundary(s: Seq<char>, b: int) -> bool {
    exists|k: int| 0 <= k <= s.len() && prefix_byte_len(s, k) == b
}

/// The codepoint offset at byte offset `b`; meaningful only when
/// `is_boundary(s, b)` holds.
pub open spec fn char_offset(s: Seq<char>, b: int) -> int {
    choose|k: int| 0 <= k <= s.len() && prefix_byte_len(s, k) == b
}

/// Byte prefix lengths grow strictly with the number of characters taken.
pub proof fn lemma_prefix_byte_len_mono(s: Seq<char>, i: int, j: int)
    requires
        0 <= i <= j,
    ensures
        prefix_byte_len(s, i) <= prefix_byte_len(s, j),
        i < j ==> prefix_byte_len(s, i) < prefix_byte_len(s, j),
    decreases j,
{
    if i < j {
        lemma_prefix_byte_len_mono(s, i, j - 1);
    }
}

/// What the chosen witness of `char_offset` gives: a codepoint offset within
/// range whose byte prefix length is exactly `b`.
pub proof fn lemma_char_offset_props(s: Seq<char>, b: int)
    requires
        is_boundary(s, b),
    ensures
        0 <= char_offset(s, b) <= s.len(),
        prefix_byte_len(s, char_offset(s, b)) == b,
{
    let k = choose|k: int| 0 <= k <= s.len() && prefix_byte_len(s, k) == b;
    assert(0 <= k <= s.len() && prefix_byte_len(s, k) == b);
}

/// `char_offset` inverts `prefix_byte_len`: the boundary at the end of the
/// first `k` characters maps back to codepoint offset `k`.
pub proof fn lemma_char_offset_of_prefix(s: Seq<char>, k: int)
    requires
        0 <= k <= s.len(),
    ensures
        is_boundary(s, prefix_byte_len(s, k)),
        char_offset(s, prefix_byte_len(s, k)) == k,
{
    let b = prefix_byte_len(s, k);
    assert(0 <= k <= s.len() && prefix_byte_len(s, k) == b);
    let k2 = char_offset(s, b);
    lemma_char_offset_props(s, b);
    if k2 < k {
        lemma_prefix_byte_len_mono(s, k2, k);
    }
    if k < k2 {
        lemma_prefix_byte_len_mono(s, k, k2);
    }
}

/// Translation preserves order: a smaller boundary byte offset maps to a
/// smaller codepoint offset, strictly so for strictly smaller offsets.
pub proof fn lemma_char_offset_mono(s: Seq<char>, b0: int, b1: int)
    requires
        is_boundary(s, b0),
        is_boundary(s, b1),
        b0 <= b1,
    ensures
        char_offset(s, b0) <= char_offset(s, b1),
        b0 < b1 ==> char_offset(s, b0) < char_offset(s, b1),
{
    let k0 = char_offset(s, b0);
    let k1 = char_offset(s, b1);
    lemma_char_offset_props(s, b0);
    lemma_char_offset_props(s, b1);
    if k1 < k0 {
        lemma_prefix_byte_len_mono(s, k1, k0);
    }
    if b0 < b1 && k0 == k1 {
        assert(prefix_byte_len(s, k0) == b0);
        assert(prefix_byte_len(s, k1) == b1);
    }
}

/// The number of bytes `c` occupies in UTF-8.
pub fn utf8_len_of(c: char) -> (l: usize)
    ensures
        l as int == char_utf8_len(c),
{
    let u: u32 = c as u32;
    if u < 0x80 {
        1
    } else if u < 0x800 {
        2
    } else if u < 0x10000 {
        3
    } else {
        4
    }
}

/// Translates a byte offset on a character boundary of `cs` into the
/// codepoint offset it falls on.
pub fn char_offset_at(cs: &Vec<char>, b: usize) -> (r: usize)
    requires
        is_boundary(cs@, b as int),
    ensures
        r <= cs@.len(),
        r as int == char_offset(cs@, b as int),
        prefix_byte_len(cs@, r as int) == b as int,
{
    let mut ci: usize = 0;
    let mut bi: usize = 0;
    while bi < b
        invariant
            ci <= cs@.len(),
            bi as int == prefix_byte_len(cs@, ci as int),
            bi <= b,
            is_boundary(cs@, b as int),
        decreases cs@.len() - ci,
    {
        proof {
            let k = char_offset(cs@, b as int);
            lemma_char_offset_props(cs@, b as int);
            if k <= ci as int {
                lemma_prefix_byte_len_mono(cs@, k, ci as int);
            }
            assert((ci as int) < k);
            assert(ci < cs.len());
            lemma_prefix_byte_len_mono(cs@, ci as int + 1, k);
        }
        let c = cs[ci];
        let l = utf8_len_of(c);
        bi = bi + l;
        ci = ci + 1;
    }
    proof {
        lemma_char_offset_of_prefix(cs@, ci as int);
    }
    ci
}

/// The characters of `s`, in order, as a vector.
pub fn chars_of(s: &str) -> (r: Vec<char>)
    ensures
        r@ == s@,
{
    let mut v: Vec<char> = Vec::new();
    for c in it: s.chars()
        invariant
            it.seq() == s@,
            v@ =~= it.seq().take(it.index() as int),
    {
        v.push(c);
    }
    proof {
        assert(v@ =~= s@);
    }
    v
}

/// Relies on `String`'s `FromIterator<char>` implementation: collecting
/// characters yields the string of exactly those characters, in order.
#[verifier::external_body]
pub(crate) fn string_from_chars(v: &Vec<char>) -> (r: String)
    ensures
        r@ == v@,
{
    v.iter().collect()
}

} // verus!
