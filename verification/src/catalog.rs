//! The bundled examples catalogue: a record of four strings, and the parser
//! for the catalogue text.
//!
//! The catalogue text holds one entry per group of lines, groups separated by
//! blank lines; the first four lines of a group are the entry's title,
//! subtitle, pattern and example text.

use vstd::prelude::*;

use crate::text::chars_of;

verus! {

/// One catalogue entry: a title, a subtitle, a pattern and an example text.
#[derive(Clone, Debug)]
pub struct ExampleData {
    title: String,
    subtitle: String,
    regex: String,
    example: String,
}

impl ExampleData {
    /// The entry's title.
    pub closed spec fn spec_title(&self) -> Seq<char> {
        self.title@
    }

    /// The entry's subtitle.
    pub closed spec fn spec_subtitle(&self) -> Seq<char> {
        self.subtitle@
    }

    /// The entry's pattern.
    pub closed spec fn spec_regex(&self) -> Seq<char> {
        self.regex@
    }

    /// The entry's example text.
    pub closed spec fn spec_example(&self) -> Seq<char> {
        self.example@
    }

    /// Builds an entry from its four parts.
    pub fn new(title: &str, subtitle: &str, regex: &str, example: &str) -> (r: ExampleData)
        ensures
            r.spec_title() == title@,
            r.spec_subtitle() == subtitle@,
            r.spec_regex() == regex@,
            r.spec_example() == example@,
    {
        ExampleData {
            title: title.to_owned(),
            subtitle: subtitle.to_owned(),
            regex: regex.to_owned(),
            example: example.to_owned(),
        }
    }

    /// The entry's title.
    pub fn title(&self) -> (r: &str)
        ensures
            r@ == self.spec_title(),
    {
        self.title.as_str()
    }

    /// The entry's subtitle.
    pub fn subtitle(&self) -> (r: &str)
        ensures
            r@ == self.spec_subtitle(),
    {
        self.subtitle.as_str()
    }

    /// The entry's pattern.
    pub fn regex(&self) -> (r: &str)
        ensures
            r@ == self.spec_regex(),
    {
        self.regex.as_str()
    }

    /// The entry's example text.
    pub fn example(&self) -> (r: &str)
        ensures
            r@ == self.spec_example(),
    {
        self.example.as_str()
    }
}

impl Default for ExampleData {
    /// The placeholder entry: an "Invalid title" title and empty parts.
    fn default() -> (r: ExampleData)
        ensures
            r.spec_title() == "Invalid title"@,
            r.spec_subtitle() == Seq::<char>::empty(),
            r.spec_regex() == Seq::<char>::empty(),
            r.spec_example() == Seq::<char>::empty(),
    {
        ExampleData {
            title: "Invalid title".to_owned(),
            subtitle: String::new(),
            regex: String::new(),
            example: String::new(),
        }
    }
}

/// Splits `s` into pieces after every newline character; each piece except
/// possibly the last ends with the newline that closed it, and a final empty
/// remainder yields no piece.
pub open spec fn split_after_newlines(s: Seq<char>) -> Seq<Seq<char>>
    decreases s.len(),
{
    if s.len() == 0 {
        Seq::empty()
    } else if s[0] == '\n' {
        seq![seq!['\n']] + split_after_newlines(s.skip(1))
    } else {
        let rest = split_after_newlines(s.skip(1));
        if rest.len() == 0 {
            seq![seq![s[0]]]
        } else {
            seq![seq![s[0]] + rest[0]] + rest.skip(1)
        }
    }
}

/// Removes the line ending that closes `piece`: a final newline, or a final
/// carriage return and newline together. A carriage return not followed by a
/// newline stays.
pub open spec fn strip_line_ending(piece: Seq<char>) -> Seq<char> {
    if piece.len() >= 2 && piece[piece.len() - 2] == '\r' && piece.last() == '\n' {
        piece.take(piece.len() - 2)
    } else if piece.len() >= 1 && piece.last() == '\n' {
        piece.drop_last()
    } else {
        piece
    }
}

/// The lines of `s`: the pieces split after each newline, each with its line
/// ending removed.
pub open spec fn line_seqs(s: Seq<char>) -> Seq<Seq<char>> {
    stripped(split_after_newlines(s))
}

/// When the first newline of `s` stands at position `k`, the first piece is
/// everything through it and the rest splits the remainder.
proof fn lemma_split_head_piece(s: Seq<char>, k: int)
    requires
        0 <= k < s.len(),
        s[k] == '\n',
        forall|j: int| 0 <= j < k ==> s[j] != '\n',
    ensures
        split_after_newlines(s).len() >= 1,
        split_after_newlines(s)[0] == s.take(k + 1),
        split_after_newlines(s).skip(1) =~= split_after_newlines(s.skip(k + 1)),
    decreases k,
{
    if k == 0 {
        assert(s.take(1) =~= seq!['\n']);
        assert((seq![seq!['\n']] + split_after_newlines(s.skip(1))).skip(1) =~= split_after_newlines(
            s.skip(1),
        ));
    } else {
        let t = s.skip(1);
        assert(t[k - 1] == '\n');
        assert(forall|j: int| 0 <= j < k - 1 ==> t[j] != '\n');
        lemma_split_head_piece(t, k - 1);
        let rest = split_after_newlines(t);
        assert(rest.len() >= 1);
        assert(seq![s[0]] + rest[0] =~= s.take(k + 1)) by {
            assert(rest[0] == t.take(k));
        }
        assert(t.skip(k) =~= s.skip(k + 1));
        assert((seq![seq![s[0]] + rest[0]] + rest.skip(1)).skip(1) =~= rest.skip(1));
    }
}

/// A text without newlines splits into itself as its only piece, or into
/// nothing when empty.
proof fn lemma_split_no_newline(s: Seq<char>)
    requires
        forall|j: int| 0 <= j < s.len() ==> s[j] != '\n',
    ensures
        s.len() == 0 ==> split_after_newlines(s) == Seq::<Seq<char>>::empty(),
        s.len() > 0 ==> split_after_newlines(s) =~= seq![s],
    decreases s.len(),
{
    if s.len() > 0 {
        lemma_split_no_newline(s.skip(1));
        if s.len() > 1 {
            assert(seq![s[0]] + s.skip(1) =~= s);
        } else {
            assert(seq![s[0]] =~= s);
        }
    }
}


/// The views of a sequence of character vectors.
pub open spec fn views_of(ls: Seq<Vec<char>>) -> Seq<Seq<char>> {
    ls.map_values(|l: Vec<char>| l@)
}

/// Each piece with its line ending removed.
pub open spec fn stripped(ps: Seq<Seq<char>>) -> Seq<Seq<char>> {
    ps.map_values(|p: Seq<char>| strip_line_ending(p))
}

/// `views_of` distributes over `push`.
proof fn lemma_views_push(ls: Seq<Vec<char>>, l: Vec<char>)
    ensures
        views_of(ls.push(l)) =~= views_of(ls).push(l@),
{
    assert forall|k: int| 0 <= k < ls.len() + 1 implies views_of(ls.push(l))[k] == views_of(
        ls,
    ).push(l@)[k] by {
        if k < ls.len() {
            assert(ls.push(l)[k] == ls[k]);
        } else {
            assert(ls.push(l)[k] == l);
        }
    }
}

/// `stripped` distributes over `push`.
proof fn lemma_stripped_push(ps: Seq<Seq<char>>, p: Seq<char>)
    ensures
        stripped(ps.push(p)) =~= stripped(ps).push(strip_line_ending(p)),
{
    assert forall|k: int| 0 <= k < ps.len() + 1 implies stripped(ps.push(p))[k] == stripped(
        ps,
    ).push(strip_line_ending(p))[k] by {
        if k < ps.len() {
            assert(ps.push(p)[k] == ps[k]);
        } else {
            assert(ps.push(p)[k] == p);
        }
    }
}

/// Splits `cs` into its lines.
pub fn split_lines_exec(cs: &Vec<char>) -> (r: Vec<Vec<char>>)
    ensures
        views_of(r@) == line_seqs(cs@),
{
    let mut out: Vec<Vec<char>> = Vec::new();
    let mut cur: Vec<char> = Vec::new();
    let ghost whole = split_after_newlines(cs@);
    let ghost mut done: Seq<Seq<char>> = Seq::empty();
    let mut i: usize = 0;
    let mut j: usize = 0;
    proof {
        assert(cs@.skip(0) =~= cs@);
        assert(whole =~= done + split_after_newlines(cs@.skip(0)));
        assert(views_of(out@) =~= stripped(done));
    }
    while i < cs.len()
        invariant
            j <= i <= cs@.len(),
            cur@ == cs@.subrange(j as int, i as int),
            forall|k: int| j <= k < i ==> cs@[k] != '\n',
            whole == split_after_newlines(cs@),
            whole == done + split_after_newlines(cs@.skip(j as int)),
            out@.len() == done.len(),
            views_of(out@) == stripped(done),
        decreases cs@.len() - i,
    {
        let c = cs[i];
        if c == '\n' {
            proof {
                let tail = cs@.skip(j as int);
                assert(tail[i - j] == '\n');
                assert(forall|m: int| 0 <= m < i - j ==> tail[m] != '\n');
                lemma_split_head_piece(tail, i - j);
                assert(tail.take(i - j + 1) =~= cs@.subrange(j as int, i as int + 1));
                assert(tail.skip(i - j + 1) =~= cs@.skip(i as int + 1));
            }
            let ghost piece = cs@.subrange(j as int, i as int + 1);
            let mut line = cur;
            cur = Vec::new();
            if line.len() > 0 && line[line.len() - 1] == '\r' {
                line.pop();
                proof {
                    assert(piece.len() >= 2 && piece[piece.len() - 2] == '\r' && piece.last()
                        == '\n');
                    assert(line@ =~= piece.take(piece.len() - 2));
                }
            } else {
                proof {
                    assert(piece.last() == '\n');
                    assert(line@ =~= piece.drop_last());
                }
            }
            proof {
                assert(line@ == strip_line_ending(piece));
            }
            let ghost out0 = out@;
            let ghost done0 = done;
            out.push(line);
            proof {
                done = done0.push(piece);
                lemma_views_push(out0, line);
                lemma_stripped_push(done0, piece);
                assert(views_of(out@) =~= stripped(done));
                assert(whole =~= done + split_after_newlines(cs@.skip(i as int + 1)));
            }
            j = i + 1;
            proof {
                assert(cur@ =~= cs@.subrange(j as int, i as int + 1));
            }
        } else {
            cur.push(c);
            proof {
                assert(cur@ =~= cs@.subrange(j as int, i as int + 1));
            }
        }
        i = i + 1;
    }
    proof {
        let tail = cs@.skip(j as int);
        assert(cur@ =~= tail);
        lemma_split_no_newline(tail);
    }
    if cur.len() > 0 {
        proof {
            let tail = cs@.skip(j as int);
            assert(strip_line_ending(tail) == tail);
        }
        let ghost out0 = out@;
        let ghost done0 = done;
        let ghost curv = cur@;
        out.push(cur);
        proof {
            done = done0.push(cs@.skip(j as int));
            lemma_views_push(out0, out@[out@.len() - 1]);
            lemma_stripped_push(done0, cs@.skip(j as int));
            assert(out@[out@.len() - 1]@ == curv);
            assert(views_of(out@) =~= stripped(done));
            assert(whole =~= done);
        }
    } else {
        proof {
            assert(whole =~= done);
        }
    }
    proof {
        assert(views_of(out@) =~= line_seqs(cs@));
    }
    out
}

/// Splits a sequence of lines into groups at blank lines: the separators are
/// removed, and `n` separators give `n + 1` groups, counting empty ones.
pub open spec fn group_lines(ls: Seq<Seq<char>>) -> Seq<Seq<Seq<char>>>
    decreases ls.len(),
{
    if ls.len() == 0 {
        seq![Seq::empty()]
    } else if ls[0].len() == 0 {
        seq![Seq::empty()] + group_lines(ls.skip(1))
    } else {
        let rest = group_lines(ls.skip(1));
        seq![seq![ls[0]] + rest[0]] + rest.skip(1)
    }
}

/// The groups of a catalogue text: its lines, split at the blank ones.
pub open spec fn groups_of(text: Seq<char>) -> Seq<Seq<Seq<char>>> {
    group_lines(line_seqs(text))
}

/// A group holds the four lines an entry needs.
pub open spec fn wf_group(g: Seq<Seq<char>>) -> bool {
    g.len() >= 4
}

/// `group_lines` always yields at least one group.
proof fn lemma_group_lines_nonempty(ls: Seq<Seq<char>>)
    ensures
        group_lines(ls).len() >= 1,
    decreases ls.len(),
{
    if ls.len() > 0 {
        lemma_group_lines_nonempty(ls.skip(1));
    }
}

/// When the first blank line of `ls` stands at position `k`, the first group
/// is everything before it and the rest groups the remainder.
proof fn lemma_group_head(ls: Seq<Seq<char>>, k: int)
    requires
        0 <= k < ls.len(),
        ls[k].len() == 0,
        forall|j: int| 0 <= j < k ==> (#[trigger] ls[j]).len() != 0,
    ensures
        group_lines(ls).len() >= 1,
        group_lines(ls)[0] == ls.take(k),
        group_lines(ls).skip(1) =~= group_lines(ls.skip(k + 1)),
    decreases k,
{
    lemma_group_lines_nonempty(ls);
    if k == 0 {
        assert(ls.take(0) =~= Seq::<Seq<char>>::empty());
        assert((seq![Seq::<Seq<char>>::empty()] + group_lines(ls.skip(1))).skip(1)
            =~= group_lines(ls.skip(1)));
    } else {
        let t = ls.skip(1);
        assert(t[k - 1].len() == 0);
        assert(forall|j: int| 0 <= j < k - 1 ==> (#[trigger] t[j]).len() != 0) by {
            assert(forall|j: int| 0 <= j < k - 1 ==> t[j] == ls[j + 1]);
        }
        lemma_group_head(t, k - 1);
        let rest = group_lines(t);
        assert(seq![ls[0]] + rest[0] =~= ls.take(k)) by {
            assert(rest[0] == t.take(k - 1));
        }
        assert(t.skip(k - 1 + 1) =~= ls.skip(k + 1));
        assert((seq![seq![ls[0]] + rest[0]] + rest.skip(1)).skip(1) =~= rest.skip(1));
    }
}

/// Lines without a blank one form a single group.
proof fn lemma_group_no_sep(ls: Seq<Seq<char>>)
    requires
        forall|j: int| 0 <= j < ls.len() ==> (#[trigger] ls[j]).len() != 0,
    ensures
        group_lines(ls) =~= seq![ls],
    decreases ls.len(),
{
    if ls.len() == 0 {
        assert(group_lines(ls) == seq![Seq::<Seq<char>>::empty()]);
        assert(ls =~= Seq::<Seq<char>>::empty());
    } else {
        lemma_group_no_sep(ls.skip(1));
        assert(group_lines(ls.skip(1))[0] == ls.skip(1));
        assert(seq![ls[0]] + ls.skip(1) =~= ls);
        assert((seq![seq![ls[0]] + ls.skip(1)] + group_lines(ls.skip(1)).skip(1)).len() == 1);
    }
}

/// Parses the catalogue text into its entries: one entry per group of lines,
/// groups separated by blank lines, each entry taking the first four lines of
/// its group. Yields nothing exactly when some group — counting the empty
/// groups that leading, trailing or doubled blank lines leave — has fewer
/// than four lines.
pub fn parse_examples(text: &str) -> (r: Option<Vec<ExampleData>>)
    ensures
        match r {
            Some(v) => {
                &&& forall|i: int| 0 <= i < groups_of(text@).len() ==> wf_group(
                    #[trigger] groups_of(text@)[i],
                )
                &&& v@.len() == groups_of(text@).len()
                &&& forall|i: int|
                    0 <= i < v@.len() ==> (#[trigger] v@[i]).spec_title() == groups_of(text@)[i][0]
                        && v@[i].spec_subtitle() == groups_of(text@)[i][1] && v@[i].spec_regex()
                        == groups_of(text@)[i][2] && v@[i].spec_example() == groups_of(text@)[i][3]
            },
            None => exists|i: int|
                0 <= i < groups_of(text@).len() && !wf_group(#[trigger] groups_of(text@)[i]),
        },
{
    let cs = chars_of(text);
    let lines = split_lines_exec(&cs);
    let ghost lseq = views_of(lines@);
    let ghost gs = groups_of(text@);
    let mut out: Vec<ExampleData> = Vec::new();
    let ghost mut done: Seq<Seq<Seq<char>>> = Seq::empty();
    let mut i: usize = 0;
    let mut j: usize = 0;
    proof {
        assert(lseq.skip(0) =~= lseq);
        assert(gs =~= done + group_lines(lseq.skip(0)));
    }
    while i < lines.len()
        invariant
            j <= i <= lines@.len(),
            lseq == views_of(lines@),
            lseq == line_seqs(text@),
            lseq.len() == lines@.len(),
            gs == groups_of(text@),
            gs == done + group_lines(lseq.skip(j as int)),
            forall|k: int| j <= k < i ==> (#[trigger] lseq[k]).len() != 0,
            out@.len() == done.len(),
            forall|k: int| 0 <= k < done.len() ==> wf_group(#[trigger] done[k]),
            forall|k: int| 0 <= k < done.len() ==> gs[k] == done[k],
            forall|k: int|
                0 <= k < out@.len() ==> (#[trigger] out@[k]).spec_title() == done[k][0]
                    && out@[k].spec_subtitle() == done[k][1] && out@[k].spec_regex() == done[k][2]
                    && out@[k].spec_example() == done[k][3],
        decreases lines@.len() - i,
    {
        let blank = lines[i].len() == 0;
        proof {
            assert(lseq[i as int] == lines@[i as int]@);
        }
        if blank {
            proof {
                let tail = lseq.skip(j as int);
                assert(tail[i - j].len() == 0);
                assert(forall|m: int| 0 <= m < i - j ==> (#[trigger] tail[m]).len() != 0) by {
                    assert(forall|m: int| 0 <= m < i - j ==> tail[m] == lseq[m + j]);
                }
                lemma_group_head(tail, i - j);
                assert(tail.take(i - j) =~= lseq.subrange(j as int, i as int));
                assert(tail.skip(i - j + 1) =~= lseq.skip(i as int + 1));
            }
            let ghost grp = lseq.subrange(j as int, i as int);
            if i - j < 4 {
                proof {
                    assert(gs[done.len() as int] == grp);
                    assert(!wf_group(gs[done.len() as int]));
                }
                return None;
            }
            let t0 = crate::text::string_from_chars(&lines[j]);
            let t1 = crate::text::string_from_chars(&lines[j + 1]);
            let t2 = crate::text::string_from_chars(&lines[j + 2]);
            let t3 = crate::text::string_from_chars(&lines[j + 3]);
            let entry = ExampleData::new(t0.as_str(), t1.as_str(), t2.as_str(), t3.as_str());
            proof {
                assert(grp[0] == lseq[j as int]);
                assert(grp[1] == lseq[j as int + 1]);
                assert(grp[2] == lseq[j as int + 2]);
                assert(grp[3] == lseq[j as int + 3]);
            }
            let ghost done0 = done;
            out.push(entry);
            proof {
                done = done0.push(grp);
                assert(gs =~= done + group_lines(lseq.skip(i as int + 1)));
                assert(forall|k: int| 0 <= k < done.len() ==> gs[k] == done[k]) by {
                    assert(forall|k: int| 0 <= k < done0.len() ==> done[k] == done0[k]);
                    assert(done[done0.len() as int] == grp);
                }
            }
            j = i + 1;
        }
        i = i + 1;
    }
    proof {
        let tail = lseq.skip(j as int);
        assert(forall|m: int| 0 <= m < tail.len() ==> (#[trigger] tail[m]).len() != 0) by {
            assert(forall|m: int| 0 <= m < tail.len() ==> tail[m] == lseq[m + j]);
        }
        lemma_group_no_sep(tail);
        assert(gs =~= done.push(tail));
    }
    let ghost grp = lseq.skip(j as int);
    if lines.len() - j < 4 {
        proof {
            assert(gs[done.len() as int] == grp);
            assert(!wf_group(gs[done.len() as int]));
        }
        return None;
    }
    let t0 = crate::text::string_from_chars(&lines[j]);
    let t1 = crate::text::string_from_chars(&lines[j + 1]);
    let t2 = crate::text::string_from_chars(&lines[j + 2]);
    let t3 = crate::text::string_from_chars(&lines[j + 3]);
    let entry = ExampleData::new(t0.as_str(), t1.as_str(), t2.as_str(), t3.as_str());
    proof {
        assert(grp[0] == lseq[j as int]);
        assert(grp[1] == lseq[j as int + 1]);
        assert(grp[2] == lseq[j as int + 2]);
        assert(grp[3] == lseq[j as int + 3]);
    }
    let ghost done0 = done;
    out.push(entry);
    proof {
        done = done0.push(grp);
        assert(out@.len() == gs.len());
        assert(forall|k: int| 0 <= k < done.len() ==> gs[k] == done[k]) by {
            assert(forall|k: int| 0 <= k < done0.len() ==> done[k] == done0[k]);
            assert(done[done0.len() as int] == grp);
        }
    }
    Some(out)
}

} // verus!
