use vstd::prelude::*;
use vstd::string::*;

verus! {

/// Index of the first line feed in `s`, or `s.len()` when there is none.
pub open spec fn first_newline(s: Seq<char>) -> int
    decreases s.len(),
{
    if s.len() == 0 {
        0
    } else if s[0] == '\n' {
        0
    } else {
        1 + first_newline(s.drop_first())
    }
}

/// A line as reported: a carriage return that preceded the line feed is
/// not part of it.
pub open spec fn strip_cr(l: Seq<char>) -> Seq<char> {
    if l.len() > 0 && l.last() == '\r' {
        l.drop_last()
    } else {
        l
    }
}

/// The lines of a text, split at each line feed, where a carriage return
/// immediately before a line feed belongs to the line ending; a final
/// line feed does not open an empty last line.
pub open spec fn lines_of(s: Seq<char>) -> Seq<Seq<char>>
    decreases s.len(),
{
    if s.len() == 0 {
        Seq::empty()
    } else {
        let i = first_newline(s);
        if 0 <= i < s.len() {
            seq![strip_cr(s.subrange(0, i))] + lines_of(s.subrange(i + 1, s.len() as int))
        } else {
            seq![s]
        }
    }
}

/// The views of a sequence of owned lines.
pub open spec fn views_of(ls: Seq<String>) -> Seq<Seq<char>> {
    ls.map_values(|l: String| l@)
}

/// The text a sequence of lines denotes, with a single line feed between
/// adjacent lines and none at either end.
pub open spec fn join_lines(ls: Seq<Seq<char>>) -> Seq<char>
    decreases ls.len(),
{
    if ls.len() == 0 {
        Seq::empty()
    } else if ls.len() == 1 {
        ls[0]
    } else {
        join_lines(ls.drop_last()) + seq!['\n'] + ls.last()
    }
}

/// The text of the lines numbered `start_line..=end_line` (1-indexed,
/// clamped to the available lines), joined by line feeds.
pub open spec fn snippet_text(lines: Seq<Seq<char>>, start_line: usize, end_line: usize) -> Seq<
    char,
> {
    let lo = vstd::math::min(start_line - 1, lines.len() as int);
    let hi = vstd::math::min(end_line as int, lines.len() as int);
    if lo <= hi {
        join_lines(lines.subrange(lo, hi))
    } else {
        Seq::empty()
    }
}

proof fn lemma_first_newline_at(s: Seq<char>, k: int)
    requires
        0 <= k <= s.len(),
        forall|j: int| 0 <= j < k ==> s[j] != '\n',
        k < s.len() ==> s[k] == '\n',
    ensures
        first_newline(s) == k,
    decreases s.len(),
{
    if s.len() == 0 {
    } else if k == 0 {
    } else {
        assert(s[0] != '\n');
        let d = s.drop_first();
        assert forall|j: int| 0 <= j < k - 1 implies d[j] != '\n' by {
            assert(d[j] == s[j + 1]);
        }
        assert(k - 1 < d.len() ==> d[k - 1] == s[k]);
        lemma_first_newline_at(d, k - 1);
    }
}

/// Splits a text into its lines, as `lines_of` describes them.
pub fn split_lines(s: &str) -> (lines: Vec<String>)
    ensures
        views_of(lines@) == lines_of(s@),
{
    let n = s.unicode_len();
    let mut lines: Vec<String> = Vec::new();
    let mut st: usize = 0;
    let mut i: usize = 0;
    proof {
        assert(s@.subrange(0, n as int) =~= s@);
        assert(views_of(lines@) =~= Seq::<Seq<char>>::empty());
        assert(views_of(lines@) + lines_of(s@) =~= lines_of(s@));
    }
    while i < n
        invariant
            st <= i <= n,
            n == s@.len(),
            forall|j: int| st <= j < i ==> s@[j] != '\n',
            views_of(lines@) + lines_of(s@.subrange(st as int, n as int)) == lines_of(s@),
        decreases n - i,
    {
        let c = s.get_char(i);
        if c == '\n' {
            let line: String = if i > st && s.get_char(i - 1) == '\r' {
                s.substring_char(st, i - 1).to_owned()
            } else {
                s.substring_char(st, i).to_owned()
            };
            proof {
                let rest = s@.subrange(st as int, n as int);
                lemma_first_newline_at(rest, i - st);
                assert(rest.subrange(0, i - st) =~= s@.subrange(st as int, i as int));
                assert(rest.subrange(i - st + 1, rest.len() as int) =~= s@.subrange(
                    i + 1,
                    n as int,
                ));
                if i > st && s@[i - 1] == '\r' {
                    assert(strip_cr(s@.subrange(st as int, i as int)) =~= s@.subrange(
                        st as int,
                        i - 1,
                    ));
                } else {
                    assert(strip_cr(s@.subrange(st as int, i as int)) =~= s@.subrange(
                        st as int,
                        i as int,
                    ));
                }
                assert(lines_of(rest) == seq![line@] + lines_of(s@.subrange(i + 1, n as int)));
                assert(views_of(lines@.push(line)) =~= views_of(lines@).push(line@));
                assert(views_of(lines@).push(line@) + lines_of(s@.subrange(i + 1, n as int))
                    =~= views_of(lines@) + lines_of(rest));
            }
            lines.push(line);
            st = i + 1;
        }
        i += 1;
    }
    if st < n {
        let line = s.substring_char(st, n).to_owned();
        proof {
            let rest = s@.subrange(st as int, n as int);
            lemma_first_newline_at(rest, rest.len() as int);
            assert(lines_of(rest) == seq![rest]);
            assert(line@ =~= rest);
            assert(views_of(lines@.push(line)) =~= views_of(lines@).push(line@));
            assert(views_of(lines@).push(line@) =~= views_of(lines@) + seq![line@]);
        }
        lines.push(line);
    } else {
        proof {
            assert(s@.subrange(st as int, n as int) =~= Seq::<char>::empty());
            assert(views_of(lines@) + lines_of(Seq::<char>::empty()) =~= views_of(lines@));
        }
    }
    lines
}

/// Joins the lines with indices `from..to` into one text, with a line
/// feed between adjacent lines.
pub fn join_lines_range(lines: &Vec<String>, from: usize, to: usize) -> (r: String)
    requires
        from <= to <= lines@.len(),
    ensures
        r@ == join_lines(views_of(lines@).subrange(from as int, to as int)),
{
    let mut r = String::new();
    let mut j = from;
    while j < to
        invariant
            from <= j <= to <= lines@.len(),
            r@ == join_lines(views_of(lines@).subrange(from as int, j as int)),
        decreases to - j,
    {
        if j > from {
            r.append("\n");
        }
        r.append(lines[j].as_str());
        proof {
            reveal_strlit("\n");
            assert(("\n")@ =~= seq!['\n']);
            let vs = views_of(lines@);
            assert(vs.subrange(from as int, j + 1).drop_last() =~= vs.subrange(
                from as int,
                j as int,
            ));
            assert(vs.subrange(from as int, j + 1).last() == vs[j as int]);
            if j == from {
                assert(join_lines(vs.subrange(from as int, j + 1)) == vs[j as int]);
            }
        }
        j += 1;
    }
    proof {
        if from == to {
            assert(views_of(lines@).subrange(from as int, to as int) =~= Seq::<Seq<char>>::empty());
        }
    }
    r
}

/// The text of the lines numbered `start_line..=end_line`, as
/// `snippet_text` describes it.
pub fn snippet_text_exec(lines: &Vec<String>, start_line: usize, end_line: usize) -> (r: String)
    requires
        1 <= start_line <= end_line,
    ensures
        r@ == snippet_text(views_of(lines@), start_line, end_line),
{
    let n = lines.len();
    let lo = if start_line - 1 < n {
        start_line - 1
    } else {
        n
    };
    let hi = if end_line < n {
        end_line
    } else {
        n
    };
    join_lines_range(lines, lo, hi)
}

} // verus!
