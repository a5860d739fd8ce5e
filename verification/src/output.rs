use vstd::prelude::*;
use vstd::string::*;

use crate::snippets::Snippets;

verus! {

/// Supported output formats.
#[derive(Debug, Clone, Copy, PartialEq, Eq, Structural)]
pub enum OutputFormat {
    /// Markdown format.
    Markdown,
    /// Html format.
    Html,
    /// Json format.
    Json,
    /// Enables all supported output formats.
    All,
}

impl OutputFormat {
    /// Default output format.
    pub fn default() -> (r: &'static str)
        ensures
            r@ == "markdown"@,
    {
        "markdown"
    }
}

/// Whether a character separates path components.
pub open spec fn is_sep(c: char) -> bool {
    c == '/' || c == '\\'
}

/// Index of the first path separator in `s`, or `s.len()` when there is
/// none.
pub open spec fn first_sep(s: Seq<char>) -> int
    decreases s.len(),
{
    if s.len() == 0 {
        0
    } else if is_sep(s[0]) {
        0
    } else {
        1 + first_sep(s.drop_first())
    }
}

/// The components of a path, split at every separator.
pub open spec fn components_of(s: Seq<char>) -> Seq<Seq<char>>
    decreases s.len(),
{
    if s.len() == 0 {
        Seq::empty()
    } else {
        let i = first_sep(s);
        if 0 <= i < s.len() {
            seq![s.subrange(0, i)] + components_of(s.subrange(i + 1, s.len() as int))
        } else {
            seq![s]
        }
    }
}

/// Whether a component takes part in the output file name: empty,
/// current-directory, parent-directory and drive-separator components do
/// not.
pub open spec fn kept_component(c: Seq<char>) -> bool {
    c.len() > 0 && c != "."@ && c != ".."@ && c != ":"@
}

/// The components that take part in the output file name, in order.
pub open spec fn kept_components(cs: Seq<Seq<char>>) -> Seq<Seq<char>>
    decreases cs.len(),
{
    if cs.len() == 0 {
        Seq::empty()
    } else {
        let rest = kept_components(cs.drop_last());
        if kept_component(cs.last()) {
            rest.push(cs.last())
        } else {
            rest
        }
    }
}

/// A sequence of components joined by underscores.
pub open spec fn join_underscore(cs: Seq<Seq<char>>) -> Seq<char>
    decreases cs.len(),
{
    if cs.len() == 0 {
        Seq::empty()
    } else if cs.len() == 1 {
        cs[0]
    } else {
        join_underscore(cs.drop_last()) + seq!['_'] + cs.last()
    }
}

/// The output file name a source path is reported under.
pub open spec fn filename_of(path: Seq<char>) -> Seq<char> {
    join_underscore(kept_components(components_of(path)))
}

proof fn lemma_first_sep_at(s: Seq<char>, k: int)
    requires
        0 <= k <= s.len(),
        forall|j: int| 0 <= j < k ==> !is_sep(s[j]),
        k < s.len() ==> is_sep(s[k]),
    ensures
        first_sep(s) == k,
    decreases s.len(),
{
    if s.len() == 0 {
    } else if k == 0 {
    } else {
        assert(!is_sep(s[0]));
        let d = s.drop_first();
        assert forall|j: int| 0 <= j < k - 1 implies !is_sep(d[j]) by {
            assert(d[j] == s[j + 1]);
        }
        assert(k - 1 < d.len() ==> d[k - 1] == s[k]);
        lemma_first_sep_at(d, k - 1);
    }
}

fn split_components(s: &str) -> (comps: Vec<String>)
    ensures
        comps@.map_values(|c: String| c@) == components_of(s@),
{
    let n = s.unicode_len();
    let mut comps: Vec<String> = Vec::new();
    let mut st: usize = 0;
    let mut i: usize = 0;
    proof {
        assert(s@.subrange(0, n as int) =~= s@);
        assert(comps@.map_values(|c: String| c@) =~= Seq::<Seq<char>>::empty());
        assert(comps@.map_values(|c: String| c@) + components_of(s@) =~= components_of(s@));
    }
    while i < n
        invariant
            st <= i <= n,
            n == s@.len(),
            forall|j: int| st <= j < i ==> !is_sep(s@[j]),
            comps@.map_values(|c: String| c@) + components_of(s@.subrange(st as int, n as int))
                == components_of(s@),
        decreases n - i,
    {
        let c = s.get_char(i);
        if c == '/' || c == '\\' {
            let comp = s.substring_char(st, i).to_owned();
            proof {
                let rest = s@.subrange(st as int, n as int);
                lemma_first_sep_at(rest, i - st);
                assert(rest.subrange(0, i - st) =~= s@.subrange(st as int, i as int));
                assert(rest.subrange(i - st + 1, rest.len() as int) =~= s@.subrange(
                    i + 1,
                    n as int,
                ));
                assert(components_of(rest) == seq![comp@] + components_of(
                    s@.subrange(i + 1, n as int),
                ));
                assert(comps@.push(comp).map_values(|c: String| c@) =~= comps@.map_values(
                    |c: String| c@,
                ).push(comp@));
                assert(comps@.map_values(|c: String| c@).push(comp@) + components_of(
                    s@.subrange(i + 1, n as int),
                ) =~= comps@.map_values(|c: String| c@) + components_of(rest));
            }
            comps.push(comp);
            st = i + 1;
        }
        i += 1;
    }
    if st < n {
        let comp = s.substring_char(st, n).to_owned();
        proof {
            let rest = s@.subrange(st as int, n as int);
            lemma_first_sep_at(rest, rest.len() as int);
            assert(components_of(rest) == seq![rest]);
            assert(comp@ =~= rest);
            assert(comps@.push(comp).map_values(|c: String| c@) =~= comps@.map_values(
                |c: String| c@,
            ).push(comp@));
            assert(comps@.map_values(|c: String| c@).push(comp@) =~= comps@.map_values(
                |c: String| c@,
            ) + seq![comp@]);
        }
        comps.push(comp);
    } else {
        proof {
            assert(s@.subrange(st as int, n as int) =~= Seq::<char>::empty());
            assert(comps@.map_values(|c: String| c@) + components_of(Seq::<char>::empty())
                =~= comps@.map_values(|c: String| c@));
        }
    }
    comps
}

fn sanitize_filename(path: &str) -> (r: String)
    ensures
        r@ == filename_of(path@),
{
    let comps = split_components(path);
    let ghost cv = comps@.map_values(|c: String| c@);
    let dot = String::from_str(".");
    let dotdot = String::from_str("..");
    let colon = String::from_str(":");
    let mut r = String::new();
    let mut first = true;
    let n = comps.len();
    proof {
        assert(cv.take(0) =~= Seq::<Seq<char>>::empty());
    }
    for i in 0..n
        invariant
            n == comps@.len(),
            cv == comps@.map_values(|c: String| c@),
            dot@ == "."@,
            dotdot@ == ".."@,
            colon@ == ":"@,
            r@ == join_underscore(kept_components(cv.take(i as int))),
            first == (kept_components(cv.take(i as int)).len() == 0),
    {
        let comp = &comps[i];
        let keep_it = !comp.as_str().is_empty() && !(*comp == dot) && !(*comp == dotdot) && !(*comp
            == colon);
        proof {
            assert(cv.take(i + 1).drop_last() =~= cv.take(i as int));
            assert(cv.take(i + 1).last() == cv[i as int]);
            assert(keep_it == kept_component(cv[i as int]));
        }
        if keep_it {
            if !first {
                r.append("_");
            }
            r.append(comp.as_str());
            proof {
                reveal_strlit("_");
                assert(("_")@ =~= seq!['_']);
                let ks = kept_components(cv.take(i as int));
                assert(kept_components(cv.take(i + 1)) == ks.push(cv[i as int]));
                assert(ks.push(cv[i as int]).drop_last() =~= ks);
                assert(ks.push(cv[i as int]).last() == cv[i as int]);
                if first {
                    assert(join_underscore(ks.push(cv[i as int])) == cv[i as int]);
                }
            }
            first = false;
        }
    }
    proof {
        assert(cv.take(n as int) =~= cv);
    }
    r
}

/// The output file names under which each file's snippets are reported:
/// its source path with special components dropped and the rest joined
/// by underscores.
pub fn create_filenames(snippets: &Vec<Snippets>) -> (r: Vec<String>)
    ensures
        r@.len() == snippets@.len(),
        forall|i: int|
            0 <= i < snippets@.len() ==> r@[i]@ == filename_of(
                (#[trigger] snippets@[i]).source_path@,
            ),
{
    let mut r: Vec<String> = Vec::new();
    let n = snippets.len();
    for i in 0..n
        invariant
            n == snippets@.len(),
            r@.len() == i,
            forall|j: int|
                0 <= j < i ==> r@[j]@ == filename_of((#[trigger] snippets@[j]).source_path@),
    {
        r.push(sanitize_filename(snippets[i].source_path.as_str()));
    }
    r
}

} // verus!
