use vstd::prelude::*;

use crate::metrics::Complexity;
use crate::region::Region;
use crate::text::{lines_of, snippet_text, snippet_text_exec, split_lines, views_of};

verus! {

/// Supported languages.
#[derive(Debug, Clone, Copy, PartialEq, Eq, Structural)]
pub enum Language {
    /// JavaScript.
    Javascript,
    /// Java.
    Java,
    /// JavaScript variant.
    Mozjs,
    /// Rust.
    Rust,
    /// C/C++.
    Cpp,
    /// Python.
    Python,
    /// TypeScript.
    Typescript,
    /// Tsx incorporates JSX syntax inside TypeScript.
    Tsx,
    /// C variant focused on comments.
    Ccomment,
    /// C/C++ variant focused on macros.
    Preproc,
}

impl Language {
    /// The name of a language, as a spec value.
    pub open spec fn spec_name(self) -> Seq<char> {
        match self {
            Language::Javascript => "javascript"@,
            Language::Java => "java"@,
            Language::Mozjs => "mozjs"@,
            Language::Rust => "rust"@,
            Language::Cpp => "cpp"@,
            Language::Python => "python"@,
            Language::Typescript => "typescript"@,
            Language::Tsx => "tsx"@,
            Language::Ccomment => "ccomment"@,
            Language::Preproc => "preproc"@,
        }
    }

    /// Retrieves the name of a language.
    pub fn name(&self) -> (r: &'static str)
        ensures
            r@ == self.spec_name(),
    {
        match self {
            Language::Javascript => "javascript",
            Language::Java => "java",
            Language::Mozjs => "mozjs",
            Language::Rust => "rust",
            Language::Cpp => "cpp",
            Language::Python => "python",
            Language::Typescript => "typescript",
            Language::Tsx => "tsx",
            Language::Ccomment => "ccomment",
            Language::Preproc => "preproc",
        }
    }
}

/// The mathematical content of one snippet record.
pub ghost struct SnipView {
    /// The metric value that triggered the record.
    pub complexity: int,
    /// First reported line, 1-indexed.
    pub start_line: int,
    /// Last reported line, inclusive.
    pub end_line: int,
    /// The reported text.
    pub text: Seq<char>,
}

/// Snippets data.
#[derive(Debug, Clone, PartialEq, Eq)]
pub struct SnippetData {
    /// Snippet complexity value.
    pub complexity: usize,
    /// Snippet start line.
    pub start_line: usize,
    /// Snippet end line.
    pub end_line: usize,
    /// Snippet text.
    pub text: String,
}

impl View for SnippetData {
    type V = SnipView;

    open spec fn view(&self) -> SnipView {
        SnipView {
            complexity: self.complexity as int,
            start_line: self.start_line as int,
            end_line: self.end_line as int,
            text: self.text@,
        }
    }
}

/// The views of a sequence of snippet records.
pub open spec fn record_views(s: Seq<SnippetData>) -> Seq<SnipView> {
    s.map_values(|d: SnippetData| d@)
}

/// The ordered records one complexity metric produced for a file.
#[derive(Debug, Clone, PartialEq, Eq)]
pub struct MetricSnippets {
    /// The metric the records belong to.
    pub complexity: Complexity,
    /// The records, in depth-first discovery order.
    pub records: Vec<SnippetData>,
}

impl View for MetricSnippets {
    type V = (Complexity, Seq<SnipView>);

    open spec fn view(&self) -> (Complexity, Seq<SnipView>) {
        (self.complexity, record_views(self.records@))
    }
}

/// The mathematical content of the snippets of one file.
pub ghost struct SnippetsView {
    /// Source path.
    pub source_path: Seq<char>,
    /// Source language.
    pub language: Language,
    /// One entry per metric that produced records.
    pub snippets: Seq<(Complexity, Seq<SnipView>)>,
}

/// Snippets of complex code obtained analyzing each complexity metric and
/// associated to a single source file.
#[derive(Debug, Clone, PartialEq, Eq)]
pub struct Snippets {
    /// Source path.
    pub source_path: String,
    /// Source language.
    pub language: Language,
    /// Snippets contained in the analyzed source file: one group per
    /// requested metric/threshold pair that produced records, in request
    /// order; no group is empty.
    pub snippets: Vec<MetricSnippets>,
}

impl View for Snippets {
    type V = SnippetsView;

    open spec fn view(&self) -> SnippetsView {
        SnippetsView {
            source_path: self.source_path@,
            language: self.language,
            snippets: self.snippets@.map_values(|g: MetricSnippets| g@),
        }
    }
}

/// The records reported for one metric in the subtree of a region that is
/// not the file root: nothing when the check rule prunes the subtree;
/// otherwise a record when the region's own value exceeds the threshold,
/// followed depth first by the records of the children.
pub open spec fn dfs_records(r: Region, k: Complexity, t: usize, lines: Seq<Seq<char>>) -> Seq<
    SnipView,
>
    decreases r,
{
    if k.value_spec(r, t) is None {
        Seq::empty()
    } else {
        let head: Seq<SnipView> = if k.own_of(r) > t {
            seq![
                SnipView {
                    complexity: k.own_of(r) as int,
                    start_line: r.start_line as int,
                    end_line: r.end_line as int,
                    text: snippet_text(lines, r.start_line, r.end_line),
                },
            ]
        } else {
            Seq::empty()
        };
        head + dfs_forest(r.children@, k, t, lines)
    }
}

/// The records of a sequence of sibling regions, in source order.
pub open spec fn dfs_forest(rs: Seq<Region>, k: Complexity, t: usize, lines: Seq<Seq<char>>) -> Seq<
    SnipView,
>
    decreases rs,
{
    if rs.len() == 0 {
        Seq::empty()
    } else {
        dfs_forest(rs.drop_last(), k, t, lines) + dfs_records(rs.last(), k, t, lines)
    }
}

/// The records reported for one metric over a whole file: a childless
/// root that passes the check rule reports the entire text once; a root
/// with children reports the depth-first records of its subtrees.
pub open spec fn file_records(root: Region, k: Complexity, t: usize, text: Seq<char>) -> Seq<
    SnipView,
> {
    if k.value_spec(root, t) is None {
        Seq::empty()
    } else if root.children@.len() == 0 {
        seq![
            SnipView {
                complexity: k.own_of(root) as int,
                start_line: root.start_line as int,
                end_line: root.end_line as int,
                text: text,
            },
        ]
    } else {
        dfs_forest(root.children@, k, t, lines_of(text))
    }
}

/// The per-metric groups a file reports, in the order the metrics were
/// requested, keeping only the metrics that produced records.
pub open spec fn groups_spec(
    root: Region,
    pairs: Seq<(Complexity, usize)>,
    text: Seq<char>,
) -> Seq<(Complexity, Seq<SnipView>)>
    decreases pairs.len(),
{
    if pairs.len() == 0 {
        Seq::empty()
    } else {
        let rest = groups_spec(root, pairs.drop_last(), text);
        let p = pairs.last();
        let recs = file_records(root, p.0, p.1, text);
        if recs.len() > 0 {
            rest.push((p.0, recs))
        } else {
            rest
        }
    }
}

/// The requested metric/threshold pairs, in request order.
pub open spec fn zip_pairs(ks: Seq<Complexity>, ts: Seq<usize>) -> Seq<(Complexity, usize)> {
    Seq::new(ks.len(), |i: int| (ks[i], ts[i]))
}

impl Snippets {
    /// Creates an empty snippets bundle for one file.
    pub fn new(source_path: String, language: Language) -> (r: Snippets)
        ensures
            r@.source_path == source_path@,
            r@.language == language,
            r@.snippets == Seq::<(Complexity, Seq<SnipView>)>::empty(),
    {
        let r = Snippets { source_path, language, snippets: Vec::new() };
        proof {
            assert(r@.snippets =~= Seq::<(Complexity, Seq<SnipView>)>::empty());
        }
        r
    }
}

/// Appends one snippet record to a per-metric record list.
pub fn save_snippets(
    complexity: usize,
    start_line: usize,
    end_line: usize,
    text: String,
    records: &mut Vec<SnippetData>,
)
    ensures
        record_views(final(records)@) == record_views(old(records)@).push(
            (SnipView {
                complexity: complexity as int,
                start_line: start_line as int,
                end_line: end_line as int,
                text: text@,
            }),
        ),
{
    let ghost v = SnipView {
        complexity: complexity as int,
        start_line: start_line as int,
        end_line: end_line as int,
        text: text@,
    };
    records.push(SnippetData { complexity, start_line, end_line, text });
    proof {
        assert(record_views(records@) =~= record_views(old(records)@).push(v));
    }
}

/// Collects, depth first, the records that one metric/threshold pair
/// reports for a sequence of sibling regions and their subtrees,
/// appending them to `records`.
pub fn obtain_snippets(
    spaces: &Vec<Region>,
    complexity: Complexity,
    threshold: usize,
    lines: &Vec<String>,
    records: &mut Vec<SnippetData>,
)
    requires
        forall|i: int| 0 <= i < spaces@.len() ==> (#[trigger] spaces@[i]).wf(),
    ensures
        record_views(final(records)@) == record_views(old(records)@) + dfs_forest(
            spaces@,
            complexity,
            threshold,
            views_of(lines@),
        ),
    decreases spaces@,
{
    let ghost lv = views_of(lines@);
    let ghost rs = spaces@;
    let n = spaces.len();
    proof {
        assert(rs.take(0) =~= Seq::<Region>::empty());
        assert(record_views(records@) + dfs_forest(rs.take(0), complexity, threshold, lv)
            =~= record_views(records@));
    }
    for i in 0..n
        invariant
            n == rs.len(),
            rs == spaces@,
            lv == views_of(lines@),
            forall|j: int| 0 <= j < rs.len() ==> (#[trigger] rs[j]).wf(),
            record_views(records@) == record_views(old(records)@) + dfs_forest(
                rs.take(i as int),
                complexity,
                threshold,
                lv,
            ),
    {
        let space = &spaces[i];
        let ghost before = record_views(records@);
        if let Some(v) = complexity.value(space, threshold) {
            let ghost head: Seq<SnipView> = if complexity.own_of(rs[i as int]) > threshold {
                seq![
                    SnipView {
                        complexity: complexity.own_of(rs[i as int]) as int,
                        start_line: rs[i as int].start_line as int,
                        end_line: rs[i as int].end_line as int,
                        text: snippet_text(lv, rs[i as int].start_line, rs[i as int].end_line),
                    },
                ]
            } else {
                Seq::empty()
            };
            if v > threshold {
                let text = snippet_text_exec(lines, space.start_line, space.end_line);
                save_snippets(v, space.start_line, space.end_line, text, records);
                proof {
                    assert(record_views(records@) =~= before + head);
                }
            } else {
                proof {
                    assert(record_views(records@) =~= before + head);
                }
            }
            obtain_snippets(&space.children, complexity, threshold, lines, records);
            proof {
                assert(dfs_records(rs[i as int], complexity, threshold, lv) == head + dfs_forest(
                    rs[i as int].children@,
                    complexity,
                    threshold,
                    lv,
                ));
                assert(record_views(records@) =~= before + dfs_records(
                    rs[i as int],
                    complexity,
                    threshold,
                    lv,
                ));
            }
        } else {
            proof {
                assert(dfs_records(rs[i as int], complexity, threshold, lv)
                    =~= Seq::<SnipView>::empty());
                assert(record_views(records@) =~= before + dfs_records(
                    rs[i as int],
                    complexity,
                    threshold,
                    lv,
                ));
            }
        }
        proof {
            assert(rs.take(i + 1).drop_last() =~= rs.take(i as int));
            assert(rs.take(i + 1).last() == rs[i as int]);
            assert(dfs_forest(rs.take(i + 1), complexity, threshold, lv) == dfs_forest(
                rs.take(i as int),
                complexity,
                threshold,
                lv,
            ) + dfs_records(rs[i as int], complexity, threshold, lv));
            assert(record_views(records@) =~= record_views(old(records)@) + dfs_forest(
                rs.take(i + 1),
                complexity,
                threshold,
                lv,
            ));
        }
    }
    proof {
        assert(rs.take(n as int) =~= rs);
    }
}

/// Extracts the snippets of one file: the regions whose own value for a
/// requested metric exceeds its threshold, or the whole file when its
/// only region does; `None` when no metric produced a record.
pub fn get_code_snippets(
    space: &Region,
    language: Language,
    source_path: String,
    source_file: &str,
    complexities: &Vec<Complexity>,
    thresholds: &Vec<usize>,
) -> (res: Option<Snippets>)
    requires
        space.wf(),
        complexities@.len() == thresholds@.len(),
    ensures
        ({
            let gs = groups_spec(*space, zip_pairs(complexities@, thresholds@), source_file@);
            match res {
                None => gs.len() == 0,
                Some(s) => {
                    &&& gs.len() > 0
                    &&& s@.source_path == source_path@
                    &&& s@.language == language
                    &&& s@.snippets == gs
                },
            }
        }),
{
    let ghost pairs = zip_pairs(complexities@, thresholds@);
    let ghost text = source_file@;
    let lines = split_lines(source_file);
    let mut result = Snippets::new(source_path, language);
    let n = complexities.len();
    proof {
        assert(pairs.take(0) =~= Seq::<(Complexity, usize)>::empty());
    }
    for idx in 0..n
        invariant
            n == complexities@.len(),
            complexities@.len() == thresholds@.len(),
            pairs == zip_pairs(complexities@, thresholds@),
            text == source_file@,
            views_of(lines@) == lines_of(text),
            space.wf(),
            result@.source_path == source_path@,
            result@.language == language,
            result@.snippets == groups_spec(*space, pairs.take(idx as int), text),
    {
        let k = complexities[idx];
        let t = thresholds[idx];
        let ghost gs_before = result@.snippets;
        let ghost recs = file_records(*space, k, t, text);
        if let Some(v) = k.value(space, t) {
            let mut records: Vec<SnippetData> = Vec::new();
            proof {
                assert(record_views(records@) =~= Seq::<SnipView>::empty());
            }
            if space.children.len() == 0 {
                save_snippets(v, space.start_line, space.end_line, source_file.to_owned(),
                    &mut records);
                proof {
                    assert(record_views(records@) =~= recs);
                }
            } else {
                obtain_snippets(&space.children, k, t, &lines, &mut records);
                proof {
                    assert(record_views(records@) =~= recs);
                }
            }
            if records.len() > 0 {
                proof {
                    assert(recs.len() > 0);
                }
                result.snippets.push(MetricSnippets { complexity: k, records });
                proof {
                    assert(result@.snippets =~= gs_before.push((k, recs)));
                }
            } else {
                proof {
                    assert(recs.len() == 0);
                }
            }
        } else {
            proof {
                assert(recs.len() == 0);
            }
        }
        proof {
            assert(pairs.take(idx + 1).drop_last() =~= pairs.take(idx as int));
            assert(pairs.take(idx + 1).last() == (k, t));
            assert(groups_spec(*space, pairs.take(idx + 1), text) == if recs.len() > 0 {
                groups_spec(*space, pairs.take(idx as int), text).push((k, recs))
            } else {
                groups_spec(*space, pairs.take(idx as int), text)
            });
        }
    }
    proof {
        assert(pairs.take(n as int) =~= pairs);
    }
    if result.snippets.len() == 0 {
        proof {
            assert(groups_spec(*space, pairs, text).len() == 0);
        }
        None
    } else {
        Some(result)
    }
}

/// Whether `n` is a region of the tree rooted at `r`.
pub open spec fn in_subtree(n: Region, r: Region) -> bool
    decreases r,
{
    n == r || exists|i: int|
        0 <= i < r.children@.len() && in_subtree(n, #[trigger] r.children@[i])
}

/// Whether no region of the tree rooted at `r` has an own value for
/// metric `k` above threshold `t`.
pub open spec fn no_excess(r: Region, k: Complexity, t: usize) -> bool
    decreases r,
{
    k.own_of(r) <= t && forall|i: int|
        0 <= i < r.children@.len() ==> no_excess(#[trigger] r.children@[i], k, t)
}

/// Pruning is sound: when the check rule answers `None` on a region of a
/// well-formed tree, it answers `None` on every region of that subtree,
/// and the subtree reports no record at all.
pub proof fn lemma_prune_excludes_subtree(r: Region, k: Complexity, t: usize, lines: Seq<Seq<char>>)
    requires
        r.wf(),
        k.value_spec(r, t) is None,
    ensures
        dfs_records(r, k, t, lines) == Seq::<SnipView>::empty(),
        forall|n: Region| in_subtree(n, r) ==> k.value_spec(n, t) is None,
    decreases r,
{
    assert forall|n: Region| in_subtree(n, r) implies k.value_spec(n, t) is None by {
        if n != r {
            let i = choose|i: int| 0 <= i < r.children@.len() && in_subtree(n, r.children@[i]);
            let c = r.children@[i];
            assert(c.wf());
            assert(c.cyclomatic_max <= r.cyclomatic_max && c.cognitive_max <= r.cognitive_max);
            if k == Complexity::Cyclomatic {
                assert(c.cyclomatic <= c.cyclomatic_max);
                assert(r.cyclomatic_max <= t);
                assert(k.value_spec(c, t) is None);
            } else {
                assert(k == Complexity::Cognitive);
                assert(c.cognitive <= c.cognitive_max);
                assert(r.cognitive_max <= t);
                assert(k.value_spec(c, t) is None);
            }
            lemma_prune_excludes_subtree(c, k, t, lines);
        }
    }
}

proof fn lemma_dfs_region_exceeds(r: Region, k: Complexity, t: usize, lines: Seq<Seq<char>>)
    requires
        r.wf(),
    ensures
        forall|j: int|
            0 <= j < dfs_records(r, k, t, lines).len() ==> dfs_records(r, k, t, lines)[j].complexity
                > t,
    decreases r,
{
    if k.value_spec(r, t) is Some {
        lemma_dfs_forest_exceeds(r.children@, k, t, lines);
        let whole = dfs_records(r, k, t, lines);
        let b = dfs_forest(r.children@, k, t, lines);
        assert forall|j: int| 0 <= j < whole.len() implies whole[j].complexity > t by {
            if k.own_of(r) > t {
                if j > 0 {
                    assert(whole[j] == b[j - 1]);
                }
            } else {
                assert(whole[j] == b[j]);
            }
        }
    }
}

proof fn lemma_dfs_forest_exceeds(rs: Seq<Region>, k: Complexity, t: usize, lines: Seq<Seq<char>>)
    requires
        forall|i: int| 0 <= i < rs.len() ==> (#[trigger] rs[i]).wf(),
    ensures
        forall|j: int|
            0 <= j < dfs_forest(rs, k, t, lines).len() ==> dfs_forest(rs, k, t, lines)[j].complexity
                > t,
    decreases rs,
{
    if rs.len() > 0 {
        lemma_dfs_forest_exceeds(rs.drop_last(), k, t, lines);
        lemma_dfs_region_exceeds(rs.last(), k, t, lines);
        let a = dfs_forest(rs.drop_last(), k, t, lines);
        let b = dfs_records(rs.last(), k, t, lines);
        let whole = dfs_forest(rs, k, t, lines);
        assert(whole == a + b);
        assert forall|j: int| 0 <= j < whole.len() implies whole[j].complexity > t by {
            if j < a.len() {
                assert(whole[j] == a[j]);
            } else {
                assert(whole[j] == b[j - a.len()]);
            }
        }
    }
}

/// Every record a file reports for a metric/threshold pair carries a
/// complexity value strictly above the threshold; at a childless root
/// this holds because its subtree maximum equals its own value.
pub proof fn lemma_records_exceed_threshold(root: Region, k: Complexity, t: usize, text: Seq<char>)
    requires
        root.wf(),
    ensures
        forall|j: int|
            0 <= j < file_records(root, k, t, text).len() ==> file_records(
                root,
                k,
                t,
                text,
            )[j].complexity > t,
{
    if k.value_spec(root, t) is Some && root.children@.len() > 0 {
        lemma_dfs_forest_exceeds(root.children@, k, t, lines_of(text));
    }
}

proof fn lemma_clean_region(r: Region, k: Complexity, t: usize, lines: Seq<Seq<char>>)
    requires
        r.wf(),
        no_excess(r, k, t),
    ensures
        dfs_records(r, k, t, lines) == Seq::<SnipView>::empty(),
    decreases r,
{
    if k.value_spec(r, t) is Some {
        lemma_clean_forest(r.children@, k, t, lines);
        assert(dfs_records(r, k, t, lines) =~= Seq::<SnipView>::empty());
    }
}

proof fn lemma_clean_forest(rs: Seq<Region>, k: Complexity, t: usize, lines: Seq<Seq<char>>)
    requires
        forall|i: int| 0 <= i < rs.len() ==> (#[trigger] rs[i]).wf(),
        forall|i: int| 0 <= i < rs.len() ==> no_excess(#[trigger] rs[i], k, t),
    ensures
        dfs_forest(rs, k, t, lines) == Seq::<SnipView>::empty(),
    decreases rs,
{
    if rs.len() > 0 {
        lemma_clean_forest(rs.drop_last(), k, t, lines);
        lemma_clean_region(rs.last(), k, t, lines);
        assert(dfs_forest(rs, k, t, lines) =~= Seq::<SnipView>::empty());
    }
}

/// A file whose well-formed tree holds no region with an own value above
/// the threshold of any requested pair reports no snippets at all, even
/// when some subtree maximum exceeds a threshold.
pub proof fn lemma_clean_file_reports_nothing(
    root: Region,
    pairs: Seq<(Complexity, usize)>,
    text: Seq<char>,
)
    requires
        root.wf(),
        forall|i: int| 0 <= i < pairs.len() ==> no_excess(root, (#[trigger] pairs[i]).0, pairs[i].1),
    ensures
        groups_spec(root, pairs, text) == Seq::<(Complexity, Seq<SnipView>)>::empty(),
    decreases pairs.len(),
{
    if pairs.len() > 0 {
        lemma_clean_file_reports_nothing(root, pairs.drop_last(), text);
        let p = pairs.last();
        assert(no_excess(root, p.0, p.1));
        if root.children@.len() > 0 && p.0.value_spec(root, p.1) is Some {
            lemma_clean_forest(root.children@, p.0, p.1, lines_of(text));
        }
    }
}

/// Running the extraction twice on an unchanged tree with identical
/// configuration yields identical per-file records: the reported groups
/// are a function of the tree, the requested pairs and the text alone.
pub proof fn lemma_extraction_idempotent(
    root: Region,
    pairs: Seq<(Complexity, usize)>,
    text: Seq<char>,
    g1: Seq<(Complexity, Seq<SnipView>)>,
    g2: Seq<(Complexity, Seq<SnipView>)>,
)
    requires
        g1 == groups_spec(root, pairs, text),
        g2 == groups_spec(root, pairs, text),
    ensures
        g1 == g2,
{
}

} // verus!
