//! Extracts snippets of source code deemed complex according to the
//! cyclomatic and cognitive complexity metrics: whenever the value of a
//! metric for some region of a file exceeds a preset threshold, the
//! region's text is reported as a snippet.

pub mod decode;
pub mod error;
pub mod metrics;
pub mod output;
pub mod region;
pub mod selector;
pub mod snippets;
pub mod text;

pub use error::Error;
pub use metrics::Complexity;
pub use output::OutputFormat;
pub use region::Region;
pub use snippets::Snippets;

use vstd::multiset::Multiset;
use vstd::prelude::*;
use vstd::string::*;

verus! {

/// The configuration a producer runs with.
pub struct Parameters {
    /// Output format used when writing is enabled.
    pub output_format: OutputFormat,
    /// Whether reports are written to files.
    pub write: bool,
    /// Glob patterns a path must match to participate.
    pub keep: Vec<String>,
    /// Glob patterns that bar a path from participating.
    pub exclude: Vec<String>,
    /// The metrics to evaluate.
    pub complexities: Vec<Complexity>,
    /// One threshold per requested metric, clamped to at most 100.
    pub thresholds: Vec<usize>,
}

/// Produce snippets of complex code for a source file.
///
/// If no parameters are set, the producer uses *cyclomatic* with a
/// threshold of 15 as default metric.
/// Write on files is disabled by default, but when enabled,
/// *markdown* is the output format.
pub struct SnippetsProducer(pub Parameters);

impl Default for SnippetsProducer {
    fn default() -> (r: Self)
        ensures
            r.0.output_format == OutputFormat::Markdown,
            !r.0.write,
            r.0.keep@.len() == 0,
            r.0.exclude@.len() == 0,
            r.0.complexities@ == seq![Complexity::Cyclomatic],
            r.0.thresholds@ == seq![15usize],
    {
        Self::new()
    }
}

impl SnippetsProducer {
    /// Creates a new `SnippetsProducer` instance.
    pub fn new() -> (r: Self)
        ensures
            r.0.output_format == OutputFormat::Markdown,
            !r.0.write,
            r.0.keep@.len() == 0,
            r.0.exclude@.len() == 0,
            r.0.complexities@ == seq![Complexity::Cyclomatic],
            r.0.thresholds@ == seq![15usize],
    {
        let mut complexities: Vec<Complexity> = Vec::new();
        complexities.push(Complexity::Cyclomatic);
        let mut thresholds: Vec<usize> = Vec::new();
        thresholds.push(15);
        proof {
            assert(complexities@ =~= seq![Complexity::Cyclomatic]);
            assert(thresholds@ =~= seq![15usize]);
        }
        SnippetsProducer(
            Parameters {
                output_format: OutputFormat::Markdown,
                write: false,
                keep: Vec::new(),
                exclude: Vec::new(),
                complexities,
                thresholds,
            },
        )
    }

    /// Sets a glob to keep only a certain kind of files
    pub fn keep(self, keep: Vec<String>) -> (r: Self)
        ensures
            r.0.keep == keep,
            r.0.exclude == self.0.exclude,
            r.0.complexities == self.0.complexities,
            r.0.thresholds == self.0.thresholds,
            r.0.write == self.0.write,
            r.0.output_format == self.0.output_format,
    {
        SnippetsProducer(Parameters { keep, ..self.0 })
    }

    /// Sets a glob to exclude only a certain kind of files
    pub fn exclude(self, exclude: Vec<String>) -> (r: Self)
        ensures
            r.0.exclude == exclude,
            r.0.keep == self.0.keep,
            r.0.complexities == self.0.complexities,
            r.0.thresholds == self.0.thresholds,
            r.0.write == self.0.write,
            r.0.output_format == self.0.output_format,
    {
        SnippetsProducer(Parameters { exclude, ..self.0 })
    }

    /// Sets all complexities metric that will be computed.
    pub fn complexities(self, complexities: Vec<Complexity>) -> (r: Self)
        ensures
            r.0.complexities == complexities,
            r.0.keep == self.0.keep,
            r.0.exclude == self.0.exclude,
            r.0.thresholds == self.0.thresholds,
            r.0.write == self.0.write,
            r.0.output_format == self.0.output_format,
    {
        SnippetsProducer(Parameters { complexities, ..self.0 })
    }

    /// Sets the respective thresholds associated to each complexity
    /// metric; every threshold is clamped to at most 100.
    pub fn thresholds(self, thresholds: Vec<usize>) -> (r: Self)
        ensures
            r.0.thresholds@.len() == thresholds@.len(),
            forall|i: int|
                0 <= i < thresholds@.len() ==> r.0.thresholds@[i] == vstd::math::min(
                    thresholds@[i] as int,
                    100,
                ),
            r.0.keep == self.0.keep,
            r.0.exclude == self.0.exclude,
            r.0.complexities == self.0.complexities,
            r.0.write == self.0.write,
            r.0.output_format == self.0.output_format,
    {
        let mut clamped: Vec<usize> = Vec::new();
        let n = thresholds.len();
        for i in 0..n
            invariant
                n == thresholds@.len(),
                clamped@.len() == i,
                forall|j: int|
                    0 <= j < i ==> clamped@[j] == vstd::math::min(thresholds@[j] as int, 100),
        {
            let t = thresholds[i];
            clamped.push(if t < 100 {
                t
            } else {
                100
            });
        }
        SnippetsProducer(Parameters { thresholds: clamped, ..self.0 })
    }

    /// Enables writing on files.
    pub fn enable_write(self) -> (r: Self)
        ensures
            r.0.write,
            r.0.keep == self.0.keep,
            r.0.exclude == self.0.exclude,
            r.0.complexities == self.0.complexities,
            r.0.thresholds == self.0.thresholds,
            r.0.output_format == self.0.output_format,
    {
        SnippetsProducer(Parameters { write: true, ..self.0 })
    }

    /// Sets output format.
    pub fn output_format(self, output_format: OutputFormat) -> (r: Self)
        ensures
            r.0.output_format == output_format,
            r.0.keep == self.0.keep,
            r.0.exclude == self.0.exclude,
            r.0.complexities == self.0.complexities,
            r.0.thresholds == self.0.thresholds,
            r.0.write == self.0.write,
    {
        SnippetsProducer(Parameters { output_format, ..self.0 })
    }

    /// The configuration checks a run makes before touching any file:
    /// the output destination must not be an existing file, and every
    /// requested metric must come with a threshold.
    pub fn check_config(&self, output_path_is_file: bool) -> (r: Result<(), Error>)
        ensures
            output_path_is_file ==> (r matches Err(e) && e matches Error::FormatPath(s) && s@
                == "Output path MUST be a directory"@),
            !output_path_is_file && self.0.complexities@.len() != self.0.thresholds@.len() ==> (r
                matches Err(e) && e is Thresholds),
            !output_path_is_file && self.0.complexities@.len() == self.0.thresholds@.len() ==> r
                is Ok,
    {
        if output_path_is_file {
            return Err(Error::FormatPath(String::from_str("Output path MUST be a directory")));
        }
        if self.0.complexities.len() != self.0.thresholds.len() {
            return Err(Error::Thresholds);
        }
        Ok(())
    }
}

/// The per-file outcomes that actually produced snippets, in the order
/// the outcomes are presented.
pub open spec fn gathered(results: Seq<Option<Snippets>>) -> Seq<Snippets>
    decreases results.len(),
{
    if results.len() == 0 {
        Seq::empty()
    } else {
        let rest = gathered(results.drop_last());
        match results.last() {
            Some(s) => rest.push(s),
            None => rest,
        }
    }
}

/// Builds the result aggregate from the per-file outcomes, keeping every
/// bundle of snippets and dropping the files that reported none.
pub fn collect_results(results: Vec<Option<Snippets>>) -> (r: Vec<Snippets>)
    ensures
        r@ == gathered(results@),
{
    let ghost rv = results@;
    let mut rem = results;
    let mut r: Vec<Snippets> = Vec::new();
    while rem.len() > 0
        invariant
            gathered(rem@) + r@ == gathered(rv),
        decreases rem.len(),
    {
        let ghost rem_before = rem@;
        let ghost r_before = r@;
        let item = rem.pop();
        proof {
            assert(rem@ =~= rem_before.drop_last());
        }
        match item {
            Some(Some(s)) => {
                let ghost sv = s;
                r.insert(0, s);
                proof {
                    assert(gathered(rem_before) == gathered(rem@).push(sv));
                    assert(r@ =~= seq![sv] + r_before);
                    assert(gathered(rem@).push(sv) + r_before =~= gathered(rem@) + (seq![sv]
                        + r_before));
                }
            },
            _ => {
                proof {
                    assert(gathered(rem_before) == gathered(rem@));
                }
            },
        }
        proof {
            assert(gathered(rem@) + r@ =~= gathered(rv));
        }
    }
    proof {
        assert(gathered(rem@) =~= Seq::<Snippets>::empty());
        assert(gathered(rem@) + r@ =~= r@);
    }
    r
}

/// What one per-file outcome contributes to the aggregate.
pub open spec fn outcome_contribution(o: Option<Snippets>) -> Multiset<Snippets> {
    match o {
        Some(s) => Multiset::empty().insert(s),
        None => Multiset::empty(),
    }
}

proof fn lemma_gathered_remove(s: Seq<Option<Snippets>>, j: int)
    requires
        0 <= j < s.len(),
    ensures
        gathered(s).to_multiset() =~= gathered(s.remove(j)).to_multiset().add(
            outcome_contribution(s[j]),
        ),
    decreases s.len(),
{
    broadcast use vstd::seq_lib::group_to_multiset_ensures;
    broadcast use vstd::multiset::group_multiset_axioms;

    if j == s.len() - 1 {
        assert(s.remove(j) =~= s.drop_last());
    } else {
        let d = s.drop_last();
        lemma_gathered_remove(d, j);
        assert(s.remove(j).drop_last() =~= d.remove(j));
        assert(s.remove(j).last() == s.last());
        match s.last() {
            Some(x) => {
                assert(gathered(s) == gathered(d).push(x));
                assert(gathered(s.remove(j)) == gathered(d.remove(j)).push(x));
            },
            None => {
                assert(gathered(s) == gathered(d));
                assert(gathered(s.remove(j)) == gathered(d.remove(j)));
            },
        }
    }
}

/// The content of the aggregate does not depend on the order in which
/// the workers delivered the per-file outcomes: outcome sequences that
/// are permutations of one another gather multiset-equal aggregates.
pub proof fn lemma_aggregate_order_independent(
    r1: Seq<Option<Snippets>>,
    r2: Seq<Option<Snippets>>,
)
    requires
        r1.to_multiset() == r2.to_multiset(),
    ensures
        gathered(r1).to_multiset() == gathered(r2).to_multiset(),
    decreases r1.len(),
{
    broadcast use vstd::seq_lib::group_to_multiset_ensures;
    broadcast use vstd::multiset::group_multiset_axioms;

    if r1.len() == 0 {
        assert(r1.to_multiset().len() == 0);
        assert(r2.len() == 0);
        assert(r2 =~= Seq::<Option<Snippets>>::empty());
    } else {
        let x = r1.last();
        let r1p = r1.drop_last();
        assert(r1[r1.len() - 1] == x);
        assert(r1.contains(x));
        assert(r2.to_multiset().count(x) > 0);
        assert(r2.contains(x));
        let j = choose|j: int| 0 <= j < r2.len() && r2[j] == x;
        let r2p = r2.remove(j);
        assert(r1p.push(x) =~= r1);
        assert(r1p.push(x).to_multiset() =~= r1p.to_multiset().insert(x));
        assert(r2p.to_multiset() =~= r2.to_multiset().remove(x));
        assert(r1p.to_multiset() =~= r2p.to_multiset()) by {
            assert forall|a: Option<Snippets>|
                r1p.to_multiset().count(a) == r2p.to_multiset().count(a) by {
                if a == x {
                    assert(r1p.to_multiset().insert(x).count(x) == r1p.to_multiset().count(x) + 1);
                } else {
                    assert(r1p.to_multiset().insert(x).count(a) == r1p.to_multiset().count(a));
                }
            }
        }
        lemma_aggregate_order_independent(r1p, r2p);
        lemma_gathered_remove(r2, j);
        assert(gathered(r1p.push(x)) == gathered(r1));
        match x {
            Some(v) => {
                assert(gathered(r1) == gathered(r1p).push(v));
                assert(gathered(r1).to_multiset() =~= gathered(r1p).to_multiset().insert(v));
                assert(gathered(r2).to_multiset() =~= gathered(r2p).to_multiset().insert(v));
            },
            None => {
                assert(gathered(r1) == gathered(r1p));
                assert(gathered(r2).to_multiset() =~= gathered(r2p).to_multiset());
            },
        }
    }
}

/// The end of a run: an empty aggregate is the explicit "clean" signal,
/// a non-empty one is handed back whole.
pub fn finalize_results(results: Vec<Snippets>) -> (r: Option<Vec<Snippets>>)
    ensures
        results@.len() == 0 ==> r is None,
        results@.len() > 0 ==> r == Some(results),
{
    if results.len() == 0 {
        None
    } else {
        Some(results)
    }
}

} // verus!
