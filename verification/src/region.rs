use vstd::prelude::*;

verus! {

/// A lexical scope of a source file: its line bounds and, for every
/// supported complexity metric, a local score together with the maximum
/// score over the whole subtree rooted here.
pub struct Region {
    /// First source line of the region, 1-indexed.
    pub start_line: usize,
    /// Last source line of the region, inclusive.
    pub end_line: usize,
    /// Local cyclomatic complexity of this region.
    pub cyclomatic: usize,
    /// Maximum cyclomatic complexity over this region and its descendants.
    pub cyclomatic_max: usize,
    /// Local cognitive complexity of this region.
    pub cognitive: usize,
    /// Maximum cognitive complexity over this region and its descendants.
    pub cognitive_max: usize,
    /// Nested regions, in source order.
    pub children: Vec<Region>,
}

/// The largest `cyclomatic_max` among a sequence of regions, 0 when empty.
pub open spec fn forest_cyclomatic_sup(rs: Seq<Region>) -> int
    decreases rs.len(),
{
    if rs.len() == 0 {
        0
    } else {
        vstd::math::max(forest_cyclomatic_sup(rs.drop_last()), rs.last().cyclomatic_max as int)
    }
}

/// The largest `cognitive_max` among a sequence of regions, 0 when empty.
pub open spec fn forest_cognitive_sup(rs: Seq<Region>) -> int
    decreases rs.len(),
{
    if rs.len() == 0 {
        0
    } else {
        vstd::math::max(forest_cognitive_sup(rs.drop_last()), rs.last().cognitive_max as int)
    }
}

impl Region {
    /// A region is well formed when its line bounds are ordered, each
    /// maximum dominates the local value and every child's maximum, a
    /// childless region's maximum equals its local value, and all
    /// children are well formed.
    pub open spec fn wf(self) -> bool
        decreases self,
    {
        &&& 1 <= self.start_line <= self.end_line
        &&& self.cyclomatic_max >= self.cyclomatic
        &&& self.cognitive_max >= self.cognitive
        &&& (self.children@.len() == 0 ==> self.cyclomatic_max == self.cyclomatic)
        &&& (self.children@.len() == 0 ==> self.cognitive_max == self.cognitive)
        &&& forall|i: int| 0 <= i < self.children@.len() ==> {
            &&& self.cyclomatic_max >= (#[trigger] self.children@[i]).cyclomatic_max
            &&& self.cognitive_max >= self.children@[i].cognitive_max
            &&& self.children@[i].wf()
        }
    }

    /// Builds a region from its line bounds, its local metric values and
    /// its children, computing each maximum as the largest value found in
    /// the new subtree, so that the result is well formed by construction.
    pub fn new(
        start_line: usize,
        end_line: usize,
        cyclomatic: usize,
        cognitive: usize,
        children: Vec<Region>,
    ) -> (r: Region)
        requires
            1 <= start_line <= end_line,
            forall|i: int| 0 <= i < children@.len() ==> (#[trigger] children@[i]).wf(),
        ensures
            r.wf(),
            r.start_line == start_line,
            r.end_line == end_line,
            r.cyclomatic == cyclomatic,
            r.cognitive == cognitive,
            r.children == children,
            r.cyclomatic_max as int == vstd::math::max(
                cyclomatic as int,
                forest_cyclomatic_sup(children@),
            ),
            r.cognitive_max as int == vstd::math::max(
                cognitive as int,
                forest_cognitive_sup(children@),
            ),
    {
        let mut cyc_max: usize = cyclomatic;
        let mut cog_max: usize = cognitive;
        let n = children.len();
        for i in 0..n
            invariant
                n == children@.len(),
                cyc_max >= cyclomatic,
                cog_max >= cognitive,
                cyc_max as int == vstd::math::max(
                    cyclomatic as int,
                    forest_cyclomatic_sup(children@.take(i as int)),
                ),
                cog_max as int == vstd::math::max(
                    cognitive as int,
                    forest_cognitive_sup(children@.take(i as int)),
                ),
                forall|j: int| 0 <= j < i ==> cyc_max >= #[trigger] children@[j].cyclomatic_max,
                forall|j: int| 0 <= j < i ==> cog_max >= #[trigger] children@[j].cognitive_max,
        {
            let c = &children[i];
            if c.cyclomatic_max > cyc_max {
                cyc_max = c.cyclomatic_max;
            }
            if c.cognitive_max > cog_max {
                cog_max = c.cognitive_max;
            }
            proof {
                assert(children@.take(i + 1).drop_last() =~= children@.take(i as int));
                assert(children@.take(i + 1).last() == children@[i as int]);
            }
        }
        proof {
            assert(children@.take(n as int) =~= children@);
        }
        Region {
            start_line,
            end_line,
            cyclomatic,
            cyclomatic_max: cyc_max,
            cognitive,
            cognitive_max: cog_max,
            children,
        }
    }

    /// Decides well-formedness of a whole region tree at run time, for
    /// callers that obtained the tree from an unverified source.
    pub fn check(&self) -> (b: bool)
        ensures
            b == self.wf(),
        decreases *self,
    {
        if !(1 <= self.start_line && self.start_line <= self.end_line) {
            return false;
        }
        if self.cyclomatic_max < self.cyclomatic || self.cognitive_max < self.cognitive {
            return false;
        }
        if self.children.len() == 0 {
            return self.cyclomatic_max == self.cyclomatic && self.cognitive_max == self.cognitive;
        }
        let n = self.children.len();
        for i in 0..n
            invariant
                n == self.children@.len(),
                forall|j: int| 0 <= j < i ==> {
                    &&& self.cyclomatic_max >= (#[trigger] self.children@[j]).cyclomatic_max
                    &&& self.cognitive_max >= self.children@[j].cognitive_max
                    &&& self.children@[j].wf()
                },
        {
            let c = &self.children[i];
            if self.cyclomatic_max < c.cyclomatic_max || self.cognitive_max < c.cognitive_max {
                return false;
            }
            if !c.check() {
                return false;
            }
        }
        true
    }
}

/// In a well-formed region, the subtree maximum of each metric dominates
/// the local value, and in a childless region the two are equal.
pub proof fn lemma_max_dominates_own(r: Region)
    requires
        r.wf(),
    ensures
        r.cyclomatic_max >= r.cyclomatic,
        r.cognitive_max >= r.cognitive,
        r.children@.len() == 0 ==> r.cyclomatic_max == r.cyclomatic,
        r.children@.len() == 0 ==> r.cognitive_max == r.cognitive,
{
}

} // verus!
