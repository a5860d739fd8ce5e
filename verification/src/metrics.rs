use vstd::prelude::*;
use vstd::string::*;

use crate::region::Region;

verus! {

/// Supported complexities metrics.
#[derive(Clone, Copy, PartialEq, Eq, Hash, Debug, Structural)]
pub enum Complexity {
    /// Cyclomatic metric.
    Cyclomatic,
    /// Cognitive metric.
    Cognitive,
}

impl Complexity {
    /// The local score a region holds for this metric.
    pub open spec fn own_of(self, r: Region) -> usize {
        match self {
            Complexity::Cyclomatic => r.cyclomatic,
            Complexity::Cognitive => r.cognitive,
        }
    }

    /// The subtree maximum a region holds for this metric.
    pub open spec fn max_of(self, r: Region) -> usize {
        match self {
            Complexity::Cyclomatic => r.cyclomatic_max,
            Complexity::Cognitive => r.cognitive_max,
        }
    }

    /// The check rule: the local score is returned exactly when it or the
    /// subtree maximum exceeds the threshold; `None` means that no region
    /// of the subtree can exceed it.
    pub open spec fn value_spec(self, r: Region, threshold: usize) -> Option<usize> {
        if self.own_of(r) > threshold || self.max_of(r) > threshold {
            Some(self.own_of(r))
        } else {
            None
        }
    }

    /// Default threshold for a metric.
    pub fn default_threshold(&self) -> (t: usize)
        ensures
            t == 15,
    {
        match self {
            Complexity::Cyclomatic => 15,
            Complexity::Cognitive => 15,
        }
    }

    /// All complexity metrics.
    pub fn all() -> (v: Vec<Complexity>)
        ensures
            v@ =~= seq![Complexity::Cyclomatic, Complexity::Cognitive],
    {
        let mut v: Vec<Complexity> = Vec::new();
        v.push(Complexity::Cyclomatic);
        v.push(Complexity::Cognitive);
        v
    }

    /// The metric a lower-case name denotes.
    pub open spec fn spec_of_name(s: Seq<char>) -> Option<Complexity> {
        if s == "cyclomatic"@ {
            Some(Complexity::Cyclomatic)
        } else if s == "cognitive"@ {
            Some(Complexity::Cognitive)
        } else {
            None
        }
    }

    /// Applies the check rule of this metric to one region.
    pub fn value(&self, space: &Region, threshold: usize) -> (r: Option<usize>)
        ensures
            r == self.value_spec(*space, threshold),
    {
        match self {
            Complexity::Cyclomatic => {
                if space.cyclomatic > threshold || space.cyclomatic_max > threshold {
                    Some(space.cyclomatic)
                } else {
                    None
                }
            },
            Complexity::Cognitive => {
                if space.cognitive > threshold || space.cognitive_max > threshold {
                    Some(space.cognitive)
                } else {
                    None
                }
            },
        }
    }
}

/// Whether a character counts as trimmable blank space around a name or
/// a number.
pub open spec fn is_space_char(c: char) -> bool {
    c == ' ' || c == '\t'
}

/// A text with leading and trailing blank space removed.
pub open spec fn trimmed(s: Seq<char>) -> Seq<char>
    decreases s.len(),
{
    if s.len() > 0 && is_space_char(s[0]) {
        trimmed(s.drop_first())
    } else if s.len() > 0 && is_space_char(s.last()) {
        trimmed(s.drop_last())
    } else {
        s
    }
}

fn trim_exec(s: &str) -> (r: String)
    ensures
        r@ == trimmed(s@),
    decreases s@.len(),
{
    let n = s.unicode_len();
    if n > 0 {
        let first = s.get_char(0);
        if first == ' ' || first == '\t' {
            proof {
                assert(s@.subrange(1, n as int) =~= s@.drop_first());
            }
            return trim_exec(s.substring_char(1, n));
        }
        let last = s.get_char(n - 1);
        if last == ' ' || last == '\t' {
            proof {
                assert(s@.subrange(0, n - 1) =~= s@.drop_last());
            }
            return trim_exec(s.substring_char(0, n - 1));
        }
    }
    s.to_owned()
}

/// Whether a character is a decimal digit.
pub open spec fn is_digit_char(c: char) -> bool {
    48 <= c as int <= 57
}

/// The value of one decimal digit.
pub open spec fn digit_val(c: char) -> int {
    c as int - 48
}

/// Whether a text is one or more decimal digits and nothing else.
pub open spec fn all_digits(s: Seq<char>) -> bool {
    s.len() > 0 && forall|i: int| 0 <= i < s.len() ==> is_digit_char(s[i])
}

/// The number a text of decimal digits denotes.
pub open spec fn digits_val(s: Seq<char>) -> int
    decreases s.len(),
{
    if s.len() == 0 {
        0
    } else {
        digits_val(s.drop_last()) * 10 + digit_val(s.last())
    }
}

proof fn lemma_digits_val_nonneg(s: Seq<char>)
    requires
        forall|i: int| 0 <= i < s.len() ==> is_digit_char(s[i]),
    ensures
        digits_val(s) >= 0,
    decreases s.len(),
{
    if s.len() > 0 {
        let d = s.drop_last();
        assert forall|i: int| 0 <= i < d.len() implies is_digit_char(d[i]) by {
            assert(d[i] == s[i]);
        }
        lemma_digits_val_nonneg(d);
        assert(is_digit_char(s[s.len() - 1]));
        assert(digits_val(d) * 10 >= 0) by (nonlinear_arith)
            requires
                digits_val(d) >= 0,
        ;
    }
}

proof fn lemma_digits_val_grows(s: Seq<char>, k: int)
    requires
        forall|i: int| 0 <= i < s.len() ==> is_digit_char(s[i]),
        0 <= k <= s.len(),
    ensures
        0 <= digits_val(s.take(k)) <= digits_val(s),
    decreases s.len() - k,
{
    let p = s.take(k);
    assert forall|i: int| 0 <= i < p.len() implies is_digit_char(p[i]) by {
        assert(p[i] == s[i]);
    }
    lemma_digits_val_nonneg(p);
    if k == s.len() {
        assert(s.take(k) =~= s);
    } else {
        lemma_digits_val_grows(s, k + 1);
        assert(s.take(k + 1).drop_last() =~= s.take(k));
        assert(s.take(k + 1).last() == s[k]);
        assert(digits_val(s.take(k + 1)) == digits_val(p) * 10 + digit_val(s[k]));
        assert(is_digit_char(s[k]));
        assert(digits_val(p) * 10 >= digits_val(p)) by (nonlinear_arith)
            requires
                digits_val(p) >= 0,
        ;
    }
}

fn parse_usize(s: &str) -> (r: Option<usize>)
    ensures
        r matches Some(v) ==> all_digits(s@) && v == digits_val(s@),
        r is None ==> !all_digits(s@) || digits_val(s@) > usize::MAX,
{
    let n = s.unicode_len();
    if n == 0 {
        return None;
    }
    let mut v: usize = 0;
    proof {
        assert(s@.take(0) =~= Seq::<char>::empty());
    }
    for i in 0..n
        invariant
            0 < n == s@.len(),
            forall|j: int| 0 <= j < i ==> is_digit_char(s@[j]),
            v == digits_val(s@.take(i as int)),
    {
        let c = s.get_char(i);
        let u = c as u32;
        if !(48 <= u && u <= 57) {
            return None;
        }
        let d = (u - 48) as usize;
        proof {
            assert(c as int == u as int);
            assert(d == digit_val(s@[i as int]));
            assert(s@.take(i + 1).drop_last() =~= s@.take(i as int));
            assert(s@.take(i + 1).last() == s@[i as int]);
        }
        if v > (usize::MAX - d) / 10 {
            proof {
                assert(v * 10 + d > usize::MAX) by (nonlinear_arith)
                    requires
                        v > (usize::MAX - d) / 10,
                        d <= 9,
                ;
                if all_digits(s@) {
                    lemma_digits_val_grows(s@, i + 1);
                }
            }
            return None;
        }
        proof {
            assert(v * 10 + d <= usize::MAX) by (nonlinear_arith)
                requires
                    v <= (usize::MAX - d) / 10,
                    d <= 9,
            ;
        }
        v = v * 10 + d;
    }
    proof {
        assert(s@.take(n as int) =~= s@);
    }
    Some(v)
}

/// Index of the first colon in `s`, or `s.len()` when there is none.
pub open spec fn first_colon(s: Seq<char>) -> int
    decreases s.len(),
{
    if s.len() == 0 {
        0
    } else if s[0] == ':' {
        0
    } else {
        1 + first_colon(s.drop_first())
    }
}

/// The meaning of a metric request on the command line: a lower-case
/// metric name picks the metric with its default threshold, and a name
/// followed by a colon and a decimal number picks that threshold; blank
/// space around the name and the number is ignored.
pub open spec fn metric_spec(s: Seq<char>) -> Option<(Complexity, usize)> {
    let i = first_colon(s);
    if 0 <= i < s.len() {
        match Complexity::spec_of_name(trimmed(s.take(i))) {
            Some(k) => {
                let rest = trimmed(s.subrange(i + 1, s.len() as int));
                if all_digits(rest) && digits_val(rest) <= usize::MAX {
                    Some((k, digits_val(rest) as usize))
                } else {
                    None
                }
            },
            None => None,
        }
    } else {
        match Complexity::spec_of_name(trimmed(s)) {
            Some(k) => Some((k, 15)),
            None => None,
        }
    }
}

proof fn lemma_first_colon_at(s: Seq<char>, k: int)
    requires
        0 <= k <= s.len(),
        forall|j: int| 0 <= j < k ==> s[j] != ':',
        k < s.len() ==> s[k] == ':',
    ensures
        first_colon(s) == k,
    decreases s.len(),
{
    if s.len() == 0 {
    } else if k == 0 {
    } else {
        assert(s[0] != ':');
        let d = s.drop_first();
        assert forall|j: int| 0 <= j < k - 1 implies d[j] != ':' by {
            assert(d[j] == s[j + 1]);
        }
        assert(k - 1 < d.len() ==> d[k - 1] == s[k]);
        lemma_first_colon_at(d, k - 1);
    }
}

/// Parses one metric request from the command line, as `metric_spec`
/// describes it.
pub fn parse_metric_spec(s: &str) -> (r: Option<(Complexity, usize)>)
    ensures
        r == metric_spec(s@),
{
    let n = s.unicode_len();
    let cyclomatic_name = String::from_str("cyclomatic");
    let cognitive_name = String::from_str("cognitive");
    let mut colon: usize = n;
    for i in 0..n
        invariant
            n == s@.len(),
            colon <= n,
            colon == n ==> forall|j: int| 0 <= j < i ==> s@[j] != ':',
            colon < n ==> {
                &&& colon < i
                &&& s@[colon as int] == ':'
                &&& forall|j: int| 0 <= j < colon ==> s@[j] != ':'
            },
    {
        if colon == n && s.get_char(i) == ':' {
            colon = i;
        }
    }
    proof {
        lemma_first_colon_at(s@, colon as int);
    }
    let name = trim_exec(s.substring_char(0, colon));
    let metric = if name == cyclomatic_name {
        Some(Complexity::Cyclomatic)
    } else if name == cognitive_name {
        Some(Complexity::Cognitive)
    } else {
        None
    };
    proof {
        assert(s@.subrange(0, colon as int) =~= s@.take(colon as int));
        assert(metric == Complexity::spec_of_name(trimmed(s@.take(colon as int))));
        assert(s@.take(n as int) =~= s@);
    }
    match metric {
        None => None,
        Some(k) => {
            if colon == n {
                proof {
                    assert(s@.take(n as int) =~= s@);
                }
                Some((k, k.default_threshold()))
            } else {
                let rest = trim_exec(s.substring_char(colon + 1, n));
                match parse_usize(rest.as_str()) {
                    Some(v) => Some((k, v)),
                    None => None,
                }
            }
        },
    }
}

} // verus!
