use vstd::prelude::*;
use vstd::string::*;

use crate::text::views_of;

verus! {

/// The longest pattern the selector hands to the glob compiler.
/// Compiling a glob produces a regex whose size grows with the pattern,
/// and the compiler aborts the process once the compiled form passes an
/// internal size limit; patterns beyond this length are skipped like
/// malformed ones, far before that limit is in reach.
pub const MAX_PATTERN_LEN: usize = 4096;

/// Whether a glob pattern is well formed.
pub uninterp spec fn glob_ok(pattern: Seq<char>) -> bool;

/// Whether a path matches a well-formed glob pattern.
pub uninterp spec fn glob_match(pattern: Seq<char>, path: Seq<char>) -> bool;

/// Relies on globset's Glob::new, Glob::compile_matcher and
/// GlobMatcher::is_match: whether a pattern parses, and whether a path
/// then matches it, depend on the pattern and path strings alone;
/// `None` reports a malformed pattern. On targets whose native path
/// separator is not `/`, globset also reads `\` in the path as a
/// separator, so the named results are fixed per compile target. The
/// pattern is required to stay well below the size at which globset's
/// regex compilation gives up and its caller aborts.
#[verifier::external_body]
fn glob_match_str(pattern: &str, path: &str) -> (r: Option<bool>)
    requires
        pattern@.len() <= MAX_PATTERN_LEN,
    ensures
        (r is Some) == glob_ok(pattern@),
        r matches Some(b) ==> b == glob_match(pattern@, path@),
{
    match globset::Glob::new(pattern) {
        Ok(glob) => Some(glob.compile_matcher().is_match(std::path::Path::new(path))),
        Err(_) => None,
    }
}

/// Whether the path matches at least one pattern of the set; empty,
/// oversized and malformed patterns are skipped, never fatal.
pub open spec fn matches_any(patterns: Seq<Seq<char>>, path: Seq<char>) -> bool {
    exists|i: int|
        0 <= i < patterns.len() && 0 < (#[trigger] patterns[i]).len() <= MAX_PATTERN_LEN
            && glob_ok(patterns[i]) && glob_match(patterns[i], path)
}

fn matches_any_exec(patterns: &Vec<String>, path: &str) -> (r: bool)
    ensures
        r == matches_any(views_of(patterns@), path@),
{
    let ghost pv = views_of(patterns@);
    let n = patterns.len();
    for i in 0..n
        invariant
            n == patterns@.len(),
            pv == views_of(patterns@),
            forall|j: int|
                0 <= j < i ==> !(0 < (#[trigger] pv[j]).len() <= MAX_PATTERN_LEN && glob_ok(pv[j])
                    && glob_match(pv[j], path@)),
    {
        let p = &patterns[i];
        let plen = p.as_str().unicode_len();
        if 0 < plen && plen <= MAX_PATTERN_LEN {
            match glob_match_str(p.as_str(), path) {
                Some(true) => {
                    proof {
                        assert(0 < pv[i as int].len() <= MAX_PATTERN_LEN && glob_ok(pv[i as int])
                            && glob_match(pv[i as int], path@));
                    }
                    return true;
                },
                _ => {},
            }
        }
    }
    false
}

/// Whether a discovered path participates in the scan: a path matching
/// any exclude pattern is rejected whatever the keep patterns say;
/// otherwise it is accepted when no keep pattern was given or it
/// matches at least one of them.
pub open spec fn accepts_spec(
    path: Seq<char>,
    keep: Seq<Seq<char>>,
    exclude: Seq<Seq<char>>,
) -> bool {
    !matches_any(exclude, path) && (keep.len() == 0 || matches_any(keep, path))
}

/// Decides whether a discovered path participates in the scan.
pub fn accepts(path: &str, keep: &Vec<String>, exclude: &Vec<String>) -> (r: bool)
    ensures
        r == accepts_spec(path@, views_of(keep@), views_of(exclude@)),
{
    if matches_any_exec(exclude, path) {
        return false;
    }
    if keep.len() == 0 {
        return true;
    }
    matches_any_exec(keep, path)
}

} // verus!
