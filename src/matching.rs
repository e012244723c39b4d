//! Case-insensitive, symmetric substring matching of application names
//! against a space's patterns.

use vstd::prelude::*;
use vstd::string::*;
use crate::model::TrackingSpace;

verus! {

/// The lower-case form of a string, as std's Unicode case mapping gives it.
pub uninterp spec fn lower_of(s: Seq<char>) -> Seq<char>;

/// Relies on std's `str::to_lowercase`: the result depends on the characters
/// alone.
#[verifier::external_body]
fn lowercase(s: &String) -> (r: String)
    ensures
        r@ == lower_of(s@),
{
    s.to_lowercase()
}

/// `needle` occurs in `hay` as a contiguous run.
pub open spec fn contains_seq(hay: Seq<char>, needle: Seq<char>) -> bool {
    exists|i: int|
        0 <= i && i + needle.len() <= hay.len() && #[trigger] hay.subrange(i, i + needle.len())
            == needle
}

/// Either name contains the other.
pub open spec fn fuzzy_matches(a: Seq<char>, b: Seq<char>) -> bool {
    contains_seq(a, b) || contains_seq(b, a)
}

/// Some pattern of `apps` fuzzy-matches `app`, both taken in lower case.
pub open spec fn space_tracks(apps: Seq<String>, app: Seq<char>) -> bool {
    exists|i: int| 0 <= i < apps.len() && fuzzy_matches(lower_of(app), lower_of(#[trigger] apps[i]@))
}

fn window_equals(hay: &str, needle: &str, start: usize, hl: usize, nl: usize) -> (r: bool)
    requires
        hl == hay@.len(),
        nl == needle@.len(),
        start + nl <= hl,
    ensures
        r == (hay@.subrange(start as int, start + nl) == needle@),
{
    let mut j: usize = 0;
    while j < nl
        invariant
            hl == hay@.len(),
            nl == needle@.len(),
            start + nl <= hl,
            j <= nl,
            forall|k: int| 0 <= k < j ==> hay@[start + k] == needle@[k],
        decreases nl - j,
    {
        if hay.get_char(start + j) != needle.get_char(j) {
            assert(hay@.subrange(start as int, start + nl)[j as int] != needle@[j as int]);
            return false;
        }
        j += 1;
    }
    assert(hay@.subrange(start as int, start + nl) =~= needle@);
    true
}

/// Whether `needle` occurs in `hay`.
pub fn contains_chars(hay: &String, needle: &String) -> (r: bool)
    ensures
        r == contains_seq(hay@, needle@),
{
    let h = hay.as_str();
    let n = needle.as_str();
    let hl = h.unicode_len();
    let nl = n.unicode_len();
    if nl > hl {
        return false;
    }
    let mut i: usize = 0;
    while i <= hl - nl
        invariant
            hl == hay@.len(),
            nl == needle@.len(),
            h@ == hay@,
            n@ == needle@,
            nl <= hl,
            i <= hl - nl + 1,
            forall|k: int| 0 <= k < i ==> #[trigger] hay@.subrange(k, k + nl) != needle@,
        decreases hl - nl + 1 - i,
    {
        if window_equals(h, n, i, hl, nl) {
            return true;
        }
        if i == hl - nl {
            return false;
        }
        i += 1;
    }
    false
}

/// Whether two names, already in lower case, fuzzy-match.
pub fn fuzzy_match_folded(app_lower: &String, pattern_lower: &String) -> (r: bool)
    ensures
        r == fuzzy_matches(app_lower@, pattern_lower@),
{
    contains_chars(app_lower, pattern_lower) || contains_chars(pattern_lower, app_lower)
}

/// Whether an observed application name and a pattern fuzzy-match, ignoring
/// case.
pub fn fuzzy_match(app: &String, pattern: &String) -> (r: bool)
    ensures
        r == fuzzy_matches(lower_of(app@), lower_of(pattern@)),
{
    let a = lowercase(app);
    let p = lowercase(pattern);
    fuzzy_match_folded(&a, &p)
}

/// Whether the space tracks the observed application: any of its patterns
/// fuzzy-matches the name.
pub fn is_tracked(space: &TrackingSpace, app: &String) -> (r: bool)
    ensures
        r == space_tracks(space.apps@, app@),
{
    let mut i: usize = 0;
    while i < space.apps.len()
        invariant
            i <= space.apps@.len(),
            forall|k: int|
                0 <= k < i ==> !fuzzy_matches(lower_of(app@), lower_of(#[trigger] space.apps@[k]@)),
        decreases space.apps@.len() - i,
    {
        if fuzzy_match(app, &space.apps[i]) {
            return true;
        }
        i += 1;
    }
    false
}

} // verus!
