use vstd::prelude::*;

verus! {

use vstd::string::StrSliceExecFns;

/// What `urlencoding::decode` returns for a given input: `Some` of the
/// percent-decoded text, or `None` where the decoded bytes are not valid
/// UTF-8.  The result depends on the input characters alone.
pub uninterp spec fn url_decoded(s: Seq<char>) -> Option<Seq<char>>;

/// Relies on `urlencoding::decode`: percent-decodes the input, failing
/// exactly when the decoded byte sequence is not valid UTF-8.  Its source
/// scans for `'%'` and returns the input unchanged when none occurs, so an
/// input without `'%'` decodes to itself.
#[verifier::external_body]
pub(crate) fn percent_decode(s: &str) -> (r: Option<String>)
    ensures
        r is Some <==> url_decoded(s@) is Some,
        r is Some ==> r->0@ == url_decoded(s@)->0,
        (forall|i: int| 0 <= i < s@.len() ==> s@[i] != '%') ==> (r is Some && r->0@ == s@),
{
    match urlencoding::decode(s) {
        Ok(decoded) => Some(decoded.into_owned()),
        Err(_) => None,
    }
}

/// Whether `p` occurs in `t` starting at offset `k`.
pub open spec fn occurs_at(t: Seq<char>, p: Seq<char>, k: int) -> bool {
    0 <= k && k + p.len() <= t.len() && t.subrange(k, k + p.len() as int) == p
}

/// How many offsets below `k` the pattern occurs at.
pub open spec fn occurrences_below(t: Seq<char>, p: Seq<char>, k: int) -> nat
    decreases k,
{
    if k <= 0 {
        0
    } else {
        occurrences_below(t, p, k - 1) + (if occurs_at(t, p, k - 1) {
            1nat
        } else {
            0nat
        })
    }
}

/// The relevance score of a title for a search term: the number of offsets
/// at which the term occurs in the title.  An empty term matches nothing.
pub open spec fn score(t: Seq<char>, p: Seq<char>) -> nat {
    if p.len() == 0 {
        0
    } else {
        occurrences_below(t, p, t.len() - p.len() + 1)
    }
}

/// Whether `p` occurs in `t` at offset `k`.
fn match_at(t: &str, p: &str, k: usize) -> (r: bool)
    requires
        k + p@.len() <= t@.len(),
        t@.len() <= usize::MAX,
    ensures
        r == occurs_at(t@, p@, k as int),
{
    let m = p.unicode_len();
    let mut j: usize = 0;
    while j < m
        invariant
            0 <= j <= m,
            m == p@.len(),
            k + m <= t@.len(),
            t@.len() <= usize::MAX,
            forall|l: int| 0 <= l < j ==> t@[k + l] == p@[l],
        decreases m - j,
    {
        if t.get_char(k + j) != p.get_char(j) {
            proof {
                assert(t@.subrange(k as int, k + m) != p@) by {
                    assert(t@.subrange(k as int, k + m)[j as int] == t@[k + j]);
                }
            }
            return false;
        }
        j = j + 1;
    }
    proof {
        assert(t@.subrange(k as int, k + m) =~= p@);
    }
    true
}

/// The relevance score of title `t` for the search term `p`: how many
/// offsets of `t` the term occurs at.
pub fn count_occurrences(t: &str, p: &str) -> (r: usize)
    ensures
        r == score(t@, p@),
{
    let n = t.unicode_len();
    let m = p.unicode_len();
    if m == 0 || m > n {
        return 0;
    }
    let mut count: usize = 0;
    let mut k: usize = 0;
    while k <= n - m
        invariant
            0 <= k <= n - m + 1,
            0 < m <= n,
            n == t@.len(),
            m == p@.len(),
            count == occurrences_below(t@, p@, k as int),
            count <= k,
        decreases n - m + 1 - k,
    {
        if match_at(t, p, k) {
            count = count + 1;
        }
        k = k + 1;
    }
    count
}

} // verus!
