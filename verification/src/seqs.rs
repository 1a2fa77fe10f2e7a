//! Searching sequences: the first element that satisfies a predicate.

use vstd::prelude::*;

verus! {

/// The index of the first element among `s[0..n]` that satisfies `p`, or
/// -1 when none does.
pub open spec fn find_first<A>(s: Seq<A>, p: spec_fn(A) -> bool, n: int) -> int
    decreases n,
{
    if n <= 0 {
        -1
    } else {
        let prev = find_first(s, p, n - 1);
        if prev >= 0 {
            prev
        } else if p(s[n - 1]) {
            n - 1
        } else {
            -1
        }
    }
}

/// What `find_first` means: the found index satisfies `p` and nothing
/// before it does; -1 means nothing in range does.
pub proof fn lemma_find_first<A>(s: Seq<A>, p: spec_fn(A) -> bool, n: int)
    requires
        0 <= n <= s.len(),
    ensures
        -1 <= find_first(s, p, n) < n,
        find_first(s, p, n) >= 0 ==> p(s[find_first(s, p, n)]),
        forall|j: int| 0 <= j < n && j < find_first(s, p, n) ==> !p(#[trigger] s[j]),
        find_first(s, p, n) < 0 ==> forall|j: int| 0 <= j < n ==> !p(#[trigger] s[j]),
    decreases n,
{
    if n > 0 {
        lemma_find_first(s, p, n - 1);
    }
}

/// The first match is where a scan that has seen no match stops.
pub proof fn lemma_find_first_at<A>(s: Seq<A>, p: spec_fn(A) -> bool, i: int)
    requires
        0 <= i < s.len(),
        p(s[i]),
        forall|j: int| 0 <= j < i ==> !p(#[trigger] s[j]),
    ensures
        find_first(s, p, s.len() as int) == i,
{
    lemma_find_first_none(s, p, i);
    lemma_find_first_stays(s, p, i + 1, s.len() as int);
}

proof fn lemma_find_first_none<A>(s: Seq<A>, p: spec_fn(A) -> bool, n: int)
    requires
        0 <= n <= s.len(),
        forall|j: int| 0 <= j < n ==> !p(#[trigger] s[j]),
    ensures
        find_first(s, p, n) == -1,
    decreases n,
{
    if n > 0 {
        lemma_find_first_none(s, p, n - 1);
    }
}

proof fn lemma_find_first_stays<A>(s: Seq<A>, p: spec_fn(A) -> bool, n: int, m: int)
    requires
        0 < n <= m <= s.len(),
        find_first(s, p, n) >= 0,
    ensures
        find_first(s, p, m) == find_first(s, p, n),
    decreases m - n,
{
    if m > n {
        lemma_find_first_stays(s, p, n, m - 1);
    }
}

/// No element satisfies `p`: the search finds nothing.
pub proof fn lemma_find_first_absent<A>(s: Seq<A>, p: spec_fn(A) -> bool)
    requires
        forall|j: int| 0 <= j < s.len() ==> !p(#[trigger] s[j]),
    ensures
        find_first(s, p, s.len() as int) == -1,
{
    lemma_find_first_none(s, p, s.len() as int);
}

} // verus!
