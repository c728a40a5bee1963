use vstd::prelude::*;
use crate::breadcrumb::BreadcrumbType;

verus! {

/// Length of the longest common subsequence of the prefixes `a[0..i)` and
/// `b[0..j)`, by the recurrence that fills the table: a match extends the
/// diagonal cell, otherwise the larger of the cells above and to the left.
pub open spec fn lcs_score(a: Seq<char>, b: Seq<char>, i: int, j: int) -> nat
    decreases i + j,
{
    if i <= 0 || j <= 0 {
        0
    } else if a[i - 1] == b[j - 1] {
        lcs_score(a, b, i - 1, j - 1) + 1
    } else if lcs_score(a, b, i - 1, j) > lcs_score(a, b, i, j - 1) {
        lcs_score(a, b, i - 1, j)
    } else {
        lcs_score(a, b, i, j - 1)
    }
}

/// The decision recorded at cell `(i, j)`: `Border` on the border, `Diagonal` on a
/// match, `Up` when the cell above is strictly larger, `Left` otherwise (ties
/// go left).
pub open spec fn decision(a: Seq<char>, b: Seq<char>, i: int, j: int) -> BreadcrumbType {
    if i <= 0 || j <= 0 {
        BreadcrumbType::Border
    } else if a[i - 1] == b[j - 1] {
        BreadcrumbType::Diagonal
    } else if lcs_score(a, b, i - 1, j) > lcs_score(a, b, i, j - 1) {
        BreadcrumbType::Up
    } else {
        BreadcrumbType::Left
    }
}

/// The matched index pairs `(index in a, index in b)`, in forward order, that
/// backtracking from cell `(i, j)` along the decisions collects.
pub open spec fn trace(a: Seq<char>, b: Seq<char>, i: int, j: int) -> Seq<(int, int)>
    decreases i + j,
{
    if i <= 0 || j <= 0 {
        Seq::empty()
    } else {
        match decision(a, b, i, j) {
            BreadcrumbType::Diagonal => trace(a, b, i - 1, j - 1).push((i - 1, j - 1)),
            BreadcrumbType::Up => trace(a, b, i - 1, j),
            _ => trace(a, b, i, j - 1),
        }
    }
}

/// Whether backtracking from cell `(i, j)` visits the interior cell `(p, q)`.
pub open spec fn on_path(a: Seq<char>, b: Seq<char>, i: int, j: int, p: int, q: int) -> bool
    decreases i + j,
{
    if i <= 0 || j <= 0 {
        false
    } else if p == i && q == j {
        true
    } else {
        match decision(a, b, i, j) {
            BreadcrumbType::Diagonal => on_path(a, b, i - 1, j - 1, p, q),
            BreadcrumbType::Up => on_path(a, b, i - 1, j, p, q),
            _ => on_path(a, b, i, j - 1, p, q),
        }
    }
}

/// `s` can be obtained from `t` by deleting symbols: some strictly ascending
/// positions of `t` hold exactly the symbols of `s`.
pub open spec fn is_subsequence(s: Seq<char>, t: Seq<char>) -> bool {
    exists|idx: Seq<int>| selects(idx, s, t)
}

/// `idx` is a strictly ascending list of positions of `t` at which `t` holds `s`.
pub open spec fn selects(idx: Seq<int>, s: Seq<char>, t: Seq<char>) -> bool {
    &&& idx.len() == s.len()
    &&& forall|k: int| 0 <= k < idx.len() ==> 0 <= #[trigger] idx[k] < t.len()
    &&& forall|k: int| 0 <= k < idx.len() ==> t[#[trigger] idx[k]] == s[k]
    &&& forall|k1: int, k2: int|
        0 <= k1 < k2 < idx.len() ==> #[trigger] idx[k1] < #[trigger] idx[k2]
}

/// Every score is at most the length of either prefix.
pub proof fn lemma_score_bounded(a: Seq<char>, b: Seq<char>, i: int, j: int)
    requires
        0 <= i,
        0 <= j,
    ensures
        lcs_score(a, b, i, j) <= i,
        lcs_score(a, b, i, j) <= j,
    decreases i + j,
{
    if i > 0 && j > 0 {
        lemma_score_bounded(a, b, i - 1, j - 1);
        lemma_score_bounded(a, b, i - 1, j);
        lemma_score_bounded(a, b, i, j - 1);
    }
}

/// Backtracking only visits cells at or above and to the left of its start.
pub proof fn lemma_on_path_bounded(a: Seq<char>, b: Seq<char>, i: int, j: int, p: int, q: int)
    requires
        on_path(a, b, i, j, p, q),
    ensures
        0 < p <= i,
        0 < q <= j,
    decreases i + j,
{
    if !(p == i && q == j) {
        match decision(a, b, i, j) {
            BreadcrumbType::Diagonal => lemma_on_path_bounded(a, b, i - 1, j - 1, p, q),
            BreadcrumbType::Up => lemma_on_path_bounded(a, b, i - 1, j, p, q),
            _ => lemma_on_path_bounded(a, b, i, j - 1, p, q),
        }
    }
}

/// A cell reached from a visited cell is itself visited.
pub proof fn lemma_on_path_transitive(
    a: Seq<char>,
    b: Seq<char>,
    i: int,
    j: int,
    k: int,
    l: int,
    p: int,
    q: int,
)
    requires
        on_path(a, b, i, j, k, l),
        on_path(a, b, k, l, p, q),
    ensures
        on_path(a, b, i, j, p, q),
    decreases i + j,
{
    if !(k == i && l == j) && !(p == i && q == j) {
        match decision(a, b, i, j) {
            BreadcrumbType::Diagonal => lemma_on_path_transitive(a, b, i - 1, j - 1, k, l, p, q),
            BreadcrumbType::Up => lemma_on_path_transitive(a, b, i - 1, j, k, l, p, q),
            _ => lemma_on_path_transitive(a, b, i, j - 1, k, l, p, q),
        }
    }
}

/// The pairs that backtracking collects match equal symbols, stay inside the
/// prefixes, ascend strictly in both coordinates, and are as many as the score.
pub proof fn lemma_trace_valid(a: Seq<char>, b: Seq<char>, i: int, j: int)
    requires
        0 <= i <= a.len(),
        0 <= j <= b.len(),
    ensures
        trace(a, b, i, j).len() == lcs_score(a, b, i, j),
        forall|k: int|
            0 <= k < trace(a, b, i, j).len() ==> {
                let pq = #[trigger] trace(a, b, i, j)[k];
                &&& 0 <= pq.0 < i
                &&& 0 <= pq.1 < j
                &&& a[pq.0] == b[pq.1]
            },
        forall|k1: int, k2: int|
            0 <= k1 < k2 < trace(a, b, i, j).len() ==> {
                &&& (#[trigger] trace(a, b, i, j)[k1]).0 < (#[trigger] trace(a, b, i, j)[k2]).0
                &&& trace(a, b, i, j)[k1].1 < trace(a, b, i, j)[k2].1
            },
    decreases i + j,
{
    if i > 0 && j > 0 {
        match decision(a, b, i, j) {
            BreadcrumbType::Diagonal => lemma_trace_valid(a, b, i - 1, j - 1),
            BreadcrumbType::Up => lemma_trace_valid(a, b, i - 1, j),
            _ => lemma_trace_valid(a, b, i, j - 1),
        }
    }
}

/// `s` is a subsequence of `a[0..i)` through the positions `ia` and of
/// `b[0..j)` through the positions `ib`.
pub open spec fn common_within(
    s: Seq<char>,
    a: Seq<char>,
    b: Seq<char>,
    ia: Seq<int>,
    ib: Seq<int>,
    i: int,
    j: int,
) -> bool {
    &&& selects(ia, s, a)
    &&& selects(ib, s, b)
    &&& forall|k: int| 0 <= k < ia.len() ==> #[trigger] ia[k] < i
    &&& forall|k: int| 0 <= k < ib.len() ==> #[trigger] ib[k] < j
}

/// No common subsequence of the prefixes `a[0..i)` and `b[0..j)` is longer
/// than the score of cell `(i, j)`.
pub proof fn lemma_score_maximal(
    s: Seq<char>,
    a: Seq<char>,
    b: Seq<char>,
    ia: Seq<int>,
    ib: Seq<int>,
    i: int,
    j: int,
)
    requires
        common_within(s, a, b, ia, ib, i, j),
    ensures
        s.len() <= lcs_score(a, b, i, j),
    decreases i + j,
{
    if s.len() > 0 {
        let last = s.len() - 1;
        assert(ia[0] >= 0 && ia[0] < i);
        assert(ib[0] >= 0 && ib[0] < j);
        let s2 = s.drop_last();
        let ia2 = ia.drop_last();
        let ib2 = ib.drop_last();
        if a[i - 1] == b[j - 1] {
            assert forall|k: int| 0 <= k < ia2.len() implies #[trigger] ia2[k] < i - 1 by {
                assert(ia[k] < ia[last]);
            }
            assert forall|k: int| 0 <= k < ib2.len() implies #[trigger] ib2[k] < j - 1 by {
                assert(ib[k] < ib[last]);
            }
            assert(common_within(s2, a, b, ia2, ib2, i - 1, j - 1));
            lemma_score_maximal(s2, a, b, ia2, ib2, i - 1, j - 1);
        } else if ia[last] < i - 1 {
            assert forall|k: int| 0 <= k < ia.len() implies #[trigger] ia[k] < i - 1 by {
                if k < last {
                    assert(ia[k] < ia[last]);
                }
            }
            lemma_score_maximal(s, a, b, ia, ib, i - 1, j);
        } else {
            assert(a[ia[last]] == s[last] && b[ib[last]] == s[last]);
            assert forall|k: int| 0 <= k < ib.len() implies #[trigger] ib[k] < j - 1 by {
                if k < last {
                    assert(ib[k] < ib[last]);
                }
            }
            lemma_score_maximal(s, a, b, ia, ib, i, j - 1);
        }
    }
}

/// The score does not depend on which sequence comes first.
pub proof fn lemma_score_symmetric(a: Seq<char>, b: Seq<char>, i: int, j: int)
    ensures
        lcs_score(a, b, i, j) == lcs_score(b, a, j, i),
    decreases i + j,
{
    if i > 0 && j > 0 {
        lemma_score_symmetric(a, b, i - 1, j - 1);
        lemma_score_symmetric(a, b, i - 1, j);
        lemma_score_symmetric(a, b, i, j - 1);
    }
}

/// Backtracking over a sequence against itself takes every diagonal step.
pub proof fn lemma_trace_self(a: Seq<char>, i: int)
    requires
        0 <= i <= a.len(),
    ensures
        trace(a, a, i, i) == Seq::new(i as nat, |k: int| (k, k)),
    decreases i,
{
    if i > 0 {
        lemma_trace_self(a, i - 1);
        assert(trace(a, a, i, i) =~= Seq::new(i as nat, |k: int| (k, k)));
    }
}

/// The score grows with both prefixes: a cell scores at least as much as every
/// cell above and to the left of it.
pub proof fn lemma_score_monotonic(a: Seq<char>, b: Seq<char>, i: int, j: int, i2: int, j2: int)
    requires
        0 <= i <= i2 <= a.len(),
        0 <= j <= j2 <= b.len(),
    ensures
        lcs_score(a, b, i, j) <= lcs_score(a, b, i2, j2),
{
    let t = trace(a, b, i, j);
    lemma_trace_valid(a, b, i, j);
    let s = t.map_values(|pq: (int, int)| a[pq.0]);
    let ia = t.map_values(|pq: (int, int)| pq.0);
    let ib = t.map_values(|pq: (int, int)| pq.1);
    assert forall|k1: int, k2: int| 0 <= k1 < k2 < ia.len() implies #[trigger] ia[k1]
        < #[trigger] ia[k2] && ib[k1] < ib[k2] by {
        assert(t[k1].0 < t[k2].0 && t[k1].1 < t[k2].1);
    }
    assert forall|k: int| 0 <= k < ia.len() implies 0 <= #[trigger] ia[k] < i && 0 <= ib[k] < j
        && a[ia[k]] == s[k] && b[ib[k]] == s[k] by {
        assert(0 <= t[k].0 < i && 0 <= t[k].1 < j && a[t[k].0] == b[t[k].1]);
    }
    assert(common_within(s, a, b, ia, ib, i2, j2));
    lemma_score_maximal(s, a, b, ia, ib, i2, j2);
}

} // verus!
