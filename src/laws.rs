use vstd::prelude::*;
use crate::breadcrumb::BreadcrumbType;
use crate::engine::{is_lcs_result, Res};
use crate::model::{
    common_within,
    is_subsequence,
    lcs_score,
    lemma_score_maximal,
    lemma_score_monotonic,
    lemma_score_symmetric,
    lemma_trace_self,
    lemma_trace_valid,
    selects,
    trace,
};

verus! {

/// The subsequence is as long as the score in the last cell of the table, and
/// as long as each of the two index lists.
pub proof fn lemma_solution_length(a: Seq<char>, b: Seq<char>, r: &Res)
    requires
        is_lcs_result(a, b, r),
    ensures
        r.solution@.len() == r.dp@[a.len() as int]@[b.len() as int],
        r.a_indices@.len() == r.solution@.len(),
        r.b_indices@.len() == r.solution@.len(),
{
    lemma_trace_valid(a, b, a.len() as int, b.len() as int);
}

/// Each index list is strictly ascending and stays inside its sequence.
pub proof fn lemma_indices_ascending(a: Seq<char>, b: Seq<char>, r: &Res)
    requires
        is_lcs_result(a, b, r),
    ensures
        forall|k: int| 0 <= k < r.a_indices@.len() ==> #[trigger] r.a_indices@[k] < a.len(),
        forall|k: int| 0 <= k < r.b_indices@.len() ==> #[trigger] r.b_indices@[k] < b.len(),
        forall|k1: int, k2: int|
            0 <= k1 < k2 < r.a_indices@.len() ==> #[trigger] r.a_indices@[k1]
                < #[trigger] r.a_indices@[k2],
        forall|k1: int, k2: int|
            0 <= k1 < k2 < r.b_indices@.len() ==> #[trigger] r.b_indices@[k1]
                < #[trigger] r.b_indices@[k2],
{
    let t = trace(a, b, a.len() as int, b.len() as int);
    lemma_trace_valid(a, b, a.len() as int, b.len() as int);
    assert forall|k: int| 0 <= k < r.a_indices@.len() implies #[trigger] r.a_indices@[k] < a.len()
        && r.b_indices@[k] < b.len() by {
        assert(0 <= t[k].0 < a.len() && 0 <= t[k].1 < b.len());
    }
    assert forall|k1: int, k2: int| 0 <= k1 < k2 < r.a_indices@.len() implies #[trigger] r.a_indices@[k1]
        < #[trigger] r.a_indices@[k2] && r.b_indices@[k1] < r.b_indices@[k2] by {
        assert(t[k1].0 < t[k2].0 && t[k1].1 < t[k2].1);
        assert(0 <= t[k1].0 && 0 <= t[k1].1 && t[k2].0 < a.len() && t[k2].1 < b.len());
    }
}

/// The k-th symbol of the subsequence stands at the k-th index of each list in
/// its sequence.
pub proof fn lemma_indices_match(a: Seq<char>, b: Seq<char>, r: &Res)
    requires
        is_lcs_result(a, b, r),
    ensures
        forall|k: int|
            0 <= k < r.solution@.len() ==> a[r.a_indices@[k] as int] == #[trigger] r.solution@[k]
                && b[r.b_indices@[k] as int] == r.solution@[k],
{
    let t = trace(a, b, a.len() as int, b.len() as int);
    lemma_trace_valid(a, b, a.len() as int, b.len() as int);
    assert forall|k: int| 0 <= k < r.solution@.len() implies a[r.a_indices@[k] as int]
        == #[trigger] r.solution@[k] && b[r.b_indices@[k] as int] == r.solution@[k] by {
        assert(0 <= t[k].0 < a.len() && 0 <= t[k].1 < b.len() && a[t[k].0] == b[t[k].1]);
    }
}

/// The subsequence is a subsequence of both inputs.
pub proof fn lemma_common_subsequence(a: Seq<char>, b: Seq<char>, r: &Res)
    requires
        is_lcs_result(a, b, r),
    ensures
        is_subsequence(r.solution@, a),
        is_subsequence(r.solution@, b),
{
    lemma_solution_length(a, b, r);
    lemma_indices_ascending(a, b, r);
    lemma_indices_match(a, b, r);
    let ia = r.a_indices@.map_values(|x: usize| x as int);
    let ib = r.b_indices@.map_values(|x: usize| x as int);
    assert(selects(ia, r.solution@, a));
    assert(selects(ib, r.solution@, b));
}

/// No common subsequence of the inputs is longer than the one computed.
pub proof fn lemma_solution_longest(a: Seq<char>, b: Seq<char>, r: &Res, s: Seq<char>)
    requires
        is_lcs_result(a, b, r),
        is_subsequence(s, a),
        is_subsequence(s, b),
    ensures
        s.len() <= r.solution@.len(),
{
    lemma_solution_length(a, b, r);
    let ia = choose|ia: Seq<int>| selects(ia, s, a);
    let ib = choose|ib: Seq<int>| selects(ib, s, b);
    assert(common_within(s, a, b, ia, ib, a.len() as int, b.len() as int));
    lemma_score_maximal(s, a, b, ia, ib, a.len() as int, b.len() as int);
}

/// Swapping the inputs keeps the length of the subsequence.
pub proof fn lemma_length_symmetric(a: Seq<char>, b: Seq<char>, r1: &Res, r2: &Res)
    requires
        is_lcs_result(a, b, r1),
        is_lcs_result(b, a, r2),
    ensures
        r1.solution@.len() == r2.solution@.len(),
{
    lemma_solution_length(a, b, r1);
    lemma_solution_length(b, a, r2);
    lemma_score_symmetric(a, b, a.len() as int, b.len() as int);
}

/// Two results for the same inputs agree in every part: the computation is
/// deterministic.
pub proof fn lemma_deterministic(a: Seq<char>, b: Seq<char>, r1: &Res, r2: &Res)
    requires
        is_lcs_result(a, b, r1),
        is_lcs_result(a, b, r2),
    ensures
        r1.solution@ == r2.solution@,
        r1.a_indices@ == r2.a_indices@,
        r1.b_indices@ == r2.b_indices@,
        r1.dp@.map_values(|row: Vec<usize>| row@) == r2.dp@.map_values(|row: Vec<usize>| row@),
        r1.breadcrumbs@.map_values(|row: Vec<crate::breadcrumb::Breadcrumb>| row@)
            == r2.breadcrumbs@.map_values(|row: Vec<crate::breadcrumb::Breadcrumb>| row@),
{
    let m = a.len() as int;
    let n = b.len() as int;
    let d1 = r1.dp@.map_values(|row: Vec<usize>| row@);
    let d2 = r2.dp@.map_values(|row: Vec<usize>| row@);
    assert forall|p: int| 0 <= p <= m implies #[trigger] d1[p] == d2[p] by {
        assert(d1[p] =~= d2[p]);
    }
    assert(d1 =~= d2);
    let c1 = r1.breadcrumbs@.map_values(|row: Vec<crate::breadcrumb::Breadcrumb>| row@);
    let c2 = r2.breadcrumbs@.map_values(|row: Vec<crate::breadcrumb::Breadcrumb>| row@);
    assert forall|p: int| 0 <= p <= m implies #[trigger] c1[p] == c2[p] by {
        assert(c1[p] =~= c2[p]);
    }
    assert(c1 =~= c2);
}

/// The border of both tables: score zero and the `Border` decision in row and
/// column zero, and never `Border` inside.
pub proof fn lemma_border(a: Seq<char>, b: Seq<char>, r: &Res)
    requires
        is_lcs_result(a, b, r),
    ensures
        forall|p: int, q: int|
            0 <= p <= a.len() && 0 <= q <= b.len() && (p == 0 || q == 0) ==> #[trigger] r.dp@[p]@[q]
                == 0,
        forall|p: int, q: int|
            0 <= p <= a.len() && 0 <= q <= b.len() ==> ((#[trigger] r.breadcrumbs@[p]@[q]).kind
                == BreadcrumbType::Border <==> (p == 0 || q == 0)),
{
}

/// With an empty first sequence the score is zero and nothing is selected.
pub proof fn lemma_empty_input(a: Seq<char>, b: Seq<char>, r: &Res)
    requires
        a.len() == 0,
        is_lcs_result(a, b, r),
    ensures
        r.dp@[0]@[b.len() as int] == 0,
        r.solution@.len() == 0,
        r.a_indices@.len() == 0,
        r.b_indices@.len() == 0,
{
}

/// A sequence against itself gives the whole sequence, taken at every index
/// on both sides.
pub proof fn lemma_self_match(a: Seq<char>, r: &Res)
    requires
        is_lcs_result(a, a, r),
    ensures
        r.solution@ == a,
        r.a_indices@ == Seq::new(a.len(), |k: int| k as usize),
        r.b_indices@ == Seq::new(a.len(), |k: int| k as usize),
{
    lemma_trace_self(a, a.len() as int);
    assert(r.solution@ =~= a);
    assert(r.a_indices@ =~= Seq::new(a.len(), |k: int| k as usize));
    assert(r.b_indices@ =~= Seq::new(a.len(), |k: int| k as usize));
}

/// Each inner cell of the score table agrees with its decision, and no cell
/// scores less than the cell above it or the cell to its left.
pub proof fn lemma_table_consistent(a: Seq<char>, b: Seq<char>, r: &Res)
    requires
        is_lcs_result(a, b, r),
    ensures
        forall|p: int, q: int|
            1 <= p <= a.len() && 1 <= q <= b.len() ==> {
                let s = #[trigger] r.dp@[p]@[q];
                &&& s >= r.dp@[p - 1]@[q]
                &&& s >= r.dp@[p]@[q - 1]
                &&& r.breadcrumbs@[p]@[q].kind == BreadcrumbType::Diagonal ==> a[p - 1] == b[q - 1]
                    && s == r.dp@[p - 1]@[q - 1] + 1
                &&& r.breadcrumbs@[p]@[q].kind == BreadcrumbType::Up ==> s == r.dp@[p - 1]@[q]
                &&& r.breadcrumbs@[p]@[q].kind == BreadcrumbType::Left ==> s == r.dp@[p]@[q - 1]
            },
{
    assert forall|p: int, q: int| 1 <= p <= a.len() && 1 <= q <= b.len() implies {
        let s = #[trigger] r.dp@[p]@[q];
        &&& s >= r.dp@[p - 1]@[q]
        &&& s >= r.dp@[p]@[q - 1]
        &&& r.breadcrumbs@[p]@[q].kind == BreadcrumbType::Diagonal ==> a[p - 1] == b[q - 1]
            && s == r.dp@[p - 1]@[q - 1] + 1
        &&& r.breadcrumbs@[p]@[q].kind == BreadcrumbType::Up ==> s == r.dp@[p - 1]@[q]
        &&& r.breadcrumbs@[p]@[q].kind == BreadcrumbType::Left ==> s == r.dp@[p]@[q - 1]
    } by {
        lemma_score_monotonic(a, b, p - 1, q, p, q);
        lemma_score_monotonic(a, b, p, q - 1, p, q);
        assert(r.dp@[p - 1]@[q] == lcs_score(a, b, p - 1, q));
        assert(r.dp@[p]@[q - 1] == lcs_score(a, b, p, q - 1));
        assert(r.dp@[p - 1]@[q - 1] == lcs_score(a, b, p - 1, q - 1));
    }
}

} // verus!
