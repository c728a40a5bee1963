use vstd::prelude::*;
use crate::breadcrumb::{Breadcrumb, BreadcrumbType};
use crate::model::{
    decision,
    lcs_score,
    lemma_on_path_bounded,
    lemma_on_path_transitive,
    lemma_score_bounded,
    on_path,
    trace,
};

verus! {

/// What one computation hands back: the reconstructed subsequence, the
/// positions in each input that it was taken from, the score table and the
/// decision table (with the reconstructed path marked).
pub struct Res {
    pub solution: Vec<char>,
    pub a_indices: Vec<usize>,
    pub b_indices: Vec<usize>,
    pub dp: Vec<Vec<usize>>,
    pub breadcrumbs: Vec<Vec<Breadcrumb>>,
}

/// The cell `(p, q)` of a decision table computed for `a` and `b` holds the
/// decision of the recurrence, marked when backtracking from `(m, n)` visits it.
pub open spec fn cell_of(a: Seq<char>, b: Seq<char>, p: int, q: int) -> Breadcrumb {
    Breadcrumb {
        kind: decision(a, b, p, q),
        in_solution: on_path(a, b, a.len() as int, b.len() as int, p, q),
    }
}

/// `r` is the result of the computation on `a` and `b` (whose lengths fit in
/// `usize` with one to spare): both tables have
/// `(a.len() + 1) x (b.len() + 1)` cells holding the scores and decisions of the
/// recurrence, exactly the cells visited by backtracking from the last cell are
/// marked, and the subsequence and index lists are what backtracking collects,
/// in forward order.
pub open spec fn is_lcs_result(a: Seq<char>, b: Seq<char>, r: &Res) -> bool {
    let m = a.len() as int;
    let n = b.len() as int;
    let t = trace(a, b, m, n);
    &&& m < usize::MAX
    &&& n < usize::MAX
    &&& r.dp@.len() == m + 1
    &&& r.breadcrumbs@.len() == m + 1
    &&& forall|p: int| 0 <= p <= m ==> (#[trigger] r.dp@[p])@.len() == n + 1
    &&& forall|p: int| 0 <= p <= m ==> (#[trigger] r.breadcrumbs@[p])@.len() == n + 1
    &&& forall|p: int, q: int|
        0 <= p <= m && 0 <= q <= n ==> #[trigger] r.dp@[p]@[q] == lcs_score(a, b, p, q)
    &&& forall|p: int, q: int|
        0 <= p <= m && 0 <= q <= n ==> #[trigger] r.breadcrumbs@[p]@[q] == cell_of(a, b, p, q)
    &&& r.solution@ == t.map_values(|pq: (int, int)| a[pq.0])
    &&& r.a_indices@ == t.map_values(|pq: (int, int)| pq.0 as usize)
    &&& r.b_indices@ == t.map_values(|pq: (int, int)| pq.1 as usize)
}

/// Fills the score and decision tables for `a` and `b`, row by row.
fn build_tables(a: &[char], b: &[char]) -> (r: (Vec<Vec<usize>>, Vec<Vec<Breadcrumb>>))
    requires
        a@.len() < usize::MAX,
        b@.len() < usize::MAX,
    ensures
        r.0@.len() == a@.len() + 1,
        r.1@.len() == a@.len() + 1,
        forall|p: int| 0 <= p <= a@.len() ==> (#[trigger] r.0@[p])@.len() == b@.len() + 1,
        forall|p: int| 0 <= p <= a@.len() ==> (#[trigger] r.1@[p])@.len() == b@.len() + 1,
        forall|p: int, q: int|
            0 <= p <= a@.len() && 0 <= q <= b@.len() ==> #[trigger] r.0@[p]@[q] == lcs_score(
                a@,
                b@,
                p,
                q,
            ),
        forall|p: int, q: int|
            0 <= p <= a@.len() && 0 <= q <= b@.len() ==> #[trigger] r.1@[p]@[q] == (Breadcrumb {
                kind: decision(a@, b@, p, q),
                in_solution: false,
            }),
{
    let m = a.len();
    let n = b.len();
    let mut dp: Vec<Vec<usize>> = Vec::with_capacity(m + 1);
    let mut breadcrumbs: Vec<Vec<Breadcrumb>> = Vec::with_capacity(m + 1);

    // The first row is all border.
    let mut row: Vec<usize> = Vec::with_capacity(n + 1);
    let mut crumbs: Vec<Breadcrumb> = Vec::with_capacity(n + 1);
    for j in 0..n + 1
        invariant
            row@.len() == j,
            crumbs@.len() == j,
            forall|q: int| 0 <= q < j ==> #[trigger] row@[q] == 0,
            forall|q: int|
                0 <= q < j ==> #[trigger] crumbs@[q] == (Breadcrumb {
                    kind: BreadcrumbType::Border,
                    in_solution: false,
                }),
    {
        row.push(0);
        crumbs.push(Breadcrumb::new(BreadcrumbType::Border));
    }
    dp.push(row);
    breadcrumbs.push(crumbs);

    // Each further row starts on the border and extends the row above.
    for i in 1..m + 1
        invariant
            m == a@.len(),
            n == b@.len(),
            n < usize::MAX,
            dp@.len() == i,
            breadcrumbs@.len() == i,
            forall|p: int| 0 <= p < i ==> (#[trigger] dp@[p])@.len() == n + 1,
            forall|p: int| 0 <= p < i ==> (#[trigger] breadcrumbs@[p])@.len() == n + 1,
            forall|p: int, q: int|
                0 <= p < i && 0 <= q <= n ==> #[trigger] dp@[p]@[q] == lcs_score(a@, b@, p, q),
            forall|p: int, q: int|
                0 <= p < i && 0 <= q <= n ==> #[trigger] breadcrumbs@[p]@[q] == (Breadcrumb {
                    kind: decision(a@, b@, p, q),
                    in_solution: false,
                }),
    {
        let mut row: Vec<usize> = Vec::with_capacity(n + 1);
        let mut crumbs: Vec<Breadcrumb> = Vec::with_capacity(n + 1);
        row.push(0);
        crumbs.push(Breadcrumb::new(BreadcrumbType::Border));
        for j in 1..n + 1
            invariant
                1 <= i <= m,
                m == a@.len(),
                n == b@.len(),
                dp@.len() == i,
                forall|p: int| 0 <= p < i ==> (#[trigger] dp@[p])@.len() == n + 1,
                forall|p: int, q: int|
                    0 <= p < i && 0 <= q <= n ==> #[trigger] dp@[p]@[q] == lcs_score(a@, b@, p, q),
                row@.len() == j,
                crumbs@.len() == j,
                forall|q: int| 0 <= q < j ==> #[trigger] row@[q] == lcs_score(a@, b@, i as int, q),
                forall|q: int|
                    0 <= q < j ==> #[trigger] crumbs@[q] == (Breadcrumb {
                        kind: decision(a@, b@, i as int, q),
                        in_solution: false,
                    }),
        {
            let above = dp[i - 1][j];
            let left = row[j - 1];
            if a[i - 1] == b[j - 1] {
                let prev = dp[i - 1][j - 1];
                proof {
                    lemma_score_bounded(a@, b@, i - 1, j - 1);
                }
                row.push(prev + 1);
                crumbs.push(Breadcrumb::new(BreadcrumbType::Diagonal));
            } else if above > left {
                row.push(above);
                crumbs.push(Breadcrumb::new(BreadcrumbType::Up));
            } else {
                row.push(left);
                crumbs.push(Breadcrumb::new(BreadcrumbType::Left));
            }
        }
        dp.push(row);
        breadcrumbs.push(crumbs);
    }
    (dp, breadcrumbs)
}

/// Computes the longest common subsequence of `a` and `b`: the score table,
/// the decision table, and one optimal subsequence reconstructed by walking
/// the decisions back from the last cell, with the positions in `a` and in `b`
/// that it was taken from.
pub fn lcs(a: &[char], b: &[char]) -> (res: Res)
    requires
        a@.len() < usize::MAX,
        b@.len() < usize::MAX,
    ensures
        is_lcs_result(a@, b@, &res),
{
    let m = a.len();
    let n = b.len();
    let (dp, mut breadcrumbs) = build_tables(a, b);

    let mut i = m;
    let mut j = n;
    let mut rev_solution: Vec<char> = Vec::new();
    let mut rev_a: Vec<usize> = Vec::new();
    let mut rev_b: Vec<usize> = Vec::new();
    // The pairs collected so far, in forward order.
    let ghost mut done: Seq<(int, int)> = Seq::empty();

    while i > 0 && j > 0
        invariant
            m == a@.len(),
            n == b@.len(),
            i <= m,
            j <= n,
            breadcrumbs@.len() == m + 1,
            forall|p: int| 0 <= p <= m ==> (#[trigger] breadcrumbs@[p])@.len() == n + 1,
            forall|p: int, q: int|
                0 <= p <= m && 0 <= q <= n ==> (#[trigger] breadcrumbs@[p]@[q]).kind == decision(
                    a@,
                    b@,
                    p,
                    q,
                ),
            forall|p: int, q: int|
                0 <= p <= m && 0 <= q <= n ==> (#[trigger] breadcrumbs@[p]@[q]).in_solution == (
                on_path(a@, b@, m as int, n as int, p, q) && !on_path(a@, b@, i as int, j as int, p, q)),
            i > 0 && j > 0 ==> on_path(a@, b@, m as int, n as int, i as int, j as int),
            trace(a@, b@, i as int, j as int) + done == trace(a@, b@, m as int, n as int),
            rev_solution@.len() == done.len(),
            rev_a@.len() == done.len(),
            rev_b@.len() == done.len(),
            forall|k: int|
                0 <= k < done.len() ==> #[trigger] rev_solution@[k] == a@[done[done.len() - 1 - k].0],
            forall|k: int|
                0 <= k < done.len() ==> #[trigger] rev_a@[k] == done[done.len() - 1 - k].0 as usize,
            forall|k: int|
                0 <= k < done.len() ==> #[trigger] rev_b@[k] == done[done.len() - 1 - k].1 as usize,
        decreases i + j,
    {
        let ghost (pi, pj) = (i as int, j as int);
        let kind = breadcrumbs[i][j].kind;
        assert(kind == decision(a@, b@, pi, pj));
        breadcrumbs[i][j].in_solution = true;
        match kind {
            BreadcrumbType::Diagonal => {
                rev_solution.push(a[i - 1]);
                rev_a.push(i - 1);
                rev_b.push(j - 1);
                proof {
                    assert(trace(a@, b@, pi - 1, pj - 1) + (seq![(pi - 1, pj - 1)] + done)
                        =~= trace(a@, b@, pi, pj) + done);
                    done = seq![(pi - 1, pj - 1)] + done;
                }
                i -= 1;
                j -= 1;
            },
            BreadcrumbType::Up => {
                i -= 1;
            },
            _ => {
                j -= 1;
            },
        }
        proof {
            assert forall|p: int, q: int| 0 <= p <= m && 0 <= q <= n implies
                (#[trigger] breadcrumbs@[p]@[q]).in_solution == (
                on_path(a@, b@, m as int, n as int, p, q) && !on_path(a@, b@, i as int, j as int, p, q))
            by {
                if on_path(a@, b@, i as int, j as int, pi, pj) {
                    lemma_on_path_bounded(a@, b@, i as int, j as int, pi, pj);
                }
            }
            if i > 0 && j > 0 {
                assert(on_path(a@, b@, i as int, j as int, i as int, j as int));
                assert(on_path(a@, b@, pi, pj, i as int, j as int));
                lemma_on_path_transitive(a@, b@, m as int, n as int, pi, pj, i as int, j as int);
            }
        }
    }

    // Backtracking collected everything last first; turn it around.
    let len = rev_a.len();
    let mut solution: Vec<char> = Vec::with_capacity(len);
    let mut a_indices: Vec<usize> = Vec::with_capacity(len);
    let mut b_indices: Vec<usize> = Vec::with_capacity(len);
    let mut k: usize = len;
    while k > 0
        invariant
            k <= len,
            len == done.len(),
            rev_solution@.len() == len,
            rev_a@.len() == len,
            rev_b@.len() == len,
            forall|t: int| 0 <= t < len ==> #[trigger] rev_solution@[t] == a@[done[len - 1 - t].0],
            forall|t: int| 0 <= t < len ==> #[trigger] rev_a@[t] == done[len - 1 - t].0 as usize,
            forall|t: int| 0 <= t < len ==> #[trigger] rev_b@[t] == done[len - 1 - t].1 as usize,
            solution@.len() == len - k,
            a_indices@.len() == len - k,
            b_indices@.len() == len - k,
            forall|t: int| 0 <= t < len - k ==> #[trigger] solution@[t] == a@[done[t].0],
            forall|t: int| 0 <= t < len - k ==> #[trigger] a_indices@[t] == done[t].0 as usize,
            forall|t: int| 0 <= t < len - k ==> #[trigger] b_indices@[t] == done[t].1 as usize,
        decreases k,
    {
        k -= 1;
        solution.push(rev_solution[k]);
        a_indices.push(rev_a[k]);
        b_indices.push(rev_b[k]);
    }
    proof {
        assert(done =~= trace(a@, b@, m as int, n as int));
        assert(solution@ =~= done.map_values(|pq: (int, int)| a@[pq.0]));
        assert(a_indices@ =~= done.map_values(|pq: (int, int)| pq.0 as usize));
        assert(b_indices@ =~= done.map_values(|pq: (int, int)| pq.1 as usize));
    }
    Res { solution, a_indices, b_indices, dp, breadcrumbs }
}

} // verus!
