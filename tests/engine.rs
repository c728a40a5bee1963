use lcs_engine::breadcrumb::{Breadcrumb, BreadcrumbType};
use lcs_engine::engine::{lcs, Res};

fn chars(s: &str) -> Vec<char> {
    s.chars().collect()
}

fn run(a: &str, b: &str) -> Res {
    lcs(&chars(a), &chars(b))
}

fn text(r: &Res) -> String {
    r.solution.iter().collect()
}

fn path_cells(r: &Res) -> Vec<(usize, usize)> {
    let mut cells = Vec::new();
    for (i, row) in r.breadcrumbs.iter().enumerate() {
        for (j, bc) in row.iter().enumerate() {
            if bc.in_solution {
                cells.push((i, j));
            }
        }
    }
    cells
}

fn check_common(a: &str, b: &str, r: &Res) {
    let a = chars(a);
    let b = chars(b);
    assert_eq!(r.solution.len(), r.a_indices.len());
    assert_eq!(r.solution.len(), r.b_indices.len());
    assert_eq!(r.solution.len(), r.dp[a.len()][b.len()]);
    for k in 0..r.solution.len() {
        assert_eq!(a[r.a_indices[k]], r.solution[k]);
        assert_eq!(b[r.b_indices[k]], r.solution[k]);
        if k > 0 {
            assert!(r.a_indices[k - 1] < r.a_indices[k]);
            assert!(r.b_indices[k - 1] < r.b_indices[k]);
        }
    }
}

#[test]
fn textbook_example() {
    let r = run("ABCBDAB", "BDCABA");
    assert_eq!(r.dp[7][6], 4);
    assert_eq!(text(&r), "BDAB");
    assert_eq!(r.a_indices, vec![3, 4, 5, 6]);
    assert_eq!(r.b_indices, vec![0, 1, 3, 4]);
    assert_eq!(r.dp[7], vec![0, 1, 2, 2, 3, 4, 4]);
    assert_eq!(r.dp[1], vec![0, 0, 0, 0, 1, 1, 1]);
    check_common("ABCBDAB", "BDCABA", &r);
}

#[test]
fn textbook_example_path() {
    let r = run("ABCBDAB", "BDCABA");
    assert_eq!(path_cells(&r), vec![(4, 1), (5, 2), (5, 3), (6, 4), (7, 5), (7, 6)]);
    assert_eq!(r.breadcrumbs[7][6].kind, BreadcrumbType::Left);
    assert_eq!(r.breadcrumbs[7][5].kind, BreadcrumbType::Diagonal);
    assert_eq!(r.breadcrumbs[5][3].kind, BreadcrumbType::Left);
    assert_eq!(r.breadcrumbs[3][1].kind, BreadcrumbType::Up);
}

#[test]
fn short_example() {
    let r = run("AGCAT", "GAC");
    assert_eq!(r.dp[5][3], 2);
    assert_eq!(text(&r), "GA");
    assert_eq!(r.a_indices, vec![1, 3]);
    assert_eq!(r.b_indices, vec![0, 1]);
    check_common("AGCAT", "GAC", &r);
}

#[test]
fn empty_first_sequence() {
    let r = run("", "XYZ");
    assert_eq!(r.dp, vec![vec![0, 0, 0, 0]]);
    assert!(r.solution.is_empty());
    assert!(r.a_indices.is_empty());
    assert!(r.b_indices.is_empty());
    assert_eq!(r.breadcrumbs.len(), 1);
    for bc in &r.breadcrumbs[0] {
        assert_eq!(*bc, Breadcrumb::new(BreadcrumbType::Border));
    }
}

#[test]
fn empty_second_sequence() {
    let r = run("XYZ", "");
    assert_eq!(r.dp, vec![vec![0], vec![0], vec![0], vec![0]]);
    assert!(r.solution.is_empty());
    assert!(r.a_indices.is_empty());
    assert!(r.b_indices.is_empty());
    assert!(path_cells(&r).is_empty());
}

#[test]
fn both_empty() {
    let r = run("", "");
    assert_eq!(r.dp, vec![vec![0]]);
    assert_eq!(r.breadcrumbs, vec![vec![Breadcrumb::new(BreadcrumbType::Border)]]);
    assert!(r.solution.is_empty());
}

#[test]
fn identical_sequences() {
    let r = run("HELLO", "HELLO");
    assert_eq!(text(&r), "HELLO");
    assert_eq!(r.a_indices, vec![0, 1, 2, 3, 4]);
    assert_eq!(r.b_indices, vec![0, 1, 2, 3, 4]);
    assert_eq!(r.dp[5][5], 5);
    assert_eq!(path_cells(&r), vec![(1, 1), (2, 2), (3, 3), (4, 4), (5, 5)]);
}

#[test]
fn no_common_symbols() {
    let r = run("ABC", "DEF");
    for row in &r.dp {
        assert!(row.iter().all(|&s| s == 0));
    }
    assert!(r.solution.is_empty());
    assert!(r.a_indices.is_empty());
    assert!(r.b_indices.is_empty());
    assert_eq!(path_cells(&r), vec![(3, 1), (3, 2), (3, 3)]);
    assert_eq!(r.breadcrumbs[2][2].kind, BreadcrumbType::Left);
}

#[test]
fn ties_go_left() {
    let r = run("AB", "BA");
    assert_eq!(r.breadcrumbs[2][2].kind, BreadcrumbType::Left);
    assert_eq!(text(&r), "B");
    assert_eq!(r.a_indices, vec![1]);
    assert_eq!(r.b_indices, vec![0]);
}

#[test]
fn swapped_inputs_same_length() {
    let r1 = run("ABCBDAB", "BDCABA");
    let r2 = run("BDCABA", "ABCBDAB");
    assert_eq!(r1.solution.len(), r2.solution.len());
    assert_eq!(text(&r2), "BCBA");
    assert_eq!(r2.a_indices, vec![0, 2, 4, 5]);
    assert_eq!(r2.b_indices, vec![1, 2, 3, 5]);
    check_common("BDCABA", "ABCBDAB", &r2);
}

#[test]
fn repeated_runs_agree() {
    let r1 = run("AGGTAB", "GXTXAYB");
    let r2 = run("AGGTAB", "GXTXAYB");
    assert_eq!(r1.solution, r2.solution);
    assert_eq!(r1.a_indices, r2.a_indices);
    assert_eq!(r1.b_indices, r2.b_indices);
    assert_eq!(r1.dp, r2.dp);
    assert_eq!(r1.breadcrumbs, r2.breadcrumbs);
    assert_eq!(r1.dp[6][7], 4);
}

#[test]
fn border_cells_only_on_border() {
    let r = run("ABCBDAB", "BDCABA");
    assert_eq!(r.dp.len(), 8);
    assert_eq!(r.breadcrumbs.len(), 8);
    for i in 0..8 {
        assert_eq!(r.dp[i].len(), 7);
        assert_eq!(r.breadcrumbs[i].len(), 7);
        for j in 0..7 {
            let border = i == 0 || j == 0;
            assert_eq!(r.breadcrumbs[i][j].kind == BreadcrumbType::Border, border);
            if border {
                assert_eq!(r.dp[i][j], 0);
            } else {
                assert!(r.dp[i][j] >= r.dp[i - 1][j]);
                assert!(r.dp[i][j] >= r.dp[i][j - 1]);
            }
        }
    }
}

#[test]
fn unicode_symbols() {
    let r = run("αβγ", "βγδ");
    assert_eq!(text(&r), "βγ");
    assert_eq!(r.a_indices, vec![1, 2]);
    assert_eq!(r.b_indices, vec![0, 1]);
}

#[test]
fn breadcrumb_new_and_default() {
    let bc = Breadcrumb::new(BreadcrumbType::Diagonal);
    assert_eq!(bc.kind, BreadcrumbType::Diagonal);
    assert!(!bc.in_solution);
    assert_eq!(BreadcrumbType::default(), BreadcrumbType::Border);
}

#[test]
fn breadcrumb_arrows() {
    assert_eq!(Breadcrumb::new(BreadcrumbType::Up).arrow(), '↑');
    assert_eq!(Breadcrumb::new(BreadcrumbType::Left).arrow(), '←');
    assert_eq!(Breadcrumb::new(BreadcrumbType::Diagonal).arrow(), '↖');
    assert_eq!(Breadcrumb::new(BreadcrumbType::Border).arrow(), '·');
}
