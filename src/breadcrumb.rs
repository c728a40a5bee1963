use vstd::prelude::*;

verus! {

/// How the score of a table cell was derived from its neighbours.
#[derive(Clone, Copy, Debug, PartialEq, Eq, Structural)]
pub enum BreadcrumbType {
    /// The cell above: the last symbol of the first sequence was dropped.
    Up,
    /// The cell to the left: the last symbol of the second sequence was dropped.
    Left,
    /// The cell up and to the left: the two last symbols matched.
    Diagonal,
    /// A border cell, which is derived from nothing.
    Border,
}

impl Default for BreadcrumbType {
    fn default() -> (r: Self)
        ensures
            r == BreadcrumbType::Border,
    {
        BreadcrumbType::Border
    }
}

/// One cell of the decision table: the decision, and whether the cell lies on
/// the path that the reconstruction walked.
#[derive(Clone, Copy, Debug, PartialEq, Eq, Structural)]
pub struct Breadcrumb {
    pub kind: BreadcrumbType,
    pub in_solution: bool,
}

impl Breadcrumb {
    /// A cell with the given decision, not (yet) on the reconstructed path.
    pub fn new(kind: BreadcrumbType) -> (r: Self)
        ensures
            r.kind == kind,
            !r.in_solution,
    {
        Breadcrumb { kind, in_solution: false }
    }

    /// The arrow that shows the decision: up, left, up-left, or a dot on the border.
    pub fn arrow(&self) -> (c: char)
        ensures
            c == arrow_of(self.kind),
    {
        match self.kind {
            BreadcrumbType::Up => '↑',
            BreadcrumbType::Left => '←',
            BreadcrumbType::Diagonal => '↖',
            BreadcrumbType::Border => '·',
        }
    }
}

/// The arrow drawn for each decision.
pub open spec fn arrow_of(kind: BreadcrumbType) -> char {
    match kind {
        BreadcrumbType::Up => '↑',
        BreadcrumbType::Left => '←',
        BreadcrumbType::Diagonal => '↖',
        BreadcrumbType::Border => '·',
    }
}

} // verus!
