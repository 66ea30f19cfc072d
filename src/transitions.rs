use vstd::prelude::*;
use crate::scheme::{BranchEntry, BranchView, ObservationEntry, Scheme, SchemeView};

verus! {

/// Position of the last branch from `from` to `to`: a later branch for the same
/// pair of levels replaces an earlier one.
pub open spec fn last_branch(bs: Seq<BranchView>, from: usize, to: usize) -> Option<usize>
    decreases bs.len(),
{
    if bs.len() == 0 {
        None
    } else if bs.last().from == from && bs.last().to == to {
        Some((bs.len() - 1) as usize)
    } else {
        last_branch(bs.drop_last(), from, to)
    }
}

pub open spec fn branch_views(branches: Seq<BranchEntry>) -> Seq<BranchView> {
    branches.map_values(|b: BranchEntry| b@)
}

/// Both ends of the branch are among the `n` levels of the scheme.
pub open spec fn branch_in_range(b: BranchView, n: nat) -> bool {
    b.from < n && b.to < n
}

/// The level at position `k` carries `k` as its index.
pub open spec fn level_ok(s: SchemeView, k: int) -> bool {
    s.levels[k].idx == k
}

/// The branch at position `k` joins two distinct levels of the scheme.
pub open spec fn branch_ok(s: SchemeView, k: int) -> bool {
    branch_in_range(s.branches[k], s.levels.len()) && s.branches[k].from != s.branches[k].to
}

/// The observation at position `k` joins two levels of the scheme.
pub open spec fn observation_ok(s: SchemeView, k: int) -> bool {
    s.observations[k].from < s.levels.len() && s.observations[k].to < s.levels.len()
}

/// Every level carries its position as index, every branch joins two distinct
/// levels of the scheme, and every observation two of its levels.
pub open spec fn scheme_valid(s: SchemeView) -> bool {
    &&& forall|k: int| 0 <= k < s.levels.len() ==> #[trigger] level_ok(s, k)
    &&& forall|k: int| 0 <= k < s.branches.len() ==> #[trigger] branch_ok(s, k)
    &&& forall|k: int| 0 <= k < s.observations.len() ==> #[trigger] observation_ok(s, k)
}

/// A level whose index is not its position, a reference to a level that the
/// scheme does not have, or a branch that leads from a level to itself; `branch` and `observation` are positions in
/// their sections, counted from 0.
#[derive(Debug, Clone, Copy, PartialEq, Eq, Structural)]
pub enum SchemeError {
    LevelOutOfOrder { level: usize },
    BranchOutOfRange { branch: usize },
    SelfBranch { branch: usize },
    ObservationOutOfRange { observation: usize },
}

/// An observation of a transition for which the scheme defines no branch.
#[derive(Debug, Clone, Copy, PartialEq, Eq, Structural)]
pub struct UndefinedTransition {
    pub from: usize,
    pub to: usize,
}

/// Position of the branch that defines the transition from `from` to `to`.
pub fn find_branch(branches: &Vec<BranchEntry>, from: usize, to: usize) -> (r: Option<usize>)
    ensures
        r == last_branch(branch_views(branches@), from, to),
        r is None <==> forall|k: int|
            0 <= k < branches@.len() ==> !(#[trigger] branches@[k].from == from && branches@[k].to
                == to),
        r matches Some(k) ==> k < branches@.len() && branches@[k as int].from == from
            && branches@[k as int].to == to,
{
    let ghost bs = branch_views(branches@);
    let mut k: usize = branches.len();
    proof {
        assert(bs.take(k as int) =~= bs);
    }
    while k > 0
        invariant
            k <= branches@.len(),
            bs == branch_views(branches@),
            last_branch(bs, from, to) == last_branch(bs.take(k as int), from, to),
            forall|j: int|
                k <= j < branches@.len() ==> !(#[trigger] branches@[j].from == from
                    && branches@[j].to == to),
        decreases k,
    {
        let b = &branches[k - 1];
        proof {
            let t = bs.take(k as int);
            assert(t.last() == b@);
            assert(t.drop_last() =~= bs.take(k - 1));
        }
        if b.from == from && b.to == to {
            return Some(k - 1);
        }
        k = k - 1;
    }
    proof {
        assert(bs.take(0) =~= Seq::<BranchView>::empty());
    }
    None
}

/// For each pair of the `n` levels, the position of the branch that defines the
/// transition from the first to the second, if any; indexed `[from][to]`.
pub fn branch_matrix(n: usize, branches: &Vec<BranchEntry>) -> (r: Vec<Vec<Option<usize>>>)
    ensures
        r@.len() == n,
        forall|j: int| 0 <= j < n ==> (#[trigger] r@[j])@.len() == n,
        forall|j: int, i: int|
            0 <= j < n && 0 <= i < n ==> (#[trigger] r@[j]@[i]) == last_branch(
                branch_views(branches@),
                j as usize,
                i as usize,
            ),
{
    let mut r: Vec<Vec<Option<usize>>> = Vec::new();
    let mut j: usize = 0;
    while j < n
        invariant
            j <= n,
            r@.len() == j,
            forall|jj: int| 0 <= jj < j ==> (#[trigger] r@[jj])@.len() == n,
            forall|jj: int, i: int|
                0 <= jj < j && 0 <= i < n ==> (#[trigger] r@[jj]@[i]) == last_branch(
                    branch_views(branches@),
                    jj as usize,
                    i as usize,
                ),
        decreases n - j,
    {
        let mut row: Vec<Option<usize>> = Vec::new();
        let mut i: usize = 0;
        while i < n
            invariant
                i <= n,
                row@.len() == i,
                forall|ii: int|
                    0 <= ii < i ==> (#[trigger] row@[ii]) == last_branch(
                        branch_views(branches@),
                        j,
                        ii as usize,
                    ),
            decreases n - i,
        {
            row.push(find_branch(branches, j, i));
            i = i + 1;
        }
        r.push(row);
        j = j + 1;
    }
    r
}

/// Checks that every level carries its position as index, that every branch
/// joins two distinct levels of the scheme and that every observation joins two
/// of its levels. Levels are checked first, then branches, then observations,
/// each section in file order; the first fault found is returned.
pub fn check_scheme(s: &Scheme) -> (r: Result<(), SchemeError>)
    ensures
        r is Ok <==> scheme_valid(s@),
        r matches Err(SchemeError::LevelOutOfOrder { level: k }) ==> k < s@.levels.len()
            && !level_ok(s@, k as int) && forall|j: int| 0 <= j < k ==> #[trigger] level_ok(s@, j),
        r matches Err(SchemeError::BranchOutOfRange { branch: k }) ==> k < s@.branches.len()
            && !branch_in_range(s@.branches[k as int], s@.levels.len())
            && (forall|j: int| 0 <= j < s@.levels.len() ==> #[trigger] level_ok(s@, j))
            && forall|j: int| 0 <= j < k ==> #[trigger] branch_ok(s@, j),
        r matches Err(SchemeError::SelfBranch { branch: k }) ==> k < s@.branches.len()
            && branch_in_range(s@.branches[k as int], s@.levels.len())
            && s@.branches[k as int].from == s@.branches[k as int].to
            && (forall|j: int| 0 <= j < s@.levels.len() ==> #[trigger] level_ok(s@, j))
            && forall|j: int| 0 <= j < k ==> #[trigger] branch_ok(s@, j),
        r matches Err(SchemeError::ObservationOutOfRange { observation: k }) ==> k
            < s@.observations.len() && !observation_ok(s@, k as int)
            && (forall|j: int| 0 <= j < s@.levels.len() ==> #[trigger] level_ok(s@, j))
            && (forall|j: int| 0 <= j < s@.branches.len() ==> #[trigger] branch_ok(s@, j))
            && forall|j: int| 0 <= j < k ==> #[trigger] observation_ok(s@, j),
{
    let ghost v = s@;
    let n = s.levels.len();
    let mut k: usize = 0;
    while k < n
        invariant
            v == s@,
            n == v.levels.len(),
            k <= n,
            forall|j: int| 0 <= j < k ==> #[trigger] level_ok(v, j),
        decreases n - k,
    {
        proof {
            assert(v.levels[k as int] == s.levels@[k as int]@);
        }
        if s.levels[k].idx != k {
            assert(!level_ok(v, k as int));
            return Err(SchemeError::LevelOutOfOrder { level: k });
        }
        k = k + 1;
    }
    let mut k: usize = 0;
    while k < s.branches.len()
        invariant
            v == s@,
            n == v.levels.len(),
            k <= v.branches.len(),
            forall|j: int| 0 <= j < v.levels.len() ==> #[trigger] level_ok(v, j),
            forall|j: int| 0 <= j < k ==> #[trigger] branch_ok(v, j),
        decreases v.branches.len() - k,
    {
        let b = &s.branches[k];
        proof {
            assert(v.branches[k as int] == b@);
        }
        if !(b.from < n && b.to < n) {
            assert(!branch_ok(v, k as int));
            return Err(SchemeError::BranchOutOfRange { branch: k });
        }
        if b.from == b.to {
            assert(!branch_ok(v, k as int));
            return Err(SchemeError::SelfBranch { branch: k });
        }
        k = k + 1;
    }
    let mut k: usize = 0;
    while k < s.observations.len()
        invariant
            v == s@,
            n == v.levels.len(),
            k <= v.observations.len(),
            forall|j: int| 0 <= j < v.levels.len() ==> #[trigger] level_ok(v, j),
            forall|j: int| 0 <= j < v.branches.len() ==> #[trigger] branch_ok(v, j),
            forall|j: int| 0 <= j < k ==> #[trigger] observation_ok(v, j),
        decreases v.observations.len() - k,
    {
        let o = &s.observations[k];
        proof {
            assert(v.observations[k as int] == o@);
        }
        if !(o.from < n && o.to < n) {
            assert(!observation_ok(v, k as int));
            return Err(SchemeError::ObservationOutOfRange { observation: k });
        }
        k = k + 1;
    }
    Ok(())
}

/// The branch that an observation measures; an observation of a transition
/// that no branch defines is refused.
pub fn observed_branch(branches: &Vec<BranchEntry>, o: &ObservationEntry) -> (r: Result<
    usize,
    UndefinedTransition,
>)
    ensures
        r is Err <==> last_branch(branch_views(branches@), o.from, o.to) is None,
        r is Err <==> forall|k: int|
            0 <= k < branches@.len() ==> !(#[trigger] branches@[k].from == o.from
                && branches@[k].to == o.to),
        r matches Ok(k) ==> Some(k) == last_branch(branch_views(branches@), o.from, o.to),
        r matches Err(e) ==> e.from == o.from && e.to == o.to,
{
    match find_branch(branches, o.from, o.to) {
        Some(k) => Ok(k),
        None => Err(UndefinedTransition { from: o.from, to: o.to }),
    }
}

} // verus!
