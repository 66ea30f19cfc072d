use summing_correction::read_levels::read_input;
use summing_correction::scheme::{BranchEntry, ObservationEntry, Scheme};
use summing_correction::transitions::{
    branch_matrix, check_scheme, find_branch, observed_branch, SchemeError, UndefinedTransition,
};

fn branch(from: usize, to: usize) -> BranchEntry {
    BranchEntry { line: 1, from, to, val: b"1.0".to_vec(), dval: b"0.0".to_vec() }
}

fn observation(from: usize, to: usize) -> ObservationEntry {
    ObservationEntry { line: 1, from, to, counts: b"100".to_vec(), dcounts: b"5".to_vec() }
}

fn three_levels() -> Scheme {
    let text = "Energy-Levels\n2000 1 0\n1000 0 0\n0 0 0\n\nB-Values\n0 1 1.0 0\n1 2 1.0 0\n\nObserved-Values\n0 1 100 5\n1 2 100 5\n0 2 10 1\n";
    read_input(text.as_bytes())
}

#[test]
fn later_branch_replaces_earlier() {
    let bs = vec![branch(2, 1), branch(2, 0), branch(2, 1)];
    assert_eq!(find_branch(&bs, 2, 1), Some(2));
    assert_eq!(find_branch(&bs, 2, 0), Some(1));
    assert_eq!(find_branch(&bs, 1, 0), None);
    assert_eq!(find_branch(&Vec::new(), 0, 0), None);
}

#[test]
fn matrix_marks_defined_entries() {
    let s = three_levels();
    let m = branch_matrix(s.levels.len(), &s.branches);
    assert_eq!(m.len(), 3);
    assert_eq!(m[0], vec![None, Some(0), None]);
    assert_eq!(m[1], vec![None, None, Some(1)]);
    assert_eq!(m[2], vec![None, None, None]);
    assert!(branch_matrix(0, &s.branches).is_empty());
}

#[test]
fn valid_scheme_passes_check() {
    assert_eq!(check_scheme(&three_levels()), Ok(()));
}

#[test]
fn branch_to_missing_level_is_refused() {
    let mut s = three_levels();
    s.branches.push(branch(3, 0));
    assert_eq!(check_scheme(&s), Err(SchemeError::BranchOutOfRange { branch: 2 }));
}

#[test]
fn branch_to_itself_is_refused() {
    let mut s = three_levels();
    s.branches.insert(0, branch(1, 1));
    s.branches.push(branch(7, 0));
    assert_eq!(check_scheme(&s), Err(SchemeError::SelfBranch { branch: 0 }));
}

#[test]
fn level_with_wrong_index_is_refused() {
    let mut s = three_levels();
    s.levels[1].idx = 2;
    s.branches.push(branch(9, 0));
    assert_eq!(check_scheme(&s), Err(SchemeError::LevelOutOfOrder { level: 1 }));
}

#[test]
fn observation_of_missing_level_is_refused() {
    let mut s = three_levels();
    s.observations.push(observation(0, 5));
    assert_eq!(check_scheme(&s), Err(SchemeError::ObservationOutOfRange { observation: 3 }));
}

#[test]
fn observation_without_branch_is_undefined() {
    let s = three_levels();
    assert_eq!(observed_branch(&s.branches, &s.observations[0]), Ok(0));
    assert_eq!(observed_branch(&s.branches, &s.observations[1]), Ok(1));
    assert_eq!(
        observed_branch(&s.branches, &s.observations[2]),
        Err(UndefinedTransition { from: 0, to: 2 })
    );
}

#[test]
fn reversed_pair_is_a_different_transition() {
    let s = three_levels();
    assert_eq!(
        observed_branch(&s.branches, &observation(1, 0)),
        Err(UndefinedTransition { from: 1, to: 0 })
    );
}
