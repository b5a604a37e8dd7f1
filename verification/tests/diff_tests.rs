use riff::diff::{diff, longest_common_subsequence, Change, DiffError, Matrix};

#[test]
fn test_diff_empty() -> Result<(), DiffError> {
    let left = [0u32; 0];
    let right = [0u32; 0];

    let changes = diff(&left, &right)?;
    assert_eq!(changes, vec![]);
    Ok(())
}

#[test]
fn test_diff_same() -> Result<(), DiffError> {
    let left = [0, 1, 2];
    let right = [0, 1, 2];

    let changes = diff(&left, &right)?;
    assert_eq!(
        changes,
        vec![Change::Same(&0), Change::Same(&1), Change::Same(&2)]
    );
    Ok(())
}

#[test]
fn test_diff_added() -> Result<(), DiffError> {
    let left = [];
    let right = [0, 1, 2];

    let changes = diff(&left, &right)?;
    assert_eq!(
        changes,
        vec![Change::Added(&0), Change::Added(&1), Change::Added(&2),]
    );
    Ok(())
}

#[test]
fn test_diff_removed() -> Result<(), DiffError> {
    let left = [0, 1, 2];
    let right = [];

    let changes = diff(&left, &right)?;
    assert_eq!(
        changes,
        vec![
            Change::Removed(&0),
            Change::Removed(&1),
            Change::Removed(&2),
        ]
    );
    Ok(())
}

#[test]
fn test_diff_modified() -> Result<(), DiffError> {
    let left = ["hey", "my", "name", "is"];
    let right = ["hey", "mister", "nae", "say"];

    let changes = diff(&left, &right)?;
    assert_eq!(
        changes,
        vec![
            Change::Same(&"hey"),
            Change::Removed(&"my"),
            Change::Removed(&"name"),
            Change::Removed(&"is"),
            Change::Added(&"mister"),
            Change::Added(&"nae"),
            Change::Added(&"say"),
        ]
    );
    Ok(())
}

#[test]
fn test_diff_mixed() -> Result<(), DiffError> {
    let left = ["sphinx", "of", "black", "quartz", "judge", "my", "vow"];
    let right = ["sphinx", "offer", "black", "quartz", "my", "jughead", "vow"];

    let changes = diff(&left, &right)?;
    assert_eq!(
        changes,
        vec![
            Change::Same(&"sphinx"),
            Change::Removed(&"of"),
            Change::Added(&"offer"),
            Change::Same(&"black"),
            Change::Same(&"quartz"),
            Change::Removed(&"judge"),
            Change::Same(&"my"),
            Change::Added(&"jughead"),
            Change::Same(&"vow"),
        ]
    );
    Ok(())
}

#[test]
fn test_diff_nothing_in_common() -> Result<(), DiffError> {
    let left = [1, 2, 5, 6];
    let right = [3, 4, 7, 8];

    let changes = diff(&left, &right)?;
    assert_eq!(
        changes,
        vec![
            Change::Removed(&1),
            Change::Removed(&2),
            Change::Removed(&5),
            Change::Removed(&6),
            Change::Added(&3),
            Change::Added(&4),
            Change::Added(&7),
            Change::Added(&8),
        ]
    );
    Ok(())
}

#[test]
fn test_diff_match_after_first_right_token() -> Result<(), DiffError> {
    let left = ["a"];
    let right = ["b", "a"];

    let changes = diff(&left, &right)?;
    assert_eq!(changes, vec![Change::Added(&"b"), Change::Same(&"a")]);
    Ok(())
}

#[test]
fn test_diff_tie_lists_removal_first() -> Result<(), DiffError> {
    let left = ["x"];
    let right = ["y"];

    let changes = diff(&left, &right)?;
    assert_eq!(changes, vec![Change::Removed(&"x"), Change::Added(&"y")]);
    Ok(())
}

#[test]
fn test_diff_of_a_sequence_with_itself_keeps_everything() -> Result<(), DiffError> {
    let tokens: Vec<String> = vec!["a", "b", "a", "c", "b"]
        .into_iter()
        .map(String::from)
        .collect();

    let changes = diff(&tokens, &tokens)?;
    let expected: Vec<Change<&String>> = tokens.iter().map(Change::Same).collect();
    assert_eq!(changes, expected);
    Ok(())
}

#[test]
fn test_diff_accounts_for_every_token() -> Result<(), DiffError> {
    let left = [3, 1, 4, 1, 5, 9, 2, 6];
    let right = [2, 7, 1, 8, 2, 8, 1];

    let changes = diff(&left, &right)?;
    let removed = changes
        .iter()
        .filter(|c| matches!(c, Change::Removed(_)))
        .count();
    let added = changes
        .iter()
        .filter(|c| matches!(c, Change::Added(_)))
        .count();
    let same = changes
        .iter()
        .filter(|c| matches!(c, Change::Same(_)))
        .count();
    assert_eq!(removed + same, left.len());
    assert_eq!(added + same, right.len());
    assert_eq!(same, 2);
    assert_eq!(changes.len() + same, left.len() + right.len());

    let from_left: Vec<i32> = changes
        .iter()
        .filter(|c| !matches!(c, Change::Added(_)))
        .map(|c| **c.get())
        .collect();
    let from_right: Vec<i32> = changes
        .iter()
        .filter(|c| !matches!(c, Change::Removed(_)))
        .map(|c| **c.get())
        .collect();
    assert_eq!(from_left, left.to_vec());
    assert_eq!(from_right, right.to_vec());
    Ok(())
}

#[test]
fn test_change_get() {
    assert_eq!(*Change::Removed(7).get(), 7);
    assert_eq!(*Change::Added("x").get(), "x");
    assert_eq!(*Change::Same(0u8).get(), 0u8);
}

#[test]
fn test_longest_common_subsequence_table() {
    let left = ["a", "b", "c", "b"];
    let right = ["b", "c", "a", "b"];

    let lengths = longest_common_subsequence(&left, &right);
    assert_eq!(lengths.rows(), 5);
    assert_eq!(lengths.columns(), 5);
    let expected = [
        [0, 0, 0, 0, 0],
        [0, 0, 0, 1, 1],
        [0, 1, 1, 1, 2],
        [0, 1, 2, 2, 2],
        [0, 1, 2, 2, 3],
    ];
    for i in 0..5 {
        for j in 0..5 {
            assert_eq!(lengths.get(i, j), expected[i][j]);
        }
    }
}

#[test]
fn test_longest_common_subsequence_of_one_token_each() {
    let lengths = longest_common_subsequence(&[1], &[1]);
    assert_eq!(lengths.rows(), 2);
    assert_eq!(lengths.columns(), 2);
    assert_eq!(lengths.get(0, 0), 0);
    assert_eq!(lengths.get(0, 1), 0);
    assert_eq!(lengths.get(1, 0), 0);
    assert_eq!(lengths.get(1, 1), 1);

    let lengths = longest_common_subsequence(&[1], &[2]);
    assert_eq!(lengths.get(1, 1), 0);
}

/// A token whose `==` answers `false` the first time it is asked and `true`
/// from then on.
struct Fickle<'a> {
    asked: &'a std::cell::Cell<u32>,
}

impl<'a> PartialEq for Fickle<'a> {
    fn eq(&self, _other: &Fickle<'a>) -> bool {
        let asked = self.asked.get();
        self.asked.set(asked + 1);
        asked > 0
    }
}

#[test]
fn test_diff_reports_a_fickle_comparison() {
    let asked = std::cell::Cell::new(0);
    let left = [Fickle { asked: &asked }];
    let right = [Fickle { asked: &asked }];

    let result = diff(&left, &right);
    assert!(matches!(result, Err(DiffError::BacktrackingFailed)));
    assert_eq!(DiffError::BacktrackingFailed.to_string(), "Backtracking failed.");
}

#[test]
fn test_matrix_new_get_set() {
    let mut matrix = Matrix::new(2, 3);
    assert_eq!(matrix.rows(), 2);
    assert_eq!(matrix.columns(), 3);
    for i in 0..2 {
        for j in 0..3 {
            assert_eq!(matrix.get(i, j), 0);
        }
    }

    matrix.set(1, 2, 7);
    matrix.set(0, 1, 5);
    let expected = [[0, 5, 0], [0, 0, 7]];
    for i in 0..2 {
        for j in 0..3 {
            assert_eq!(matrix.get(i, j), expected[i][j]);
        }
    }
    assert_eq!(matrix.rows(), 2);
    assert_eq!(matrix.columns(), 3);

    let empty = Matrix::new(0, 4);
    assert_eq!(empty.rows(), 0);
    assert_eq!(empty.columns(), 4);
}

#[test]
fn test_longest_common_subsequence_of_nothing() {
    let left: [u8; 0] = [];
    let right = [1u8, 2];
    let lengths = longest_common_subsequence(&left, &right);
    assert_eq!(lengths.rows(), 1);
    assert_eq!(lengths.columns(), 3);
    for j in 0..3 {
        assert_eq!(lengths.get(0, j), 0);
    }

    let lengths = longest_common_subsequence(&right, &left);
    assert_eq!(lengths.rows(), 3);
    assert_eq!(lengths.columns(), 1);
    for i in 0..3 {
        assert_eq!(lengths.get(i, 0), 0);
    }
}
