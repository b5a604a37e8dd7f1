use riff::diff::{diff, Change, ChangeType, DiffError};
use riff::hunk::{get_hunks, Hunk};

#[test]
fn hunk_test_get_hunks() {
    let changes = vec![
        Change::Added(&1),
        Change::Same(&2),
        Change::Same(&3),
        Change::Removed(&4),
    ];

    let hunks: Vec<Hunk<i32>> = get_hunks(&changes);
    assert_eq!(
        hunks,
        vec![
            Hunk {
                left_line: 0,
                right_line: 1,
                additions: vec![&1],
                removals: vec![],
                unchanged: vec![],
            },
            Hunk {
                left_line: 1,
                right_line: 2,
                additions: vec![],
                removals: vec![],
                unchanged: vec![&2, &3],
            },
            Hunk {
                left_line: 3,
                right_line: 3,
                additions: vec![],
                removals: vec![&4],
                unchanged: vec![],
            },
        ]
    );
}

#[test]
fn test_get_hunks_of_nothing() {
    let changes: Vec<Change<&i32>> = vec![];
    let hunks = get_hunks(&changes);
    assert_eq!(hunks, vec![]);
}

#[test]
fn test_get_hunks_of_equal_sequences() -> Result<(), DiffError> {
    let left = [0, 1, 2];
    let right = [0, 1, 2];

    let changes = diff(&left, &right)?;
    let hunks = get_hunks(&changes);
    assert_eq!(
        hunks,
        vec![Hunk {
            left_line: 1,
            right_line: 1,
            additions: vec![],
            removals: vec![],
            unchanged: vec![&0, &1, &2],
        }]
    );
    Ok(())
}

#[test]
fn test_get_hunks_of_modified() -> Result<(), DiffError> {
    let left = ["hey", "my", "name", "is"];
    let right = ["hey", "mister", "nae", "say"];

    let changes = diff(&left, &right)?;
    let hunks = get_hunks(&changes);
    assert_eq!(
        hunks,
        vec![
            Hunk {
                left_line: 1,
                right_line: 1,
                additions: vec![],
                removals: vec![],
                unchanged: vec![&"hey"],
            },
            Hunk {
                left_line: 2,
                right_line: 2,
                additions: vec![&"mister", &"nae", &"say"],
                removals: vec![&"my", &"name", &"is"],
                unchanged: vec![],
            },
        ]
    );
    assert!(hunks[0].is_same());
    assert!(!hunks[1].is_same());
    assert_eq!(hunks[1].change_type(), ChangeType::Changed);
    assert_eq!(hunks[1].left_interval(), (2, 4));
    assert_eq!(hunks[1].right_interval(), (2, 4));
    Ok(())
}

#[test]
fn test_get_hunks_of_mixed() -> Result<(), DiffError> {
    let left = ["sphinx", "of", "black", "quartz", "judge", "my", "vow"];
    let right = ["sphinx", "offer", "black", "quartz", "my", "jughead", "vow"];

    let changes = diff(&left, &right)?;
    let hunks = get_hunks(&changes);
    assert_eq!(
        hunks,
        vec![
            Hunk {
                left_line: 1,
                right_line: 1,
                additions: vec![],
                removals: vec![],
                unchanged: vec![&"sphinx"],
            },
            Hunk {
                left_line: 2,
                right_line: 2,
                additions: vec![&"offer"],
                removals: vec![&"of"],
                unchanged: vec![],
            },
            Hunk {
                left_line: 3,
                right_line: 3,
                additions: vec![],
                removals: vec![],
                unchanged: vec![&"black", &"quartz"],
            },
            Hunk {
                left_line: 5,
                right_line: 4,
                additions: vec![],
                removals: vec![&"judge"],
                unchanged: vec![],
            },
            Hunk {
                left_line: 6,
                right_line: 5,
                additions: vec![],
                removals: vec![],
                unchanged: vec![&"my"],
            },
            Hunk {
                left_line: 6,
                right_line: 6,
                additions: vec![&"jughead"],
                removals: vec![],
                unchanged: vec![],
            },
            Hunk {
                left_line: 7,
                right_line: 7,
                additions: vec![],
                removals: vec![],
                unchanged: vec![&"vow"],
            },
        ]
    );
    Ok(())
}

#[test]
fn test_get_hunks_gathers_interleaved_edits() {
    let changes = vec![
        Change::Added(&1),
        Change::Removed(&2),
        Change::Added(&3),
        Change::Removed(&4),
    ];

    let hunks = get_hunks(&changes);
    assert_eq!(
        hunks,
        vec![Hunk {
            left_line: 1,
            right_line: 1,
            additions: vec![&1, &3],
            removals: vec![&2, &4],
            unchanged: vec![],
        }]
    );
}

#[test]
fn test_hunk_queries() {
    let added: Hunk<i32> = Hunk {
        left_line: 4,
        right_line: 5,
        additions: vec![&1, &2],
        removals: vec![],
        unchanged: vec![],
    };
    assert!(!added.is_same());
    assert!(added.is_addition());
    assert!(!added.is_removal());
    assert!(!added.is_change());
    assert_eq!(added.change_type(), ChangeType::Added);
    assert_eq!(added.left_interval(), (4, 4));
    assert_eq!(added.right_interval(), (5, 6));

    let deleted: Hunk<i32> = Hunk {
        left_line: 3,
        right_line: 2,
        additions: vec![],
        removals: vec![&7, &8, &9],
        unchanged: vec![],
    };
    assert!(!deleted.is_same());
    assert!(!deleted.is_addition());
    assert!(deleted.is_removal());
    assert!(!deleted.is_change());
    assert_eq!(deleted.change_type(), ChangeType::Deleted);
    assert_eq!(deleted.left_interval(), (3, 5));
    assert_eq!(deleted.right_interval(), (2, 2));

    let changed: Hunk<i32> = Hunk {
        left_line: 1,
        right_line: 1,
        additions: vec![&1],
        removals: vec![&2],
        unchanged: vec![],
    };
    assert!(changed.is_change());
    assert_eq!(changed.change_type(), ChangeType::Changed);
    assert_eq!(changed.left_interval(), (1, 1));
    assert_eq!(changed.right_interval(), (1, 1));

    let same: Hunk<i32> = Hunk {
        left_line: 1,
        right_line: 1,
        additions: vec![],
        removals: vec![],
        unchanged: vec![&5],
    };
    assert!(same.is_same());
    assert!(!same.is_change());
    assert_eq!(same.change_type(), ChangeType::Deleted);
}

#[test]
fn test_interval_at_the_largest_line() {
    let last: Hunk<i32> = Hunk {
        left_line: usize::MAX,
        right_line: usize::MAX - 1,
        additions: vec![&1, &2],
        removals: vec![&3],
        unchanged: vec![],
    };
    assert_eq!(last.left_interval(), (usize::MAX, usize::MAX));
    assert_eq!(last.right_interval(), (usize::MAX - 1, usize::MAX));
}

#[test]
fn test_hunks_spell_out_both_inputs() -> Result<(), DiffError> {
    let left = [3, 1, 4, 1, 5, 9, 2, 6];
    let right = [2, 7, 1, 8, 2, 8, 1];

    let changes = diff(&left, &right)?;
    let hunks = get_hunks(&changes);

    let mut from_left: Vec<i32> = Vec::new();
    let mut from_right: Vec<i32> = Vec::new();
    let mut left_seen = 0;
    let mut right_seen = 0;
    let mut last_left_line = 0;
    let mut last_right_line = 0;
    let mut previous_same: Option<bool> = None;
    for hunk in &hunks {
        assert!(
            hunk.unchanged.is_empty() || (hunk.removals.is_empty() && hunk.additions.is_empty())
        );
        assert_ne!(previous_same, Some(hunk.is_same()));
        previous_same = Some(hunk.is_same());

        let left_span = hunk.unchanged.len() + hunk.removals.len();
        let right_span = hunk.unchanged.len() + hunk.additions.len();
        assert!(left_span + right_span > 0);
        assert_eq!(hunk.left_line, left_seen + if left_span > 0 { 1 } else { 0 });
        assert_eq!(hunk.right_line, right_seen + if right_span > 0 { 1 } else { 0 });
        assert!(last_left_line <= hunk.left_line);
        assert!(last_right_line <= hunk.right_line);
        last_left_line = hunk.left_line;
        last_right_line = hunk.right_line;
        left_seen += left_span;
        right_seen += right_span;

        from_left.extend(hunk.unchanged.iter().map(|t| **t));
        from_left.extend(hunk.removals.iter().map(|t| **t));
        from_right.extend(hunk.unchanged.iter().map(|t| **t));
        from_right.extend(hunk.additions.iter().map(|t| **t));
    }
    assert_eq!(from_left, left.to_vec());
    assert_eq!(from_right, right.to_vec());
    assert_eq!(left_seen, left.len());
    assert_eq!(right_seen, right.len());

    let mut spelled: Vec<Change<&i32>> = Vec::new();
    for hunk in &hunks {
        spelled.extend(hunk.unchanged.iter().map(|t| Change::Same(*t)));
        spelled.extend(hunk.removals.iter().map(|t| Change::Removed(*t)));
        spelled.extend(hunk.additions.iter().map(|t| Change::Added(*t)));
    }
    assert_eq!(spelled, changes);
    Ok(())
}
