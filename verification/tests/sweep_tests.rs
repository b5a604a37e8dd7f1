use riff::diff::{diff, longest_common_subsequence, Change, DiffError};
use riff::hunk::get_hunks;

/// A small linear congruential generator, so that the inputs are the same on
/// every run.
struct Numbers {
    state: u64,
}

impl Numbers {
    fn next(&mut self, bound: u64) -> u64 {
        self.state = self
            .state
            .wrapping_mul(6364136223846793005)
            .wrapping_add(1442695040888963407);
        (self.state >> 33) % bound
    }

    fn tokens(&mut self, longest: u64, alphabet: u64) -> Vec<u8> {
        let len = self.next(longest + 1);
        (0..len).map(|_| self.next(alphabet) as u8).collect()
    }
}

/// The length of a longest common subsequence, computed on suffixes.
fn longest_common(left: &[u8], right: &[u8]) -> usize {
    let mut table = vec![vec![0usize; right.len() + 1]; left.len() + 1];
    for i in (0..left.len()).rev() {
        for j in (0..right.len()).rev() {
            table[i][j] = if left[i] == right[j] {
                table[i + 1][j + 1] + 1
            } else {
                table[i + 1][j].max(table[i][j + 1])
            };
        }
    }
    table[0][0]
}

#[test]
fn test_diff_on_many_inputs() -> Result<(), DiffError> {
    let mut numbers = Numbers { state: 2024 };
    for round in 0..400 {
        let alphabet = 1 + (round % 4) as u64;
        let left = numbers.tokens(12, alphabet);
        let right = numbers.tokens(12, alphabet);

        let changes = diff(&left, &right)?;

        let from_left: Vec<u8> = changes
            .iter()
            .filter(|c| !matches!(c, Change::Added(_)))
            .map(|c| **c.get())
            .collect();
        let from_right: Vec<u8> = changes
            .iter()
            .filter(|c| !matches!(c, Change::Removed(_)))
            .map(|c| **c.get())
            .collect();
        assert_eq!(from_left, left);
        assert_eq!(from_right, right);

        let same = changes
            .iter()
            .filter(|c| matches!(c, Change::Same(_)))
            .count();
        assert_eq!(same, longest_common(&left, &right));
        assert_eq!(changes.len() + same, left.len() + right.len());

        for pair in changes.windows(2) {
            assert!(!matches!(
                (&pair[0], &pair[1]),
                (Change::Added(_), Change::Removed(_))
            ));
        }

        let lengths = longest_common_subsequence(&left, &right);
        assert_eq!(lengths.rows(), left.len() + 1);
        assert_eq!(lengths.columns(), right.len() + 1);
        assert_eq!(lengths.get(left.len(), right.len()), same);
        for i in 0..=left.len() {
            assert_eq!(lengths.get(i, 0), 0);
            for j in 0..=right.len() {
                assert_eq!(lengths.get(0, j), 0);
                assert_eq!(
                    lengths.get(i, j),
                    longest_common(&left[..i], &right[..j])
                );
            }
        }
    }
    Ok(())
}

#[test]
fn test_hunks_on_many_inputs() -> Result<(), DiffError> {
    let mut numbers = Numbers { state: 7 };
    for round in 0..400 {
        let alphabet = 1 + (round % 4) as u64;
        let left = numbers.tokens(12, alphabet);
        let right = numbers.tokens(12, alphabet);

        let changes = diff(&left, &right)?;
        let hunks = get_hunks(&changes);

        let mut spelled: Vec<Change<&u8>> = Vec::new();
        let mut left_seen = 0;
        let mut right_seen = 0;
        let mut previous_same: Option<bool> = None;
        for hunk in &hunks {
            assert!(
                hunk.unchanged.is_empty()
                    || (hunk.removals.is_empty() && hunk.additions.is_empty())
            );
            assert_ne!(previous_same, Some(hunk.is_same()));
            previous_same = Some(hunk.is_same());

            let left_span = hunk.unchanged.len() + hunk.removals.len();
            let right_span = hunk.unchanged.len() + hunk.additions.len();
            assert!(left_span + right_span > 0);
            assert_eq!(hunk.left_line, left_seen + if left_span > 0 { 1 } else { 0 });
            assert_eq!(hunk.right_line, right_seen + if right_span > 0 { 1 } else { 0 });
            left_seen += left_span;
            right_seen += right_span;
            assert!(hunk.left_interval().1 <= left.len());
            assert!(hunk.right_interval().1 <= right.len());

            spelled.extend(hunk.unchanged.iter().map(|t| Change::Same(*t)));
            spelled.extend(hunk.removals.iter().map(|t| Change::Removed(*t)));
            spelled.extend(hunk.additions.iter().map(|t| Change::Added(*t)));
        }
        assert_eq!(left_seen, left.len());
        assert_eq!(right_seen, right.len());
        assert_eq!(spelled, changes);
    }
    Ok(())
}
