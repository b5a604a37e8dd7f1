//! Grouping of an edit script into hunks.
//!
//! A hunk is a maximal run of entries of a script that are either all `Same`
//! or all edits. [`hunks_of`] says which hunks a script has; [`get_hunks`]
//! computes them.

use crate::diff::{owned_script, Change, ChangeType};
use crate::hunk_lemmas::lemma_hunk_intervals_fit;
use vstd::prelude::*;

verus! {

/// A contiguous block of an edit script: either a run of unchanged tokens or
/// the removals and additions of one edit.
///
/// `left_line` and `right_line` are the 1-based numbers of the block's first
/// line on each side. Where the block has no line on a side, they hold the
/// number of the line on that side after which the block stands, which is 0
/// at the very beginning.
#[derive(Debug, PartialEq)]
pub struct Hunk<'a, T> {
    pub left_line: usize,
    pub right_line: usize,
    pub additions: Vec<&'a T>,
    pub removals: Vec<&'a T>,
    pub unchanged: Vec<&'a T>,
}

/// What a [`Hunk`] holds, as mathematical values.
pub struct HunkView<T> {
    pub left_line: nat,
    pub right_line: nat,
    pub additions: Seq<T>,
    pub removals: Seq<T>,
    pub unchanged: Seq<T>,
}

impl<T> HunkView<T> {
    /// A hunk never mixes unchanged tokens with edits.
    pub open spec fn well_formed(self) -> bool {
        self.unchanged.len() == 0 || (self.additions.len() == 0 && self.removals.len() == 0)
    }

    /// How many lines of the left side the hunk covers.
    pub open spec fn left_span(self) -> nat {
        self.unchanged.len() + self.removals.len()
    }

    /// How many lines of the right side the hunk covers.
    pub open spec fn right_span(self) -> nat {
        self.unchanged.len() + self.additions.len()
    }

    /// Whether the hunk holds unchanged tokens.
    pub open spec fn is_same(self) -> bool {
        self.unchanged.len() > 0
    }

    /// Whether the hunk adds tokens.
    pub open spec fn is_addition(self) -> bool {
        self.additions.len() > 0
    }

    /// Whether the hunk removes tokens.
    pub open spec fn is_removal(self) -> bool {
        self.removals.len() > 0
    }

    /// Whether the hunk replaces tokens by others.
    pub open spec fn is_change(self) -> bool {
        self.is_addition() && self.is_removal()
    }

    /// The kind of edit: `Changed` with both removals and additions, `Added`
    /// with additions only, `Deleted` otherwise.
    pub open spec fn change_type(self) -> ChangeType {
        if self.is_change() {
            ChangeType::Changed
        } else if self.is_addition() {
            ChangeType::Added
        } else {
            ChangeType::Deleted
        }
    }

    /// The first and the last removed line, or twice the line after which the
    /// hunk stands where it removes nothing.
    pub open spec fn left_interval(self) -> (nat, nat) {
        if self.removals.len() == 0 {
            (self.left_line, self.left_line)
        } else {
            (self.left_line, (self.left_line + self.removals.len() - 1) as nat)
        }
    }

    /// The first and the last added line, or twice the line after which the
    /// hunk stands where it adds nothing.
    pub open spec fn right_interval(self) -> (nat, nat) {
        if self.additions.len() == 0 {
            (self.right_line, self.right_line)
        } else {
            (self.right_line, (self.right_line + self.additions.len() - 1) as nat)
        }
    }
}

impl<'a, T> View for Hunk<'a, T> {
    type V = HunkView<T>;

    open spec fn view(&self) -> HunkView<T> {
        HunkView {
            left_line: self.left_line as nat,
            right_line: self.right_line as nat,
            additions: self.additions@.unref(),
            removals: self.removals@.unref(),
            unchanged: self.unchanged@.unref(),
        }
    }
}

impl<'a, T> Hunk<'a, T> {
    /// Whether the hunk holds unchanged tokens.
    pub fn is_same(&self) -> (same: bool)
        ensures
            same == self@.is_same(),
    {
        self.unchanged.len() > 0
    }

    /// Whether the hunk adds tokens.
    pub fn is_addition(&self) -> (addition: bool)
        ensures
            addition == self@.is_addition(),
    {
        self.additions.len() > 0
    }

    /// Whether the hunk removes tokens.
    pub fn is_removal(&self) -> (removal: bool)
        ensures
            removal == self@.is_removal(),
    {
        self.removals.len() > 0
    }

    /// Whether the hunk replaces tokens by others.
    pub fn is_change(&self) -> (change: bool)
        ensures
            change == self@.is_change(),
    {
        self.is_addition() && self.is_removal()
    }

    /// The kind of edit: `Changed` with both removals and additions, `Added`
    /// with additions only, `Deleted` otherwise.
    pub fn change_type(&self) -> (kind: ChangeType)
        ensures
            kind == self@.change_type(),
    {
        if self.is_change() {
            ChangeType::Changed
        } else if self.is_addition() {
            ChangeType::Added
        } else {
            ChangeType::Deleted
        }
    }

    /// The first and the last removed line, or twice the line after which the
    /// hunk stands where it removes nothing.
    pub fn left_interval(&self) -> (interval: (usize, usize))
        requires
            self@.left_interval().1 <= usize::MAX,
        ensures
            interval.0 == self@.left_interval().0,
            interval.1 == self@.left_interval().1,
    {
        if self.removals.len() == 0 {
            (self.left_line, self.left_line)
        } else {
            (self.left_line, self.left_line + (self.removals.len() - 1))
        }
    }

    /// The first and the last added line, or twice the line after which the
    /// hunk stands where it adds nothing.
    pub fn right_interval(&self) -> (interval: (usize, usize))
        requires
            self@.right_interval().1 <= usize::MAX,
        ensures
            interval.0 == self@.right_interval().0,
            interval.1 == self@.right_interval().1,
    {
        if self.additions.len() == 0 {
            (self.right_line, self.right_line)
        } else {
            (self.right_line, self.right_line + (self.additions.len() - 1))
        }
    }
}

/// The tokens of the `Removed` entries of a script, in order.
pub open spec fn removed_tokens<T>(script: Seq<Change<T>>) -> Seq<T> {
    script.filter_map(
        |c: Change<T>|
            match c {
                Change::Removed(t) => Some(t),
                _ => None,
            },
    )
}

/// The tokens of the `Added` entries of a script, in order.
pub open spec fn added_tokens<T>(script: Seq<Change<T>>) -> Seq<T> {
    script.filter_map(
        |c: Change<T>|
            match c {
                Change::Added(t) => Some(t),
                _ => None,
            },
    )
}

/// The tokens of the `Same` entries of a script, in order.
pub open spec fn same_tokens<T>(script: Seq<Change<T>>) -> Seq<T> {
    script.filter_map(
        |c: Change<T>|
            match c {
                Change::Same(t) => Some(t),
                _ => None,
            },
    )
}

/// How many entries of `script`, counted from index `from` on, agree with
/// `same` on being `Same` before the first one that does not.
pub open spec fn run_len<T>(script: Seq<Change<T>>, from: int, same: bool) -> nat
    decreases script.len() - from,
{
    if 0 <= from < script.len() && (script[from] is Same) == same {
        1 + run_len(script, from + 1, same)
    } else {
        0
    }
}

/// The hunk that one run of a script makes, where `left_before` and
/// `right_before` tokens stand before the run on either side.
///
/// The hunk's line on a side is that of its first token there, and the
/// number of tokens before it where it has no token on that side.
pub open spec fn hunk_of_run<T>(run: Seq<Change<T>>, left_before: nat, right_before: nat)
    -> HunkView<T> {
    let unchanged = same_tokens(run);
    let removals = removed_tokens(run);
    let additions = added_tokens(run);
    HunkView {
        left_line: if unchanged.len() + removals.len() > 0 {
            left_before + 1
        } else {
            left_before
        },
        right_line: if unchanged.len() + additions.len() > 0 {
            right_before + 1
        } else {
            right_before
        },
        additions,
        removals,
        unchanged,
    }
}

/// The hunks of `script[start..]`, where `left_before` and `right_before`
/// tokens stand before `start` on either side: the maximal run that begins at
/// `start` makes the first hunk, and the rest of the script makes the others.
pub open spec fn hunks_from<T>(
    script: Seq<Change<T>>,
    start: int,
    left_before: nat,
    right_before: nat,
) -> Seq<HunkView<T>>
    decreases script.len() - start,
{
    if 0 <= start < script.len() {
        let end = start + 1 + run_len(script, start + 1, script[start] is Same);
        let hunk = hunk_of_run(script.subrange(start, end), left_before, right_before);
        proof {
            lemma_run_len_bounded(script, start + 1, script[start] is Same);
        }
        seq![hunk] + hunks_from(
            script,
            end,
            left_before + hunk.left_span(),
            right_before + hunk.right_span(),
        )
    } else {
        Seq::empty()
    }
}

/// The hunks of a script: its maximal runs of entries that are all `Same` or
/// all edits, each with its line numbers.
pub open spec fn hunks_of<T>(script: Seq<Change<T>>) -> Seq<HunkView<T>> {
    hunks_from(script, 0, 0, 0)
}

/// The mathematical content of each hunk of a vector.
pub open spec fn hunk_views<T>(hunks: Seq<Hunk<T>>) -> Seq<HunkView<T>> {
    Seq::new(hunks.len(), |k: int| hunks[k]@)
}

/// A run never reaches past the end of its script.
pub proof fn lemma_run_len_bounded<T>(script: Seq<Change<T>>, from: int, same: bool)
    requires
        0 <= from <= script.len(),
    ensures
        from + run_len(script, from, same) <= script.len(),
    decreases script.len() - from,
{
    if from < script.len() && (script[from] is Same) == same {
        lemma_run_len_bounded(script, from + 1, same);
    }
}

/// The tokens of `script[start..end + 1]`, by kind, are those of
/// `script[start..end]` with the token of `script[end]` appended to its kind.
proof fn lemma_run_tokens_push<T>(script: Seq<Change<T>>, start: int, end: int)
    requires
        0 <= start <= end < script.len(),
    ensures
        same_tokens(script.subrange(start, end + 1)) == if script[end] is Same {
            same_tokens(script.subrange(start, end)).push(script[end].token())
        } else {
            same_tokens(script.subrange(start, end))
        },
        removed_tokens(script.subrange(start, end + 1)) == if script[end] is Removed {
            removed_tokens(script.subrange(start, end)).push(script[end].token())
        } else {
            removed_tokens(script.subrange(start, end))
        },
        added_tokens(script.subrange(start, end + 1)) == if script[end] is Added {
            added_tokens(script.subrange(start, end)).push(script[end].token())
        } else {
            added_tokens(script.subrange(start, end))
        },
{
    let shorter = script.subrange(start, end);
    let longer = script.subrange(start, end + 1);
    assert(longer.drop_last() =~= shorter);
    assert(longer.last() == script[end]);
    assert(same_tokens(longer) =~= if script[end] is Same {
        same_tokens(shorter).push(script[end].token())
    } else {
        same_tokens(shorter)
    });
    assert(removed_tokens(longer) =~= if script[end] is Removed {
        removed_tokens(shorter).push(script[end].token())
    } else {
        removed_tokens(shorter)
    });
    assert(added_tokens(longer) =~= if script[end] is Added {
        added_tokens(shorter).push(script[end].token())
    } else {
        added_tokens(shorter)
    });
}

fn is_same_change<T>(change: &Change<T>) -> (same: bool)
    ensures
        same == (*change is Same),
{
    match change {
        Change::Same(_) => true,
        _ => false,
    }
}

/// Groups a script into its hunks.
///
/// Every script has hunks: a run is of one kind by construction, so there is
/// nothing that could be found amiss. Both intervals of each hunk end within
/// the script's length, so that they can always be computed.
pub fn get_hunks<'a, T>(changes: &[Change<&'a T>]) -> (hunks: Vec<Hunk<'a, T>>)
    ensures
        hunk_views(hunks@) == hunks_of(owned_script(changes@)),
        forall|k: int|
            0 <= k < hunks@.len() ==> {
                &&& (#[trigger] hunks@[k])@.left_interval().1 <= changes@.len()
                &&& hunks@[k]@.right_interval().1 <= changes@.len()
            },
{
    let ghost script = owned_script(changes@);
    let mut hunks: Vec<Hunk<'a, T>> = Vec::new();
    let mut left_line: usize = 0;
    let mut right_line: usize = 0;
    let mut start: usize = 0;
    proof {
        assert(hunk_views(hunks@) + hunks_of(script) =~= hunks_of(script));
    }
    while start < changes.len()
        invariant
            script == owned_script(changes@),
            start <= changes@.len(),
            left_line <= start,
            right_line <= start,
            hunk_views(hunks@) + hunks_from(
                script,
                start as int,
                left_line as nat,
                right_line as nat,
            ) == hunks_of(script),
        decreases changes@.len() - start,
    {
        let same = is_same_change(&changes[start]);
        let mut additions: Vec<&'a T> = Vec::new();
        let mut removals: Vec<&'a T> = Vec::new();
        let mut unchanged: Vec<&'a T> = Vec::new();
        let mut end: usize = start;
        proof {
            assert(script.subrange(start as int, end as int) =~= Seq::<Change<T>>::empty());
        }
        while end < changes.len() && is_same_change(&changes[end]) == same
            invariant
                script == owned_script(changes@),
                start <= end <= changes@.len(),
                start < changes@.len(),
                same == (script[start as int] is Same),
                end > start ==> run_len(script, start + 1, same) == (end - start - 1) + run_len(
                    script,
                    end as int,
                    same,
                ),
                unchanged@.len() + removals@.len() + additions@.len() == end - start,
                unchanged@.unref() == same_tokens(script.subrange(start as int, end as int)),
                removals@.unref() == removed_tokens(script.subrange(start as int, end as int)),
                additions@.unref() == added_tokens(script.subrange(start as int, end as int)),
            decreases changes@.len() - end,
        {
            proof {
                lemma_run_tokens_push(script, start as int, end as int);
            }
            match &changes[end] {
                Change::Removed(token) => {
                    removals.push(*token);
                    assert(removals@.unref() =~= removed_tokens(
                        script.subrange(start as int, end as int),
                    ).push(script[end as int].token()));
                },
                Change::Added(token) => {
                    additions.push(*token);
                    assert(additions@.unref() =~= added_tokens(
                        script.subrange(start as int, end as int),
                    ).push(script[end as int].token()));
                },
                Change::Same(token) => {
                    unchanged.push(*token);
                    assert(unchanged@.unref() =~= same_tokens(
                        script.subrange(start as int, end as int),
                    ).push(script[end as int].token()));
                },
            }
            end += 1;
        }
        let left_span = unchanged.len() + removals.len();
        let right_span = unchanged.len() + additions.len();
        let hunk = Hunk {
            left_line: if left_span > 0 {
                left_line + 1
            } else {
                left_line
            },
            right_line: if right_span > 0 {
                right_line + 1
            } else {
                right_line
            },
            additions,
            removals,
            unchanged,
        };
        proof {
            assert(end as int == start + 1 + run_len(script, start + 1, same));
            let rest = hunks_from(
                script,
                end as int,
                (left_line + left_span) as nat,
                (right_line + right_span) as nat,
            );
            assert(hunk@ == hunk_of_run(
                script.subrange(start as int, end as int),
                left_line as nat,
                right_line as nat,
            ));
            assert(hunks_from(script, start as int, left_line as nat, right_line as nat)
                == seq![hunk@] + rest);
            assert(hunk_views(hunks@.push(hunk)) + rest =~= hunk_views(hunks@) + (seq![hunk@]
                + rest));
        }
        left_line += left_span;
        right_line += right_span;
        hunks.push(hunk);
        start = end;
    }
    proof {
        assert(hunk_views(hunks@) + Seq::<HunkView<T>>::empty() =~= hunk_views(hunks@));
        lemma_hunk_intervals_fit(script);
        assert forall|k: int| 0 <= k < hunks@.len() implies {
            &&& (#[trigger] hunks@[k])@.left_interval().1 <= changes@.len()
            &&& hunks@[k]@.right_interval().1 <= changes@.len()
        } by {
            assert(hunks@[k]@ == hunks_of(script)[k]);
        }
    }
    hunks
}

} // verus!
