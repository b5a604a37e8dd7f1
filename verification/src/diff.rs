//! Alignment of two token sequences along a longest common subsequence.
//!
//! The mathematical model is a pair of recursive functions over `Seq`:
//! [`lcs_len`] gives the length of a longest common subsequence of two
//! prefixes, and [`edit_script`] walks those lengths back from the end of both
//! sequences to label every token. The executable [`diff`] is proved to return
//! exactly that script.

use crate::diff_lemmas::{
    lemma_diff_covers_both_sides, lemma_diff_with_empty_side, lemma_token_counts,
    lemma_tokens_concat, lemma_tokens_single,
};
use vstd::prelude::*;
use vstd::std_specs::cmp::PartialEqSpec;

verus! {

/// The verdict on one token of either input.
///
/// `Removed` holds a token of the left sequence, `Added` a token of the right
/// sequence, and `Same` a token of the left sequence that is matched with an
/// equal token of the right sequence.
#[derive(Debug, PartialEq)]
pub enum Change<T> {
    Removed(T),
    Added(T),
    Same(T),
}

/// How an edit block reads when both sides are taken together.
#[derive(Debug, Clone, Copy, PartialEq, Eq, Structural)]
pub enum ChangeType {
    Added,
    Deleted,
    Changed,
}

/// The one way in which [`diff`] can fail.
#[derive(Debug, Clone, Copy, PartialEq, Eq, Structural)]
pub enum DiffError {
    /// Two tokens compared equal on the way back through the table of
    /// lengths although the table says that they did not when it was filled.
    /// This cannot happen for a token type whose `==` always returns the
    /// same for the same two tokens.
    BacktrackingFailed,
}

impl ChangeType {
    /// The letter that stands for this kind of edit between two line ranges.
    pub open spec fn letter(self) -> char {
        match self {
            ChangeType::Added => 'a',
            ChangeType::Deleted => 'd',
            ChangeType::Changed => 'c',
        }
    }

    /// The letter of this kind of edit, as a string.
    pub fn to_string(&self) -> (text: String)
        ensures
            text@ == seq![self.letter()],
    {
        proof {
            reveal_strlit("a");
            reveal_strlit("d");
            reveal_strlit("c");
        }
        let text = match self {
            ChangeType::Added => String::from_str("a"),
            ChangeType::Deleted => String::from_str("d"),
            ChangeType::Changed => String::from_str("c"),
        };
        assert(text@ =~= seq![self.letter()]);
        text
    }
}

impl DiffError {
    /// What went wrong, in words.
    pub fn to_string(&self) -> (text: String)
        ensures
            text@ == "Backtracking failed."@,
    {
        String::from_str("Backtracking failed.")
    }
}

impl<T> Change<T> {
    /// The token that this change wraps.
    pub open spec fn token(self) -> T {
        match self {
            Change::Removed(t) => t,
            Change::Added(t) => t,
            Change::Same(t) => t,
        }
    }

    /// Whether the change stands for a token of the left sequence.
    pub open spec fn on_left(self) -> bool {
        !(self is Added)
    }

    /// Whether the change stands for a token of the right sequence.
    pub open spec fn on_right(self) -> bool {
        !(self is Removed)
    }

    /// The token that this change wraps.
    pub fn get(&self) -> (token: &T)
        ensures
            *token == self.token(),
    {
        match self {
            Change::Removed(t) => t,
            Change::Added(t) => t,
            Change::Same(t) => t,
        }
    }
}

impl<'a, T> Change<&'a T> {
    /// The same verdict on the token itself rather than on a borrow of it.
    pub open spec fn owned(self) -> Change<T> {
        match self {
            Change::Removed(t) => Change::Removed(*t),
            Change::Added(t) => Change::Added(*t),
            Change::Same(t) => Change::Same(*t),
        }
    }
}

/// A script of borrowed tokens, read as a script of the tokens themselves.
pub open spec fn owned_script<T>(script: Seq<Change<&T>>) -> Seq<Change<T>> {
    Seq::new(script.len(), |k: int| script[k].owned())
}

/// The tokens of the left sequence that a script accounts for, in order.
pub open spec fn left_tokens<T>(script: Seq<Change<T>>) -> Seq<T> {
    script.filter_map(
        |c: Change<T>|
            if c.on_left() {
                Some(c.token())
            } else {
                None
            },
    )
}

/// The tokens that a script puts on the right side, in order. A `Same` entry
/// contributes the left token that it holds.
pub open spec fn right_tokens<T>(script: Seq<Change<T>>) -> Seq<T> {
    script.filter_map(
        |c: Change<T>|
            if c.on_right() {
                Some(c.token())
            } else {
                None
            },
    )
}

/// How many entries of a script are `Removed`.
pub open spec fn removed_count<T>(script: Seq<Change<T>>) -> nat {
    script.filter(|c: Change<T>| c is Removed).len()
}

/// How many entries of a script are `Added`.
pub open spec fn added_count<T>(script: Seq<Change<T>>) -> nat {
    script.filter(|c: Change<T>| c is Added).len()
}

/// How many entries of a script are `Same`.
pub open spec fn same_count<T>(script: Seq<Change<T>>) -> nat {
    script.filter(|c: Change<T>| c is Same).len()
}

/// Whether a script lists removals before additions wherever the two meet:
/// no `Added` entry is directly followed by a `Removed` one.
pub open spec fn removals_first<T>(script: Seq<Change<T>>) -> bool {
    forall|k: int|
        0 <= k < script.len() - 1 ==> !((#[trigger] script[k]) is Added && script[k
            + 1] is Removed)
}

/// Whether every call of `==` on two tokens returns what `same` says of
/// them. Such a relation is what the contracts of this module mean by equal
/// tokens.
///
/// For a token type that obeys vstd's specification of `==`,
/// [`spec_equality`] is such a relation; for `String`, [`string_equality`]
/// is one.
pub open spec fn decides<T: PartialEq>(same: spec_fn(T, T) -> bool) -> bool {
    forall|a: T, b: T, answer: bool|
        #[trigger] call_ensures(<T as PartialEq>::eq, (&a, &b), answer) ==> answer == same(a, b)
}

/// The relation that vstd's specification of `==` gives for a token type.
pub open spec fn spec_equality<T: PartialEq>() -> spec_fn(T, T) -> bool {
    |a: T, b: T| a.eq_spec(&b)
}

/// Equality of strings: that of the characters that they hold.
pub open spec fn string_equality() -> spec_fn(String, String) -> bool {
    |a: String, b: String| a@ == b@
}

/// Whether `picks` names a common subsequence of `left[0..i)` and
/// `right[0..j)`: each pick pairs a position of the left prefix with a
/// position of the right prefix that holds the same token, and from one pick
/// to the next both positions go up.
pub open spec fn is_common_subsequence<T>(
    same: spec_fn(T, T) -> bool,
    left: Seq<T>,
    right: Seq<T>,
    i: nat,
    j: nat,
    picks: Seq<(int, int)>,
) -> bool {
    &&& forall|k: int|
        0 <= k < picks.len() ==> {
            &&& 0 <= (#[trigger] picks[k]).0 < i
            &&& 0 <= picks[k].1 < j
            &&& same(left[picks[k].0], right[picks[k].1])
        }
    &&& forall|k: int, m: int|
        0 <= k < m < picks.len() ==> (#[trigger] picks[k]).0 < (#[trigger] picks[m]).0
            && picks[k].1 < picks[m].1
}

/// The length of a longest common subsequence of `left[0..i)` and
/// `right[0..j)`, where `same` says which tokens are equal.
///
/// It is zero where either prefix is empty. Equal last tokens lengthen the
/// longest common subsequence of the two shorter prefixes by one; unequal
/// last tokens leave the better of dropping one or the other.
pub open spec fn lcs_len<T>(
    same: spec_fn(T, T) -> bool,
    left: Seq<T>,
    right: Seq<T>,
    i: nat,
    j: nat,
) -> nat
    decreases i + j,
{
    if i == 0 || j == 0 {
        0
    } else if same(left[i - 1], right[j - 1]) {
        lcs_len(same, left, right, (i - 1) as nat, (j - 1) as nat) + 1
    } else {
        let above = lcs_len(same, left, right, (i - 1) as nat, j);
        let before = lcs_len(same, left, right, i, (j - 1) as nat);
        if above >= before {
            above
        } else {
            before
        }
    }
}

/// The edit script that turns `left[0..i)` into `right[0..j)`, in reading
/// order, where `same` says which tokens are equal.
///
/// Its last entry is decided at `(i, j)`: equal last tokens are kept as
/// `Same`; otherwise the last left token is `Removed` when dropping it keeps
/// a strictly longer common subsequence than dropping the last right token
/// would, and the last right token is `Added` in every other case. A tie
/// therefore puts the addition last, so that a replaced block lists its
/// removals before its additions.
pub open spec fn edit_script_upto<T>(
    same: spec_fn(T, T) -> bool,
    left: Seq<T>,
    right: Seq<T>,
    i: nat,
    j: nat,
) -> Seq<Change<T>>
    decreases i + j,
{
    if i == 0 && j == 0 {
        Seq::empty()
    } else if i == 0 {
        edit_script_upto(same, left, right, i, (j - 1) as nat).push(Change::Added(right[j - 1]))
    } else if j == 0 {
        edit_script_upto(same, left, right, (i - 1) as nat, j).push(Change::Removed(left[i - 1]))
    } else if same(left[i - 1], right[j - 1]) {
        edit_script_upto(same, left, right, (i - 1) as nat, (j - 1) as nat).push(
            Change::Same(left[i - 1]),
        )
    } else if lcs_len(same, left, right, (i - 1) as nat, j) > lcs_len(
        same,
        left,
        right,
        i,
        (j - 1) as nat,
    ) {
        edit_script_upto(same, left, right, (i - 1) as nat, j).push(Change::Removed(left[i - 1]))
    } else {
        edit_script_upto(same, left, right, i, (j - 1) as nat).push(Change::Added(right[j - 1]))
    }
}

/// The edit script that turns `left` into `right`, where `same` says which
/// tokens are equal.
pub open spec fn edit_script<T>(same: spec_fn(T, T) -> bool, left: Seq<T>, right: Seq<T>) -> Seq<
    Change<T>,
> {
    edit_script_upto(same, left, right, left.len(), right.len())
}

/// A rectangular table of lengths.
#[derive(Debug)]
pub struct Matrix {
    rows: Vec<Vec<usize>>,
    width: usize,
}

impl Matrix {
    /// The number of rows.
    pub closed spec fn height(&self) -> nat {
        self.rows@.len()
    }

    /// The number of columns.
    pub closed spec fn width(&self) -> nat {
        self.width as nat
    }

    /// Every row has `width()` entries.
    pub closed spec fn well_formed(&self) -> bool {
        forall|i: int| 0 <= i < self.rows@.len() ==> (#[trigger] self.rows@[i])@.len() == self.width
    }

    /// The entry in row `i` and column `j`.
    pub closed spec fn entry(&self, i: int, j: int) -> usize {
        self.rows@[i]@[j]
    }

    /// A table of `height` rows and `width` columns that holds zero everywhere.
    pub fn new(height: usize, width: usize) -> (matrix: Matrix)
        ensures
            matrix.well_formed(),
            matrix.height() == height,
            matrix.width() == width,
            forall|i: int, j: int|
                0 <= i < height && 0 <= j < width ==> #[trigger] matrix.entry(i, j) == 0,
    {
        let mut rows: Vec<Vec<usize>> = Vec::new();
        let mut i: usize = 0;
        while i < height
            invariant
                i <= height,
                rows@.len() == i,
                forall|a: int| 0 <= a < i ==> (#[trigger] rows@[a])@.len() == width,
                forall|a: int, b: int|
                    0 <= a < i && 0 <= b < width ==> (#[trigger] rows@[a]@[b]) == 0,
            decreases height - i,
        {
            let mut row: Vec<usize> = Vec::new();
            let mut j: usize = 0;
            while j < width
                invariant
                    j <= width,
                    row@.len() == j,
                    forall|b: int| 0 <= b < j ==> (#[trigger] row@[b]) == 0,
                decreases width - j,
            {
                row.push(0);
                j += 1;
            }
            rows.push(row);
            i += 1;
        }
        Matrix { rows, width }
    }

    /// The number of rows.
    pub fn rows(&self) -> (height: usize)
        ensures
            height == self.height(),
    {
        self.rows.len()
    }

    /// The number of columns.
    pub fn columns(&self) -> (width: usize)
        ensures
            width == self.width(),
    {
        self.width
    }

    /// The entry in row `i` and column `j`.
    pub fn get(&self, i: usize, j: usize) -> (value: usize)
        requires
            self.well_formed(),
            i < self.height(),
            j < self.width(),
        ensures
            value == self.entry(i as int, j as int),
    {
        self.rows[i][j]
    }

    /// Overwrites the entry in row `i` and column `j`.
    pub fn set(&mut self, i: usize, j: usize, value: usize)
        requires
            old(self).well_formed(),
            i < old(self).height(),
            j < old(self).width(),
        ensures
            final(self).well_formed(),
            final(self).height() == old(self).height(),
            final(self).width() == old(self).width(),
            final(self).entry(i as int, j as int) == value,
            forall|a: int, b: int|
                0 <= a < old(self).height() && 0 <= b < old(self).width() && (a != i || b != j)
                    ==> #[trigger] final(self).entry(a, b) == old(self).entry(a, b),
    {
        self.rows[i][j] = value;
    }
}

/// What [`longest_common_subsequence`] stores in its table: one row for
/// every prefix of `left` and one column for every prefix of `right`, the
/// empty ones included, and at `(i, j)` the length for `left[0..i)` and
/// `right[0..j)`. Row 0 and column 0 hold zero.
pub open spec fn holds_lcs_lengths<T>(
    same: spec_fn(T, T) -> bool,
    lengths: Matrix,
    left: Seq<T>,
    right: Seq<T>,
) -> bool {
    &&& lengths.well_formed()
    &&& lengths.height() == left.len() + 1
    &&& lengths.width() == right.len() + 1
    &&& forall|i: int, j: int|
        0 <= i <= left.len() && 0 <= j <= right.len() ==> #[trigger] lengths.entry(i, j)
            == lcs_len(same, left, right, i as nat, j as nat)
}

/// The entries of the rows before `i`, and those of row `i` before column
/// `j`, are the lengths for their prefixes.
spec fn holds_lcs_lengths_before<T>(
    same: spec_fn(T, T) -> bool,
    lengths: Matrix,
    left: Seq<T>,
    right: Seq<T>,
    i: int,
    j: int,
) -> bool {
    forall|a: int, b: int|
        (0 <= a < i && 0 <= b <= right.len()) || (a == i && 0 <= b < j)
            ==> #[trigger] lengths.entry(a, b) == lcs_len(same, left, right, a as nat, b as nat)
}

/// The entries of row `i` from column `j` on, and those of the rows after
/// `i`, are still zero.
spec fn holds_zero_from(lengths: Matrix, i: int, j: int) -> bool {
    forall|a: int, b: int|
        0 <= a < lengths.height() && 0 <= b < lengths.width() && (a > i || (a == i && b >= j))
            ==> #[trigger] lengths.entry(a, b) == 0
}

/// No entry exceeds the length of either prefix that it stands for.
pub open spec fn within_prefix_lengths(lengths: Matrix) -> bool {
    forall|i: int, j: int|
        0 <= i < lengths.height() && 0 <= j < lengths.width() ==> {
            &&& #[trigger] lengths.entry(i, j) <= i
            &&& lengths.entry(i, j) <= j
        }
}

/// Fills the table of longest-common-subsequence lengths for every pair of
/// prefixes of `left` and `right`.
///
/// The table has one row more than `left` has tokens and one column more
/// than `right` has, which is why both lengths must stay below `usize::MAX`.
/// Its entries are those of [`lcs_len`] for every relation that decides the
/// tokens' `==`.
pub fn longest_common_subsequence<T: PartialEq>(left: &[T], right: &[T]) -> (lengths: Matrix)
    requires
        left@.len() < usize::MAX,
        right@.len() < usize::MAX,
    ensures
        lengths.well_formed(),
        lengths.height() == left@.len() + 1,
        lengths.width() == right@.len() + 1,
        within_prefix_lengths(lengths),
        forall|j: int| 0 <= j <= right@.len() ==> #[trigger] lengths.entry(0, j) == 0,
        forall|i: int| 0 <= i <= left@.len() ==> #[trigger] lengths.entry(i, 0) == 0,
        forall|same: spec_fn(T, T) -> bool| #[trigger]
            decides::<T>(same) ==> holds_lcs_lengths(same, lengths, left@, right@),
{
    let rows = left.len();
    let columns = right.len();
    let mut lengths = Matrix::new(rows + 1, columns + 1);
    let mut i: usize = 1;
    proof {
        assert forall|same: spec_fn(T, T) -> bool| #[trigger]
            decides::<T>(same) implies holds_lcs_lengths_before(
            same,
            lengths,
            left@,
            right@,
            1,
            0,
        ) by {
            assert forall|b: int| 0 <= b <= right@.len() implies #[trigger] lengths.entry(0, b)
                == lcs_len(same, left@, right@, 0, b as nat) by {}
        }
    }
    while i <= rows
        invariant
            1 <= i <= rows + 1,
            rows == left@.len(),
            columns == right@.len(),
            rows < usize::MAX,
            columns < usize::MAX,
            lengths.well_formed(),
            lengths.height() == rows + 1,
            lengths.width() == columns + 1,
            within_prefix_lengths(lengths),
            holds_zero_from(lengths, i as int, 0),
            forall|b: int| 0 <= b <= columns ==> #[trigger] lengths.entry(0, b) == 0,
            forall|a: int| 0 <= a <= rows ==> #[trigger] lengths.entry(a, 0) == 0,
            forall|same: spec_fn(T, T) -> bool| #[trigger]
                decides::<T>(same) ==> holds_lcs_lengths_before(
                    same,
                    lengths,
                    left@,
                    right@,
                    i as int,
                    0,
                ),
        decreases rows + 1 - i,
    {
        let mut j: usize = 1;
        proof {
            assert forall|same: spec_fn(T, T) -> bool| #[trigger]
                decides::<T>(same) implies holds_lcs_lengths_before(
                same,
                lengths,
                left@,
                right@,
                i as int,
                1,
            ) by {
                assert(holds_lcs_lengths_before(same, lengths, left@, right@, i as int, 0));
                assert(lengths.entry(i as int, 0) == lcs_len(same, left@, right@, i as nat, 0));
            }
        }
        while j <= columns
            invariant
                1 <= i <= rows,
                1 <= j <= columns + 1,
                rows == left@.len(),
                columns == right@.len(),
                rows < usize::MAX,
                columns < usize::MAX,
                lengths.well_formed(),
                lengths.height() == rows + 1,
                lengths.width() == columns + 1,
                within_prefix_lengths(lengths),
                holds_zero_from(lengths, i as int, j as int),
                forall|b: int| 0 <= b <= columns ==> #[trigger] lengths.entry(0, b) == 0,
                forall|a: int| 0 <= a <= rows ==> #[trigger] lengths.entry(a, 0) == 0,
                forall|same: spec_fn(T, T) -> bool| #[trigger]
                    decides::<T>(same) ==> holds_lcs_lengths_before(
                        same,
                        lengths,
                        left@,
                        right@,
                        i as int,
                        j as int,
                    ),
            decreases columns + 1 - j,
        {
            let matched = left[i - 1].eq(&right[j - 1]);
            let diagonal = lengths.get(i - 1, j - 1);
            let above = lengths.get(i - 1, j);
            let before = lengths.get(i, j - 1);
            let value = if matched {
                diagonal + 1
            } else if above >= before {
                above
            } else {
                before
            };
            let ghost earlier = lengths;
            lengths.set(i, j, value);
            proof {
                assert forall|same: spec_fn(T, T) -> bool| #[trigger]
                    decides::<T>(same) implies holds_lcs_lengths_before(
                    same,
                    lengths,
                    left@,
                    right@,
                    i as int,
                    j + 1,
                ) by {
                    assert(holds_lcs_lengths_before(
                        same,
                        earlier,
                        left@,
                        right@,
                        i as int,
                        j as int,
                    ));
                    assert(matched == same(left@[i - 1], right@[j - 1]));
                    assert(diagonal == lcs_len(
                        same,
                        left@,
                        right@,
                        (i - 1) as nat,
                        (j - 1) as nat,
                    ));
                    assert(above == lcs_len(same, left@, right@, (i - 1) as nat, j as nat));
                    assert(before == lcs_len(same, left@, right@, i as nat, (j - 1) as nat));
                    assert(value == lcs_len(same, left@, right@, i as nat, j as nat));
                }
            }
            j += 1;
        }
        i += 1;
    }
    lengths
}

fn into_reading_order<T>(reversed: Vec<T>) -> (forward: Vec<T>)
    ensures
        forward@ == reversed@.reverse(),
{
    let mut rest = reversed;
    let mut forward: Vec<T> = Vec::new();
    while rest.len() > 0
        invariant
            rest@.len() <= reversed@.len(),
            forward@.len() + rest@.len() == reversed@.len(),
            forall|k: int| 0 <= k < rest@.len() ==> rest@[k] == reversed@[k],
            forall|k: int|
                0 <= k < forward@.len() ==> forward@[k] == reversed@[reversed@.len() - 1 - k],
        decreases rest@.len(),
    {
        let last = rest.pop();
        match last {
            Some(item) => {
                forward.push(item);
            },
            None => {},
        }
    }
    assert(forward@ =~= reversed@.reverse());
    forward
}

/// Prepending a change to the script that a reversed vector stands for.
proof fn lemma_prepend<T>(reversed: Seq<Change<&T>>, change: Change<&T>)
    ensures
        owned_script(reversed.push(change)).reverse() == seq![change.owned()] + owned_script(
            reversed,
        ).reverse(),
        left_tokens(seq![change.owned()] + owned_script(reversed).reverse())
            == if change.on_left() {
            seq![*change.token()] + left_tokens(owned_script(reversed).reverse())
        } else {
            left_tokens(owned_script(reversed).reverse())
        },
        right_tokens(seq![change.owned()] + owned_script(reversed).reverse()).len()
            == right_tokens(owned_script(reversed).reverse()).len() + if change.on_right() {
            1int
        } else {
            0int
        },
{
    let tail = owned_script(reversed).reverse();
    assert(owned_script(reversed.push(change)).reverse() =~= seq![change.owned()] + tail);
    lemma_tokens_single(change.owned());
    lemma_tokens_concat(seq![change.owned()], tail);
    assert(Seq::<T>::empty() + left_tokens(tail) =~= left_tokens(tail));
    assert(Seq::<T>::empty() + right_tokens(tail) =~= right_tokens(tail));
}

/// The last entry of the script for the prefixes `left[0..i)` and
/// `right[0..j)`, read off the table of lengths.
fn last_change<'a, T: PartialEq>(
    left: &'a [T],
    right: &'a [T],
    lengths: &Matrix,
    i: usize,
    j: usize,
) -> (result: Result<Change<&'a T>, DiffError>)
    requires
        i <= left@.len(),
        j <= right@.len(),
        i > 0 || j > 0,
        lengths.well_formed(),
        lengths.height() == left@.len() + 1,
        lengths.width() == right@.len() + 1,
        within_prefix_lengths(*lengths),
        forall|same: spec_fn(T, T) -> bool| #[trigger]
            decides::<T>(same) ==> holds_lcs_lengths(same, *lengths, left@, right@),
    ensures
        result matches Ok(change) ==> {
            &&& change.on_left() ==> i > 0 && *change.token() == left@[i - 1]
            &&& change.on_right() ==> j > 0
            &&& change is Added ==> *change.token() == right@[j - 1]
        },
        forall|same: spec_fn(T, T) -> bool| #[trigger]
            decides::<T>(same) ==> (result matches Ok(change) && edit_script_upto(
                same,
                left@,
                right@,
                i as nat,
                j as nat,
            ) == edit_script_upto(
                same,
                left@,
                right@,
                if change.on_left() {
                    (i - 1) as nat
                } else {
                    i as nat
                },
                if change.on_right() {
                    (j - 1) as nat
                } else {
                    j as nat
                },
            ).push(change.owned())),
{
    if i == 0 {
        Ok(Change::Added(&right[j - 1]))
    } else if j == 0 {
        Ok(Change::Removed(&left[i - 1]))
    } else {
        let diagonal = lengths.get(i - 1, j - 1);
        let above = lengths.get(i - 1, j);
        let before = lengths.get(i, j - 1);
        let here = lengths.get(i, j);
        let matched = left[i - 1].eq(&right[j - 1]);
        proof {
            assert forall|same: spec_fn(T, T) -> bool| #[trigger] decides::<T>(same) implies {
                &&& matched == same(left@[i - 1], right@[j - 1])
                &&& diagonal == lcs_len(same, left@, right@, (i - 1) as nat, (j - 1) as nat)
                &&& above == lcs_len(same, left@, right@, (i - 1) as nat, j as nat)
                &&& before == lcs_len(same, left@, right@, i as nat, (j - 1) as nat)
                &&& here == lcs_len(same, left@, right@, i as nat, j as nat)
            } by {
                assert(holds_lcs_lengths(same, *lengths, left@, right@));
            }
        }
        if matched {
            if here != diagonal + 1 {
                Err(DiffError::BacktrackingFailed)
            } else {
                Ok(Change::Same(&left[i - 1]))
            }
        } else if above > before {
            Ok(Change::Removed(&left[i - 1]))
        } else {
            Ok(Change::Added(&right[j - 1]))
        }
    }
}

/// Every token of `left` as `Removed`, then every token of `right` as
/// `Added`, each in its order.
fn removed_then_added<'a, T>(left: &'a [T], right: &'a [T]) -> (changes: Vec<Change<&'a T>>)
    ensures
        owned_script(changes@) == left@.map_values(|t: T| Change::Removed(t)) + right@.map_values(
            |t: T| Change::Added(t),
        ),
{
    let ghost removed = left@.map_values(|t: T| Change::Removed(t));
    let ghost added = right@.map_values(|t: T| Change::Added(t));
    let mut changes: Vec<Change<&'a T>> = Vec::new();
    let mut k: usize = 0;
    assert(owned_script(changes@) =~= removed.take(0));
    while k < left.len()
        invariant
            k <= left@.len(),
            removed == left@.map_values(|t: T| Change::Removed(t)),
            owned_script(changes@) == removed.take(k as int),
        decreases left@.len() - k,
    {
        let change = Change::Removed(&left[k]);
        proof {
            assert(removed[k as int] == change.owned());
            assert(removed.take(k + 1) =~= removed.take(k as int).push(removed[k as int]));
            assert(owned_script(changes@.push(change)) =~= owned_script(changes@).push(
                change.owned(),
            ));
        }
        changes.push(change);
        k += 1;
    }
    assert(removed.take(k as int) =~= removed);
    let mut k: usize = 0;
    assert(owned_script(changes@) =~= removed + added.take(0));
    while k < right.len()
        invariant
            k <= right@.len(),
            added == right@.map_values(|t: T| Change::Added(t)),
            owned_script(changes@) == removed + added.take(k as int),
        decreases right@.len() - k,
    {
        let change = Change::Added(&right[k]);
        proof {
            assert(added[k as int] == change.owned());
            assert(removed + added.take(k + 1) =~= (removed + added.take(k as int)).push(
                added[k as int],
            ));
            assert(owned_script(changes@.push(change)) =~= owned_script(changes@).push(
                change.owned(),
            ));
        }
        changes.push(change);
        k += 1;
    }
    assert(added.take(k as int) =~= added);
    changes
}

/// Compares `left` with `right` and labels every token of both: a token of
/// `left` is `Same` or `Removed`, a token of `right` is matched by a `Same`
/// or is `Added`.
///
/// Where either side is empty, no token is compared and no table is built:
/// the result is `Ok` and holds every token of `left` as `Removed`, then
/// every token of `right` as `Added`. Else the table of lengths is built,
/// which has one row and one column more than the sides have tokens, so both
/// lengths must then stay below `usize::MAX`.
///
/// Where a relation decides the tokens' `==`, the result is `Ok` and holds
/// exactly the [`edit_script`] of that relation. For any token type an `Ok`
/// result accounts for every token of `left`, in order, and for as many
/// tokens on the right as `right` has: its `Removed` and `Same` entries are
/// together as many as the tokens of `left`, its `Added` and `Same` entries
/// as many as the tokens of `right`.
pub fn diff<'a, T: PartialEq>(left: &'a [T], right: &'a [T]) -> (result: Result<
    Vec<Change<&'a T>>,
    DiffError,
>)
    requires
        left@.len() > 0 && right@.len() > 0 ==> left@.len() < usize::MAX && right@.len()
            < usize::MAX,
    ensures
        left@.len() == 0 || right@.len() == 0 ==> (result matches Ok(changes) && owned_script(
            changes@,
        ) == left@.map_values(|t: T| Change::Removed(t)) + right@.map_values(
            |t: T| Change::Added(t),
        )),
        forall|same: spec_fn(T, T) -> bool| #[trigger]
            decides::<T>(same) ==> (result matches Ok(changes) && owned_script(changes@)
                == edit_script(same, left@, right@)),
        result matches Ok(changes) ==> {
            &&& left_tokens(owned_script(changes@)) == left@
            &&& right_tokens(owned_script(changes@)).len() == right@.len()
            &&& removed_count(owned_script(changes@)) + same_count(owned_script(changes@))
                == left@.len()
            &&& added_count(owned_script(changes@)) + same_count(owned_script(changes@))
                == right@.len()
        },
{
    if left.len() == 0 || right.len() == 0 {
        let changes = removed_then_added(left, right);
        proof {
            let script = owned_script(changes@);
            assert forall|same: spec_fn(T, T) -> bool| script == #[trigger] edit_script(
                same,
                left@,
                right@,
            ) by {
                if left@.len() == 0 {
                    lemma_diff_with_empty_side(same, right@);
                    assert(left@ =~= Seq::<T>::empty());
                    assert(script =~= right@.map_values(|t: T| Change::Added(t)));
                } else {
                    lemma_diff_with_empty_side(same, left@);
                    assert(right@ =~= Seq::<T>::empty());
                    assert(script =~= left@.map_values(|t: T| Change::Removed(t)));
                }
            }
            let never = |a: T, b: T| false;
            assert(script == edit_script(never, left@, right@));
            lemma_diff_covers_both_sides(never, left@, right@);
            lemma_token_counts(script);
        }
        return Ok(changes);
    }
    let lengths = longest_common_subsequence(left, right);
    let mut reversed: Vec<Change<&'a T>> = Vec::new();
    let mut i: usize = left.len();
    let mut j: usize = right.len();
    proof {
        assert(left@.skip(i as int) =~= Seq::<T>::empty());
        assert(owned_script(reversed@).reverse() =~= Seq::<Change<T>>::empty());
        assert forall|same: spec_fn(T, T) -> bool| #[trigger]
            decides::<T>(same) implies edit_script_upto(same, left@, right@, i as nat, j as nat)
            + owned_script(reversed@).reverse() == edit_script(same, left@, right@) by {
            assert(edit_script_upto(same, left@, right@, i as nat, j as nat) + owned_script(
                reversed@,
            ).reverse() =~= edit_script(same, left@, right@));
        }
    }
    while i > 0 || j > 0
        invariant
            i <= left@.len(),
            j <= right@.len(),
            left@.len() > 0,
            right@.len() > 0,
            lengths.well_formed(),
            lengths.height() == left@.len() + 1,
            lengths.width() == right@.len() + 1,
            within_prefix_lengths(lengths),
            forall|same: spec_fn(T, T) -> bool| #[trigger]
                decides::<T>(same) ==> holds_lcs_lengths(same, lengths, left@, right@),
            left_tokens(owned_script(reversed@).reverse()) == left@.skip(i as int),
            right_tokens(owned_script(reversed@).reverse()).len() == right@.len() - j,
            forall|same: spec_fn(T, T) -> bool| #[trigger]
                decides::<T>(same) ==> edit_script_upto(same, left@, right@, i as nat, j as nat)
                    + owned_script(reversed@).reverse() == edit_script(same, left@, right@),
        decreases i + j,
    {
        let change = match last_change(left, right, &lengths, i, j) {
            Ok(change) => change,
            Err(error) => {
                return Err(error);
            },
        };
        proof {
            let tail = owned_script(reversed@).reverse();
            lemma_prepend(reversed@, change);
            if change.on_left() {
                assert(left@.skip(i - 1) =~= seq![left@[i - 1]] + left@.skip(i as int));
            }
            assert forall|same: spec_fn(T, T) -> bool| #[trigger]
                decides::<T>(same) implies edit_script_upto(
                same,
                left@,
                right@,
                if change.on_left() {
                    (i - 1) as nat
                } else {
                    i as nat
                },
                if change.on_right() {
                    (j - 1) as nat
                } else {
                    j as nat
                },
            ) + (seq![change.owned()] + tail) == edit_script(same, left@, right@) by {
                let shorter = edit_script_upto(
                    same,
                    left@,
                    right@,
                    if change.on_left() {
                        (i - 1) as nat
                    } else {
                        i as nat
                    },
                    if change.on_right() {
                        (j - 1) as nat
                    } else {
                        j as nat
                    },
                );
                assert(shorter + (seq![change.owned()] + tail) =~= shorter.push(change.owned())
                    + tail);
            }
        }
        match change {
            Change::Removed(_) => {
                i -= 1;
            },
            Change::Added(_) => {
                j -= 1;
            },
            Change::Same(_) => {
                i -= 1;
                j -= 1;
            },
        }
        reversed.push(change);
    }
    let changes = into_reading_order(reversed);
    proof {
        let tail = owned_script(reversed@).reverse();
        assert(owned_script(changes@) =~= tail);
        assert(left@.skip(0) =~= left@);
        lemma_token_counts(tail);
        assert forall|same: spec_fn(T, T) -> bool| #[trigger]
            decides::<T>(same) implies owned_script(changes@) == edit_script(
            same,
            left@,
            right@,
        ) by {
            assert(edit_script_upto(same, left@, right@, 0, 0) + tail =~= tail);
        }
    }
    Ok(changes)
}

} // verus!
