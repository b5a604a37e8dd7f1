//! What holds of every edit script that [`edit_script`] describes, whatever
//! relation says which tokens are equal, and so of every result of `diff`
//! on a token type whose `==` a relation decides.

use crate::diff::{
    added_count, decides, edit_script, edit_script_upto, is_common_subsequence, lcs_len,
    left_tokens, removals_first, removed_count, right_tokens, same_count, spec_equality,
    string_equality, Change,
};
use vstd::prelude::*;
use vstd::std_specs::cmp::PartialEqSpec;

verus! {

/// Where a token type obeys vstd's specification of `==`, that specification
/// decides its `==`.
pub proof fn lemma_spec_equality_decides<T: PartialEq>()
    requires
        T::obeys_eq_spec(),
    ensures
        decides::<T>(spec_equality::<T>()),
{
}

/// Equality of the characters decides the `==` of strings.
pub proof fn lemma_string_equality_decides()
    ensures
        decides::<String>(string_equality()),
{
}

/// The left tokens of a concatenation are the left tokens of its parts, and
/// so for the right tokens.
pub proof fn lemma_tokens_concat<T>(front: Seq<Change<T>>, back: Seq<Change<T>>)
    ensures
        left_tokens(front + back) == left_tokens(front) + left_tokens(back),
        right_tokens(front + back) == right_tokens(front) + right_tokens(back),
    decreases back.len(),
{
    if back.len() == 0 {
        assert(front + back =~= front);
        assert(left_tokens(front) + left_tokens(back) =~= left_tokens(front));
        assert(right_tokens(front) + right_tokens(back) =~= right_tokens(front));
    } else {
        lemma_tokens_concat(front, back.drop_last());
        assert((front + back).drop_last() =~= front + back.drop_last());
        assert((front + back).last() == back.last());
        assert(left_tokens(front + back) =~= left_tokens(front) + left_tokens(back));
        assert(right_tokens(front + back) =~= right_tokens(front) + right_tokens(back));
    }
}

/// The left and right tokens of a script of one change.
pub(crate) proof fn lemma_tokens_single<T>(change: Change<T>)
    ensures
        left_tokens(seq![change]) == if change.on_left() {
            seq![change.token()]
        } else {
            Seq::empty()
        },
        right_tokens(seq![change]) == if change.on_right() {
            seq![change.token()]
        } else {
            Seq::empty()
        },
{
    let one = seq![change];
    assert(one.drop_last() =~= Seq::<Change<T>>::empty());
    assert(one.last() == change);
    assert(left_tokens(one.drop_last()) =~= Seq::<T>::empty());
    assert(right_tokens(one.drop_last()) =~= Seq::<T>::empty());
    assert(left_tokens(one) =~= if change.on_left() {
        seq![change.token()]
    } else {
        Seq::empty()
    });
    assert(right_tokens(one) =~= if change.on_right() {
        seq![change.token()]
    } else {
        Seq::empty()
    });
}

/// Appending one change appends its token to the side or sides that it
/// stands on.
proof fn lemma_tokens_push<T>(script: Seq<Change<T>>, change: Change<T>)
    ensures
        left_tokens(script.push(change)) == if change.on_left() {
            left_tokens(script).push(change.token())
        } else {
            left_tokens(script)
        },
        right_tokens(script.push(change)) == if change.on_right() {
            right_tokens(script).push(change.token())
        } else {
            right_tokens(script)
        },
{
    let longer = script.push(change);
    assert(longer.drop_last() =~= script);
    assert(longer.last() == change);
    assert(left_tokens(longer) =~= if change.on_left() {
        left_tokens(script).push(change.token())
    } else {
        left_tokens(script)
    });
    assert(right_tokens(longer) =~= if change.on_right() {
        right_tokens(script).push(change.token())
    } else {
        right_tokens(script)
    });
}

/// Appending one change raises the count of its own kind by one and leaves
/// the other two counts as they were.
proof fn lemma_counts_push<T>(script: Seq<Change<T>>, change: Change<T>)
    ensures
        removed_count(script.push(change)) == removed_count(script) + if change is Removed {
            1nat
        } else {
            0nat
        },
        added_count(script.push(change)) == added_count(script) + if change is Added {
            1nat
        } else {
            0nat
        },
        same_count(script.push(change)) == same_count(script) + if change is Same {
            1nat
        } else {
            0nat
        },
{
    script.lemma_filter_len_push(|c: Change<T>| c is Removed, change);
    script.lemma_filter_len_push(|c: Change<T>| c is Added, change);
    script.lemma_filter_len_push(|c: Change<T>| c is Same, change);
}

/// In any script, the left tokens are as many as the `Removed` and `Same`
/// entries together, and the right tokens as many as the `Added` and `Same`
/// entries together.
pub proof fn lemma_token_counts<T>(script: Seq<Change<T>>)
    ensures
        left_tokens(script).len() == removed_count(script) + same_count(script),
        right_tokens(script).len() == added_count(script) + same_count(script),
        removed_count(script) + added_count(script) + same_count(script) == script.len(),
    decreases script.len(),
{
    if script.len() == 0 {
        reveal(Seq::filter);
    } else {
        let shorter = script.drop_last();
        let last = script.last();
        assert(script =~= shorter.push(last));
        lemma_token_counts(shorter);
        lemma_tokens_push(shorter, last);
        lemma_counts_push(shorter, last);
    }
}

/// Extending either prefix by one token never shortens a longest common
/// subsequence and lengthens it by one at most.
pub proof fn lemma_lcs_len_steps<T>(
    same: spec_fn(T, T) -> bool, left: Seq<T>, right: Seq<T>, i: nat, j: nat,
)
    ensures
        i > 0 ==> lcs_len(same, left, right, (i - 1) as nat, j) <= lcs_len(same, left, right, i, j)
            <= lcs_len(same, left, right, (i - 1) as nat, j) + 1,
        j > 0 ==> lcs_len(same, left, right, i, (j - 1) as nat) <= lcs_len(same, left, right, i, j)
            <= lcs_len(same, left, right, i, (j - 1) as nat) + 1,
    decreases i + j,
{
    if i > 0 && j > 0 {
        lemma_lcs_len_steps(same, left, right, (i - 1) as nat, j);
        lemma_lcs_len_steps(same, left, right, i, (j - 1) as nat);
    } else if i > 0 {
        assert(lcs_len(same, left, right, (i - 1) as nat, j) == 0);
    } else if j > 0 {
        assert(lcs_len(same, left, right, i, (j - 1) as nat) == 0);
    }
}

/// The script for two prefixes accounts for exactly the tokens of the left
/// prefix, in order, and for as many right tokens as the right prefix has.
proof fn lemma_script_tokens_upto<T>(
    same: spec_fn(T, T) -> bool, left: Seq<T>, right: Seq<T>, i: nat, j: nat,
)
    requires
        i <= left.len(),
        j <= right.len(),
    ensures
        left_tokens(edit_script_upto(same, left, right, i, j)) == left.take(i as int),
        right_tokens(edit_script_upto(same, left, right, i, j)).len() == j,
    decreases i + j,
{
    let script = edit_script_upto(same, left, right, i, j);
    if i == 0 && j == 0 {
        assert(left_tokens(script) =~= left.take(0));
    } else {
        let last = script.last();
        let pi = if last.on_left() {
            (i - 1) as nat
        } else {
            i
        };
        let pj = if last.on_right() {
            (j - 1) as nat
        } else {
            j
        };
        let shorter = edit_script_upto(same, left, right, pi, pj);
        assert(script == shorter.push(last));
        lemma_script_tokens_upto(same, left, right, pi, pj);
        lemma_tokens_push(shorter, last);
        if last.on_left() {
            assert(left.take(i as int) =~= left.take(i - 1).push(left[i - 1]));
        }
    }
}

/// The `Removed` and `Same` entries of `diff(left, right)` are together as
/// many as `left` has tokens, and its `Added` and `Same` entries are together
/// as many as `right` has tokens. The left tokens of the script are `left`
/// itself.
pub proof fn lemma_diff_covers_both_sides<T>(
    same: spec_fn(T, T) -> bool, left: Seq<T>, right: Seq<T>,
)
    ensures
        removed_count(edit_script(same, left, right)) + same_count(edit_script(same, left, right))
            == left.len(),
        added_count(edit_script(same, left, right)) + same_count(edit_script(same, left, right))
            == right.len(),
        left_tokens(edit_script(same, left, right)) == left,
{
    lemma_script_tokens_upto(same, left, right, left.len(), right.len());
    lemma_token_counts(edit_script(same, left, right));
    assert(left.take(left.len() as int) =~= left);
}

/// Where equal tokens are identical, the right tokens of `diff(left, right)`
/// are `right` itself.
pub proof fn lemma_diff_rebuilds_right<T>(same: spec_fn(T, T) -> bool, left: Seq<T>, right: Seq<T>)
    requires
        forall|a: T, b: T| #[trigger] same(a, b) ==> a == b,
    ensures
        right_tokens(edit_script(same, left, right)) == right,
{
    lemma_right_tokens_upto(same, left, right, left.len(), right.len());
    assert(right.take(right.len() as int) =~= right);
}

proof fn lemma_right_tokens_upto<T>(
    same: spec_fn(T, T) -> bool, left: Seq<T>, right: Seq<T>, i: nat, j: nat,
)
    requires
        i <= left.len(),
        j <= right.len(),
        forall|a: T, b: T| #[trigger] same(a, b) ==> a == b,
    ensures
        right_tokens(edit_script_upto(same, left, right, i, j)) == right.take(j as int),
    decreases i + j,
{
    let script = edit_script_upto(same, left, right, i, j);
    if i == 0 && j == 0 {
        assert(right_tokens(script) =~= right.take(0));
    } else {
        let last = script.last();
        let pi = if last.on_left() {
            (i - 1) as nat
        } else {
            i
        };
        let pj = if last.on_right() {
            (j - 1) as nat
        } else {
            j
        };
        let shorter = edit_script_upto(same, left, right, pi, pj);
        assert(script == shorter.push(last));
        lemma_right_tokens_upto(same, left, right, pi, pj);
        lemma_tokens_push(shorter, last);
        if last.on_right() {
            assert(last.token() == right[j - 1]);
            assert(right.take(j as int) =~= right.take(j - 1).push(right[j - 1]));
        }
    }
}

/// Comparing a sequence with itself keeps every token: `diff(tokens, tokens)`
/// is `tokens` with every entry marked `Same`, provided that each token is
/// equal to itself.
pub proof fn lemma_diff_of_equal_sequences<T>(same: spec_fn(T, T) -> bool, tokens: Seq<T>)
    requires
        forall|k: int| 0 <= k < tokens.len() ==> same(#[trigger] tokens[k], tokens[k]),
    ensures
        edit_script(same, tokens, tokens) == tokens.map_values(|t: T| Change::Same(t)),
{
    lemma_identity_upto(same, tokens, tokens.len());
    assert(tokens.take(tokens.len() as int) =~= tokens);
}

proof fn lemma_identity_upto<T>(same: spec_fn(T, T) -> bool, tokens: Seq<T>, i: nat)
    requires
        i <= tokens.len(),
        forall|k: int| 0 <= k < tokens.len() ==> same(#[trigger] tokens[k], tokens[k]),
    ensures
        edit_script_upto(same, tokens, tokens, i, i) == tokens.take(i as int).map_values(
            |t: T| Change::Same(t),
        ),
    decreases i,
{
    if i > 0 {
        lemma_identity_upto(same, tokens, (i - 1) as nat);
        assert(same(tokens[i - 1], tokens[i - 1]));
    }
    assert(edit_script_upto(same, tokens, tokens, i, i) =~= tokens.take(i as int).map_values(
        |t: T| Change::Same(t),
    ));
}

/// With nothing on the left every token of the right is `Added`, in order;
/// with nothing on the right every token of the left is `Removed`, in order;
/// with nothing on either side the script is empty.
pub proof fn lemma_diff_with_empty_side<T>(same: spec_fn(T, T) -> bool, tokens: Seq<T>)
    ensures
        edit_script(same, Seq::empty(), tokens) == tokens.map_values(|t: T| Change::Added(t)),
        edit_script(same, tokens, Seq::empty()) == tokens.map_values(|t: T| Change::Removed(t)),
        edit_script(same, Seq::<T>::empty(), Seq::<T>::empty()) == Seq::<Change<T>>::empty(),
{
    lemma_empty_side_upto(same, tokens, tokens.len());
    assert(tokens.take(tokens.len() as int) =~= tokens);
}

proof fn lemma_empty_side_upto<T>(same: spec_fn(T, T) -> bool, tokens: Seq<T>, k: nat)
    requires
        k <= tokens.len(),
    ensures
        edit_script_upto(same, Seq::empty(), tokens, 0, k) == tokens.take(k as int).map_values(
            |t: T| Change::Added(t),
        ),
        edit_script_upto(same, tokens, Seq::empty(), k, 0) == tokens.take(k as int).map_values(
            |t: T| Change::Removed(t),
        ),
    decreases k,
{
    if k > 0 {
        lemma_empty_side_upto(same, tokens, (k - 1) as nat);
    }
    assert(edit_script_upto(same, Seq::empty(), tokens, 0, k) =~= tokens.take(k as int).map_values(
        |t: T| Change::Added(t),
    ));
    assert(edit_script_upto(same, tokens, Seq::empty(), k, 0) =~= tokens.take(k as int).map_values(
        |t: T| Change::Removed(t),
    ));
}

/// `diff` keeps as many tokens as a longest common subsequence has: the
/// `Same` entries of the script are `lcs_len` of the whole sequences.
pub proof fn lemma_diff_keeps_lcs_len<T>(same: spec_fn(T, T) -> bool, left: Seq<T>, right: Seq<T>)
    ensures
        same_count(edit_script(same, left, right)) == lcs_len(
            same,
            left,
            right,
            left.len(),
            right.len(),
        ),
{
    lemma_same_count_upto(same, left, right, left.len(), right.len());
}

proof fn lemma_same_count_upto<T>(
    same: spec_fn(T, T) -> bool, left: Seq<T>, right: Seq<T>, i: nat, j: nat,
)
    ensures
        same_count(edit_script_upto(same, left, right, i, j)) == lcs_len(same, left, right, i, j),
    decreases i + j,
{
    let script = edit_script_upto(same, left, right, i, j);
    if i == 0 && j == 0 {
        reveal(Seq::filter);
    } else {
        let last = script.last();
        let pi = if last.on_left() {
            (i - 1) as nat
        } else {
            i
        };
        let pj = if last.on_right() {
            (j - 1) as nat
        } else {
            j
        };
        let shorter = edit_script_upto(same, left, right, pi, pj);
        assert(script == shorter.push(last));
        lemma_same_count_upto(same, left, right, pi, pj);
        lemma_counts_push(shorter, last);
    }
}

/// In the script of `diff` no addition is directly followed by a removal:
/// between two kept tokens all removals come before all additions.
pub proof fn lemma_diff_lists_removals_first<T>(
    same: spec_fn(T, T) -> bool, left: Seq<T>, right: Seq<T>,
)
    ensures
        removals_first(edit_script(same, left, right)),
{
    lemma_removals_first_upto(same, left, right, left.len(), right.len());
}

proof fn lemma_removals_first_upto<T>(
    same: spec_fn(T, T) -> bool, left: Seq<T>, right: Seq<T>, i: nat, j: nat,
)
    ensures
        removals_first(edit_script_upto(same, left, right, i, j)),
        edit_script_upto(same, left, right, i, j).len() > 0 <==> i > 0 || j > 0,
    decreases i + j,
{
    let script = edit_script_upto(same, left, right, i, j);
    if i > 0 || j > 0 {
        let last = script.last();
        let pi = if last.on_left() {
            (i - 1) as nat
        } else {
            i
        };
        let pj = if last.on_right() {
            (j - 1) as nat
        } else {
            j
        };
        let shorter = edit_script_upto(same, left, right, pi, pj);
        assert(script == shorter.push(last));
        lemma_removals_first_upto(same, left, right, pi, pj);
        if last is Removed && shorter.len() > 0 {
            // The entry before a removal is decided at `(i - 1, j)`.
            assert(pi == i - 1 && pj == j);
            if j > 0 {
                lemma_lcs_len_steps(same, left, right, i, (j - 1) as nat);
                assert(lcs_len(same, left, right, pi, j) > lcs_len(
                    same,
                    left,
                    right,
                    i,
                    (j - 1) as nat,
                ));
                if pi == 0 {
                    assert(lcs_len(same, left, right, pi, j) == 0);
                }
            }
            assert(!(shorter.last() is Added));
        }
        assert forall|k: int| 0 <= k < script.len() - 1 implies !((#[trigger] script[k]) is Added
            && script[k + 1] is Removed) by {
            if k < shorter.len() - 1 {
                assert(script[k] == shorter[k]);
                assert(script[k + 1] == shorter[k + 1]);
            } else {
                assert(script[k] == shorter.last());
                assert(script[k + 1] == last);
            }
        }
    }
}

/// No common subsequence of two prefixes is longer than `lcs_len` says.
pub proof fn lemma_lcs_len_is_an_upper_bound<T>(
    same: spec_fn(T, T) -> bool,
    left: Seq<T>,
    right: Seq<T>,
    i: nat,
    j: nat,
    picks: Seq<(int, int)>,
)
    requires
        is_common_subsequence(same, left, right, i, j, picks),
    ensures
        picks.len() <= lcs_len(same, left, right, i, j),
    decreases i + j,
{
    if picks.len() > 0 {
        let last = picks.last();
        let earlier = picks.drop_last();
        assert(0 <= last.0 < i && 0 <= last.1 < j);
        assert(forall|k: int| 0 <= k < earlier.len() ==> earlier[k] == picks[k]);
        if same(left[i - 1], right[j - 1]) {
            assert forall|k: int| 0 <= k < earlier.len() implies (#[trigger] earlier[k]).0 < i - 1
                && earlier[k].1 < j - 1 by {
                assert(picks[k].0 < picks[picks.len() - 1].0);
            }
            lemma_lcs_len_is_an_upper_bound(
                same, left,
                right,
                (i - 1) as nat,
                (j - 1) as nat,
                earlier,
            );
        } else if last.0 < i - 1 {
            assert forall|k: int| 0 <= k < picks.len() implies (#[trigger] picks[k]).0 < i - 1 by {
                if k < picks.len() - 1 {
                    assert(picks[k].0 < picks[picks.len() - 1].0);
                }
            }
            lemma_lcs_len_is_an_upper_bound(same, left, right, (i - 1) as nat, j, picks);
        } else {
            assert(last.1 < j - 1);
            assert forall|k: int| 0 <= k < picks.len() implies (#[trigger] picks[k]).1 < j - 1 by {
                if k < picks.len() - 1 {
                    assert(picks[k].1 < picks[picks.len() - 1].1);
                }
            }
            lemma_lcs_len_is_an_upper_bound(same, left, right, i, (j - 1) as nat, picks);
        }
    }
}

/// Some common subsequence of two prefixes is as long as `lcs_len` says. The
/// lemma hands it out.
pub proof fn lemma_lcs_len_is_attained<T>(
    same: spec_fn(T, T) -> bool,
    left: Seq<T>,
    right: Seq<T>,
    i: nat,
    j: nat,
) -> (picks: Seq<(int, int)>)
    requires
        i <= left.len(),
        j <= right.len(),
    ensures
        is_common_subsequence(same, left, right, i, j, picks),
        picks.len() == lcs_len(same, left, right, i, j),
    decreases i + j,
{
    if i == 0 || j == 0 {
        Seq::empty()
    } else if same(left[i - 1], right[j - 1]) {
        let earlier = lemma_lcs_len_is_attained(same, left, right, (i - 1) as nat, (j - 1) as nat);
        let picks = earlier.push((i - 1, j - 1));
        assert forall|k: int, m: int| 0 <= k < m < picks.len() implies (#[trigger] picks[k]).0 < (
        #[trigger] picks[m]).0 && picks[k].1 < picks[m].1 by {
            assert(picks[k] == earlier[k]);
            if m < earlier.len() {
                assert(picks[m] == earlier[m]);
            }
        }
        picks
    } else if lcs_len(same, left, right, (i - 1) as nat, j) >= lcs_len(
        same,
        left,
        right,
        i,
        (j - 1) as nat,
    ) {
        lemma_lcs_len_is_attained(same, left, right, (i - 1) as nat, j)
    } else {
        lemma_lcs_len_is_attained(same, left, right, i, (j - 1) as nat)
    }
}

/// `diff` keeps as many tokens as can be kept at all: no common subsequence
/// of `left` and `right` is longer than the script has `Same` entries, so no
/// pairing of equal tokens in order leaves fewer tokens to remove or to add.
pub proof fn lemma_diff_is_minimal<T>(
    same: spec_fn(T, T) -> bool,
    left: Seq<T>,
    right: Seq<T>,
    picks: Seq<(int, int)>,
)
    requires
        is_common_subsequence(same, left, right, left.len(), right.len(), picks),
    ensures
        picks.len() <= same_count(edit_script(same, left, right)),
        removed_count(edit_script(same, left, right)) <= left.len() - picks.len(),
        added_count(edit_script(same, left, right)) <= right.len() - picks.len(),
{
    lemma_lcs_len_is_an_upper_bound(same, left, right, left.len(), right.len(), picks);
    lemma_diff_keeps_lcs_len(same, left, right);
    lemma_diff_covers_both_sides(same, left, right);
}

/// The script of `diff` is shorter than both inputs together by the number
/// of tokens that it keeps, and it is as long as both together exactly when
/// no token of `left` is equal to a token of `right`.
pub proof fn lemma_diff_length<T>(same: spec_fn(T, T) -> bool, left: Seq<T>, right: Seq<T>)
    ensures
        edit_script(same, left, right).len() + same_count(edit_script(same, left, right))
            == left.len() + right.len(),
        edit_script(same, left, right).len() == left.len() + right.len() <==> forall|a: int, b: int|
            0 <= a < left.len() && 0 <= b < right.len() ==> !#[trigger] same(left[a], right[b]),
{
    let script = edit_script(same, left, right);
    lemma_diff_covers_both_sides(same, left, right);
    lemma_token_counts(script);
    lemma_diff_keeps_lcs_len(same, left, right);
    if forall|a: int, b: int|
        0 <= a < left.len() && 0 <= b < right.len() ==> !#[trigger] same(left[a], right[b]) {
        let picks = lemma_lcs_len_is_attained(same, left, right, left.len(), right.len());
        if picks.len() > 0 {
            assert(same(left[picks[0].0], right[picks[0].1]));
        }
    } else {
        let (a, b) = choose|a: int, b: int|
            0 <= a < left.len() && 0 <= b < right.len() && #[trigger] same(left[a], right[b]);
        let picks = seq![(a, b)];
        assert(picks[0] == (a, b));
        lemma_lcs_len_is_an_upper_bound(same, left, right, left.len(), right.len(), picks);
    }
}

} // verus!
