//! What holds of the hunks of every script.

use crate::diff::{edit_script, left_tokens, removals_first, right_tokens, Change};
use crate::diff_lemmas::{
    lemma_diff_covers_both_sides, lemma_diff_lists_removals_first, lemma_diff_rebuilds_right,
    lemma_token_counts, lemma_tokens_concat,
};
use crate::hunk::{
    added_tokens, hunk_of_run, hunks_from, hunks_of, removed_tokens, run_len, same_tokens,
    HunkView,
};
use vstd::prelude::*;

verus! {

/// The tokens that the first `k` hunks cover on the left side.
pub open spec fn left_covered<T>(hunks: Seq<HunkView<T>>, k: int) -> nat
    decreases k,
{
    if k <= 0 {
        0
    } else {
        left_covered(hunks, k - 1) + hunks[k - 1].left_span()
    }
}

/// The tokens that the first `k` hunks cover on the right side.
pub open spec fn right_covered<T>(hunks: Seq<HunkView<T>>, k: int) -> nat
    decreases k,
{
    if k <= 0 {
        0
    } else {
        right_covered(hunks, k - 1) + hunks[k - 1].right_span()
    }
}

/// The left side that a sequence of hunks spells out: the unchanged tokens
/// and the removals of each hunk, hunk after hunk.
pub open spec fn left_side<T>(hunks: Seq<HunkView<T>>) -> Seq<T> {
    hunks.map_values(|h: HunkView<T>| h.unchanged + h.removals).flatten()
}

/// The right side that a sequence of hunks spells out: the unchanged tokens
/// and the additions of each hunk, hunk after hunk.
pub open spec fn right_side<T>(hunks: Seq<HunkView<T>>) -> Seq<T> {
    hunks.map_values(|h: HunkView<T>| h.unchanged + h.additions).flatten()
}

/// The removals of all hunks, hunk after hunk.
pub open spec fn all_removals<T>(hunks: Seq<HunkView<T>>) -> Seq<T> {
    hunks.map_values(|h: HunkView<T>| h.removals).flatten()
}

/// The additions of all hunks, hunk after hunk.
pub open spec fn all_additions<T>(hunks: Seq<HunkView<T>>) -> Seq<T> {
    hunks.map_values(|h: HunkView<T>| h.additions).flatten()
}

/// The unchanged tokens of all hunks, hunk after hunk.
pub open spec fn all_unchanged<T>(hunks: Seq<HunkView<T>>) -> Seq<T> {
    hunks.map_values(|h: HunkView<T>| h.unchanged).flatten()
}

/// Every entry of a run agrees with the run's kind, and the entry after the
/// run, if there is one, does not.
proof fn lemma_run_is_uniform<T>(script: Seq<Change<T>>, from: int, same: bool)
    requires
        0 <= from <= script.len(),
    ensures
        from + run_len(script, from, same) <= script.len(),
        forall|k: int|
            from <= k < from + run_len(script, from, same) ==> (#[trigger] script[k] is Same)
                == same,
        from + run_len(script, from, same) < script.len() ==> (script[from + run_len(
            script,
            from,
            same,
        )] is Same) != same,
    decreases script.len() - from,
{
    if from < script.len() && (script[from] is Same) == same {
        lemma_run_is_uniform(script, from + 1, same);
    }
}

/// In a run of `Same` entries every token is unchanged on both sides; in a run
/// of edits the left tokens are the removals and the right tokens are the
/// additions.
proof fn lemma_uniform_tokens<T>(run: Seq<Change<T>>, same: bool)
    requires
        forall|k: int| 0 <= k < run.len() ==> (#[trigger] run[k] is Same) == same,
    ensures
        same ==> {
            &&& left_tokens(run) == same_tokens(run)
            &&& right_tokens(run) == same_tokens(run)
            &&& removed_tokens(run).len() == 0
            &&& added_tokens(run).len() == 0
            &&& same_tokens(run).len() == run.len()
        },
        !same ==> {
            &&& left_tokens(run) == removed_tokens(run)
            &&& right_tokens(run) == added_tokens(run)
            &&& same_tokens(run).len() == 0
            &&& removed_tokens(run).len() + added_tokens(run).len() == run.len()
        },
    decreases run.len(),
{
    if run.len() > 0 {
        let shorter = run.drop_last();
        assert(forall|k: int| 0 <= k < shorter.len() ==> shorter[k] == run[k]);
        lemma_uniform_tokens(shorter, same);
        assert((run.last() is Same) == same);
    }
}

/// The hunk of a run of one kind covers the run: it is well formed, not
/// empty, and its tokens on either side are those of the run.
proof fn lemma_hunk_of_uniform_run<T>(
    run: Seq<Change<T>>,
    same: bool,
    left_count: nat,
    right_count: nat,
)
    requires
        run.len() > 0,
        forall|k: int| 0 <= k < run.len() ==> (#[trigger] run[k] is Same) == same,
    ensures
        ({
            let hunk = hunk_of_run(run, left_count, right_count);
            &&& hunk.well_formed()
            &&& hunk.is_same() == same
            &&& hunk.left_span() + hunk.right_span() > 0
            &&& hunk.unchanged + hunk.removals == left_tokens(run)
            &&& hunk.unchanged + hunk.additions == right_tokens(run)
            &&& hunk.left_line == left_count + if hunk.left_span() > 0 {
                1nat
            } else {
                0nat
            }
            &&& hunk.right_line == right_count + if hunk.right_span() > 0 {
                1nat
            } else {
                0nat
            }
        }),
{
    lemma_uniform_tokens(run, same);
    let hunk = hunk_of_run(run, left_count, right_count);
    assert(hunk.unchanged + hunk.removals =~= left_tokens(run));
    assert(hunk.unchanged + hunk.additions =~= right_tokens(run));
}

/// The removals, additions and unchanged tokens of a concatenation are those
/// of its parts.
proof fn lemma_kind_tokens_concat<T>(front: Seq<Change<T>>, back: Seq<Change<T>>)
    ensures
        removed_tokens(front + back) == removed_tokens(front) + removed_tokens(back),
        added_tokens(front + back) == added_tokens(front) + added_tokens(back),
        same_tokens(front + back) == same_tokens(front) + same_tokens(back),
    decreases back.len(),
{
    if back.len() == 0 {
        assert(front + back =~= front);
        assert(removed_tokens(front) + removed_tokens(back) =~= removed_tokens(front));
        assert(added_tokens(front) + added_tokens(back) =~= added_tokens(front));
        assert(same_tokens(front) + same_tokens(back) =~= same_tokens(front));
    } else {
        lemma_kind_tokens_concat(front, back.drop_last());
        assert((front + back).drop_last() =~= front + back.drop_last());
        assert((front + back).last() == back.last());
        assert(removed_tokens(front + back) =~= removed_tokens(front) + removed_tokens(back));
        assert(added_tokens(front + back) =~= added_tokens(front) + added_tokens(back));
        assert(same_tokens(front + back) =~= same_tokens(front) + same_tokens(back));
    }
}

/// Flattening a sequence of sequences that begins with `first` gives `first`
/// followed by the flattened rest.
proof fn lemma_flatten_prepend<A>(first: Seq<A>, rest: Seq<Seq<A>>)
    ensures
        (seq![first] + rest).flatten() == first + rest.flatten(),
{
    let all = seq![first] + rest;
    assert(all.first() == first);
    assert(all.drop_first() =~= rest);
}

/// What the hunks of `script[start..]` spell out is what the script holds
/// from `start` on: on the left side, on the right side, and of each kind.
proof fn lemma_hunks_from_cover<T>(
    script: Seq<Change<T>>,
    start: int,
    left_count: nat,
    right_count: nat,
)
    requires
        0 <= start <= script.len(),
    ensures
        ({
            let hunks = hunks_from(script, start, left_count, right_count);
            let rest = script.subrange(start, script.len() as int);
            &&& left_side(hunks) == left_tokens(rest)
            &&& right_side(hunks) == right_tokens(rest)
            &&& all_removals(hunks) == removed_tokens(rest)
            &&& all_additions(hunks) == added_tokens(rest)
            &&& all_unchanged(hunks) == same_tokens(rest)
        }),
    decreases script.len() - start,
{
    let hunks = hunks_from(script, start, left_count, right_count);
    let rest = script.subrange(start, script.len() as int);
    if start < script.len() {
        let same = script[start] is Same;
        let end = start + 1 + run_len(script, start + 1, same);
        lemma_run_is_uniform(script, start + 1, same);
        let run = script.subrange(start, end);
        let hunk = hunk_of_run(run, left_count, right_count);
        let later = hunks_from(
            script,
            end,
            left_count + hunk.left_span(),
            right_count + hunk.right_span(),
        );
        let after = script.subrange(end, script.len() as int);
        lemma_hunks_from_cover(
            script,
            end,
            left_count + hunk.left_span(),
            right_count + hunk.right_span(),
        );
        lemma_hunk_of_uniform_run(run, same, left_count, right_count);
        assert(hunks == seq![hunk] + later);
        assert(rest =~= run + after);
        lemma_tokens_concat(run, after);
        lemma_kind_tokens_concat(run, after);

        let left_part = |h: HunkView<T>| h.unchanged + h.removals;
        assert(hunks.map_values(left_part) =~= seq![left_part(hunk)] + later.map_values(
            left_part,
        ));
        lemma_flatten_prepend(left_part(hunk), later.map_values(left_part));

        let right_part = |h: HunkView<T>| h.unchanged + h.additions;
        assert(hunks.map_values(right_part) =~= seq![right_part(hunk)] + later.map_values(
            right_part,
        ));
        lemma_flatten_prepend(right_part(hunk), later.map_values(right_part));

        let removals = |h: HunkView<T>| h.removals;
        assert(hunks.map_values(removals) =~= seq![removals(hunk)] + later.map_values(removals));
        lemma_flatten_prepend(removals(hunk), later.map_values(removals));

        let additions = |h: HunkView<T>| h.additions;
        assert(hunks.map_values(additions) =~= seq![additions(hunk)] + later.map_values(
            additions,
        ));
        lemma_flatten_prepend(additions(hunk), later.map_values(additions));

        let unchanged = |h: HunkView<T>| h.unchanged;
        assert(hunks.map_values(unchanged) =~= seq![unchanged(hunk)] + later.map_values(
            unchanged,
        ));
        lemma_flatten_prepend(unchanged(hunk), later.map_values(unchanged));
    } else {
        assert(hunks =~= Seq::<HunkView<T>>::empty());
        assert(rest =~= Seq::<Change<T>>::empty());
        assert(left_side(hunks) =~= left_tokens(rest));
        assert(right_side(hunks) =~= right_tokens(rest));
        assert(all_removals(hunks) =~= removed_tokens(rest));
        assert(all_additions(hunks) =~= added_tokens(rest));
        assert(all_unchanged(hunks) =~= same_tokens(rest));
    }
}

/// Taken hunk after hunk, the unchanged tokens and removals of the hunks of a
/// script are the script's left tokens, and the unchanged tokens and
/// additions are its right tokens. Kind by kind, the removals of the hunks
/// are the tokens of the script's `Removed` entries, their additions those of
/// its `Added` entries, and their unchanged tokens those of its `Same`
/// entries.
pub proof fn lemma_hunks_rebuild_script<T>(script: Seq<Change<T>>)
    ensures
        left_side(hunks_of(script)) == left_tokens(script),
        right_side(hunks_of(script)) == right_tokens(script),
        all_removals(hunks_of(script)) == removed_tokens(script),
        all_additions(hunks_of(script)) == added_tokens(script),
        all_unchanged(hunks_of(script)) == same_tokens(script),
{
    lemma_hunks_from_cover(script, 0, 0, 0);
    assert(script.subrange(0, script.len() as int) =~= script);
}

/// Where a script keeps no token, the removals of its hunks alone are its
/// left tokens and their additions alone are its right tokens.
pub proof fn lemma_hunks_of_edits_only<T>(script: Seq<Change<T>>)
    requires
        forall|k: int| 0 <= k < script.len() ==> !(#[trigger] script[k] is Same),
    ensures
        all_removals(hunks_of(script)) == left_tokens(script),
        all_additions(hunks_of(script)) == right_tokens(script),
{
    lemma_hunks_rebuild_script(script);
    lemma_uniform_tokens(script, false);
}

/// The tokens before hunk `k` of a sequence that begins with `first` are the
/// tokens of `first` and those before hunk `k - 1` of the rest.
proof fn lemma_covered_prepend<T>(first: HunkView<T>, rest: Seq<HunkView<T>>, k: int)
    requires
        1 <= k <= rest.len() + 1,
    ensures
        left_covered(seq![first] + rest, k) == first.left_span() + left_covered(rest, k - 1),
        right_covered(seq![first] + rest, k) == first.right_span() + right_covered(rest, k - 1),
    decreases k,
{
    let all = seq![first] + rest;
    if k > 1 {
        lemma_covered_prepend(first, rest, k - 1);
        assert(all[k - 1] == rest[k - 2]);
    } else {
        assert(all[0] == first);
        assert(left_covered(all, 0) == 0);
        assert(right_covered(all, 0) == 0);
    }
}

/// The tokens before a hunk are no more than those before a later hunk.
proof fn lemma_covered_is_monotonic<T>(hunks: Seq<HunkView<T>>, a: int, b: int)
    requires
        0 <= a <= b,
    ensures
        left_covered(hunks, a) <= left_covered(hunks, b),
        right_covered(hunks, a) <= right_covered(hunks, b),
    decreases b - a,
{
    if a < b {
        lemma_covered_is_monotonic(hunks, a, b - 1);
    }
}

/// The shape of the hunks of `script[start..]` when `left_count` and
/// `right_count` tokens stand before `start`.
proof fn lemma_hunks_from_shape<T>(
    script: Seq<Change<T>>,
    start: int,
    left_count: nat,
    right_count: nat,
)
    requires
        0 <= start <= script.len(),
    ensures
        ({
            let hunks = hunks_from(script, start, left_count, right_count);
            &&& forall|k: int|
                0 <= k < hunks.len() ==> {
                    &&& (#[trigger] hunks[k]).well_formed()
                    &&& hunks[k].left_span() + hunks[k].right_span() > 0
                    &&& hunks[k].left_line == left_count + left_covered(hunks, k)
                        + if hunks[k].left_span() > 0 {
                        1nat
                    } else {
                        0nat
                    }
                    &&& hunks[k].right_line == right_count + right_covered(hunks, k)
                        + if hunks[k].right_span() > 0 {
                        1nat
                    } else {
                        0nat
                    }
                }
            &&& forall|k: int|
                0 <= k < hunks.len() - 1 ==> (#[trigger] hunks[k]).is_same() != hunks[k
                    + 1].is_same()
            &&& hunks.len() > 0 ==> start < script.len() && hunks[0].is_same() == (
            script[start] is Same)
            &&& start < script.len() ==> hunks.len() > 0
        }),
    decreases script.len() - start,
{
    let hunks = hunks_from(script, start, left_count, right_count);
    if start < script.len() {
        let same = script[start] is Same;
        let end = start + 1 + run_len(script, start + 1, same);
        lemma_run_is_uniform(script, start + 1, same);
        let run = script.subrange(start, end);
        let hunk = hunk_of_run(run, left_count, right_count);
        let next_left = left_count + hunk.left_span();
        let next_right = right_count + hunk.right_span();
        let later = hunks_from(script, end, next_left, next_right);
        lemma_hunks_from_shape(script, end, next_left, next_right);
        lemma_hunk_of_uniform_run(run, same, left_count, right_count);
        assert(hunks == seq![hunk] + later);
        assert(hunks[0] == hunk);
        assert(left_covered(hunks, 0) == 0);
        assert(right_covered(hunks, 0) == 0);
        assert forall|k: int| 0 <= k < hunks.len() implies {
            &&& (#[trigger] hunks[k]).well_formed()
            &&& hunks[k].left_span() + hunks[k].right_span() > 0
            &&& hunks[k].left_line == left_count + left_covered(hunks, k)
                + if hunks[k].left_span() > 0 {
                1nat
            } else {
                0nat
            }
            &&& hunks[k].right_line == right_count + right_covered(hunks, k)
                + if hunks[k].right_span() > 0 {
                1nat
            } else {
                0nat
            }
        } by {
            if k > 0 {
                assert(hunks[k] == later[k - 1]);
                lemma_covered_prepend(hunk, later, k);
            }
        }
        assert forall|k: int| 0 <= k < hunks.len() - 1 implies (#[trigger] hunks[k]).is_same()
            != hunks[k + 1].is_same() by {
            assert(hunks[k + 1] == later[k]);
            if k > 0 {
                assert(hunks[k] == later[k - 1]);
            }
        }
    } else {
        assert(hunks =~= Seq::<HunkView<T>>::empty());
    }
}

/// Every hunk of a script is well formed and holds at least one token, and
/// of two neighbours exactly one holds unchanged tokens: no run could have
/// been longer.
pub proof fn lemma_hunks_are_maximal_runs<T>(script: Seq<Change<T>>)
    ensures
        forall|k: int|
            0 <= k < hunks_of(script).len() ==> {
                &&& (#[trigger] hunks_of(script)[k]).well_formed()
                &&& hunks_of(script)[k].left_span() + hunks_of(script)[k].right_span() > 0
            },
        forall|k: int|
            0 <= k < hunks_of(script).len() - 1 ==> (#[trigger] hunks_of(script)[k]).is_same()
                != hunks_of(script)[k + 1].is_same(),
        script.len() > 0 ==> hunks_of(script).len() > 0,
{
    lemma_hunks_from_shape(script, 0, 0, 0);
}

/// The line of a hunk on either side counts the tokens that the hunks before
/// it cover on that side, and one more where the hunk itself has a token
/// there.
pub proof fn lemma_hunk_lines_count_tokens<T>(script: Seq<Change<T>>)
    ensures
        forall|k: int|
            0 <= k < hunks_of(script).len() ==> {
                &&& (#[trigger] hunks_of(script)[k]).left_line == left_covered(hunks_of(script), k)
                    + if hunks_of(script)[k].left_span() > 0 {
                    1nat
                } else {
                    0nat
                }
                &&& hunks_of(script)[k].right_line == right_covered(hunks_of(script), k)
                    + if hunks_of(script)[k].right_span() > 0 {
                    1nat
                } else {
                    0nat
                }
            },
{
    lemma_hunks_from_shape(script, 0, 0, 0);
}

/// From one hunk to a later one the lines never go down, on either side.
pub proof fn lemma_hunk_lines_are_monotonic<T>(script: Seq<Change<T>>, a: int, b: int)
    requires
        0 <= a <= b < hunks_of(script).len(),
    ensures
        hunks_of(script)[a].left_line <= hunks_of(script)[b].left_line,
        hunks_of(script)[a].right_line <= hunks_of(script)[b].right_line,
{
    let hunks = hunks_of(script);
    lemma_hunk_lines_count_tokens(script);
    if a < b {
        lemma_covered_is_monotonic(hunks, a + 1, b);
        assert(left_covered(hunks, a + 1) == left_covered(hunks, a) + hunks[a].left_span());
        assert(right_covered(hunks, a + 1) == right_covered(hunks, a) + hunks[a].right_span());
    }
}

/// All hunks of a script together cover as many tokens on either side as the
/// script has there.
pub proof fn lemma_hunks_cover_all_tokens<T>(script: Seq<Change<T>>)
    ensures
        left_covered(hunks_of(script), hunks_of(script).len() as int) == left_tokens(script).len(),
        right_covered(hunks_of(script), hunks_of(script).len() as int) == right_tokens(
            script,
        ).len(),
{
    lemma_hunks_rebuild_script(script);
    lemma_covered_is_side_len(hunks_of(script));
}

/// The tokens that all hunks of a sequence cover on a side are as many as the
/// side that they spell out is long.
proof fn lemma_covered_is_side_len<T>(hunks: Seq<HunkView<T>>)
    ensures
        left_covered(hunks, hunks.len() as int) == left_side(hunks).len(),
        right_covered(hunks, hunks.len() as int) == right_side(hunks).len(),
    decreases hunks.len(),
{
    if hunks.len() > 0 {
        let first = hunks[0];
        let rest = hunks.drop_first();
        assert(hunks =~= seq![first] + rest);
        lemma_covered_is_side_len(rest);
        lemma_covered_prepend(first, rest, hunks.len() as int);
        let left_part = |h: HunkView<T>| h.unchanged + h.removals;
        assert(hunks.map_values(left_part) =~= seq![left_part(first)] + rest.map_values(
            left_part,
        ));
        lemma_flatten_prepend(left_part(first), rest.map_values(left_part));
        let right_part = |h: HunkView<T>| h.unchanged + h.additions;
        assert(hunks.map_values(right_part) =~= seq![right_part(first)] + rest.map_values(
            right_part,
        ));
        lemma_flatten_prepend(right_part(first), rest.map_values(right_part));
    } else {
        assert(left_side(hunks) =~= Seq::<T>::empty());
        assert(right_side(hunks) =~= Seq::<T>::empty());
    }
}

/// The last line of either interval of a hunk is a line of its side: it is no
/// greater than the number of tokens that the script has there.
pub proof fn lemma_hunk_intervals_fit<T>(script: Seq<Change<T>>)
    ensures
        forall|k: int|
            0 <= k < hunks_of(script).len() ==> {
                &&& (#[trigger] hunks_of(script)[k]).left_interval().1 <= left_tokens(script).len()
                &&& hunks_of(script)[k].right_interval().1 <= right_tokens(script).len()
            },
        left_tokens(script).len() <= script.len(),
        right_tokens(script).len() <= script.len(),
{
    let hunks = hunks_of(script);
    lemma_hunk_lines_count_tokens(script);
    lemma_hunks_cover_all_tokens(script);
    lemma_token_counts(script);
    assert forall|k: int| 0 <= k < hunks.len() implies {
        &&& (#[trigger] hunks[k]).left_interval().1 <= left_tokens(script).len()
        &&& hunks[k].right_interval().1 <= right_tokens(script).len()
    } by {
        lemma_covered_is_monotonic(hunks, k + 1, hunks.len() as int);
        assert(left_covered(hunks, k + 1) == left_covered(hunks, k) + hunks[k].left_span());
        assert(right_covered(hunks, k + 1) == right_covered(hunks, k) + hunks[k].right_span());
    }
}

/// The entries that a hunk stands for: its unchanged tokens as `Same`, then
/// its removals as `Removed`, then its additions as `Added`.
pub open spec fn changes_of<T>(hunk: HunkView<T>) -> Seq<Change<T>> {
    hunk.unchanged.map_values(|t: T| Change::Same(t)) + hunk.removals.map_values(
        |t: T| Change::Removed(t),
    ) + hunk.additions.map_values(|t: T| Change::Added(t))
}

/// The script that a sequence of hunks stands for, hunk after hunk.
pub open spec fn script_of_hunks<T>(hunks: Seq<HunkView<T>>) -> Seq<Change<T>> {
    hunks.map_values(|h: HunkView<T>| changes_of(h)).flatten()
}

/// A run of `Removed` entries only has no additions.
proof fn lemma_only_removals<T>(run: Seq<Change<T>>)
    requires
        forall|k: int| 0 <= k < run.len() ==> #[trigger] run[k] is Removed,
    ensures
        added_tokens(run).len() == 0,
    decreases run.len(),
{
    if run.len() > 0 {
        let shorter = run.drop_last();
        assert(forall|k: int| 0 <= k < shorter.len() ==> shorter[k] == run[k]);
        lemma_only_removals(shorter);
        assert(run.last() is Removed);
    }
}

/// In a run of edits that lists removals first, every entry before a removal
/// is a removal.
proof fn lemma_removals_up_to<T>(run: Seq<Change<T>>, k: int)
    requires
        0 <= k < run.len(),
        run[k] is Removed,
        removals_first(run),
        forall|m: int| 0 <= m < run.len() ==> !(#[trigger] run[m] is Same),
    ensures
        forall|m: int| 0 <= m <= k ==> #[trigger] run[m] is Removed,
    decreases k,
{
    if k > 0 {
        assert(!(run[k - 1] is Added && run[k - 1 + 1] is Removed));
        assert(!(run[k - 1] is Same));
        lemma_removals_up_to(run, k - 1);
    }
}

/// A run of one kind that lists removals first is the entries that its hunk
/// stands for.
proof fn lemma_run_is_changes_of_hunk<T>(
    run: Seq<Change<T>>,
    same: bool,
    left_count: nat,
    right_count: nat,
)
    requires
        forall|k: int| 0 <= k < run.len() ==> (#[trigger] run[k] is Same) == same,
        removals_first(run),
    ensures
        changes_of(hunk_of_run(run, left_count, right_count)) == run,
    decreases run.len(),
{
    let hunk = hunk_of_run(run, left_count, right_count);
    if run.len() == 0 {
        assert(changes_of(hunk) =~= run);
    } else {
        let shorter = run.drop_last();
        let last = run.last();
        let before = hunk_of_run(shorter, left_count, right_count);
        assert(run =~= shorter.push(last));
        assert forall|k: int| 0 <= k < shorter.len() implies (#[trigger] shorter[k] is Same)
            == same by {
            assert(shorter[k] == run[k]);
        }
        assert(removals_first(shorter)) by {
            assert forall|k: int| 0 <= k < shorter.len() - 1 implies !((
            #[trigger] shorter[k]) is Added && shorter[k + 1] is Removed) by {
                assert(shorter[k] == run[k]);
                assert(shorter[k + 1] == run[k + 1]);
            }
        }
        lemma_run_is_changes_of_hunk(shorter, same, left_count, right_count);
        lemma_uniform_tokens(shorter, same);
        lemma_uniform_tokens(run, same);
        assert((last is Same) == same);
        if last is Removed {
            lemma_removals_up_to(run, run.len() - 1);
            assert forall|k: int| 0 <= k < shorter.len() implies #[trigger] shorter[k] is Removed
            by {
                assert(shorter[k] == run[k]);
            }
            lemma_only_removals(shorter);
        }
        assert(changes_of(hunk) =~= changes_of(before).push(last));
    }
}

/// A part of a script that lists removals first does so too.
proof fn lemma_removals_first_subrange<T>(script: Seq<Change<T>>, from: int, to: int)
    requires
        0 <= from <= to <= script.len(),
        removals_first(script),
    ensures
        removals_first(script.subrange(from, to)),
{
    let part = script.subrange(from, to);
    assert forall|k: int| 0 <= k < part.len() - 1 implies !((#[trigger] part[k]) is Added
        && part[k + 1] is Removed) by {
        assert(part[k] == script[from + k]);
        assert(part[k + 1] == script[from + k + 1]);
    }
}

proof fn lemma_hunks_from_spell_script<T>(
    script: Seq<Change<T>>,
    start: int,
    left_count: nat,
    right_count: nat,
)
    requires
        0 <= start <= script.len(),
        removals_first(script),
    ensures
        script_of_hunks(hunks_from(script, start, left_count, right_count)) == script.subrange(
            start,
            script.len() as int,
        ),
    decreases script.len() - start,
{
    let hunks = hunks_from(script, start, left_count, right_count);
    let rest = script.subrange(start, script.len() as int);
    if start < script.len() {
        let same = script[start] is Same;
        let end = start + 1 + run_len(script, start + 1, same);
        lemma_run_is_uniform(script, start + 1, same);
        let run = script.subrange(start, end);
        let hunk = hunk_of_run(run, left_count, right_count);
        let next_left = left_count + hunk.left_span();
        let next_right = right_count + hunk.right_span();
        let later = hunks_from(script, end, next_left, next_right);
        lemma_hunks_from_spell_script(script, end, next_left, next_right);
        lemma_removals_first_subrange(script, start, end);
        lemma_run_is_changes_of_hunk(run, same, left_count, right_count);
        assert(hunks == seq![hunk] + later);
        assert(rest =~= run + script.subrange(end, script.len() as int));
        let spell = |h: HunkView<T>| changes_of(h);
        assert(hunks.map_values(spell) =~= seq![spell(hunk)] + later.map_values(spell));
        lemma_flatten_prepend(spell(hunk), later.map_values(spell));
    } else {
        assert(hunks =~= Seq::<HunkView<T>>::empty());
        assert(script_of_hunks(hunks) =~= rest);
    }
}

/// The hunks of a script that lists removals first stand for that very
/// script: written out hunk after hunk, unchanged tokens as `Same`, removals
/// as `Removed` and additions as `Added`, they give back every entry in its
/// place. Every script of `diff` lists removals first.
pub proof fn lemma_hunks_spell_script<T>(script: Seq<Change<T>>)
    requires
        removals_first(script),
    ensures
        script_of_hunks(hunks_of(script)) == script,
{
    lemma_hunks_from_spell_script(script, 0, 0, 0);
    assert(script.subrange(0, script.len() as int) =~= script);
}

/// The hunks of `diff(left, right)` give both inputs back. Hunk after hunk,
/// their unchanged tokens and removals are `left`, and the entries that they
/// stand for are the script itself. Where equal tokens are identical, their
/// unchanged tokens and additions are `right`.
pub proof fn lemma_hunks_of_diff_rebuild_inputs<T>(
    same: spec_fn(T, T) -> bool,
    left: Seq<T>,
    right: Seq<T>,
)
    ensures
        left_side(hunks_of(edit_script(same, left, right))) == left,
        script_of_hunks(hunks_of(edit_script(same, left, right))) == edit_script(
            same,
            left,
            right,
        ),
        (forall|a: T, b: T| #[trigger] same(a, b) ==> a == b) ==> right_side(
            hunks_of(edit_script(same, left, right)),
        ) == right,
{
    let script = edit_script(same, left, right);
    lemma_hunks_rebuild_script(script);
    lemma_diff_covers_both_sides(same, left, right);
    lemma_diff_lists_removals_first(same, left, right);
    lemma_hunks_spell_script(script);
    if forall|a: T, b: T| #[trigger] same(a, b) ==> a == b {
        lemma_diff_rebuilds_right(same, left, right);
    }
}


/// Both intervals of every hunk of `diff(left, right)` end on a line of their
/// own side, whatever relation says which tokens are equal: the left one no
/// later than `left` has tokens, the right one no later than `right` has.
pub proof fn lemma_hunk_intervals_of_diff_fit<T>(
    same: spec_fn(T, T) -> bool,
    left: Seq<T>,
    right: Seq<T>,
)
    ensures
        forall|k: int|
            0 <= k < hunks_of(edit_script(same, left, right)).len() ==> {
                &&& (#[trigger] hunks_of(edit_script(same, left, right))[k]).left_interval().1
                    <= left.len()
                &&& hunks_of(edit_script(same, left, right))[k].right_interval().1 <= right.len()
            },
{
    let script = edit_script(same, left, right);
    lemma_hunk_intervals_fit(script);
    lemma_diff_covers_both_sides(same, left, right);
    lemma_token_counts(script);
}

} // verus!
