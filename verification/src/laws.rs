//! What holds of every round and of every session.

use vstd::prelude::*;

use crate::absent::knowledge_rule;
use crate::counts::{
    counts_toward, floor_of, lemma_floors_grow, lemma_tally, never_lower, tally,
};
use crate::knowledge::{lemma_after_round_wf, round_sieve, valid_round, Knowledge};
use crate::letter::{letter_key, Letter, LetterType};
use crate::mask::{lemma_mask_bits, mask_has, places};
use crate::positions::{
    is_marked, lemma_marks_none, lemma_masks_bits, marked_at, marks, mask_of, position_rule,
};
use crate::rule::{lemma_filter_all, Rule};
use crate::word::{occurrences, WORD_LEN};

verus! {

/// No round adds a candidate: the list after a round is the list before with
/// some entries left out, so it is never longer.
pub proof fn lemma_candidates_shrink(k: Knowledge, round: Seq<Letter>)
    ensures
        k.after_round(round).candidates.len() <= k.candidates.len(),
        forall|i: int|
            0 <= i < k.after_round(round).candidates.len() ==> k.candidates.contains(
                #[trigger] k.after_round(round).candidates[i],
            ),
{
    if valid_round(round) {
        let after = k.after_round(round);
        let keep = round_sieve(round, after.correct_mask, after.present_mask, after.count_floor);
        k.candidates.lemma_filter_len(keep);
        assert forall|i: int| 0 <= i < after.candidates.len() implies k.candidates.contains(
            #[trigger] after.candidates[i],
        ) by {
            k.candidates.lemma_filter_contains_rev(keep, after.candidates[i]);
        }
    } else {
        assert forall|i: int| 0 <= i < k.candidates.len() implies k.candidates.contains(
            #[trigger] k.candidates[i],
        ) by {}
    }
}

/// No round lowers or forgets a floor, and a letter to which a valid round
/// gives a mark other than the absent one has a floor of at least 1 after it.
pub proof fn lemma_floors_never_sink(k: Knowledge, round: Seq<Letter>)
    ensures
        never_lower(k.count_floor, k.after_round(round).count_floor),
        valid_round(round) ==> forall|i: int|
            0 <= i < round.len() && (#[trigger] round[i]).letter_type != LetterType::Incorrect
                ==> k.after_round(round).count_floor.contains_key(letter_key(round[i].character))
                && k.after_round(round).count_floor[letter_key(round[i].character)] >= 1,
{
    if valid_round(round) {
        assert forall|key: u32| #[trigger] k.count_floor.contains_key(key) implies k.after_round(
            round,
        ).count_floor.contains_key(key) && k.after_round(round).count_floor[key]
            >= k.count_floor[key] by {
            lemma_floors_grow(round, k.count_floor, key);
        }
        assert forall|i: int|
            0 <= i < round.len() && (#[trigger] round[i]).letter_type
                != LetterType::Incorrect implies k.after_round(round).count_floor.contains_key(
            letter_key(round[i].character),
        ) && k.after_round(round).count_floor[letter_key(round[i].character)] >= 1 by {
            let key = letter_key(round[i].character);
            assert(counts_toward(round[i], key));
            lemma_tally(round, key);
            lemma_floors_grow(round, k.count_floor, key);
        }
    }
}

/// Over any series of rounds the candidates never grow in number, no floor
/// sinks, and the invariant of the knowledge is kept.
pub proof fn lemma_session(k: Knowledge, rounds: Seq<Seq<Letter>>)
    ensures
        k.after_rounds(rounds).candidates.len() <= k.candidates.len(),
        never_lower(k.count_floor, k.after_rounds(rounds).count_floor),
        k.wf() ==> k.after_rounds(rounds).wf(),
    decreases rounds.len(),
{
    if rounds.len() > 0 {
        let earlier = k.after_rounds(rounds.drop_last());
        lemma_session(k, rounds.drop_last());
        lemma_candidates_shrink(earlier, rounds.last());
        lemma_floors_never_sink(earlier, rounds.last());
        if k.wf() {
            lemma_after_round_wf(earlier, rounds.last());
        }
    }
}

/// Over a series of rounds, a bit of a mask is set at the end exactly when it
/// was set at the start or some valid round of the series held the letter with
/// the mark at that place: misplaced for the one table, correct for the other.
pub proof fn lemma_session_masks(k: Knowledge, rounds: Seq<Seq<Letter>>, key: u32, i: int)
    requires
        0 <= i < WORD_LEN,
    ensures
        mask_has(mask_of(k.after_rounds(rounds).present_mask, key), i) <==> mask_has(
            mask_of(k.present_mask, key),
            i,
        ) || exists|j: int|
            0 <= j < rounds.len() && valid_round(#[trigger] rounds[j]) && marked_at(
                rounds[j][i],
                key,
                LetterType::WrongPosition,
            ),
        mask_has(mask_of(k.after_rounds(rounds).correct_mask, key), i) <==> mask_has(
            mask_of(k.correct_mask, key),
            i,
        ) || exists|j: int|
            0 <= j < rounds.len() && valid_round(#[trigger] rounds[j]) && marked_at(
                rounds[j][i],
                key,
                LetterType::Correct,
            ),
    decreases rounds.len(),
{
    if rounds.len() > 0 {
        let front = rounds.drop_last();
        let last = rounds.last();
        let earlier = k.after_rounds(front);
        lemma_session_masks(k, front, key, i);
        assert(rounds[rounds.len() - 1] == last);
        assert forall|j: int| 0 <= j < front.len() implies #[trigger] front[j] == rounds[j] by {}
        if valid_round(last) {
            lemma_masks_bits(last, earlier.present_mask, LetterType::WrongPosition, key, i);
            lemma_masks_bits(last, earlier.correct_mask, LetterType::Correct, key, i);
        }
        lemma_seen_in_series(rounds, key, i, LetterType::WrongPosition);
        lemma_seen_in_series(rounds, key, i, LetterType::Correct);
    }
}

/// A valid round of a series that holds the letter with the mark at the
/// place is the last round of the series or one of those before it.
proof fn lemma_seen_in_series(rounds: Seq<Seq<Letter>>, key: u32, i: int, label: LetterType)
    requires
        rounds.len() > 0,
    ensures
        (exists|j: int|
            0 <= j < rounds.len() && valid_round(#[trigger] rounds[j]) && marked_at(
                rounds[j][i],
                key,
                label,
            )) <==> (exists|j: int|
            0 <= j < rounds.drop_last().len() && valid_round(#[trigger] rounds.drop_last()[j])
                && marked_at(rounds.drop_last()[j][i], key, label)) || (valid_round(rounds.last())
            && marked_at(rounds.last()[i], key, label)),
{
    let front = rounds.drop_last();
    let last = rounds.last();
    if exists|j: int|
        0 <= j < rounds.len() && valid_round(#[trigger] rounds[j]) && marked_at(
            rounds[j][i],
            key,
            label,
        ) {
        let j = choose|j: int|
            0 <= j < rounds.len() && valid_round(#[trigger] rounds[j]) && marked_at(
                rounds[j][i],
                key,
                label,
            );
        if j < front.len() {
            assert(front[j] == rounds[j]);
        }
    }
    if exists|j: int|
        0 <= j < front.len() && valid_round(#[trigger] front[j]) && marked_at(
            front[j][i],
            key,
            label,
        ) {
        let j = choose|j: int|
            0 <= j < front.len() && valid_round(#[trigger] front[j]) && marked_at(
                front[j][i],
                key,
                label,
            );
        assert(rounds[j] == front[j]);
    }
    if valid_round(last) && marked_at(last[i], key, label) {
        assert(rounds[rounds.len() - 1] == last);
    }
}

/// Over a series of rounds, the floor of a letter at the end is the largest
/// of its floor at the start and its tallies in the valid rounds of the
/// series, and the letter has a floor at the end exactly when it had one at
/// the start or some valid round of the series speaks for it.
pub proof fn lemma_session_floors(k: Knowledge, rounds: Seq<Seq<Letter>>, key: u32)
    ensures
        floor_of(k.after_rounds(rounds).count_floor, key) >= floor_of(k.count_floor, key),
        forall|j: int|
            0 <= j < rounds.len() && valid_round(#[trigger] rounds[j]) ==> floor_of(
                k.after_rounds(rounds).count_floor,
                key,
            ) >= tally(rounds[j], key),
        floor_of(k.after_rounds(rounds).count_floor, key) == floor_of(k.count_floor, key)
            || exists|j: int|
            0 <= j < rounds.len() && valid_round(#[trigger] rounds[j]) && floor_of(
                k.after_rounds(rounds).count_floor,
                key,
            ) == tally(rounds[j], key),
        k.after_rounds(rounds).count_floor.contains_key(key) <==> k.count_floor.contains_key(key)
            || exists|j: int|
            0 <= j < rounds.len() && valid_round(#[trigger] rounds[j]) && tally(rounds[j], key) > 0,
    decreases rounds.len(),
{
    if rounds.len() > 0 {
        let front = rounds.drop_last();
        let last = rounds.last();
        let earlier = k.after_rounds(front);
        let after = k.after_rounds(rounds);
        lemma_session_floors(k, front, key);
        assert(rounds[rounds.len() - 1] == last);
        assert forall|j: int| 0 <= j < front.len() implies #[trigger] front[j] == rounds[j] by {}
        if valid_round(last) {
            lemma_tally(last, key);
        }
        if exists|j: int|
            0 <= j < front.len() && valid_round(#[trigger] front[j]) && floor_of(
                earlier.count_floor,
                key,
            ) == tally(front[j], key) {
            let j = choose|j: int|
                0 <= j < front.len() && valid_round(#[trigger] front[j]) && floor_of(
                    earlier.count_floor,
                    key,
                ) == tally(front[j], key);
            assert(rounds[j] == front[j]);
        }
        if exists|j: int|
            0 <= j < front.len() && valid_round(#[trigger] front[j]) && tally(front[j], key) > 0 {
            let j = choose|j: int|
                0 <= j < front.len() && valid_round(#[trigger] front[j]) && tally(front[j], key)
                    > 0;
            assert(rounds[j] == front[j]);
        }
        if exists|j: int|
            0 <= j < rounds.len() && valid_round(#[trigger] rounds[j]) && tally(rounds[j], key)
                > 0 {
            let j = choose|j: int|
                0 <= j < rounds.len() && valid_round(#[trigger] rounds[j]) && tally(rounds[j], key)
                    > 0;
            if j < front.len() {
                assert(front[j] == rounds[j]);
            }
        }
        assert forall|j: int| 0 <= j < rounds.len() && valid_round(#[trigger] rounds[j]) implies
            floor_of(after.count_floor, key) >= tally(rounds[j], key) by {
            if j < front.len() {
                assert(front[j] == rounds[j]);
            }
        }
    }
}

/// Among the first `n` letters of a word that has the letter at every place
/// the mask records, the letter occurs at least as often as the mask records
/// places, and exactly as often when it occurs at no other place.
proof fn lemma_confined_prefix(w: Seq<char>, letter: char, mask: u16, n: int)
    requires
        0 <= n <= w.len(),
        forall|i: int| 0 <= i < w.len() && #[trigger] mask_has(mask, i) ==> w[i] == letter,
    ensures
        occurrences(w.take(n), letter) >= places(mask, n),
        occurrences(w.take(n), letter) == places(mask, n) <==> forall|p: int|
            0 <= p < n && w[p] == letter ==> #[trigger] mask_has(mask, p),
    decreases n,
{
    if n > 0 {
        lemma_confined_prefix(w, letter, mask, n - 1);
        assert(w.take(n).drop_last() == w.take(n - 1));
        assert(w.take(n).last() == w[n - 1]);
        if w[n - 1] == letter && !mask_has(mask, n - 1) {
            assert(!(forall|p: int| 0 <= p < n && w[p] == letter ==> #[trigger] mask_has(mask, p)));
        }
    }
}

/// For a word that has the letter at every place the mask records, as every
/// candidate has it at every confirmed place, keeping the letter within the
/// mask is containing it exactly as often as the mask records places.
pub proof fn lemma_within_is_exact_count(w: Seq<char>, letter: char, mask: u16)
    requires
        forall|i: int| 0 <= i < w.len() && #[trigger] mask_has(mask, i) ==> w[i] == letter,
    ensures
        (Rule::Within { letter, mask }).admits(w) <==> occurrences(w, letter) == places(
            mask,
            w.len() as int,
        ),
        occurrences(w, letter) >= places(mask, w.len() as int),
{
    lemma_confined_prefix(w, letter, mask, w.len() as int);
    assert(w.take(w.len() as int) == w);
    if !w.contains(letter) {
        assert forall|p: int| 0 <= p < w.len() && w[p] == letter implies #[trigger] mask_has(
            mask,
            p,
        ) by {
            assert(w.contains(w[p]));
        }
    }
}

/// A round made of absent marks only, for letters of which nothing is known
/// but that they are absent, changes nothing: neither the candidates nor the
/// tables.
pub proof fn lemma_absent_round_changes_nothing(k: Knowledge, round: Seq<Letter>)
    requires
        forall|i: int|
            0 <= i < round.len() ==> (#[trigger] round[i]).letter_type == LetterType::Incorrect
                && k.known_absent(round[i].character),
    ensures
        k.after_round(round) == k,
{
    if valid_round(round) {
        let after = k.after_round(round);
        assert forall|key: u32| tally(round, key) == 0 by {
            lemma_tally(round, key);
        }
        assert(after.count_floor =~= k.count_floor);
        assert forall|key: u32, label: LetterType|
            label != LetterType::Incorrect implies #[trigger] marks(round, key, label) == 0
            && !is_marked(round, key, label) by {
            lemma_marks_none(round, key, label);
        }
        assert forall|key: u32| #[trigger] mask_of(k.present_mask, key) | 0 == mask_of(
            k.present_mask,
            key,
        ) by {
            lemma_mask_bits(mask_of(k.present_mask, key), 0, 0, 0);
        }
        assert forall|key: u32| #[trigger] mask_of(k.correct_mask, key) | 0 == mask_of(
            k.correct_mask,
            key,
        ) by {
            lemma_mask_bits(mask_of(k.correct_mask, key), 0, 0, 0);
        }
        assert(after.present_mask =~= k.present_mask);
        assert(after.correct_mask =~= k.correct_mask);
        let keep = round_sieve(round, after.correct_mask, after.present_mask, after.count_floor);
        assert forall|j: int| 0 <= j < k.candidates.len() implies keep(
            #[trigger] k.candidates[j],
        ) by {
            let w = k.candidates[j]@;
            assert forall|i: int| 0 <= i < round.len() implies (#[trigger] position_rule(
                i,
                round[i],
            )).admits(w) by {}
            assert forall|i: int| 0 <= i < round.len() implies (#[trigger] knowledge_rule(
                i,
                round[i],
                after.correct_mask,
                after.present_mask,
                after.count_floor,
            )).admits(w) by {
                assert(k.known_absent(round[i].character));
            }
        }
        lemma_filter_all(k.candidates, keep);
    }
}

/// Once a round of absent marks for letters without a mask has been taken
/// in, taking it in again changes nothing.
pub proof fn lemma_absent_round_twice(k: Knowledge, round: Seq<Letter>)
    requires
        forall|i: int|
            0 <= i < round.len() ==> (#[trigger] round[i]).letter_type == LetterType::Incorrect
                && !k.present_mask.contains_key(letter_key(round[i].character))
                && !k.correct_mask.contains_key(letter_key(round[i].character)),
    ensures
        k.after_round(round).after_round(round) == k.after_round(round),
{
    if valid_round(round) {
        let after = k.after_round(round);
        assert forall|key: u32, label: LetterType|
            label != LetterType::Incorrect implies !#[trigger] is_marked(round, key, label) by {}
        let keep = round_sieve(round, after.correct_mask, after.present_mask, after.count_floor);
        assert forall|i: int| 0 <= i < round.len() implies (#[trigger] round[i]).letter_type
            == LetterType::Incorrect && after.known_absent(round[i].character) by {
            let letter = round[i].character;
            assert forall|j: int| 0 <= j < after.candidates.len() implies !(
            #[trigger] after.candidates[j])@.contains(letter) by {
                k.candidates.lemma_filter_pred(keep, j);
                let w = after.candidates[j]@;
                assert(knowledge_rule(
                    i,
                    round[i],
                    after.correct_mask,
                    after.present_mask,
                    after.count_floor,
                ).admits(w));
            }
        }
        lemma_absent_round_changes_nothing(after, round);
    }
}

} // verus!
