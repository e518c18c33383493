//! What a session knows, as a mathematical value: the three tables, the
//! candidates, what a round makes of them, and what always holds of them.

use vstd::prelude::*;

use crate::absent::{knowledge_rule, passes_knowledge};
use crate::counts::{counts_toward, floor_of, floors_after, lemma_tally, tally};
use crate::letter::{is_letter, letter_key, Letter, LetterType};
use crate::mask::{is_place_mask, lemma_mask_bits, lemma_place_masks, mask_has};
use crate::positions::{
    is_marked, lemma_marks_range, lemma_masks_bits, marked_at, marks, mask_of, masks_after,
    passes_positions, position_rule,
};
use crate::word::{all_words, is_word, occurrences, WORD_LEN};

verus! {

/// A round is one guess: exactly `WORD_LEN` places, each with a letter of the
/// alphabet.
pub open spec fn valid_round(round: Seq<Letter>) -> bool {
    &&& round.len() == WORD_LEN
    &&& forall|i: int| 0 <= i < round.len() ==> is_letter(#[trigger] round[i].character)
}

/// Whether the word survives a round, given the tables as they stand once
/// the round is recorded: it meets what every mark asks by itself, and what
/// the tables ask for every place.
pub open spec fn round_sieve(
    round: Seq<Letter>,
    correct: Map<u32, u16>,
    present: Map<u32, u16>,
    counts: Map<u32, u16>,
) -> spec_fn(String) -> bool {
    |s: String|
        passes_positions(s@, round) && passes_knowledge(s@, round, correct, present, counts)
}

/// What a session knows: the three tables and the candidates left.
pub struct Knowledge {
    /// For each letter with an entry, the least number of times the answer
    /// contains it.
    pub count_floor: Map<u32, u16>,
    /// For each letter with an entry, the places at which it was marked
    /// misplaced.
    pub present_mask: Map<u32, u16>,
    /// For each letter with an entry, the places at which it was marked
    /// correct.
    pub correct_mask: Map<u32, u16>,
    /// The words no round has removed, in the order of the dictionary.
    pub candidates: Seq<String>,
}

impl Knowledge {
    /// The knowledge at the start of a session over the given words.
    pub open spec fn initial(words: Seq<String>) -> Knowledge {
        Knowledge {
            count_floor: Map::empty(),
            present_mask: Map::empty(),
            correct_mask: Map::empty(),
            candidates: words,
        }
    }

    /// Whether the word meets what the tables record of one letter: it
    /// contains the letter as often as its floor says, has it at every place
    /// where it is confirmed, and at no place where it was seen misplaced.
    pub open spec fn agrees_on(self, w: Seq<char>, letter: char) -> bool {
        let key = letter_key(letter);
        &&& occurrences(w, letter) >= floor_of(self.count_floor, key)
        &&& forall|i: int|
            0 <= i < WORD_LEN && #[trigger] mask_has(mask_of(self.correct_mask, key), i) ==> w[i]
                == letter
        &&& forall|i: int|
            0 <= i < WORD_LEN && #[trigger] mask_has(mask_of(self.present_mask, key), i) ==> w[i]
                != letter
    }

    /// Whether the word meets what the tables record of every letter.
    pub open spec fn agrees(self, w: Seq<char>) -> bool {
        forall|letter: char| self.agrees_on(w, letter)
    }

    /// Every candidate is a word and agrees with the tables; every floor is
    /// at least 1 and at most `WORD_LEN`; every mask records some place, and
    /// only places of a word; a letter with a mask has a floor.
    pub open spec fn wf(self) -> bool {
        &&& all_words(self.candidates)
        &&& forall|j: int|
            0 <= j < self.candidates.len() ==> self.agrees(#[trigger] self.candidates[j]@)
        &&& forall|k: u32| #[trigger]
            self.count_floor.contains_key(k) ==> 1 <= self.count_floor[k] <= WORD_LEN
        &&& forall|k: u32| #[trigger]
            self.present_mask.contains_key(k) ==> self.count_floor.contains_key(k)
                && is_place_mask(self.present_mask[k])
        &&& forall|k: u32| #[trigger]
            self.correct_mask.contains_key(k) ==> self.count_floor.contains_key(k)
                && is_place_mask(self.correct_mask[k])
    }

    /// The knowledge after a series of rounds, taken in one after the other.
    pub open spec fn after_rounds(self, rounds: Seq<Seq<Letter>>) -> Knowledge
        decreases rounds.len(),
    {
        if rounds.len() == 0 {
            self
        } else {
            self.after_rounds(rounds.drop_last()).after_round(rounds.last())
        }
    }

    /// Nothing is known of the letter but that it is absent: it has no mask,
    /// and no candidate contains it.
    pub open spec fn known_absent(self, letter: char) -> bool {
        &&& !self.present_mask.contains_key(letter_key(letter))
        &&& !self.correct_mask.contains_key(letter_key(letter))
        &&& forall|j: int|
            0 <= j < self.candidates.len() ==> !(#[trigger] self.candidates[j])@.contains(letter)
    }

    /// The knowledge after a round. A round that is not valid leaves it as it
    /// is.
    pub open spec fn after_round(self, round: Seq<Letter>) -> Knowledge {
        if valid_round(round) {
            let count_floor = floors_after(round, self.count_floor);
            let present_mask = masks_after(round, self.present_mask, LetterType::WrongPosition);
            let correct_mask = masks_after(round, self.correct_mask, LetterType::Correct);
            Knowledge {
                count_floor,
                present_mask,
                correct_mask,
                candidates: self.candidates.filter(
                    round_sieve(round, correct_mask, present_mask, count_floor),
                ),
            }
        } else {
            self
        }
    }
}

/// At the start of a session the invariant of the knowledge holds.
pub proof fn lemma_initial_wf(words: Seq<String>)
    requires
        all_words(words),
    ensures
        Knowledge::initial(words).wf(),
{
    let k = Knowledge::initial(words);
    assert forall|j: int| 0 <= j < k.candidates.len() implies k.agrees(
        #[trigger] k.candidates[j]@,
    ) by {
        let w = k.candidates[j]@;
        assert forall|letter: char| k.agrees_on(w, letter) by {
            assert forall|i: int| 0 <= i < WORD_LEN implies !mask_has(0, i) by {
                lemma_mask_bits(0, 0, i, i);
            }
        }
    }
}

/// No round breaks the invariant of the knowledge.
pub proof fn lemma_after_round_wf(k: Knowledge, round: Seq<Letter>)
    requires
        k.wf(),
    ensures
        k.after_round(round).wf(),
{
    if valid_round(round) {
        let after = k.after_round(round);
        let keep = round_sieve(round, after.correct_mask, after.present_mask, after.count_floor);
        assert forall|j: int| 0 <= j < after.candidates.len() implies is_word(
            #[trigger] after.candidates[j]@,
        ) && after.agrees(after.candidates[j]@) by {
            let s = after.candidates[j];
            k.candidates.lemma_filter_contains_rev(keep, s);
            k.candidates.lemma_filter_pred(keep, j);
            let at = choose|at: int| 0 <= at < k.candidates.len() && k.candidates[at] == s;
            assert(k.agrees(k.candidates[at]@));
            assert forall|letter: char| after.agrees_on(s@, letter) by {
                lemma_agreement_kept(k, round, s@, letter);
            }
        }
        assert forall|key: u32| #[trigger] after.count_floor.contains_key(key) implies 1
            <= after.count_floor[key] <= WORD_LEN by {
            lemma_tally(round, key);
        }
        assert forall|key: u32| #[trigger] after.present_mask.contains_key(key) implies
            after.count_floor.contains_key(key) && is_place_mask(after.present_mask[key]) by {
            lemma_mask_kept(k.present_mask, round, key, LetterType::WrongPosition);
        }
        assert forall|key: u32| #[trigger] after.correct_mask.contains_key(key) implies
            after.count_floor.contains_key(key) && is_place_mask(after.correct_mask[key]) by {
            lemma_mask_kept(k.correct_mask, round, key, LetterType::Correct);
        }
    }
}

/// A mask after a round is a place mask where it was one before or the round
/// holds the letter with the mark, and such a letter has a positive tally.
proof fn lemma_mask_kept(masks: Map<u32, u16>, round: Seq<Letter>, key: u32, label: LetterType)
    requires
        round.len() == WORD_LEN,
        label != LetterType::Incorrect,
        masks.contains_key(key) ==> is_place_mask(masks[key]),
        masks_after(round, masks, label).contains_key(key),
    ensures
        is_place_mask(masks_after(round, masks, label)[key]),
        is_marked(round, key, label) ==> tally(round, key) > 0,
{
    lemma_marks_range(round, key, label);
    lemma_place_masks(mask_of(masks, key), marks(round, key, label), 0);
    if is_marked(round, key, label) {
        lemma_marked_is_counted(round, key, label);
    }
}

/// A word that agreed with the tables before a round, and survives the
/// round, agrees with the tables after it.
proof fn lemma_agreement_kept(k: Knowledge, round: Seq<Letter>, w: Seq<char>, letter: char)
    requires
        valid_round(round),
        k.agrees(w),
        passes_positions(w, round),
        passes_knowledge(
            w,
            round,
            k.after_round(round).correct_mask,
            k.after_round(round).present_mask,
            k.after_round(round).count_floor,
        ),
    ensures
        k.after_round(round).agrees_on(w, letter),
{
    let after = k.after_round(round);
    let key = letter_key(letter);
    assert(k.agrees_on(w, letter));
    lemma_tally(round, key);
    if tally(round, key) > 0 {
        let i = choose|i: int| 0 <= i < round.len() && counts_toward(#[trigger] round[i], key);
        assert(round[i].character == letter);
        assert(knowledge_rule(
            i,
            round[i],
            after.correct_mask,
            after.present_mask,
            after.count_floor,
        ).admits(w));
    }
    assert forall|i: int|
        0 <= i < WORD_LEN && #[trigger] mask_has(mask_of(after.correct_mask, key), i) implies w[i]
        == letter by {
        lemma_masks_bits(round, k.correct_mask, LetterType::Correct, key, i);
        if marked_at(round[i], key, LetterType::Correct) {
            assert(round[i].character == letter);
            assert(position_rule(i, round[i]).admits(w));
        }
    }
    assert forall|i: int|
        0 <= i < WORD_LEN && #[trigger] mask_has(mask_of(after.present_mask, key), i) implies w[i]
        != letter by {
        lemma_masks_bits(round, k.present_mask, LetterType::WrongPosition, key, i);
        if marked_at(round[i], key, LetterType::WrongPosition) {
            assert(round[i].character == letter);
            assert(position_rule(i, round[i]).admits(w));
        }
    }
}

/// A letter that a round holds with a mark other than the absent one has a
/// positive tally in it.
pub proof fn lemma_marked_is_counted(round: Seq<Letter>, key: u32, label: LetterType)
    requires
        label != LetterType::Incorrect,
        is_marked(round, key, label),
    ensures
        tally(round, key) > 0,
{
    let i = choose|i: int| 0 <= i < round.len() && marked_at(#[trigger] round[i], key, label);
    assert(counts_toward(round[i], key));
    lemma_tally(round, key);
}

} // verus!
