//! The position resolver: where each letter was seen misplaced, where it is
//! confirmed, and the pruning each such mark calls for.

use std::collections::HashMap;
use vstd::prelude::*;

use crate::letter::{letter_key, lookup, Letter, LetterType};
use crate::mask::{lemma_mask_bits, lemma_place_masks, mask_has, place_bit, position_bit};
use crate::rule::{lemma_filter_agree, lemma_filter_all, lemma_filter_refine, prune, Rule};
use crate::word::{all_words, WORD_LEN};

verus! {

broadcast use vstd::std_specs::hash::group_hash_axioms;

/// Whether a place of a guess holds the letter filed under `key` with the
/// mark `label`.
pub open spec fn marked_at(g: Letter, key: u32, label: LetterType) -> bool {
    g.letter_type == label && letter_key(g.character) == key
}

/// Whether some place of the round holds the letter with the mark.
pub open spec fn is_marked(round: Seq<Letter>, key: u32, label: LetterType) -> bool {
    exists|i: int| 0 <= i < round.len() && marked_at(#[trigger] round[i], key, label)
}

/// The places at which the round holds the letter with the mark, as a mask.
pub open spec fn marks(round: Seq<Letter>, key: u32, label: LetterType) -> u16
    decreases round.len(),
{
    if round.len() == 0 {
        0
    } else {
        let rest = marks(round.drop_last(), key, label);
        if marked_at(round.last(), key, label) {
            rest | position_bit(round.len() - 1)
        } else {
            rest
        }
    }
}

/// The mask recorded for a key, or the empty mask where none is recorded.
pub open spec fn mask_of(masks: Map<u32, u16>, key: u32) -> u16 {
    if masks.contains_key(key) {
        masks[key]
    } else {
        0
    }
}

/// The masks after a round, for one kind of mark: every letter the round
/// holds with that mark gets the places added to its mask; every other entry
/// stays as it is. No bit is ever cleared.
pub open spec fn masks_after(round: Seq<Letter>, masks: Map<u32, u16>, label: LetterType) -> Map<
    u32,
    u16,
> {
    Map::new(
        |k: u32| masks.contains_key(k) || is_marked(round, k, label),
        |k: u32| mask_of(masks, k) | marks(round, k, label),
    )
}

/// What a mark asks of a word, by itself: a correct letter stands at its
/// place; a misplaced letter occurs, but not at its place; an absent mark
/// asks nothing here.
pub open spec fn position_rule(i: int, g: Letter) -> Rule {
    match g.letter_type {
        LetterType::Incorrect => Rule::Any,
        LetterType::WrongPosition => Rule::Elsewhere { position: i as usize, letter: g.character },
        LetterType::Correct => Rule::At { position: i as usize, letter: g.character },
    }
}

/// Whether the word meets what every mark of the round asks by itself.
pub open spec fn passes_positions(w: Seq<char>, round: Seq<Letter>) -> bool {
    forall|i: int| 0 <= i < round.len() ==> (#[trigger] position_rule(i, round[i])).admits(w)
}

/// `passes_positions` as a predicate on the entries of a list.
pub open spec fn positions_sieve(round: Seq<Letter>) -> spec_fn(String) -> bool {
    |s: String| passes_positions(s@, round)
}

/// The bits of `marks` are the places that hold the letter with the mark.
pub proof fn lemma_marks_bits(round: Seq<Letter>, key: u32, label: LetterType, i: int)
    requires
        round.len() <= 16,
        0 <= i < 16,
    ensures
        mask_has(marks(round, key, label), i) <==> i < round.len() && marked_at(
            round[i],
            key,
            label,
        ),
    decreases round.len(),
{
    if round.len() == 0 {
        lemma_mask_bits(0, 0, i, i);
    } else {
        let front = round.drop_last();
        let last = round.len() - 1;
        lemma_marks_bits(front, key, label, i);
        lemma_mask_bits(marks(front, key, label), position_bit(last), i, last);
    }
}

/// A bit of a mask after a round was set before, or stands for a place at
/// which the round holds the letter with the mark.
pub proof fn lemma_masks_bits(
    round: Seq<Letter>,
    masks: Map<u32, u16>,
    label: LetterType,
    key: u32,
    i: int,
)
    requires
        round.len() <= 16,
        0 <= i < 16,
    ensures
        mask_has(mask_of(masks_after(round, masks, label), key), i) <==> mask_has(
            mask_of(masks, key),
            i,
        ) || (i < round.len() && marked_at(round[i], key, label)),
{
    lemma_marks_bits(round, key, label, i);
    lemma_mask_bits(mask_of(masks, key), marks(round, key, label), i, i);
    lemma_marks_none(round, key, label);
}

/// The marks of a round are places of a word, and there is one for every
/// letter the round holds with the mark.
pub proof fn lemma_marks_range(round: Seq<Letter>, key: u32, label: LetterType)
    requires
        round.len() <= WORD_LEN,
    ensures
        marks(round, key, label) < 32,
        is_marked(round, key, label) ==> marks(round, key, label) != 0,
    decreases round.len(),
{
    if round.len() > 0 {
        let front = round.drop_last();
        lemma_marks_range(front, key, label);
        lemma_place_masks(marks(front, key, label), 0, round.len() - 1);
        if is_marked(round, key, label) && !marked_at(round.last(), key, label) {
            let i = choose|i: int| 0 <= i < round.len() && marked_at(#[trigger] round[i], key, label);
            assert(marked_at(front[i], key, label));
        }
    }
}

/// A letter that the round nowhere holds with the mark has no place.
pub proof fn lemma_marks_none(round: Seq<Letter>, key: u32, label: LetterType)
    ensures
        !is_marked(round, key, label) ==> marks(round, key, label) == 0,
    decreases round.len(),
{
    if round.len() > 0 && !is_marked(round, key, label) {
        let front = round.drop_last();
        assert(!marked_at(round[round.len() - 1], key, label));
        assert forall|i: int| 0 <= i < front.len() implies !marked_at(
            #[trigger] front[i],
            key,
            label,
        ) by {
            assert(!marked_at(round[i], key, label));
        }
        lemma_marks_none(front, key, label);
    }
}

/// The places and the marked letters of the first `n + 1` places, from
/// those of the first `n`.
proof fn lemma_marks_step(round: Seq<Letter>, key: u32, label: LetterType, n: int)
    requires
        0 <= n < round.len(),
    ensures
        marks(round.take(n + 1), key, label) == if marked_at(round[n], key, label) {
            marks(round.take(n), key, label) | position_bit(n)
        } else {
            marks(round.take(n), key, label)
        },
        is_marked(round.take(n + 1), key, label) <==> is_marked(round.take(n), key, label)
            || marked_at(round[n], key, label),
{
    let longer = round.take(n + 1);
    let shorter = round.take(n);
    assert(longer.drop_last() == shorter);
    assert(longer.last() == round[n]);
    if is_marked(shorter, key, label) {
        let i = choose|i: int| 0 <= i < shorter.len() && marked_at(#[trigger] shorter[i], key, label);
        assert(marked_at(longer[i], key, label));
    }
    if marked_at(round[n], key, label) {
        assert(marked_at(longer[n], key, label));
    }
    if is_marked(longer, key, label) {
        let i = choose|i: int| 0 <= i < longer.len() && marked_at(#[trigger] longer[i], key, label);
        if i < n {
            assert(marked_at(shorter[i], key, label));
        }
    }
}

/// A word passes the first `n + 1` places when it passes the first `n` and
/// meets the rule of place `n`.
proof fn lemma_positions_step(w: Seq<char>, round: Seq<Letter>, n: int)
    requires
        0 <= n < round.len(),
    ensures
        passes_positions(w, round.take(n + 1)) <==> passes_positions(w, round.take(n))
            && position_rule(n, round[n]).admits(w),
{
    let longer = round.take(n + 1);
    let shorter = round.take(n);
    if passes_positions(w, longer) {
        assert forall|i: int| 0 <= i < shorter.len() implies (#[trigger] position_rule(
            i,
            shorter[i],
        )).admits(w) by {
            assert(shorter[i] == longer[i]);
            assert(position_rule(i, longer[i]).admits(w));
        }
        assert(position_rule(n, longer[n]).admits(w));
    }
    if passes_positions(w, shorter) && position_rule(n, round[n]).admits(w) {
        assert forall|i: int| 0 <= i < longer.len() implies (#[trigger] position_rule(
            i,
            longer[i],
        )).admits(w) by {
            if i < n {
                assert(shorter[i] == longer[i]);
                assert(position_rule(i, shorter[i]).admits(w));
            }
        }
    }
}

/// Adds one place to the mask of a letter.
fn mark_place(masks: &mut HashMap<u32, u16>, letter: char, i: usize)
    requires
        i < WORD_LEN,
    ensures
        final(masks)@ == old(masks)@.insert(
            letter_key(letter),
            mask_of(old(masks)@, letter_key(letter)) | position_bit(i as int),
        ),
{
    let saved: u16 = match lookup(masks, letter) {
        None => 0,
        Some(data) => data,
    };
    masks.insert(letter as u32, saved | place_bit(i));
}

/// Takes the misplaced and the correct marks of a round, place by place from
/// the first: records the place in the mask of the letter, and prunes the
/// candidates by what the mark asks.
pub fn handle_correct_wrong_position(
    word: &[Letter],
    words: &mut Vec<String>,
    known_present: &mut HashMap<u32, u16>,
    known_correct: &mut HashMap<u32, u16>,
)
    requires
        word@.len() == WORD_LEN,
        all_words(old(words)@),
    ensures
        final(words)@ == old(words)@.filter(positions_sieve(word@)),
        all_words(final(words)@),
        final(known_present)@ == masks_after(
            word@,
            old(known_present)@,
            LetterType::WrongPosition,
        ),
        final(known_correct)@ == masks_after(word@, old(known_correct)@, LetterType::Correct),
{
    let ghost round = word@;
    let ghost list = words@;
    let ghost present = known_present@;
    let ghost correct = known_correct@;
    proof {
        lemma_filter_all(list, positions_sieve(round.take(0)));
        assert forall|k: u32|
            !is_marked(round.take(0), k, LetterType::WrongPosition) && !is_marked(
                round.take(0),
                k,
                LetterType::Correct,
            ) by {}
        assert forall|k: u32| #[trigger] mask_of(present, k) | 0 == mask_of(present, k) by {
            lemma_mask_bits(mask_of(present, k), 0, 0, 0);
        }
        assert forall|k: u32| #[trigger] mask_of(correct, k) | 0 == mask_of(correct, k) by {
            lemma_mask_bits(mask_of(correct, k), 0, 0, 0);
        }
        assert(known_present@ =~= masks_after(round.take(0), present, LetterType::WrongPosition));
        assert(known_correct@ =~= masks_after(round.take(0), correct, LetterType::Correct));
    }
    for i in 0..WORD_LEN
        invariant
            round == word@,
            round.len() == WORD_LEN,
            all_words(list),
            all_words(words@),
            words@ == list.filter(positions_sieve(round.take(i as int))),
            known_present@ == masks_after(round.take(i as int), present, LetterType::WrongPosition),
            known_correct@ == masks_after(round.take(i as int), correct, LetterType::Correct),
    {
        let letter: Letter = word[i];
        let ghost shorter = round.take(i as int);
        let ghost longer = round.take(i + 1);
        proof {
            assert forall|k: u32, label: LetterType|
                #![trigger marks(longer, k, label)]
                #![trigger is_marked(longer, k, label)]
                {
                    &&& marks(longer, k, label) == if marked_at(round[i as int], k, label) {
                        marks(shorter, k, label) | position_bit(i as int)
                    } else {
                        marks(shorter, k, label)
                    }
                    &&& is_marked(longer, k, label) <==> is_marked(shorter, k, label) || marked_at(
                        round[i as int],
                        k,
                        label,
                    )
                } by {
                lemma_marks_step(round, k, label, i as int);
            }
            assert forall|j: int| 0 <= j < list.len() implies (positions_sieve(longer)(
                #[trigger] list[j],
            ) <==> positions_sieve(shorter)(list[j]) && position_rule(
                i as int,
                round[i as int],
            ).sieve()(list[j])) by {
                lemma_positions_step(list[j]@, round, i as int);
            }
        }
        match letter.letter_type {
            LetterType::Incorrect => {
                proof {
                    lemma_filter_agree(list, positions_sieve(shorter), positions_sieve(longer));
                }
            },
            LetterType::WrongPosition => {
                mark_place(known_present, letter.character, i);
                let rule = Rule::Elsewhere { position: i, letter: letter.character };
                prune(words, &rule);
                proof {
                    lemma_filter_refine(
                        list,
                        positions_sieve(shorter),
                        rule.sieve(),
                        positions_sieve(longer),
                    );
                    lemma_marks_merge(shorter, present, LetterType::WrongPosition, letter, i as int);
                }
            },
            LetterType::Correct => {
                let rule = Rule::At { position: i, letter: letter.character };
                prune(words, &rule);
                mark_place(known_correct, letter.character, i);
                proof {
                    lemma_filter_refine(
                        list,
                        positions_sieve(shorter),
                        rule.sieve(),
                        positions_sieve(longer),
                    );
                    lemma_marks_merge(shorter, correct, LetterType::Correct, letter, i as int);
                }
            },
        }
        assert(known_present@ =~= masks_after(longer, present, LetterType::WrongPosition));
        assert(known_correct@ =~= masks_after(longer, correct, LetterType::Correct));
    }
    assert(round.take(WORD_LEN as int) == round);
}

/// Adding the bit of place `n` to what the first places gave is adding it to
/// their marks.
proof fn lemma_marks_merge(
    shorter: Seq<Letter>,
    masks: Map<u32, u16>,
    label: LetterType,
    g: Letter,
    n: int,
)
    requires
        0 <= n < 16,
    ensures
        mask_of(masks_after(shorter, masks, label), letter_key(g.character)) | position_bit(n)
            == mask_of(masks, letter_key(g.character)) | (marks(
            shorter,
            letter_key(g.character),
            label,
        ) | position_bit(n)),
{
    let key = letter_key(g.character);
    let a = mask_of(masks, key);
    let b = marks(shorter, key, label);
    let c = position_bit(n);
    lemma_marks_none(shorter, key, label);
    assert((a | b) | c == a | (b | c)) by (bit_vector);
    assert((0u16 | 0u16) == 0u16) by (bit_vector);
}

} // verus!
