//! The count tracker: for every letter, the least number of times the answer
//! is known to contain it.

use std::collections::HashMap;
use vstd::prelude::*;

use crate::letter::{letter_key, lookup, Letter, LetterType};
use crate::word::WORD_LEN;

verus! {

broadcast use vstd::std_specs::hash::group_hash_axioms;

/// Whether a place of a guess speaks for an occurrence of the letter filed
/// under `key`: it holds that letter, and its mark is not the absent one.
pub open spec fn counts_toward(g: Letter, key: u32) -> bool {
    g.letter_type != LetterType::Incorrect && letter_key(g.character) == key
}

/// The number of places of the round that speak for the letter filed under
/// `key`.
pub open spec fn tally(round: Seq<Letter>, key: u32) -> nat
    decreases round.len(),
{
    if round.len() == 0 {
        0
    } else {
        tally(round.drop_last(), key) + if counts_toward(round.last(), key) {
            1nat
        } else {
            0nat
        }
    }
}

/// The floor recorded for a key, or 0 where none is recorded.
pub open spec fn floor_of(floors: Map<u32, u16>, key: u32) -> u16 {
    if floors.contains_key(key) {
        floors[key]
    } else {
        0
    }
}

/// The floors after a round: every letter the round speaks for gets the
/// larger of its old floor and its tally in the round; every other entry
/// stays as it is.
pub open spec fn floors_after(round: Seq<Letter>, floors: Map<u32, u16>) -> Map<u32, u16> {
    Map::new(
        |k: u32| floors.contains_key(k) || tally(round, k) > 0,
        |k: u32|
            if tally(round, k) > floor_of(floors, k) {
                tally(round, k) as u16
            } else {
                floor_of(floors, k)
            },
    )
}

/// No floor of `before` is missing from `after` or lower there.
pub open spec fn never_lower(before: Map<u32, u16>, after: Map<u32, u16>) -> bool {
    forall|k: u32|
        #![trigger before.contains_key(k)]
        before.contains_key(k) ==> after.contains_key(k) && after[k] >= before[k]
}

/// A tally is positive exactly when some place speaks for the letter, and it
/// is never larger than the round is long.
pub proof fn lemma_tally(round: Seq<Letter>, key: u32)
    ensures
        tally(round, key) > 0 <==> exists|i: int|
            0 <= i < round.len() && counts_toward(#[trigger] round[i], key),
        tally(round, key) <= round.len(),
    decreases round.len(),
{
    if round.len() > 0 {
        let front = round.drop_last();
        lemma_tally(front, key);
        if tally(front, key) > 0 {
            let i = choose|i: int| 0 <= i < front.len() && counts_toward(#[trigger] front[i], key);
            assert(counts_toward(round[i], key));
        }
        if counts_toward(round.last(), key) {
            assert(counts_toward(round[round.len() - 1], key));
        }
        if exists|i: int| 0 <= i < round.len() && counts_toward(#[trigger] round[i], key) {
            let i = choose|i: int| 0 <= i < round.len() && counts_toward(#[trigger] round[i], key);
            if i < round.len() - 1 {
                assert(counts_toward(front[i], key));
            }
        }
    }
}

/// Floors never sink and never vanish, and a letter the round speaks for has
/// a floor of at least its tally, which is at least 1.
pub proof fn lemma_floors_grow(round: Seq<Letter>, floors: Map<u32, u16>, key: u32)
    requires
        round.len() <= u16::MAX,
    ensures
        floors.contains_key(key) ==> floors_after(round, floors).contains_key(key)
            && floors_after(round, floors)[key] >= floors[key],
        tally(round, key) > 0 ==> floors_after(round, floors).contains_key(key) && floors_after(
            round,
            floors,
        )[key] >= tally(round, key) >= 1,
        !floors.contains_key(key) && tally(round, key) == 0 ==> !floors_after(
            round,
            floors,
        ).contains_key(key),
{
    lemma_tally(round, key);
}

/// The tally of the first `n + 1` places, from that of the first `n`.
proof fn lemma_tally_step(round: Seq<Letter>, key: u32, n: int)
    requires
        0 <= n < round.len(),
    ensures
        tally(round.take(n + 1), key) == tally(round.take(n), key) + if counts_toward(
            round[n],
            key,
        ) {
            1nat
        } else {
            0nat
        },
{
    assert(round.take(n + 1).drop_last() == round.take(n));
}

/// Whether one of the first `n` places holds the letter filed under `key`.
spec fn held_before(round: Seq<Letter>, key: u32, n: int) -> bool {
    exists|j: int| 0 <= j < n && letter_key(#[trigger] round[j].character) == key
}

/// The floors when the tallies of the letters at the first `n` places have
/// been merged in.
spec fn floors_partial(round: Seq<Letter>, floors: Map<u32, u16>, n: int) -> Map<u32, u16> {
    Map::new(
        |k: u32| floors.contains_key(k) || (held_before(round, k, n) && tally(round, k) > 0),
        |k: u32|
            if held_before(round, k, n) && tally(round, k) > floor_of(floors, k) {
                tally(round, k) as u16
            } else {
                floor_of(floors, k)
            },
    )
}

/// Merges the tallies of one round into the floors.
pub fn count_letters(word: &[Letter], known_counts: &mut HashMap<u32, u16>)
    requires
        word@.len() == WORD_LEN,
    ensures
        final(known_counts)@ == floors_after(word@, old(known_counts)@),
        never_lower(old(known_counts)@, final(known_counts)@),
{
    let ghost round = word@;
    let ghost before = known_counts@;
    let mut seen: HashMap<u32, u16> = HashMap::new();
    for i in 0..WORD_LEN
        invariant
            round == word@,
            round.len() == WORD_LEN,
            forall|k: u32| #[trigger] seen@.contains_key(k) <==> tally(round.take(i as int), k) > 0,
            forall|k: u32| #[trigger]
                seen@.contains_key(k) ==> seen@[k] == tally(round.take(i as int), k),
    {
        let letter: Letter = word[i];
        proof {
            lemma_tally(round.take(i as int), letter_key(letter.character));
            assert forall|k: u32|
                #![trigger tally(round.take(i + 1), k)]
                tally(round.take(i + 1), k) == tally(round.take(i as int), k) + if counts_toward(
                    round[i as int],
                    k,
                ) {
                    1nat
                } else {
                    0nat
                } by {
                lemma_tally_step(round, k, i as int);
            }
        }
        match letter.letter_type {
            LetterType::Incorrect => {},
            _ => {
                let count: u16 = match lookup(&seen, letter.character) {
                    None => 1,
                    Some(stored) => stored + 1,
                };
                seen.insert(letter.character as u32, count);
            },
        }
    }
    assert(round.take(WORD_LEN as int) == round);
    assert(known_counts@ =~= floors_partial(round, before, 0));
    for i in 0..WORD_LEN
        invariant
            round == word@,
            round.len() == WORD_LEN,
            forall|k: u32| #[trigger] seen@.contains_key(k) <==> tally(round, k) > 0,
            forall|k: u32| #[trigger] seen@.contains_key(k) ==> seen@[k] == tally(round, k),
            known_counts@ == floors_partial(round, before, i as int),
    {
        let letter: char = word[i].character;
        proof {
            lemma_tally(round, letter_key(letter));
            assert forall|k: u32|
                held_before(round, k, i + 1) <==> held_before(round, k, i as int) || letter_key(
                    round[i as int].character,
                ) == k by {
                if held_before(round, k, i as int) {
                    let j = choose|j: int|
                        0 <= j < i && letter_key(#[trigger] round[j].character) == k;
                    assert(letter_key(round[j].character) == k);
                }
                if letter_key(round[i as int].character) == k {
                    assert(held_before(round, k, i + 1));
                }
            }
        }
        if let Some(count) = lookup(&seen, letter) {
            let raise: bool = match lookup(known_counts, letter) {
                None => true,
                Some(floor) => count > floor,
            };
            if raise {
                known_counts.insert(letter as u32, count);
            }
        }
        assert(known_counts@ =~= floors_partial(round, before, i + 1));
    }
    proof {
        assert forall|k: u32|
            held_before(round, k, WORD_LEN as int) && tally(round, k) > 0 <==> tally(round, k)
                > 0 by {
            lemma_tally(round, k);
            if tally(round, k) > 0 {
                let j = choose|j: int| 0 <= j < round.len() && counts_toward(#[trigger] round[j], k);
                assert(letter_key(round[j].character) == k);
            }
        }
        assert(known_counts@ =~= floors_after(round, before));
        assert forall|k: u32| #[trigger] before.contains_key(k) implies known_counts@[k]
            >= before[k] by {
            lemma_floors_grow(round, before, k);
        }
    }
}

} // verus!
