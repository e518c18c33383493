//! The constraint engine: the state of one session, and the one operation
//! that takes in a round.

use std::collections::HashMap;
use vstd::prelude::*;

use crate::absent::{handle_incorrect, knowledge_sieve};
use crate::counts::{count_letters, floors_after, never_lower};
use crate::knowledge::{
    lemma_after_round_wf, lemma_initial_wf, round_sieve, valid_round, Knowledge,
};
use crate::letter::{in_alphabet, is_letter, letter_key, lookup, Letter, LetterType};
use crate::positions::{handle_correct_wrong_position, masks_after, positions_sieve};
use crate::rule::{lemma_filter_all, lemma_filter_refine};
use crate::word::{all_words, is_word, valid_word, WORD_LEN};

verus! {

broadcast use vstd::std_specs::hash::group_hash_axioms;

/// Why the engine turns an input down.
#[derive(Copy, Clone, Debug, PartialEq, Eq, Structural)]
pub enum EngineError {
    /// The round does not have exactly `WORD_LEN` places, or one of its
    /// places holds a character outside the alphabet.
    InvalidRound,
}

/// Decides whether the places form a round.
pub fn check_round(word: &[Letter]) -> (ok: bool)
    ensures
        ok == valid_round(word@),
{
    if word.len() != WORD_LEN {
        return false;
    }
    for i in 0..WORD_LEN
        invariant
            word@.len() == WORD_LEN,
            forall|j: int| 0 <= j < i ==> is_letter(#[trigger] word@[j].character),
    {
        if !in_alphabet(word[i].character) {
            return false;
        }
    }
    true
}

/// Takes one round into the tables and prunes the candidates by it.
///
/// The floors are raised first, the masks and the first pruning follow place
/// by place, and the second pruning reads the tables as they stand at the end.
/// A round that is not valid is turned down and changes nothing.
pub fn parse(
    word: &[Letter],
    words: &mut Vec<String>,
    known_correct: &mut HashMap<u32, u16>,
    known_present: &mut HashMap<u32, u16>,
    known_counts: &mut HashMap<u32, u16>,
) -> (res: Result<(), EngineError>)
    requires
        all_words(old(words)@),
    ensures
        res is Ok <==> valid_round(word@),
        res is Err ==> {
            &&& final(words)@ == old(words)@
            &&& final(known_correct)@ == old(known_correct)@
            &&& final(known_present)@ == old(known_present)@
            &&& final(known_counts)@ == old(known_counts)@
        },
        res is Ok ==> {
            &&& final(known_counts)@ == floors_after(word@, old(known_counts)@)
            &&& final(known_present)@ == masks_after(
                word@,
                old(known_present)@,
                LetterType::WrongPosition,
            )
            &&& final(known_correct)@ == masks_after(
                word@,
                old(known_correct)@,
                LetterType::Correct,
            )
            &&& final(words)@ == old(words)@.filter(
                round_sieve(
                    word@,
                    final(known_correct)@,
                    final(known_present)@,
                    final(known_counts)@,
                ),
            )
        },
        final(words)@.len() <= old(words)@.len(),
        never_lower(old(known_counts)@, final(known_counts)@),
        all_words(final(words)@),
{
    if !check_round(word) {
        return Err(EngineError::InvalidRound);
    }
    let ghost list = words@;
    count_letters(word, known_counts);
    handle_correct_wrong_position(word, words, known_present, known_correct);
    handle_incorrect(word, words, known_correct, known_present, known_counts);
    proof {
        let first = positions_sieve(word@);
        let second = knowledge_sieve(word@, known_correct@, known_present@, known_counts@);
        let both = round_sieve(word@, known_correct@, known_present@, known_counts@);
        lemma_filter_refine(list, first, second, both);
        list.lemma_filter_len(both);
    }
    Ok(())
}

/// The engine's state for one session.
pub struct EngineState {
    count_floor: HashMap<u32, u16>,
    present_mask: HashMap<u32, u16>,
    correct_mask: HashMap<u32, u16>,
    candidates: Vec<String>,
}

impl View for EngineState {
    type V = Knowledge;

    closed spec fn view(&self) -> Knowledge {
        Knowledge {
            count_floor: self.count_floor@,
            present_mask: self.present_mask@,
            correct_mask: self.correct_mask@,
            candidates: self.candidates@,
        }
    }
}

/// `is_word` as a predicate on the entries of a list.
pub open spec fn word_sieve() -> spec_fn(String) -> bool {
    |s: String| is_word(s@)
}

/// A copy of the list.
fn copy_words(words: &Vec<String>) -> (copy: Vec<String>)
    ensures
        copy@ == words@,
{
    let mut copy: Vec<String> = Vec::new();
    for i in 0..words.len()
        invariant
            copy@ == words@.take(i as int),
    {
        copy.push(words[i].clone());
        assert(words@.take(i + 1) == words@.take(i as int).push(words@[i as int]));
    }
    assert(words@.take(words@.len() as int) == words@);
    copy
}

impl EngineState {
    /// The state satisfies the invariant of its knowledge.
    pub open spec fn wf(&self) -> bool {
        self@.wf()
    }

    /// Starts a session: empty tables, and as candidates the entries of the
    /// dictionary that are words, in their order.
    pub fn new(dictionary: Vec<String>) -> (state: EngineState)
        ensures
            state.wf(),
            state@ == Knowledge::initial(dictionary@.filter(word_sieve())),
            all_words(dictionary@) ==> state@.candidates == dictionary@,
    {
        let ghost all = dictionary@;
        let ghost keep = word_sieve();
        let mut candidates: Vec<String> = Vec::new();
        assert(candidates@ == all.take(0).filter(keep)) by {
            reveal(Seq::filter);
        }
        for w in it: dictionary
            invariant
                it.seq() == all,
                keep == word_sieve(),
                candidates@ == all.take(it.index() as int).filter(keep),
                all_words(candidates@),
        {
            proof {
                let n = it.index() as int;
                assert(all.take(n + 1) == all.take(n).push(all[n]));
                all.take(n).lemma_filter_push(all[n], keep);
            }
            if valid_word(w.as_str()) {
                candidates.push(w);
            }
        }
        proof {
            assert(all.take(all.len() as int) == all);
            if all_words(all) {
                lemma_filter_all(all, keep);
            }
            lemma_initial_wf(candidates@);
        }
        EngineState {
            count_floor: HashMap::new(),
            present_mask: HashMap::new(),
            correct_mask: HashMap::new(),
            candidates,
        }
    }

    /// Takes in one round and returns the candidates that are left.
    ///
    /// A round that is not valid is turned down and changes nothing. An empty
    /// list is a result like any other: no word of the dictionary agrees with
    /// all the rounds so far.
    pub fn submit_round(&mut self, round: &[Letter]) -> (res: Result<Vec<String>, EngineError>)
        requires
            old(self).wf(),
        ensures
            final(self).wf(),
            final(self)@ == old(self)@.after_round(round@),
            valid_round(round@) ==> res is Ok && res->Ok_0@ == final(self)@.candidates,
            !valid_round(round@) ==> res == Err::<Vec<String>, EngineError>(
                EngineError::InvalidRound,
            ),
            final(self)@.candidates.len() <= old(self)@.candidates.len(),
            never_lower(old(self)@.count_floor, final(self)@.count_floor),
    {
        let ghost before = self@;
        match parse(
            round,
            &mut self.candidates,
            &mut self.correct_mask,
            &mut self.present_mask,
            &mut self.count_floor,
        ) {
            Err(e) => {
                assert(self@ == before);
                Err(e)
            },
            Ok(()) => {
                proof {
                    lemma_after_round_wf(before, round@);
                }
                Ok(copy_words(&self.candidates))
            },
        }
    }

    /// The floor recorded for a letter, if there is one.
    pub fn count_floor(&self, letter: char) -> (floor: Option<u16>)
        ensures
            floor == self@.count_floor.get(letter_key(letter)),
    {
        lookup(&self.count_floor, letter)
    }

    /// The places at which a letter was marked misplaced, if it ever was.
    pub fn present_mask(&self, letter: char) -> (mask: Option<u16>)
        ensures
            mask == self@.present_mask.get(letter_key(letter)),
    {
        lookup(&self.present_mask, letter)
    }

    /// The places at which a letter was marked correct, if it ever was.
    pub fn correct_mask(&self, letter: char) -> (mask: Option<u16>)
        ensures
            mask == self@.correct_mask.get(letter_key(letter)),
    {
        lookup(&self.correct_mask, letter)
    }

    /// The candidates that are left.
    pub fn candidates(&self) -> (list: &Vec<String>)
        ensures
            list@ == self@.candidates,
    {
        &self.candidates
    }
}

} // verus!
