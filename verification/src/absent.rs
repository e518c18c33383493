//! The second pruning pass of a round: what the absent marks, and the floors
//! of the letters that are not absent, ask of a word once the tables hold
//! the whole round.

use std::collections::HashMap;
use vstd::prelude::*;

use crate::letter::{letter_key, lookup, Letter, LetterType};
use crate::rule::{lemma_filter_all, lemma_filter_refine, prune, Rule};
use crate::word::{all_words, WORD_LEN};

verus! {

broadcast use vstd::std_specs::hash::group_hash_axioms;

/// What the tables ask of a word for one place of the round.
///
/// For an absent mark: a letter with a misplaced-mask must not stand at this
/// place, and that mask must not record this place; a letter with only a
/// correct-mask occurs nowhere but at the places of that mask; a letter with
/// neither mask does not occur at all.
///
/// For any other mark: the letter occurs at least as often as its floor says,
/// and at least once where no floor is recorded.
pub open spec fn knowledge_rule(
    i: int,
    g: Letter,
    correct: Map<u32, u16>,
    present: Map<u32, u16>,
    counts: Map<u32, u16>,
) -> Rule {
    let key = letter_key(g.character);
    match g.letter_type {
        LetterType::Incorrect => if present.contains_key(key) {
            Rule::Barred { position: i as usize, letter: g.character, mask: present[key] }
        } else if correct.contains_key(key) {
            Rule::Within { letter: g.character, mask: correct[key] }
        } else {
            Rule::Nowhere { letter: g.character }
        },
        _ => Rule::AtLeast {
            letter: g.character,
            count: if counts.contains_key(key) {
                counts[key]
            } else {
                1
            },
        },
    }
}

/// Whether the word meets what the tables ask for every place of the round.
pub open spec fn passes_knowledge(
    w: Seq<char>,
    round: Seq<Letter>,
    correct: Map<u32, u16>,
    present: Map<u32, u16>,
    counts: Map<u32, u16>,
) -> bool {
    forall|i: int|
        0 <= i < round.len() ==> (#[trigger] knowledge_rule(
            i,
            round[i],
            correct,
            present,
            counts,
        )).admits(w)
}

/// `passes_knowledge` as a predicate on the entries of a list.
pub open spec fn knowledge_sieve(
    round: Seq<Letter>,
    correct: Map<u32, u16>,
    present: Map<u32, u16>,
    counts: Map<u32, u16>,
) -> spec_fn(String) -> bool {
    |s: String| passes_knowledge(s@, round, correct, present, counts)
}

/// A word passes the first `n + 1` places when it passes the first `n` and
/// meets the rule of place `n`.
proof fn lemma_knowledge_step(
    w: Seq<char>,
    round: Seq<Letter>,
    correct: Map<u32, u16>,
    present: Map<u32, u16>,
    counts: Map<u32, u16>,
    n: int,
)
    requires
        0 <= n < round.len(),
    ensures
        passes_knowledge(w, round.take(n + 1), correct, present, counts) <==> passes_knowledge(
            w,
            round.take(n),
            correct,
            present,
            counts,
        ) && knowledge_rule(n, round[n], correct, present, counts).admits(w),
{
    let longer = round.take(n + 1);
    let shorter = round.take(n);
    if passes_knowledge(w, longer, correct, present, counts) {
        assert forall|i: int| 0 <= i < shorter.len() implies (#[trigger] knowledge_rule(
            i,
            shorter[i],
            correct,
            present,
            counts,
        )).admits(w) by {
            assert(shorter[i] == longer[i]);
            assert(knowledge_rule(i, longer[i], correct, present, counts).admits(w));
        }
        assert(knowledge_rule(n, longer[n], correct, present, counts).admits(w));
    }
    if passes_knowledge(w, shorter, correct, present, counts) && knowledge_rule(
        n,
        round[n],
        correct,
        present,
        counts,
    ).admits(w) {
        assert forall|i: int| 0 <= i < longer.len() implies (#[trigger] knowledge_rule(
            i,
            longer[i],
            correct,
            present,
            counts,
        )).admits(w) by {
            if i < n {
                assert(shorter[i] == longer[i]);
                assert(knowledge_rule(i, shorter[i], correct, present, counts).admits(w));
            }
        }
    }
}

/// The rule the tables give for place `i` of a round.
pub fn rule_for(
    i: usize,
    letter: Letter,
    known_correct: &HashMap<u32, u16>,
    known_present: &HashMap<u32, u16>,
    known_counts: &HashMap<u32, u16>,
) -> (rule: Rule)
    ensures
        rule == knowledge_rule(i as int, letter, known_correct@, known_present@, known_counts@),
{
    match letter.letter_type {
        LetterType::Incorrect => match lookup(known_present, letter.character) {
            None => match lookup(known_correct, letter.character) {
                None => Rule::Nowhere { letter: letter.character },
                Some(data) => Rule::Within { letter: letter.character, mask: data },
            },
            Some(data) => Rule::Barred { position: i, letter: letter.character, mask: data },
        },
        _ => {
            let count: u16 = match lookup(known_counts, letter.character) {
                None => 1,
                Some(stored) => stored,
            };
            Rule::AtLeast { letter: letter.character, count }
        },
    }
}

/// Prunes the candidates, place by place from the first, by what the tables
/// ask for each place of the round.
pub fn handle_incorrect(
    word: &[Letter],
    words: &mut Vec<String>,
    known_correct: &HashMap<u32, u16>,
    known_present: &HashMap<u32, u16>,
    known_counts: &HashMap<u32, u16>,
)
    requires
        word@.len() == WORD_LEN,
        all_words(old(words)@),
    ensures
        final(words)@ == old(words)@.filter(
            knowledge_sieve(word@, known_correct@, known_present@, known_counts@),
        ),
        all_words(final(words)@),
{
    let ghost round = word@;
    let ghost list = words@;
    let ghost correct = known_correct@;
    let ghost present = known_present@;
    let ghost counts = known_counts@;
    proof {
        lemma_filter_all(list, knowledge_sieve(round.take(0), correct, present, counts));
    }
    for i in 0..WORD_LEN
        invariant
            round == word@,
            round.len() == WORD_LEN,
            correct == known_correct@,
            present == known_present@,
            counts == known_counts@,
            all_words(list),
            all_words(words@),
            words@ == list.filter(knowledge_sieve(round.take(i as int), correct, present, counts)),
    {
        let rule = rule_for(i, word[i], known_correct, known_present, known_counts);
        prune(words, &rule);
        proof {
            let shorter = knowledge_sieve(round.take(i as int), correct, present, counts);
            let longer = knowledge_sieve(round.take(i + 1), correct, present, counts);
            assert forall|j: int| 0 <= j < list.len() implies (longer(#[trigger] list[j])
                <==> shorter(list[j]) && rule.sieve()(list[j])) by {
                lemma_knowledge_step(list[j]@, round, correct, present, counts, i as int);
            }
            lemma_filter_refine(list, shorter, rule.sieve(), longer);
        }
    }
    assert(round.take(WORD_LEN as int) == round);
}

} // verus!
