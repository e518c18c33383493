//! Letters, the marks a guess receives for them, and the keys under which the
//! tables remember a letter.

use std::collections::HashMap;
use vstd::prelude::*;
use vstd::string::*;

verus! {

broadcast use vstd::std_specs::hash::group_hash_axioms;

/// The mark one guessed letter receives.
#[derive(Copy, Clone, Debug, PartialEq, Eq, Structural)]
pub enum LetterType {
    /// The letter is absent, or occurs no more often than its other marks in
    /// the same round account for.
    Incorrect,
    /// The letter occurs in the answer, but not at this place.
    WrongPosition,
    /// The letter stands at this place in the answer.
    Correct,
}

/// One place of a guess: the letter typed there and its mark.
#[derive(Copy, Clone, Debug, PartialEq, Eq, Structural)]
pub struct Letter {
    pub character: char,
    pub letter_type: LetterType,
}

/// The letters of the alphabet the puzzle is played in: `a` to `z`.
pub open spec fn is_letter(c: char) -> bool {
    'a' <= c && c <= 'z'
}

/// The key under which the tables file a letter: its code point.
pub open spec fn letter_key(c: char) -> u32 {
    c as u32
}

/// The number a table holds for a letter, if it holds one.
pub fn lookup(table: &HashMap<u32, u16>, letter: char) -> (entry: Option<u16>)
    ensures
        entry == table@.get(letter_key(letter)),
{
    match table.get(&(letter as u32)) {
        Some(value) => Some(*value),
        None => None,
    }
}

/// Whether `c` belongs to the alphabet.
pub fn in_alphabet(c: char) -> (b: bool)
    ensures
        b == is_letter(c),
{
    let k: u32 = c as u32;
    97 <= k && k <= 122
}

/// The mark that follows `t` when a slot is cycled forward:
/// absent, misplaced, correct, and round again.
pub open spec fn next_of(t: LetterType) -> LetterType {
    match t {
        LetterType::Incorrect => LetterType::WrongPosition,
        LetterType::WrongPosition => LetterType::Correct,
        LetterType::Correct => LetterType::Incorrect,
    }
}

/// The mark that precedes `t` in the same cycle.
pub open spec fn previous_of(t: LetterType) -> LetterType {
    match t {
        LetterType::Incorrect => LetterType::Correct,
        LetterType::WrongPosition => LetterType::Incorrect,
        LetterType::Correct => LetterType::WrongPosition,
    }
}

/// Cycles a mark forward.
pub fn next_type(t: LetterType) -> (r: LetterType)
    ensures
        r == next_of(t),
{
    match t {
        LetterType::Incorrect => LetterType::WrongPosition,
        LetterType::WrongPosition => LetterType::Correct,
        LetterType::Correct => LetterType::Incorrect,
    }
}

/// Cycles a mark backward.
pub fn previous_type(t: LetterType) -> (r: LetterType)
    ensures
        r == previous_of(t),
{
    match t {
        LetterType::Incorrect => LetterType::Correct,
        LetterType::WrongPosition => LetterType::Incorrect,
        LetterType::Correct => LetterType::WrongPosition,
    }
}

/// Forward and backward undo each other, and three steps in either direction
/// come back to the start.
pub proof fn lemma_mark_cycle(t: LetterType)
    ensures
        previous_of(next_of(t)) == t,
        next_of(previous_of(t)) == t,
        next_of(next_of(next_of(t))) == t,
        previous_of(previous_of(previous_of(t))) == t,
        next_of(t) != t,
        previous_of(t) != t,
{
}

/// The terminal escape sequence that selects the background for a mark:
/// grey for absent, yellow for misplaced, bold on green for correct.
pub open spec fn color_code(t: LetterType) -> Seq<char> {
    match t {
        LetterType::Incorrect => "\x1b[100m"@,
        LetterType::WrongPosition => "\x1b[43m"@,
        LetterType::Correct => "\x1b[42;1m"@,
    }
}

/// The escape sequence for a mark, as an owned string.
pub fn type_color_string(t: LetterType) -> (s: String)
    ensures
        s@ == color_code(t),
{
    match t {
        LetterType::Incorrect => String::from_str("\x1b[100m"),
        LetterType::WrongPosition => String::from_str("\x1b[43m"),
        LetterType::Correct => String::from_str("\x1b[42;1m"),
    }
}

} // verus!
