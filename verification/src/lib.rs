//! Narrows a dictionary of five-letter words to those that agree with the
//! feedback gathered over the rounds of a word-guessing puzzle.
//!
//! Every guessed letter is marked as absent, as present at another place, or
//! as correct. The marks of a round are folded into three tables keyed by
//! letter (least number of occurrences, places where the letter was seen
//! misplaced, places where it is confirmed), and the list of candidates is
//! pruned to the words that agree with the round and the tables.

pub mod absent;
pub mod board;
pub mod counts;
pub mod engine;
pub mod knowledge;
pub mod laws;
pub mod letter;
pub mod lines;
pub mod mask;
pub mod positions;
pub mod rule;
pub mod word;

pub use absent::{handle_incorrect, rule_for};
pub use board::{Action, Board, Key, MAX_LISTED};
pub use counts::count_letters;
pub use engine::{check_round, parse, EngineError, EngineState};
pub use letter::{
    in_alphabet, lookup, next_type, previous_type, type_color_string, Letter, LetterType,
};
pub use lines::read_entries;
pub use mask::{mask_contains, place_bit};
pub use positions::handle_correct_wrong_position;
pub use rule::{prune, Rule};
pub use word::{count_letter, has_letter, only_words, string_index, valid_word, WORD_LEN};
