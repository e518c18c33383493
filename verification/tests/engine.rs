use wordle_solver::{EngineError, EngineState, Letter, LetterType};

fn list(words: &[&str]) -> Vec<String> {
    words.iter().map(|word| word.to_string()).collect()
}

fn round(letters: &str, marks: &str) -> Vec<Letter> {
    letters
        .chars()
        .zip(marks.chars())
        .map(|(character, mark)| Letter {
            character,
            letter_type: match mark {
                'c' => LetterType::Correct,
                'm' => LetterType::WrongPosition,
                _ => LetterType::Incorrect,
            },
        })
        .collect()
}

#[test]
fn new_keeps_the_words_in_order_and_starts_with_empty_tables() {
    let state = EngineState::new(list(&["works", "cynic", "lemur"]));
    assert_eq!(state.candidates(), &list(&["works", "cynic", "lemur"]));
    for letter in ['a', 'c', 'w', 'z'] {
        assert_eq!(state.count_floor(letter), None);
        assert_eq!(state.present_mask(letter), None);
        assert_eq!(state.correct_mask(letter), None);
    }
}

#[test]
fn new_drops_entries_that_are_not_words() {
    let state = EngineState::new(list(&[
        "works", "", "word", "wordss", "Works", "w0rks", "wörks", "cynic", "works",
    ]));
    assert_eq!(state.candidates(), &list(&["works", "cynic", "works"]));
}

#[test]
fn double_letter_round_keeps_cynic() {
    let mut state = EngineState::new(list(&["cynic"]));
    let left = state.submit_round(&round("ccnym", "cmcm-"));
    assert_eq!(left, Ok(list(&["cynic"])));
    assert_eq!(state.count_floor('c'), Some(2));
    assert_eq!(state.count_floor('n'), Some(1));
    assert_eq!(state.count_floor('y'), Some(1));
    assert_eq!(state.count_floor('m'), None);
    assert_eq!(state.correct_mask('c'), Some(0b00001));
    assert_eq!(state.present_mask('c'), Some(0b00010));
    assert_eq!(state.correct_mask('n'), Some(0b00100));
    assert_eq!(state.present_mask('y'), Some(0b01000));
}

#[test]
fn double_letter_round_drops_words_with_one_c() {
    let mut state = EngineState::new(list(&["candy", "cynic", "canny", "conic"]));
    let left = state.submit_round(&round("ccnym", "cmcm-"));
    assert_eq!(left, Ok(list(&["cynic"])));
}

#[test]
fn correct_letter_marked_absent_elsewhere_keeps_lemur() {
    let mut state = EngineState::new(list(&["femur", "lemur", "melon", "demur"]));
    let left = state.submit_round(&round("eemrl", "-ccmm"));
    assert_eq!(left, Ok(list(&["lemur"])));
    assert_eq!(state.correct_mask('e'), Some(0b00010));
    assert_eq!(state.present_mask('e'), None);
    assert_eq!(state.count_floor('e'), Some(1));
}

#[test]
fn correct_letter_marked_absent_elsewhere_drops_a_further_occurrence() {
    let mut state = EngineState::new(list(&["lemer", "lemur", "relme"]));
    let left = state.submit_round(&round("eemrl", "-ccmm"));
    assert_eq!(left, Ok(list(&["lemur"])));
}

#[test]
fn three_rounds_narrow_to_mourn() {
    let mut state = EngineState::new(list(&[
        "trace", "mourn", "round", "bourn", "mound", "court", "mouth", "roman", "manor",
    ]));
    let first = state.submit_round(&round("trace", "-m---")).unwrap();
    assert_eq!(first, list(&["mourn", "round", "bourn"]));
    let second = state.submit_round(&round("round", "mccm-")).unwrap();
    assert_eq!(second, list(&["mourn", "bourn"]));
    let third = state.submit_round(&round("amaaa", "-m---")).unwrap();
    assert_eq!(third, list(&["mourn"]));
    assert_eq!(state.present_mask('r'), Some(0b00011));
    assert_eq!(state.present_mask('n'), Some(0b01000));
    assert_eq!(state.present_mask('m'), Some(0b00010));
    assert_eq!(state.correct_mask('o'), Some(0b00010));
    assert_eq!(state.correct_mask('u'), Some(0b00100));
    assert_eq!(state.count_floor('r'), Some(1));
    assert_eq!(state.count_floor('t'), None);
}

#[test]
fn scrambled_round_narrows_to_works() {
    let mut state = EngineState::new(list(&["words", "works", "worms", "rocks", "corks"]));
    let left = state.submit_round(&round("swork", "mmmmm"));
    assert_eq!(left, Ok(list(&["works"])));
}

#[test]
fn candidates_never_grow() {
    let dictionary = list(&["works", "words", "cynic", "lemur", "mourn", "round", "trace"]);
    let mut state = EngineState::new(dictionary);
    let rounds = [
        round("trace", "-m---"),
        round("round", "mccm-"),
        round("zzzzz", "-----"),
        round("works", "ccccc"),
    ];
    let mut size = state.candidates().len();
    for guess in rounds.iter() {
        let left = state.submit_round(guess).unwrap();
        assert!(left.len() <= size);
        assert_eq!(&left, state.candidates());
        size = left.len();
    }
}

#[test]
fn a_removed_word_does_not_come_back() {
    let mut state = EngineState::new(list(&["works", "words"]));
    assert_eq!(state.submit_round(&round("words", "ccc-c")), Ok(list(&["works"])));
    assert_eq!(state.submit_round(&round("zorks", "ccccc")), Ok(list(&[])));
    assert_eq!(state.submit_round(&round("qqqqq", "-----")), Ok(list(&[])));
    assert_eq!(state.submit_round(&round("works", "ccccc")), Ok(list(&[])));
}

#[test]
fn round_of_known_absent_letters_changes_nothing() {
    let mut state = EngineState::new(list(&["works", "words", "cynic", "lemur"]));
    let first = state.submit_round(&round("aaatt", "-----")).unwrap();
    assert_eq!(first, list(&["works", "words", "cynic", "lemur"]));
    let again = state.submit_round(&round("aaatt", "-----")).unwrap();
    assert_eq!(again, first);
    let mixed = state.submit_round(&round("tatat", "-----")).unwrap();
    assert_eq!(mixed, first);
    assert_eq!(state.count_floor('a'), None);
    assert_eq!(state.present_mask('a'), None);
    assert_eq!(state.correct_mask('t'), None);
}

#[test]
fn absent_round_prunes_once_and_is_idempotent_afterwards() {
    let mut state = EngineState::new(list(&["works", "cynic", "lemur", "mourn"]));
    let first = state.submit_round(&round("kyyyk", "-----")).unwrap();
    assert_eq!(first, list(&["lemur", "mourn"]));
    let second = state.submit_round(&round("kyyyk", "-----")).unwrap();
    assert_eq!(second, first);
}

#[test]
fn floors_never_sink() {
    let mut state = EngineState::new(list(&["cynic", "civic", "conic"]));
    state.submit_round(&round("ccnym", "cmcm-")).unwrap();
    assert_eq!(state.count_floor('c'), Some(2));
    state.submit_round(&round("cqqqq", "c----")).unwrap();
    assert_eq!(state.count_floor('c'), Some(2));
    assert_eq!(state.count_floor('n'), Some(1));
    state.submit_round(&round("ccqqq", "--c--")).unwrap();
    assert_eq!(state.count_floor('c'), Some(2));
}

#[test]
fn letter_twice_absent_does_not_touch_its_floor() {
    let mut state = EngineState::new(list(&["lemur"]));
    state.submit_round(&round("qeqqq", "-c---")).unwrap();
    assert_eq!(state.count_floor('e'), Some(1));
    state.submit_round(&round("eqeqq", "-----")).unwrap();
    assert_eq!(state.count_floor('e'), Some(1));
    assert_eq!(state.correct_mask('e'), Some(0b00010));
    assert_eq!(state.candidates(), &list(&["lemur"]));
}

#[test]
fn correct_mask_collects_every_confirmed_place() {
    let mut state = EngineState::new(list(&["cynic", "comic"]));
    state.submit_round(&round("cqqqq", "c----")).unwrap();
    assert_eq!(state.correct_mask('c'), Some(0b00001));
    state.submit_round(&round("qqqqc", "----c")).unwrap();
    assert_eq!(state.correct_mask('c'), Some(0b10001));
    assert_eq!(state.count_floor('c'), Some(1));
    assert_eq!(state.candidates(), &list(&["cynic", "comic"]));
}

#[test]
fn absent_mark_at_a_place_recorded_as_misplaced_bars_every_word() {
    let mut state = EngineState::new(list(&["mourn", "round"]));
    assert_eq!(state.submit_round(&round("qrqqq", "-m---")), Ok(list(&["mourn", "round"])));
    assert_eq!(state.submit_round(&round("qrqqq", "-----")), Ok(list(&[])));
}

#[test]
fn absent_mark_for_a_misplaced_letter_only_forbids_its_place() {
    let mut state = EngineState::new(list(&["marsh", "round", "marry", "mourn"]));
    assert_eq!(
        state.submit_round(&round("rqqrq", "m----")),
        Ok(list(&["marsh"]))
    );
    assert_eq!(state.present_mask('r'), Some(0b00001));
    assert_eq!(state.count_floor('r'), Some(1));
}

#[test]
fn round_of_wrong_length_is_turned_down() {
    let mut state = EngineState::new(list(&["works", "words"]));
    assert_eq!(
        state.submit_round(&round("work", "cccc")),
        Err(EngineError::InvalidRound)
    );
    assert_eq!(
        state.submit_round(&round("workss", "cccccc")),
        Err(EngineError::InvalidRound)
    );
    assert_eq!(state.submit_round(&[]), Err(EngineError::InvalidRound));
    assert_eq!(state.candidates(), &list(&["works", "words"]));
    assert_eq!(state.count_floor('w'), None);
    assert_eq!(state.correct_mask('w'), None);
}

#[test]
fn round_with_a_character_outside_the_alphabet_is_turned_down() {
    let mut state = EngineState::new(list(&["works", "words"]));
    for letters in ["Works", "w0rks", "wor s", "workß", "work{", "`orks"] {
        assert_eq!(
            state.submit_round(&round(letters, "ccccc")),
            Err(EngineError::InvalidRound)
        );
    }
    assert_eq!(state.candidates(), &list(&["works", "words"]));
    assert_eq!(state.count_floor('w'), None);
    assert_eq!(state.present_mask('o'), None);
    assert_eq!(state.correct_mask('w'), None);
}

#[test]
fn first_and_last_letter_of_the_alphabet_are_accepted() {
    let mut state = EngineState::new(list(&["azure", "pizza"]));
    assert_eq!(state.submit_round(&round("azzzz", "cc---")), Ok(list(&["azure"])));
}

#[test]
fn empty_dictionary_is_a_valid_session() {
    let mut state = EngineState::new(Vec::new());
    assert_eq!(state.submit_round(&round("works", "ccccc")), Ok(Vec::new()));
    assert_eq!(state.count_floor('w'), Some(1));
}
