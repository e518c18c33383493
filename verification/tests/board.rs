use wordle_solver::{Action, Board, EngineState, Key, Letter, LetterType, MAX_LISTED};

fn session(words: &[&str]) -> EngineState {
    EngineState::new(words.iter().map(|word| word.to_string()).collect())
}

fn type_in(board: &mut Board, engine: &mut EngineState, letters: &str) {
    for letter in letters.chars() {
        board.press(Key::Character(letter), engine);
    }
}

fn absent(character: char) -> Letter {
    Letter {
        character,
        letter_type: LetterType::Incorrect,
    }
}

#[test]
fn new_board() {
    let board = Board::new();
    assert_eq!(board.cursor(), 0);
    assert_eq!(board.slots(), &vec![absent('a'); 5]);
}

#[test]
fn cursor_moves_round_the_edges() {
    let mut engine = session(&["works"]);
    let mut board = Board::new();
    assert_eq!(board.press(Key::Left, &mut engine), Action::MoveCursor);
    assert_eq!(board.cursor(), 4);
    assert_eq!(board.press(Key::Right, &mut engine), Action::MoveCursor);
    assert_eq!(board.cursor(), 0);
    for expected in [1, 2, 3, 4, 0, 1] {
        assert_eq!(board.press(Key::Right, &mut engine), Action::MoveCursor);
        assert_eq!(board.cursor(), expected);
    }
    for expected in [0, 4, 3, 2, 1, 0] {
        assert_eq!(board.press(Key::Left, &mut engine), Action::MoveCursor);
        assert_eq!(board.cursor(), expected);
    }
    assert_eq!(board.slots(), &vec![absent('a'); 5]);
}

#[test]
fn up_and_down_cycle_the_mark_under_the_cursor() {
    let mut engine = session(&["works"]);
    let mut board = Board::new();
    board.press(Key::Right, &mut engine);
    assert_eq!(board.press(Key::Down, &mut engine), Action::DrawSlot);
    assert_eq!(board.slots()[1].letter_type, LetterType::WrongPosition);
    assert_eq!(board.press(Key::Down, &mut engine), Action::DrawSlot);
    assert_eq!(board.slots()[1].letter_type, LetterType::Correct);
    assert_eq!(board.press(Key::Down, &mut engine), Action::DrawSlot);
    assert_eq!(board.slots()[1].letter_type, LetterType::Incorrect);
    assert_eq!(board.press(Key::Up, &mut engine), Action::DrawSlot);
    assert_eq!(board.slots()[1].letter_type, LetterType::Correct);
    assert_eq!(board.press(Key::Up, &mut engine), Action::DrawSlot);
    assert_eq!(board.slots()[1].letter_type, LetterType::WrongPosition);
    assert_eq!(board.cursor(), 1);
    assert_eq!(board.slots()[0], absent('a'));
    assert_eq!(board.slots()[1].character, 'a');
    assert_eq!(board.slots()[2], absent('a'));
}

#[test]
fn typing_fills_the_slot_and_moves_on() {
    let mut engine = session(&["works"]);
    let mut board = Board::new();
    assert_eq!(
        board.press(Key::Character('w'), &mut engine),
        Action::DrawTyped { slot: 0 }
    );
    assert_eq!(board.cursor(), 1);
    assert_eq!(board.slots()[0], absent('w'));
    type_in(&mut board, &mut engine, "ork");
    assert_eq!(
        board.press(Key::Character('s'), &mut engine),
        Action::DrawTyped { slot: 4 }
    );
    assert_eq!(board.cursor(), 0);
    let typed: String = board.slots().iter().map(|slot| slot.character).collect();
    assert_eq!(typed, "works");
}

#[test]
fn enter_submits_the_row_and_clears_its_marks() {
    let mut engine = session(&["works", "words", "cynic"]);
    let mut board = Board::new();
    type_in(&mut board, &mut engine, "words");
    for _ in 0..3 {
        board.press(Key::Up, &mut engine);
        board.press(Key::Right, &mut engine);
    }
    assert_eq!(board.cursor(), 3);
    board.press(Key::Right, &mut engine);
    board.press(Key::Up, &mut engine);
    assert_eq!(
        board.press(Key::Enter, &mut engine),
        Action::ShowCandidates { shown: 1 }
    );
    assert_eq!(engine.candidates(), &vec![String::from("works")]);
    assert_eq!(engine.correct_mask('w'), Some(0b00001));
    assert_eq!(engine.correct_mask('o'), Some(0b00010));
    assert_eq!(engine.correct_mask('r'), Some(0b00100));
    assert_eq!(engine.correct_mask('d'), None);
    assert_eq!(engine.correct_mask('s'), Some(0b10000));
    assert_eq!(board.cursor(), 4);
    assert_eq!(
        board.slots(),
        &vec![absent('w'), absent('o'), absent('r'), absent('d'), absent('s')]
    );
}

#[test]
fn a_letter_confirmed_at_its_place_is_typed_as_correct() {
    let mut engine = session(&["works", "words"]);
    let mut board = Board::new();
    type_in(&mut board, &mut engine, "wqqqq");
    board.press(Key::Up, &mut engine);
    board.press(Key::Enter, &mut engine);
    assert_eq!(engine.correct_mask('w'), Some(0b00001));
    board.press(Key::Character('w'), &mut engine);
    board.press(Key::Character('w'), &mut engine);
    assert_eq!(board.slots()[0].letter_type, LetterType::Correct);
    assert_eq!(board.slots()[1], absent('w'));
}

#[test]
fn a_row_that_is_no_round_is_refused() {
    let mut engine = session(&["works", "words"]);
    let mut board = Board::new();
    type_in(&mut board, &mut engine, "Wor");
    board.press(Key::Down, &mut engine);
    assert_eq!(board.press(Key::Enter, &mut engine), Action::Refuse);
    assert_eq!(engine.candidates().len(), 2);
    assert_eq!(engine.count_floor('a'), None);
    assert_eq!(board.cursor(), 3);
    assert_eq!(board.slots()[0], absent('W'));
    assert_eq!(board.slots()[3].letter_type, LetterType::WrongPosition);
}

#[test]
fn no_more_than_the_maximum_is_listed() {
    let mut engine = session(&[
        "bbbbb", "ccccc", "ddddd", "eeeee", "fffff", "ggggg", "hhhhh", "iiiii", "jjjjj", "kkkkk",
        "lllll", "mmmmm",
    ]);
    let mut board = Board::new();
    assert_eq!(MAX_LISTED, 10);
    assert_eq!(
        board.press(Key::Enter, &mut engine),
        Action::ShowCandidates { shown: 10 }
    );
    type_in(&mut board, &mut engine, "bcdqq");
    assert_eq!(
        board.press(Key::Enter, &mut engine),
        Action::ShowCandidates { shown: 9 }
    );
}

#[test]
fn interrupt_and_other_keys_change_nothing() {
    let mut engine = session(&["works"]);
    let mut board = Board::new();
    board.press(Key::Character('w'), &mut engine);
    assert_eq!(board.press(Key::Other, &mut engine), Action::Nothing);
    assert_eq!(board.press(Key::Interrupt, &mut engine), Action::Quit);
    assert_eq!(board.cursor(), 1);
    assert_eq!(board.slots()[0], absent('w'));
    assert_eq!(engine.candidates().len(), 1);
}
