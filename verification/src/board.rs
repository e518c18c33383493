//! The row of the grid that is being edited, and what each key does to it.
//!
//! The shell reads keys and draws; what a key means is decided here.

use vstd::prelude::*;

use crate::engine::EngineState;
use crate::knowledge::{valid_round, Knowledge};
use crate::letter::{
    letter_key, next_of, next_type, previous_of, previous_type, Letter, LetterType,
};
use crate::mask::{mask_contains, mask_has};
use crate::word::WORD_LEN;

verus! {

/// The most candidates the shell lists after a round.
pub const MAX_LISTED: usize = 10;

/// A key, as far as the board tells keys apart.
#[derive(Copy, Clone, Debug, PartialEq, Eq, Structural)]
pub enum Key {
    Left,
    Right,
    Up,
    Down,
    Enter,
    Character(char),
    Interrupt,
    Other,
}

/// What the shell is to do once a key has been taken.
#[derive(Copy, Clone, Debug, PartialEq, Eq, Structural)]
pub enum Action {
    /// Nothing.
    Nothing,
    /// Put the cursor on the slot it now stands on.
    MoveCursor,
    /// Draw the slot under the cursor anew.
    DrawSlot,
    /// Draw slot `slot` anew, and put the cursor on the slot it now stands on.
    DrawTyped { slot: usize },
    /// The round was taken in: list the first `shown` candidates and open
    /// the next row.
    ShowCandidates { shown: usize },
    /// The row is not a valid round: nothing was taken in.
    Refuse,
    /// Leave.
    Quit,
}

/// The slots of the row and the slot the cursor stands on.
pub struct Row {
    pub cursor: int,
    pub slots: Seq<Letter>,
}

/// The slot left of `cursor`, round the edge.
pub open spec fn left_of(cursor: int) -> int {
    if cursor == 0 {
        WORD_LEN - 1
    } else {
        cursor - 1
    }
}

/// The slot right of `cursor`, round the edge.
pub open spec fn right_of(cursor: int) -> int {
    if cursor + 1 == WORD_LEN {
        0
    } else {
        cursor + 1
    }
}

/// The slot a typed letter makes: marked correct where the letter is already
/// confirmed at that place, absent anywhere else.
pub open spec fn typed(k: Knowledge, letter: char, slot: int) -> Letter {
    Letter {
        character: letter,
        letter_type: if k.correct_mask.contains_key(letter_key(letter)) && mask_has(
            k.correct_mask[letter_key(letter)],
            slot,
        ) {
            LetterType::Correct
        } else {
            LetterType::Incorrect
        },
    }
}

/// A slot with its mark set to `mark`.
pub open spec fn remarked(g: Letter, mark: LetterType) -> Letter {
    Letter { character: g.character, letter_type: mark }
}

/// The slots with every mark set back to absent, the letters kept.
pub open spec fn unmarked(slots: Seq<Letter>) -> Seq<Letter> {
    Seq::new(slots.len(), |i: int| remarked(slots[i], LetterType::Incorrect))
}

/// How many candidates the shell lists: all of them up to `MAX_LISTED`.
pub open spec fn listed(count: int) -> int {
    if count < MAX_LISTED {
        count
    } else {
        MAX_LISTED as int
    }
}

impl Row {
    /// The cursor stands on a slot, and there are `WORD_LEN` slots.
    pub open spec fn wf(self) -> bool {
        0 <= self.cursor < WORD_LEN && self.slots.len() == WORD_LEN
    }

    /// The row a new board shows: the cursor on the first slot, every slot
    /// an `a` marked absent.
    pub open spec fn initial() -> Row {
        Row {
            cursor: 0,
            slots: Seq::new(
                WORD_LEN as nat,
                |i: int| Letter { character: 'a', letter_type: LetterType::Incorrect },
            ),
        }
    }

    /// The row after a key, given the knowledge before the key.
    pub open spec fn after_key(self, key: Key, k: Knowledge) -> Row {
        match key {
            Key::Left => Row { cursor: left_of(self.cursor), ..self },
            Key::Right => Row { cursor: right_of(self.cursor), ..self },
            Key::Up => Row {
                slots: self.slots.update(
                    self.cursor,
                    remarked(
                        self.slots[self.cursor],
                        previous_of(self.slots[self.cursor].letter_type),
                    ),
                ),
                ..self
            },
            Key::Down => Row {
                slots: self.slots.update(
                    self.cursor,
                    remarked(self.slots[self.cursor], next_of(self.slots[self.cursor].letter_type)),
                ),
                ..self
            },
            Key::Enter => if valid_round(self.slots) {
                Row { slots: unmarked(self.slots), ..self }
            } else {
                self
            },
            Key::Character(letter) => Row {
                cursor: right_of(self.cursor),
                slots: self.slots.update(self.cursor, typed(k, letter, self.cursor)),
            },
            Key::Interrupt => self,
            Key::Other => self,
        }
    }

    /// What the shell is to do after a key, given the row and the knowledge
    /// before the key.
    pub open spec fn action(self, key: Key, k: Knowledge) -> Action {
        match key {
            Key::Left => Action::MoveCursor,
            Key::Right => Action::MoveCursor,
            Key::Up => Action::DrawSlot,
            Key::Down => Action::DrawSlot,
            Key::Enter => if valid_round(self.slots) {
                Action::ShowCandidates {
                    shown: listed(k.after_round(self.slots).candidates.len() as int) as usize,
                }
            } else {
                Action::Refuse
            },
            Key::Character(_) => Action::DrawTyped { slot: self.cursor as usize },
            Key::Interrupt => Action::Quit,
            Key::Other => Action::Nothing,
        }
    }
}

/// Moving right and back left, or left and back right, comes back to the
/// same slot, and neither leaves the row.
pub proof fn lemma_cursor_moves(cursor: int)
    requires
        0 <= cursor < WORD_LEN,
    ensures
        left_of(right_of(cursor)) == cursor,
        right_of(left_of(cursor)) == cursor,
        0 <= left_of(cursor) < WORD_LEN,
        0 <= right_of(cursor) < WORD_LEN,
{
}

/// The row that is being edited.
pub struct Board {
    cursor: usize,
    slots: Vec<Letter>,
}

impl View for Board {
    type V = Row;

    closed spec fn view(&self) -> Row {
        Row { cursor: self.cursor as int, slots: self.slots@ }
    }
}

impl Board {
    /// The board satisfies the invariant of its row.
    pub open spec fn wf(&self) -> bool {
        self@.wf()
    }

    /// A board at the start of a session.
    pub fn new() -> (board: Board)
        ensures
            board.wf(),
            board@ == Row::initial(),
    {
        let mut slots: Vec<Letter> = Vec::new();
        for i in 0..WORD_LEN
            invariant
                slots@.len() == i,
                forall|j: int|
                    0 <= j < i ==> slots@[j] == (Letter {
                        character: 'a',
                        letter_type: LetterType::Incorrect,
                    }),
        {
            slots.push(Letter { character: 'a', letter_type: LetterType::Incorrect });
        }
        let board = Board { cursor: 0, slots };
        assert(board@.slots =~= Row::initial().slots);
        board
    }

    /// The slot the cursor stands on, counted from 0.
    pub fn cursor(&self) -> (cursor: usize)
        ensures
            cursor == self@.cursor,
    {
        self.cursor
    }

    /// The slots of the row.
    pub fn slots(&self) -> (slots: &Vec<Letter>)
        ensures
            slots@ == self@.slots,
    {
        &self.slots
    }

    /// Takes a key: moves the cursor, changes a slot, or hands the row to the
    /// engine as a round, and says what the shell is to do.
    pub fn press(&mut self, key: Key, engine: &mut EngineState) -> (action: Action)
        requires
            old(self).wf(),
            old(engine).wf(),
        ensures
            final(self).wf(),
            final(engine).wf(),
            final(self)@ == old(self)@.after_key(key, old(engine)@),
            action == old(self)@.action(key, old(engine)@),
            final(engine)@ == if key == Key::Enter {
                old(engine)@.after_round(old(self)@.slots)
            } else {
                old(engine)@
            },
    {
        let at: usize = self.cursor;
        match key {
            Key::Left => {
                self.cursor = if at == 0 {
                    WORD_LEN - 1
                } else {
                    at - 1
                };
                Action::MoveCursor
            },
            Key::Right => {
                self.cursor = if at + 1 == WORD_LEN {
                    0
                } else {
                    at + 1
                };
                Action::MoveCursor
            },
            Key::Up => {
                let slot: Letter = self.slots[at];
                self.slots.set(
                    at,
                    Letter {
                        character: slot.character,
                        letter_type: previous_type(slot.letter_type),
                    },
                );
                Action::DrawSlot
            },
            Key::Down => {
                let slot: Letter = self.slots[at];
                self.slots.set(
                    at,
                    Letter { character: slot.character, letter_type: next_type(slot.letter_type) },
                );
                Action::DrawSlot
            },
            Key::Enter => {
                match engine.submit_round(self.slots.as_slice()) {
                    Err(_) => Action::Refuse,
                    Ok(left) => {
                        let ghost before = self.slots@;
                        for i in 0..WORD_LEN
                            invariant
                                before.len() == WORD_LEN,
                                self.slots@.len() == WORD_LEN,
                                self.cursor == at,
                                forall|j: int|
                                    0 <= j < i ==> self.slots@[j] == remarked(
                                        before[j],
                                        LetterType::Incorrect,
                                    ),
                                forall|j: int| i <= j < WORD_LEN ==> self.slots@[j] == before[j],
                        {
                            let slot: Letter = self.slots[i];
                            self.slots.set(
                                i,
                                Letter {
                                    character: slot.character,
                                    letter_type: LetterType::Incorrect,
                                },
                            );
                        }
                        assert(self.slots@ =~= unmarked(before));
                        let shown: usize = if left.len() < MAX_LISTED {
                            left.len()
                        } else {
                            MAX_LISTED
                        };
                        Action::ShowCandidates { shown }
                    },
                }
            },
            Key::Character(letter) => {
                let confirmed: bool = match engine.correct_mask(letter) {
                    Some(mask) => mask_contains(mask, at),
                    None => false,
                };
                let mark = if confirmed {
                    LetterType::Correct
                } else {
                    LetterType::Incorrect
                };
                self.slots.set(at, Letter { character: letter, letter_type: mark });
                self.cursor = if at + 1 == WORD_LEN {
                    0
                } else {
                    at + 1
                };
                Action::DrawTyped { slot: at }
            },
            Key::Interrupt => Action::Quit,
            Key::Other => Action::Nothing,
        }
    }
}

} // verus!
