//! Words of the dictionary: what makes a string a word, and how its letters
//! are read and counted.

use vstd::prelude::*;
use vstd::string::*;

use crate::letter::is_letter;

verus! {

/// The number of letters in every word and in every guess.
pub const WORD_LEN: usize = 5;

/// A word is exactly `WORD_LEN` letters of the alphabet.
pub open spec fn is_word(w: Seq<char>) -> bool {
    &&& w.len() == WORD_LEN
    &&& forall|i: int| 0 <= i < w.len() ==> is_letter(#[trigger] w[i])
}

/// Every entry of the list is a word.
pub open spec fn all_words(list: Seq<String>) -> bool {
    forall|i: int| 0 <= i < list.len() ==> is_word(#[trigger] list[i]@)
}

/// How many times `c` occurs in `w`.
pub open spec fn occurrences(w: Seq<char>, c: char) -> nat
    decreases w.len(),
{
    if w.len() == 0 {
        0
    } else {
        occurrences(w.drop_last(), c) + if w.last() == c {
            1nat
        } else {
            0nat
        }
    }
}

/// A word is ASCII, so its bytes are its letters, one for one.
pub proof fn lemma_word_bytes(s: &str)
    requires
        is_word(s@),
    ensures
        is_ascii(s),
        s.spec_bytes().len() == WORD_LEN,
        forall|i: int| 0 <= i < WORD_LEN ==> #[trigger] s.spec_bytes()[i] as char == s@[i],
{
    assert forall|i: int| 0 <= i < s@.len() implies '\0' <= #[trigger] s@[i] <= '\u{7f}' by {
        assert(is_letter(s@[i]));
    }
    is_ascii_spec_bytes(s);
}

/// The byte at index `i` of `s`, read as a character. For text that is
/// ASCII throughout this is the `i`-th character.
pub fn string_index(s: &str, i: usize) -> (c: char)
    requires
        i < s.spec_bytes().len(),
    ensures
        c == s.spec_bytes()[i as int] as char,
        is_ascii(s) ==> c == s@[i as int],
{
    broadcast use is_ascii_spec_bytes;

    let b: u8 = s.as_bytes()[i];
    b as char
}

/// Whether `s` is a word.
pub fn valid_word(s: &str) -> (b: bool)
    ensures
        b == is_word(s@),
{
    broadcast use is_ascii_spec_bytes;

    if !s.is_ascii() {
        proof {
            if is_word(s@) {
                lemma_word_bytes(s);
            }
        }
        return false;
    }
    if s.as_bytes().len() != WORD_LEN {
        return false;
    }
    for i in 0..WORD_LEN
        invariant
            is_ascii(s),
            s@.len() == WORD_LEN,
            forall|j: int| 0 <= j < i ==> is_letter(#[trigger] s@[j]),
    {
        let c: char = string_index(s, i);
        let k: u32 = c as u32;
        if k < 97 || k > 122 {
            assert(!is_letter(s@[i as int]));
            return false;
        }
    }
    true
}

/// Whether every entry of the list is a word.
pub fn only_words(list: &[String]) -> (b: bool)
    ensures
        b == all_words(list@),
{
    for i in 0..list.len()
        invariant
            forall|j: int| 0 <= j < i ==> is_word(#[trigger] list@[j]@),
    {
        if !valid_word(list[i].as_str()) {
            return false;
        }
    }
    true
}

/// Whether the word contains `c`.
pub fn has_letter(word: &str, c: char) -> (b: bool)
    requires
        is_word(word@),
    ensures
        b == word@.contains(c),
{
    proof {
        lemma_word_bytes(word);
    }
    for i in 0..WORD_LEN
        invariant
            is_word(word@),
            is_ascii(word),
            word.spec_bytes().len() == WORD_LEN,
            forall|j: int| 0 <= j < i ==> word@[j] != c,
    {
        if string_index(word, i) == c {
            return true;
        }
    }
    false
}

/// How many times the word contains `c`.
pub fn count_letter(word: &str, c: char) -> (n: u16)
    requires
        is_word(word@),
    ensures
        n == occurrences(word@, c),
{
    proof {
        lemma_word_bytes(word);
    }
    let mut n: u16 = 0;
    for i in 0..WORD_LEN
        invariant
            is_word(word@),
            is_ascii(word),
            word.spec_bytes().len() == WORD_LEN,
            n == occurrences(word@.take(i as int), c),
            n <= i,
    {
        assert(word@.take(i + 1).drop_last() == word@.take(i as int));
        if string_index(word, i) == c {
            n = n + 1;
        }
    }
    assert(word@.take(WORD_LEN as int) == word@);
    n
}

} // verus!
