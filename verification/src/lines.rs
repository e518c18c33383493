//! Reading the entries of a word list from its text.

use vstd::prelude::*;
use vstd::string::*;

verus! {

/// The entries of a word list: the pieces of the text between line feeds,
/// each without its carriage returns. A text with `n` line feeds has `n + 1`
/// entries, of which any may be empty.
pub open spec fn entries(text: Seq<char>) -> Seq<Seq<char>>
    decreases text.len(),
{
    if text.len() == 0 {
        seq![Seq::empty()]
    } else {
        let front = entries(text.drop_last());
        let c = text.last();
        if c == '\n' {
            front.push(Seq::empty())
        } else if c == '\r' {
            front
        } else {
            front.update(front.len() - 1, front.last().push(c))
        }
    }
}

/// The texts of the strings of a list.
pub open spec fn texts(list: Seq<String>) -> Seq<Seq<char>> {
    Seq::new(list.len(), |i: int| list[i]@)
}

/// `String::push` of the standard library: the string gets the character
/// appended at its end, and is otherwise unchanged.
#[verifier::external_body]
fn push_char(s: &mut String, c: char)
    ensures
        final(s)@ == old(s)@.push(c),
{
    s.push(c);
}

/// Splits the text of a word list into its entries.
pub fn read_entries(text: &str) -> (list: Vec<String>)
    ensures
        texts(list@) == entries(text@),
{
    let mut list: Vec<String> = Vec::new();
    let mut current: String = String::new();
    assert(text@.take(0).len() == 0);
    for c in it: text.chars()
        invariant
            it.seq() == text@,
            texts(list@).push(current@) == entries(text@.take(it.index() as int)),
    {
        let ghost n = it.index() as int;
        let ghost before = texts(list@);
        proof {
            assert(text@.take(n + 1).drop_last() == text@.take(n));
            assert(text@.take(n + 1).last() == c);
            assert(entries(text@.take(n)).len() == before.len() + 1);
            assert(entries(text@.take(n)).last() == current@);
        }
        if c == '\n' {
            list.push(current);
            current = String::new();
            assert(texts(list@) == before.push(list@[list@.len() - 1]@));
        } else if c != '\r' {
            push_char(&mut current, c);
        }
        assert(texts(list@).push(current@) == entries(text@.take(n + 1)));
    }
    assert(text@.take(text@.len() as int) == text@);
    let ghost before = texts(list@);
    list.push(current);
    assert(texts(list@) == before.push(list@[list@.len() - 1]@));
    list
}

} // verus!
