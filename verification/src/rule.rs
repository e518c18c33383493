//! The elementary conditions by which the list of candidates is pruned, and
//! the pruning itself.

use vstd::prelude::*;
use vstd::string::*;

use crate::mask::{mask_contains, mask_has};
use crate::word::{
    all_words, count_letter, has_letter, is_word, lemma_word_bytes, occurrences, string_index,
    WORD_LEN,
};

verus! {

/// One condition on a word.
#[derive(Copy, Clone, Debug, PartialEq, Eq, Structural)]
pub enum Rule {
    /// Holds of every word.
    Any,
    /// The letter stands at the place.
    At { position: usize, letter: char },
    /// The letter occurs in the word, but not at the place.
    Elsewhere { position: usize, letter: char },
    /// The letter does not occur in the word.
    Nowhere { letter: char },
    /// The letter does not occur in the word, or only at places of the mask.
    Within { letter: char, mask: u16 },
    /// The letter does not stand at the place, and the mask does not record
    /// the place. A mask that records the place bars every word.
    Barred { position: usize, letter: char, mask: u16 },
    /// The letter occurs at least `count` times.
    AtLeast { letter: char, count: u16 },
}

impl Rule {
    /// The places a rule names lie inside a word.
    pub open spec fn wf(self) -> bool {
        match self {
            Rule::At { position, .. } => position < WORD_LEN,
            Rule::Elsewhere { position, .. } => position < WORD_LEN,
            Rule::Barred { position, .. } => position < WORD_LEN,
            _ => true,
        }
    }

    /// Whether the word `w` meets the condition.
    pub open spec fn admits(self, w: Seq<char>) -> bool {
        match self {
            Rule::Any => true,
            Rule::At { position, letter } => w[position as int] == letter,
            Rule::Elsewhere { position, letter } => w[position as int] != letter && w.contains(
                letter,
            ),
            Rule::Nowhere { letter } => !w.contains(letter),
            Rule::Within { letter, mask } => !w.contains(letter) || forall|p: int|
                0 <= p < w.len() && w[p] == letter ==> mask_has(mask, p),
            Rule::Barred { position, letter, mask } => w[position as int] != letter && !mask_has(
                mask,
                position as int,
            ),
            Rule::AtLeast { letter, count } => occurrences(w, letter) >= count,
        }
    }

    /// The condition as a predicate on the entries of a list.
    pub open spec fn sieve(self) -> spec_fn(String) -> bool {
        |s: String| self.admits(s@)
    }

    /// Decides whether a word meets the condition.
    pub fn test(&self, word: &str) -> (b: bool)
        requires
            self.wf(),
            is_word(word@),
        ensures
            b == self.admits(word@),
    {
        proof {
            lemma_word_bytes(word);
        }
        match *self {
            Rule::Any => true,
            Rule::At { position, letter } => string_index(word, position) == letter,
            Rule::Elsewhere { position, letter } => string_index(word, position) != letter
                && has_letter(word, letter),
            Rule::Nowhere { letter } => !has_letter(word, letter),
            Rule::Within { letter, mask } => {
                for p in 0..WORD_LEN
                    invariant
                        *self == (Rule::Within { letter, mask }),
                        is_word(word@),
                        is_ascii(word),
                        word.spec_bytes().len() == WORD_LEN,
                        forall|j: int| 0 <= j < p && word@[j] == letter ==> mask_has(mask, j),
                {
                    if string_index(word, p) == letter && !mask_contains(mask, p) {
                        assert(word@[p as int] == letter && !mask_has(mask, p as int));
                        return false;
                    }
                }
                true
            },
            Rule::Barred { position, letter, mask } => string_index(word, position) != letter
                && !mask_contains(mask, position),
            Rule::AtLeast { letter, count } => count_letter(word, letter) >= count,
        }
    }
}

/// Keeps the words that meet the rule, in their order, and drops the rest.
pub fn prune(words: &mut Vec<String>, rule: &Rule)
    requires
        rule.wf(),
        all_words(old(words)@),
    ensures
        final(words)@ == old(words)@.filter(rule.sieve()),
        all_words(final(words)@),
{
    let mut source: Vec<String> = Vec::new();
    std::mem::swap(words, &mut source);
    let ghost all = source@;
    let ghost keep = rule.sieve();
    assert(words@ == all.take(0).filter(keep)) by {
        reveal(Seq::filter);
    }
    for w in it: source
        invariant
            it.seq() == all,
            all_words(all),
            rule.wf(),
            keep == rule.sieve(),
            words@ == all.take(it.index() as int).filter(keep),
            all_words(words@),
    {
        proof {
            let n = it.index() as int;
            assert(is_word(all[n]@));
            assert(all.take(n + 1) == all.take(n).push(all[n]));
            all.take(n).lemma_filter_push(all[n], keep);
        }
        if rule.test(w.as_str()) {
            words.push(w);
        }
    }
    assert(all.take(all.len() as int) == all);
}

/// Filtering twice is filtering once by both predicates.
pub proof fn lemma_filter_refine<A>(
    s: Seq<A>,
    p: spec_fn(A) -> bool,
    q: spec_fn(A) -> bool,
    r: spec_fn(A) -> bool,
)
    requires
        forall|i: int| 0 <= i < s.len() ==> (r(#[trigger] s[i]) <==> p(s[i]) && q(s[i])),
    ensures
        s.filter(p).filter(q) == s.filter(r),
    decreases s.len(),
{
    reveal(Seq::filter);
    if s.len() > 0 {
        let front = s.drop_last();
        let x = s.last();
        assert forall|i: int| 0 <= i < front.len() implies (r(#[trigger] front[i]) <==> p(front[i])
            && q(front[i])) by {
            assert(front[i] == s[i]);
        }
        lemma_filter_refine(front, p, q, r);
        if p(x) {
            front.filter(p).lemma_filter_push(x, q);
        }
    }
}

/// Two predicates that agree on the entries of a list filter it alike.
pub proof fn lemma_filter_agree<A>(s: Seq<A>, p: spec_fn(A) -> bool, r: spec_fn(A) -> bool)
    requires
        forall|i: int| 0 <= i < s.len() ==> (r(#[trigger] s[i]) <==> p(s[i])),
    ensures
        s.filter(p) == s.filter(r),
    decreases s.len(),
{
    reveal(Seq::filter);
    if s.len() > 0 {
        let front = s.drop_last();
        assert forall|i: int| 0 <= i < front.len() implies (r(#[trigger] front[i]) <==> p(front[i])) by {
            assert(front[i] == s[i]);
        }
        lemma_filter_agree(front, p, r);
    }
}

/// A predicate that holds of every entry filters nothing out.
pub proof fn lemma_filter_all<A>(s: Seq<A>, p: spec_fn(A) -> bool)
    requires
        forall|i: int| 0 <= i < s.len() ==> p(#[trigger] s[i]),
    ensures
        s.filter(p) == s,
    decreases s.len(),
{
    reveal(Seq::filter);
    if s.len() > 0 {
        let front = s.drop_last();
        assert forall|i: int| 0 <= i < front.len() implies p(#[trigger] front[i]) by {
            assert(front[i] == s[i]);
        }
        lemma_filter_all(front, p);
        assert(front.push(s.last()) == s);
    }
}

} // verus!
