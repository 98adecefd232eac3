//! The order in which a puzzle's words are listed.
//!
//! Words are listed in dictionary order by their characters: the first
//! character in which two words differ decides, and a word comes before
//! every longer word that begins with it.

use vstd::prelude::*;
use vstd::relations::{sorted_by, total_ordering};
use vstd::seq_lib::{lemma_sorted_unique, to_multiset_build, to_multiset_insert};

verus! {

/// `a` comes before `b` in dictionary order, or is equal to it.
pub open spec fn lex_le(a: Seq<char>, b: Seq<char>) -> bool
    decreases a.len(),
{
    if a.len() == 0 {
        true
    } else if b.len() == 0 {
        false
    } else if a[0] != b[0] {
        a[0] < b[0]
    } else {
        lex_le(a.skip(1), b.skip(1))
    }
}

/// Dictionary order as a relation.
pub open spec fn word_order() -> spec_fn(Seq<char>, Seq<char>) -> bool {
    |a: Seq<char>, b: Seq<char>| lex_le(a, b)
}

/// The words in dictionary order.
pub open spec fn listed(words: Seq<Seq<char>>) -> Seq<Seq<char>> {
    words.sort_by(word_order())
}

proof fn lemma_lex_le_refl(a: Seq<char>)
    ensures
        lex_le(a, a),
    decreases a.len(),
{
    if a.len() > 0 {
        lemma_lex_le_refl(a.skip(1));
    }
}

proof fn lemma_lex_le_antisym(a: Seq<char>, b: Seq<char>)
    requires
        lex_le(a, b),
        lex_le(b, a),
    ensures
        a == b,
    decreases a.len(),
{
    if a.len() > 0 && b.len() > 0 {
        lemma_lex_le_antisym(a.skip(1), b.skip(1));
        assert(b =~= seq![b[0]] + b.skip(1));
    }
}

proof fn lemma_lex_le_trans(a: Seq<char>, b: Seq<char>, c: Seq<char>)
    requires
        lex_le(a, b),
        lex_le(b, c),
    ensures
        lex_le(a, c),
    decreases a.len(),
{
    if a.len() > 0 && b.len() > 0 && c.len() > 0 && a[0] == b[0] && b[0] == c[0] {
        lemma_lex_le_trans(a.skip(1), b.skip(1), c.skip(1));
    }
}

proof fn lemma_lex_le_total(a: Seq<char>, b: Seq<char>)
    ensures
        lex_le(a, b) || lex_le(b, a),
    decreases a.len(),
{
    if a.len() > 0 && b.len() > 0 && a[0] == b[0] {
        lemma_lex_le_total(a.skip(1), b.skip(1));
    }
}

/// Dictionary order is a total order: any two words compare, and two words
/// that come before each other are the same word.
pub proof fn lemma_word_order_total()
    ensures
        total_ordering(word_order()),
{
    let leq = word_order();
    assert forall|a: Seq<char>, b: Seq<char>| #[trigger] leq(a, b) && #[trigger] leq(b, a) implies a
        == b by {
        lemma_lex_le_antisym(a, b);
    }
    assert forall|a: Seq<char>, b: Seq<char>, c: Seq<char>| #[trigger]
        leq(a, b) && #[trigger] leq(b, c) implies leq(a, c) by {
        lemma_lex_le_trans(a, b, c);
    }
    assert forall|a: Seq<char>, b: Seq<char>| #[trigger] leq(a, b) || #[trigger] leq(b, a) by {
        lemma_lex_le_total(a, b);
    }
}

/// A sequence is the listing of `words` as soon as it is in dictionary
/// order and holds the same words as often.
pub proof fn lemma_listed_unique(words: Seq<Seq<char>>, ordered: Seq<Seq<char>>)
    requires
        sorted_by(ordered, word_order()),
        ordered.to_multiset() == words.to_multiset(),
    ensures
        ordered == listed(words),
{
    lemma_word_order_total();
    words.lemma_sort_by_ensures(word_order());
    lemma_sorted_unique(ordered, listed(words), word_order());
}

/// Whether `a` comes before `b` in dictionary order, or is equal to it.
pub fn precedes(a: &str, b: &str) -> (le: bool)
    ensures
        le == lex_le(a@, b@),
{
    let n = a.unicode_len();
    let m = b.unicode_len();
    let mut i: usize = 0;
    assert(a@.skip(0) == a@ && b@.skip(0) == b@);
    while i < n && i < m
        invariant
            n == a@.len(),
            m == b@.len(),
            i <= n,
            i <= m,
            lex_le(a@, b@) == lex_le(a@.skip(i as int), b@.skip(i as int)),
        decreases n - i,
    {
        let ca = a.get_char(i);
        let cb = b.get_char(i);
        if ca != cb {
            return ca < cb;
        }
        assert(a@.skip(i as int).skip(1) == a@.skip(i + 1));
        assert(b@.skip(i as int).skip(1) == b@.skip(i + 1));
        i = i + 1;
    }
    n <= m
}

/// The words in dictionary order. Words that occur several times are
/// listed as often.
pub fn sort_words<'a>(words: &[&'a str]) -> (ordered: Vec<&'a str>)
    ensures
        ordered.deep_view() == listed(words.deep_view()),
{
    let mut ordered: Vec<&'a str> = Vec::new();
    let mut k: usize = 0;
    assert(ordered.deep_view() =~= Seq::<Seq<char>>::empty());
    assert(words.deep_view().take(0) =~= Seq::<Seq<char>>::empty());
    while k < words.len()
        invariant
            k <= words.len(),
            sorted_by(ordered.deep_view(), word_order()),
            ordered.deep_view().to_multiset() == words.deep_view().take(k as int).to_multiset(),
        decreases words.len() - k,
    {
        let word = words[k];
        let mut at: usize = 0;
        while at < ordered.len() && precedes(ordered[at], word)
            invariant
                at <= ordered.len(),
                forall|i: int| 0 <= i < at ==> lex_le(#[trigger] ordered.deep_view()[i], word@),
            decreases ordered.len() - at,
        {
            at = at + 1;
        }
        let ghost prior = ordered.deep_view();
        ordered.insert(at, word);
        proof {
            let after = ordered.deep_view();
            assert(after =~= prior.insert(at as int, word@));
            to_multiset_insert(prior, at as int, word@);
            assert(words.deep_view().take(k + 1) =~= words.deep_view().take(k as int).push(word@));
            to_multiset_build(words.deep_view().take(k as int), word@);
            assert forall|i: int, j: int| 0 <= i < j < after.len() implies #[trigger] word_order()(
                after[i],
                after[j],
            ) by {
                if i == at {
                    lemma_lex_le_total(prior[at as int], word@);
                    if j - 1 > at {
                        assert(word_order()(prior[at as int], prior[j - 1]));
                    } else {
                        lemma_lex_le_refl(prior[at as int]);
                    }
                    lemma_lex_le_trans(word@, prior[at as int], prior[j - 1]);
                }
            }
        }
        k = k + 1;
    }
    proof {
        assert(words.deep_view().take(k as int) =~= words.deep_view());
        lemma_listed_unique(words.deep_view(), ordered.deep_view());
    }
    ordered
}

} // verus!
