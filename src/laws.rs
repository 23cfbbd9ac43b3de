//! What holds of every count: the counts add up to the total, absent and
//! differently cased words, repeated runs, and the empty text.
use crate::report::report_of;
use crate::tally::{occurrences, word_count};
use crate::tokens::{folded, normalized_tokens, normals_of, pieces, tokens_of, trimmed};
use vstd::prelude::*;

verus! {

/// The distinct words of `toks`, in the order of their first occurrence.
pub open spec fn vocabulary(toks: Seq<Seq<char>>) -> Seq<Seq<char>>
    decreases toks.len(),
{
    if toks.len() == 0 {
        Seq::empty()
    } else {
        let v = vocabulary(toks.drop_last());
        if v.contains(toks.last()) {
            v
        } else {
            v.push(toks.last())
        }
    }
}

/// The sum, over `words`, of how many times each occurs in `toks`.
pub open spec fn sum_of_counts(toks: Seq<Seq<char>>, words: Seq<Seq<char>>) -> nat
    decreases words.len(),
{
    if words.len() == 0 {
        0
    } else {
        sum_of_counts(toks, words.drop_last()) + occurrences(toks, words.last())
    }
}

proof fn lemma_absent_occurs_never(toks: Seq<Seq<char>>, w: Seq<char>)
    requires
        !toks.contains(w),
    ensures
        occurrences(toks, w) == 0,
    decreases toks.len(),
{
    if toks.len() > 0 {
        assert(!toks.drop_last().contains(w)) by {
            if toks.drop_last().contains(w) {
                let k = choose|k: int| 0 <= k < toks.drop_last().len() && toks.drop_last()[k] == w;
                assert(toks[k] == w);
            }
        }
        lemma_absent_occurs_never(toks.drop_last(), w);
    }
}

proof fn lemma_distinct_occurs_once(words: Seq<Seq<char>>, w: Seq<char>)
    requires
        words.no_duplicates(),
        words.contains(w),
    ensures
        occurrences(words, w) == 1,
    decreases words.len(),
{
    let init = words.drop_last();
    if words.last() == w {
        assert(!init.contains(w)) by {
            if init.contains(w) {
                let k = choose|k: int| 0 <= k < init.len() && init[k] == w;
                assert(words[k] == words[words.len() - 1]);
            }
        }
        lemma_absent_occurs_never(init, w);
    } else {
        let k = choose|k: int| 0 <= k < words.len() && words[k] == w;
        assert(init[k] == w);
        lemma_distinct_occurs_once(init, w);
    }
}

proof fn lemma_vocabulary_distinct(toks: Seq<Seq<char>>)
    ensures
        vocabulary(toks).no_duplicates(),
        forall|w: Seq<char>| vocabulary(toks).contains(w) <==> toks.contains(w),
    decreases toks.len(),
{
    if toks.len() > 0 {
        let init = toks.drop_last();
        lemma_vocabulary_distinct(init);
        let v = vocabulary(init);
        assert forall|w: Seq<char>| vocabulary(toks).contains(w) <==> toks.contains(w) by {
            if toks.contains(w) && w != toks.last() {
                let k = choose|k: int| 0 <= k < toks.len() && toks[k] == w;
                assert(init[k] == w);
            }
            assert(v.contains(w) <==> init.contains(w));
            assert(toks[toks.len() - 1] == toks.last());
            if init.contains(w) {
                let k = choose|k: int| 0 <= k < init.len() && init[k] == w;
                assert(toks[k] == w);
            }
            if !v.contains(toks.last()) {
                assert(v.push(toks.last())[v.len() as int] == toks.last());
                if v.push(toks.last()).contains(w) && w != toks.last() {
                    let k = choose|k: int| 0 <= k < v.len() + 1 && v.push(toks.last())[k] == w;
                    assert(v[k] == w);
                }
                if v.contains(w) {
                    let k = choose|k: int| 0 <= k < v.len() && v[k] == w;
                    assert(v.push(toks.last())[k] == w);
                }
            }
        }
    }
}

proof fn lemma_sum_after_push(toks: Seq<Seq<char>>, x: Seq<char>, words: Seq<Seq<char>>)
    ensures
        sum_of_counts(toks.push(x), words) == sum_of_counts(toks, words) + occurrences(words, x),
    decreases words.len(),
{
    assert(toks.push(x).drop_last() =~= toks);
    if words.len() > 0 {
        lemma_sum_after_push(toks, x, words.drop_last());
    }
}

/// Over any sequence of tokens, the counts of all its distinct words add up
/// to its length.
pub proof fn lemma_counts_add_up(toks: Seq<Seq<char>>)
    ensures
        sum_of_counts(toks, vocabulary(toks)) == toks.len(),
    decreases toks.len(),
{
    if toks.len() > 0 {
        let init = toks.drop_last();
        let x = toks.last();
        let v = vocabulary(init);
        lemma_counts_add_up(init);
        lemma_vocabulary_distinct(init);
        assert(toks =~= init.push(x));
        lemma_sum_after_push(init, x, v);
        if v.contains(x) {
            lemma_distinct_occurs_once(v, x);
        } else {
            lemma_absent_occurs_never(v, x);
            lemma_absent_occurs_never(init, x);
            assert(v.push(x).drop_last() =~= v);
        }
    }
}

/// The counts of the distinct words of a text add up to its number of tokens.
pub proof fn lemma_text_counts_add_up(text: Seq<char>)
    ensures
        sum_of_counts(normalized_tokens(text), vocabulary(normalized_tokens(text)))
            == tokens_of(text).len(),
{
    lemma_counts_add_up(normalized_tokens(text));
}

/// A word that matches none of a text's tokens, ignoring case, has the count 0.
pub proof fn lemma_absent_word_counts_zero(text: Seq<char>, w: Seq<char>)
    requires
        !normalized_tokens(text).contains(folded(w)),
    ensures
        word_count(text, w) == 0,
{
    lemma_absent_occurs_never(normalized_tokens(text), folded(w));
}

/// Among tokens that carry no surrounding whitespace, a word that folds
/// differently from every token has the count 0.
pub proof fn lemma_unmatched_word_counts_zero(toks: Seq<Seq<char>>, w: Seq<char>)
    requires
        forall|i: int| 0 <= i < toks.len() ==> trimmed(#[trigger] toks[i]) == toks[i],
        forall|i: int| 0 <= i < toks.len() ==> folded(#[trigger] toks[i]) != folded(w),
    ensures
        occurrences(normals_of(toks), folded(w)) == 0,
{
    assert(!normals_of(toks).contains(folded(w))) by {
        if normals_of(toks).contains(folded(w)) {
            let k = choose|k: int| 0 <= k < toks.len() && normals_of(toks)[k] == folded(w);
            assert(trimmed(toks[k]) == toks[k]);
        }
    }
    lemma_absent_occurs_never(normals_of(toks), folded(w));
}

/// Changing the case of tokens that carry no surrounding whitespace, so that
/// each still folds to the same text, changes no count.
pub proof fn lemma_recased_tokens_count_alike(toks: Seq<Seq<char>>, recased: Seq<Seq<char>>)
    requires
        recased.len() == toks.len(),
        forall|i: int| 0 <= i < toks.len() ==> trimmed(#[trigger] toks[i]) == toks[i],
        forall|i: int| 0 <= i < toks.len() ==> trimmed(#[trigger] recased[i]) == recased[i],
        forall|i: int| 0 <= i < toks.len() ==> folded(#[trigger] recased[i]) == folded(toks[i]),
    ensures
        forall|w: Seq<char>|
            occurrences(normals_of(recased), w) == #[trigger] occurrences(normals_of(toks), w),
{
    assert(normals_of(recased) =~= normals_of(toks)) by {
        assert forall|i: int| 0 <= i < toks.len() implies normals_of(recased)[i]
            == normals_of(toks)[i] by {
            assert(trimmed(toks[i]) == toks[i]);
            assert(trimmed(recased[i]) == recased[i]);
        }
    }
}

/// Two words that fold to the same text, such as two spellings that differ
/// only in case, have the same count.
pub proof fn lemma_count_ignores_case(text: Seq<char>, w1: Seq<char>, w2: Seq<char>)
    requires
        folded(w1) == folded(w2),
    ensures
        word_count(text, w1) == word_count(text, w2),
{
}

/// Two reports on the same text and the same words are the same.
pub proof fn lemma_report_repeatable(
    text: Seq<char>,
    targets: Seq<Seq<char>>,
    first: (nat, Seq<nat>),
    second: (nat, Seq<nat>),
)
    requires
        first == report_of(text, targets),
        second == report_of(text, targets),
    ensures
        first == second,
{
}

/// The empty text has no tokens, and every word has the count 0 in it.
pub proof fn lemma_empty_text(w: Seq<char>)
    ensures
        tokens_of(Seq::empty()).len() == 0,
        word_count(Seq::empty(), w) == 0,
{
    let e = Seq::<char>::empty();
    assert(pieces(e) =~= seq![Seq::<char>::empty()]);
    reveal_with_fuel(Seq::filter, 2);
    assert(tokens_of(e) =~= Seq::empty());
    assert(normalized_tokens(e) =~= Seq::empty());
}

} // verus!
