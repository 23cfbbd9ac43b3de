//! The report on a text: its token count and the count of each target word.
use crate::tally::{count_text, occurrences, string_views, word_count};
use crate::tokens::{normalized_tokens, tokens_of};
use vstd::prelude::*;

verus! {

/// The token count of a text, and for each target word, in order, how many
/// times it occurs in the text, ignoring case.
pub struct WordReport {
    pub total: usize,
    pub counts: Vec<usize>,
}

/// The report on `text` for the words `targets`.
pub open spec fn report_of(text: Seq<char>, targets: Seq<Seq<char>>) -> (nat, Seq<nat>) {
    (tokens_of(text).len(), targets.map_values(|w: Seq<char>| word_count(text, w)))
}

impl View for WordReport {
    type V = (nat, Seq<nat>);

    open spec fn view(&self) -> (nat, Seq<nat>) {
        (self.total as nat, self.counts@.map_values(|c: usize| c as nat))
    }
}

/// Counts the tokens of `text` and looks up each of `targets` in the result;
/// a word that does not occur is reported with the count 0.
pub fn word_report(text: &str, targets: &Vec<String>) -> (r: WordReport)
    ensures
        r@ == report_of(text@, string_views(targets@)),
        r.total as nat == tokens_of(text@).len(),
        r.counts@.len() == targets@.len(),
        forall|i: int|
            0 <= i < targets@.len() ==> r.counts@[i] as nat == word_count(text@, #[trigger] targets@[i]@),
{
    let counted = count_text(text);
    let mut counts: Vec<usize> = Vec::new();
    let mut i: usize = 0;
    while i < targets.len()
        invariant
            i <= targets@.len(),
            counts@.len() == i,
            forall|w: Seq<char>|
                #[trigger] counted.tally(w) == occurrences(normalized_tokens(text@), w),
            forall|j: int|
                0 <= j < i ==> counts@[j] as nat == word_count(text@, #[trigger] targets@[j]@),
        decreases targets@.len() - i,
    {
        let c = counted.count_of(targets[i].as_str());
        counts.push(c);
        i = i + 1;
    }
    let r = WordReport { total: counted.total(), counts };
    proof {
        assert(r@.1 =~= report_of(text@, string_views(targets@)).1);
    }
    r
}

} // verus!
