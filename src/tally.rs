//! Counting tokens into a frequency table, and looking words up in it.
use crate::table::{table_contents, FreqTable};
use crate::tokens::{
    fold_case, folded, normal_form, normalized_tokens, normals_of, split_tokens, tokens_of,
    trim_token,
};
use vstd::prelude::*;

verus! {

/// How many times `w` occurs in `toks`.
pub open spec fn occurrences(toks: Seq<Seq<char>>, w: Seq<char>) -> nat
    decreases toks.len(),
{
    if toks.len() == 0 {
        0
    } else {
        occurrences(toks.drop_last(), w) + if toks.last() == w {
            1nat
        } else {
            0nat
        }
    }
}

/// How many times the text's tokens match `w`, ignoring case.
pub open spec fn word_count(text: Seq<char>, w: Seq<char>) -> nat {
    occurrences(normalized_tokens(text), folded(w))
}

/// The texts of a sequence of string slices.
pub open spec fn str_views(toks: Seq<&str>) -> Seq<Seq<char>> {
    toks.map_values(|t: &str| t@)
}

/// The texts of a sequence of strings.
pub open spec fn string_views(words: Seq<String>) -> Seq<Seq<char>> {
    words.map_values(|w: String| w@)
}

proof fn lemma_occurrences_bounded(toks: Seq<Seq<char>>, w: Seq<char>)
    ensures
        occurrences(toks, w) <= toks.len(),
    decreases toks.len(),
{
    if toks.len() > 0 {
        lemma_occurrences_bounded(toks.drop_last(), w);
    }
}

/// The tokens of a text, counted: how many there were, and how many times
/// each normal form occurred.
pub struct WordCounts {
    total: usize,
    table: FreqTable,
}

impl WordCounts {
    /// The number of tokens counted.
    pub closed spec fn total_spec(&self) -> nat {
        self.total as nat
    }

    /// How many of the counted tokens have the normal form `w`.
    pub closed spec fn tally(&self, w: Seq<char>) -> nat {
        table_contents(self.table).count(w)
    }

    /// The number of tokens counted.
    pub fn total(&self) -> (r: usize)
        ensures
            r as nat == self.total_spec(),
    {
        self.total
    }

    /// How many of the counted keys are exactly `key`; 0 for a key that was
    /// never counted.
    pub fn count_of_key(&self, key: &str) -> (r: usize)
        ensures
            r as nat == self.tally(key@),
    {
        match self.table.get(key) {
            Some(c) => c,
            None => 0,
        }
    }

    /// How many of the counted tokens match `word`, ignoring case; 0 for a
    /// word that never occurred.
    pub fn count_of(&self, word: &str) -> (r: usize)
        ensures
            r as nat == self.tally(folded(word@)),
    {
        let key = fold_case(word);
        self.count_of_key(key.as_str())
    }
}

/// Counts keys that are already in normal form: the table tallies them as
/// they are.
pub fn count_keys(keys: &Vec<String>) -> (r: WordCounts)
    ensures
        r.total_spec() == keys@.len(),
        forall|w: Seq<char>| #[trigger] r.tally(w) == occurrences(string_views(keys@), w),
{
    let mut table = FreqTable::new();
    let mut total: usize = 0;
    while total < keys.len()
        invariant
            total <= keys@.len(),
            forall|w: Seq<char>|
                #[trigger] table_contents(table).count(w) == occurrences(
                    string_views(keys@).take(total as int),
                    w,
                ),
        decreases keys@.len() - total,
    {
        let ghost before = string_views(keys@).take(total as int);
        let ghost after = string_views(keys@).take(total + 1);
        let key = keys[total].clone();
        let count: usize = match table.get(key.as_str()) {
            Some(c) => c,
            None => 0,
        };
        proof {
            assert(after.drop_last() =~= before);
            assert(after.last() == key@);
            lemma_occurrences_bounded(before, key@);
        }
        table.set(key, count + 1);
        total = total + 1;
    }
    proof {
        assert(string_views(keys@).take(total as int) =~= string_views(keys@));
    }
    WordCounts { total, table }
}

/// Counts a sequence of tokens: each is trimmed and case-folded, and the
/// results are tallied.
pub fn count_tokens(tokens: &Vec<&str>) -> (r: WordCounts)
    ensures
        r.total_spec() == tokens@.len(),
        forall|w: Seq<char>|
            #[trigger] r.tally(w) == occurrences(normals_of(str_views(tokens@)), w),
{
    let mut keys: Vec<String> = Vec::new();
    let mut i: usize = 0;
    while i < tokens.len()
        invariant
            i <= tokens@.len(),
            keys@.len() == i,
            forall|j: int| 0 <= j < i ==> #[trigger] keys@[j]@ == normal_form(tokens@[j]@),
        decreases tokens@.len() - i,
    {
        let token = trim_token(tokens[i]);
        keys.push(fold_case(token));
        i = i + 1;
    }
    proof {
        assert(string_views(keys@) =~= normals_of(str_views(tokens@)));
    }
    count_keys(&keys)
}

/// Splits a text into tokens and counts them.
pub fn count_text(text: &str) -> (r: WordCounts)
    ensures
        r.total_spec() == tokens_of(text@).len(),
        forall|w: Seq<char>| #[trigger] r.tally(w) == occurrences(normalized_tokens(text@), w),
{
    let tokens = split_tokens(text);
    proof {
        assert(str_views(tokens@) =~= tokens_of(text@));
    }
    count_tokens(&tokens)
}

} // verus!
