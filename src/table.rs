//! The frequency table: a hash map from a normalized word to the number of
//! times it was counted.
use vstd::multiset::Multiset;
use vstd::prelude::*;

verus! {

/// A frequency table held in a `hashbrown::HashMap`.
#[verifier::external_body]
pub struct FreqTable {
    counts: hashbrown::HashMap<String, usize>,
}

/// What a frequency table holds: each key as many times as the value stored
/// for it.
pub uninterp spec fn table_contents(t: FreqTable) -> Multiset<Seq<char>>;

impl FreqTable {
    /// Relies on hashbrown::HashMap::new: a map with no entries.
    #[verifier::external_body]
    pub(crate) fn new() -> (r: FreqTable)
        ensures
            table_contents(r) =~= Multiset::empty(),
    {
        FreqTable { counts: hashbrown::HashMap::new() }
    }

    /// Relies on hashbrown::HashMap::insert: afterwards `key` maps to `value`
    /// and every other entry is as before. Only positive values are stored.
    #[verifier::external_body]
    pub(crate) fn set(&mut self, key: String, value: usize)
        requires
            value > 0,
        ensures
            forall|w: Seq<char>|
                #[trigger] table_contents(*final(self)).count(w) == if w == key@ {
                    value as nat
                } else {
                    table_contents(*old(self)).count(w)
                },
    {
        self.counts.insert(key, value);
    }

    /// Relies on hashbrown::HashMap::get: the value stored for `key`, if the
    /// map has an entry for it. Entries are only written by `set`, which
    /// stores positive values alone, so a word has an entry exactly when its
    /// count is positive.
    #[verifier::external_body]
    pub(crate) fn get(&self, key: &str) -> (r: Option<usize>)
        ensures
            r is None <==> table_contents(*self).count(key@) == 0,
            r matches Some(c) ==> c as nat == table_contents(*self).count(key@),
    {
        self.counts.get(key).copied()
    }
}

} // verus!
