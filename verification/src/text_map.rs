//! A map from text to text.

use vstd::prelude::*;

use crate::text::same_text;

verus! {

/// A map from text to text, as the list of what was put into it: of two entries with one key, the
/// later one holds.
#[derive(Debug)]
pub struct TextMap {
    entries: Vec<(String, String)>,
}

/// What the entries say, the later ones over the earlier.
pub closed spec fn map_of(entries: Seq<(String, String)>) -> Map<Seq<char>, Seq<char>>
    decreases entries.len(),
{
    if entries.len() == 0 {
        Map::empty()
    } else {
        map_of(entries.drop_last()).insert(entries.last().0@, entries.last().1@)
    }
}

impl View for TextMap {
    type V = Map<Seq<char>, Seq<char>>;

    closed spec fn view(&self) -> Map<Seq<char>, Seq<char>> {
        map_of(self.entries@)
    }
}

impl TextMap {
    /// A map without entries.
    pub fn new() -> (r: TextMap)
        ensures
            r@ == Map::<Seq<char>, Seq<char>>::empty(),
    {
        TextMap { entries: Vec::new() }
    }

    /// Puts an entry in, in the place of the one with the same key.
    pub fn insert(&mut self, key: String, value: String)
        ensures
            final(self)@ == old(self)@.insert(key@, value@),
    {
        let ghost was = self.entries@;
        self.entries.push((key, value));
        assert(self.entries@.drop_last() == was);
    }

    /// The value at a key.
    pub fn get(&self, key: &str) -> (r: Option<String>)
        ensures
            r is Some <==> self@.dom().contains(key@),
            r matches Some(value) ==> value@ == self@[key@],
    {
        let mut i: usize = self.entries.len();
        assert(self.entries@.take(i as int) == self.entries@);
        while i > 0
            invariant
                i <= self.entries@.len(),
                map_of(self.entries@.take(i as int)).dom().contains(key@)
                    == self@.dom().contains(key@),
                map_of(self.entries@.take(i as int)).dom().contains(key@) ==> map_of(
                    self.entries@.take(i as int),
                )[key@] == self@[key@],
            decreases i,
        {
            let ghost upto = self.entries@.take(i as int);
            assert(upto.drop_last() == self.entries@.take(i - 1));
            assert(upto.last() == self.entries@[i - 1]);
            if same_text(self.entries[i - 1].0.as_str(), key) {
                return Some(self.entries[i - 1].1.clone());
            }
            i = i - 1;
        }
        None
    }
}

} // verus!
