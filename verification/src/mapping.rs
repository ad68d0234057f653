//! A row mapping: the association of column names to the field values of one
//! table row, with first-match lookup.

use vstd::prelude::*;
use crate::text::str_eq;

verus! {

/// The character-sequence view of an association list of `String` pairs.
pub open spec fn pair_views(ps: Seq<(String, String)>) -> Seq<(Seq<char>, Seq<char>)> {
    ps.map_values(|p: (String, String)| (p.0@, p.1@))
}

/// First-match lookup in an association list.
pub open spec fn lookup_pairs(ps: Seq<(Seq<char>, Seq<char>)>, key: Seq<char>) -> Option<
    Seq<char>,
>
    decreases ps.len(),
{
    if ps.len() == 0 {
        None
    } else if ps[0].0 == key {
        Some(ps[0].1)
    } else {
        lookup_pairs(ps.drop_first(), key)
    }
}

/// The finite map an association list denotes; on a repeated column name the
/// earliest entry wins, matching `lookup_pairs`.
pub open spec fn map_of_pairs(ps: Seq<(Seq<char>, Seq<char>)>) -> Map<Seq<char>, Seq<char>>
    decreases ps.len(),
{
    if ps.len() == 0 {
        Map::empty()
    } else {
        map_of_pairs(ps.drop_first()).insert(ps[0].0, ps[0].1)
    }
}

/// First-match lookup agrees with the map an association list denotes.
pub proof fn lemma_lookup_is_map(ps: Seq<(Seq<char>, Seq<char>)>, key: Seq<char>)
    ensures
        match lookup_pairs(ps, key) {
            Some(v) => map_of_pairs(ps).contains_key(key) && map_of_pairs(ps)[key] == v,
            None => !map_of_pairs(ps).contains_key(key),
        },
    decreases ps.len(),
{
    if ps.len() != 0 {
        lemma_lookup_is_map(ps.drop_first(), key);
    }
}

/// If entry `j` is the first whose name is `key`, lookup returns its value.
pub proof fn lemma_lookup_first(ps: Seq<(Seq<char>, Seq<char>)>, key: Seq<char>, j: int)
    requires
        0 <= j < ps.len(),
        ps[j].0 == key,
        forall|k: int| 0 <= k < j ==> (#[trigger] ps[k]).0 != key,
    ensures
        lookup_pairs(ps, key) == Some(ps[j].1),
    decreases ps.len(),
{
    if j > 0 {
        lemma_lookup_first(ps.drop_first(), key, j - 1);
    }
}

/// If no entry's name is `key`, lookup fails.
pub proof fn lemma_lookup_none(ps: Seq<(Seq<char>, Seq<char>)>, key: Seq<char>)
    requires
        forall|k: int| 0 <= k < ps.len() ==> (#[trigger] ps[k]).0 != key,
    ensures
        lookup_pairs(ps, key) is None,
    decreases ps.len(),
{
    if ps.len() != 0 {
        lemma_lookup_none(ps.drop_first(), key);
    }
}

/// A mapping from column names to one row's field values.
#[derive(Clone)]
pub struct RowMapping {
    pairs: Vec<(String, String)>,
}

impl View for RowMapping {
    type V = Map<Seq<char>, Seq<char>>;

    open spec fn view(&self) -> Map<Seq<char>, Seq<char>> {
        map_of_pairs(self.entries())
    }
}

impl RowMapping {
    /// The ordered (column name, field value) entries of this mapping.
    pub open spec fn entries(&self) -> Seq<(Seq<char>, Seq<char>)> {
        pair_views(self.spec_pairs())
    }

    pub closed spec fn spec_pairs(&self) -> Seq<(String, String)> {
        self.pairs@
    }

    /// Builds a mapping from ordered (column name, field value) pairs.
    pub fn new(pairs: Vec<(String, String)>) -> (r: RowMapping)
        ensures
            r.spec_pairs() == pairs@,
    {
        RowMapping { pairs }
    }

    /// The number of entries.
    pub fn len(&self) -> (r: usize)
        ensures
            r == self.entries().len(),
    {
        proof {
            assert(self.entries().len() == self.pairs@.len());
        }
        self.pairs.len()
    }

    /// The ordered entries, for callers that walk the mapping.
    pub fn pairs(&self) -> (r: &Vec<(String, String)>)
        ensures
            r@ == self.spec_pairs(),
    {
        &self.pairs
    }

    /// Looks `key` up; the first entry with that column name wins.
    pub fn get(&self, key: &str) -> (r: Option<String>)
        ensures
            match r {
                Some(v) => lookup_pairs(self.entries(), key@) == Some(v@) && self@.contains_key(
                    key@,
                ) && self@[key@] == v@,
                None => lookup_pairs(self.entries(), key@) is None && !self@.contains_key(key@),
            },
    {
        let n = self.pairs.len();
        let mut i: usize = 0;
        while i < n
            invariant
                i <= n,
                n == self.pairs@.len(),
                forall|k: int| 0 <= k < i ==> (#[trigger] self.entries()[k]).0 != key@,
            decreases n - i,
        {
            if str_eq(self.pairs[i].0.as_str(), key) {
                let v = self.pairs[i].1.clone();
                proof {
                    assert(self.entries()[i as int].0 == key@);
                    lemma_lookup_first(self.entries(), key@, i as int);
                    lemma_lookup_is_map(self.entries(), key@);
                }
                return Some(v);
            }
            proof {
                assert(self.entries()[i as int].0 != key@);
            }
            i = i + 1;
        }
        proof {
            lemma_lookup_none(self.entries(), key@);
            lemma_lookup_is_map(self.entries(), key@);
        }
        None
    }
}

} // verus!
