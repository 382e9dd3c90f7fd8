//! A string-keyed map with overwrite semantics, modelled as a
//! `Map<Seq<char>, Seq<char>>`.
//!
//! The class-name registry is one of these: a later entry for the same
//! short name shadows the earlier one, so import order decides what a
//! name resolves to. The set of importable source files is another.

use vstd::prelude::*;

use crate::text::str_eq;

verus! {

/// The map described by an entry list, later entries overwriting earlier.
pub open spec fn map_of(ps: Seq<(String, String)>) -> Map<Seq<char>, Seq<char>>
    decreases ps.len(),
{
    if ps.len() == 0 {
        Map::empty()
    } else {
        map_of(ps.drop_last()).insert(ps.last().0@, ps.last().1@)
    }
}

/// A mapping from strings to strings; entries written later win.
pub struct StrMap {
    entries: Vec<(String, String)>,
}

impl View for StrMap {
    type V = Map<Seq<char>, Seq<char>>;

    closed spec fn view(&self) -> Map<Seq<char>, Seq<char>> {
        map_of(self.entries@)
    }
}

impl StrMap {
    /// The empty map.
    pub fn new() -> (r: StrMap)
        ensures
            r@ == Map::<Seq<char>, Seq<char>>::empty(),
    {
        StrMap { entries: Vec::new() }
    }

    /// Binds `k` to `v`, shadowing any earlier binding of `k`.
    pub fn insert(&mut self, k: String, v: String)
        ensures
            final(self)@ == old(self)@.insert(k@, v@),
    {
        let ghost old_entries = self.entries@;
        let ghost kv = k@;
        let ghost vv = v@;
        self.entries.push((k, v));
        proof {
            assert(self.entries@.drop_last() =~= old_entries);
            assert(self.entries@.last().0@ == kv);
            assert(self.entries@.last().1@ == vv);
        }
    }

    /// Looks `k` up: the latest binding, if any.
    pub fn get(&self, k: &str) -> (r: Option<&String>)
        ensures
            match r {
                Some(v) => self@.contains_key(k@) && v@ == self@[k@],
                None => !self@.contains_key(k@),
            },
    {
        let mut i = self.entries.len();
        proof {
            assert(self.entries@.take(i as int) =~= self.entries@);
        }
        while i > 0
            invariant
                i <= self.entries@.len(),
                map_of(self.entries@.take(i as int)).contains_key(k@) == self@.contains_key(
                    k@,
                ),
                self@.contains_key(k@) ==> map_of(self.entries@.take(i as int))[k@]
                    == self@[k@],
            decreases i,
        {
            proof {
                assert(self.entries@.take(i as int).drop_last() =~= self.entries@.take(
                    i - 1,
                ));
                assert(self.entries@.take(i as int).last() == self.entries@[i - 1]);
            }
            i -= 1;
            if str_eq(self.entries[i].0.as_str(), k) {
                return Some(&self.entries[i].1);
            }
        }
        proof {
            assert(self.entries@.take(0) =~= Seq::<(String, String)>::empty());
        }
        None
    }
}

} // verus!
