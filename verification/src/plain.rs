//! The index of the routes without placeholders.

use crate::method::{self, same_method, Method};
use vstd::hash_map::StringHashMap;
use vstd::prelude::*;

verus! {

/// What a plain route is looked up by: a path, and a method or none.
pub type PathMethod = (Seq<char>, Option<Seq<char>>);

/// A method, or none, and the number of the route for it.
pub struct PlainEntry {
    pub method: Option<Method>,
    pub index: usize,
}

/// The number in the first entry for `method`.
pub open spec fn entry_for(entries: Seq<PlainEntry>, method: Option<Seq<char>>) -> Option<usize>
    decreases entries.len(),
{
    if entries.len() == 0 {
        None
    } else if method::token_of(entries[0].method) == method {
        Some(entries[0].index)
    } else {
        entry_for(entries.drop_first(), method)
    }
}

/// A map from paths and methods to the numbers of routes.
pub struct PlainTable {
    entries: StringHashMap<Vec<PlainEntry>>,
}

impl View for PlainTable {
    type V = Map<PathMethod, usize>;

    closed spec fn view(&self) -> Map<PathMethod, usize> {
        Map::new(|key: PathMethod| self.find(key) is Some, |key: PathMethod| self.find(key)->0)
    }
}

impl PlainTable {
    spec fn find(&self, key: PathMethod) -> Option<usize> {
        if self.entries@.contains_key(key.0) {
            entry_for(self.entries@[key.0]@, key.1)
        } else {
            None
        }
    }

    pub fn new() -> (r: PlainTable)
        ensures
            r@ == Map::<PathMethod, usize>::empty(),
    {
        let r = PlainTable { entries: StringHashMap::new() };
        assert(r@ =~= Map::<PathMethod, usize>::empty());
        r
    }

    pub fn get(&self, path: &str, method: &Option<Method>) -> (r: Option<usize>)
        ensures
            match r {
                Some(index) => self@.contains_key((path@, method::token_of(*method))) && index
                    == self@[(path@, method::token_of(*method))],
                None => !self@.contains_key((path@, method::token_of(*method))),
            },
    {
        match self.entries.get(path) {
            None => None,
            Some(entries) => {
                let mut i: usize = 0;
                let ghost token = method::token_of(*method);
                assert(entries@.skip(0) =~= entries@);
                while i < entries.len()
                    invariant
                        i <= entries.len(),
                        token == method::token_of(*method),
                        entry_for(entries@, token) == entry_for(entries@.skip(i as int), token),
                        self.find((path@, token)) == entry_for(entries@, token),
                    decreases entries.len() - i,
                {
                    assert(entries@.skip(i as int).drop_first() =~= entries@.skip(i + 1));
                    if same_method(&entries[i].method, method) {
                        return Some(entries[i].index);
                    }
                    i = i + 1;
                }
                None
            },
        }
    }

    /// Enters a route for a path and a method, or none, that have none yet.
    pub fn insert(&mut self, path: &str, method: &Option<Method>, index: usize)
        requires
            !old(self)@.contains_key((path@, method::token_of(*method))),
        ensures
            final(self)@ == old(self)@.insert((path@, method::token_of(*method)), index),
    {
        let mut copy: Vec<PlainEntry> = Vec::new();
        if let Some(entries) = self.entries.get(path) {
            let mut i: usize = 0;
            while i < entries.len()
                invariant
                    i <= entries.len(),
                    copy.len() == i,
                    forall|k: int|
                        0 <= k < i ==> method::token_of((#[trigger] copy@[k]).method)
                            == method::token_of(entries@[k].method) && copy@[k].index
                            == entries@[k].index,
                decreases entries.len() - i,
            {
                let method = match &entries[i].method {
                    Some(m) => Some(m.clone()),
                    None => None,
                };
                copy.push(PlainEntry { method, index: entries[i].index });
                i = i + 1;
            }
            proof {
                lemma_same_entries(copy@, entries@);
            }
        }
        let ghost kept = copy@;
        let token = match method {
            Some(m) => Some(m.clone()),
            None => None,
        };
        copy.push(PlainEntry { method: token, index });
        self.entries.insert(path.to_owned(), copy);
        proof {
            let key = (path@, method::token_of(*method));
            assert forall|other: PathMethod| #[trigger] self.find(other) == if other == key {
                Some(index)
            } else {
                old(self).find(other)
            } by {
                if other.0 == path@ {
                    lemma_entry_appended(kept, copy@.last(), other.1);
                    assert(copy@ =~= kept.push(copy@.last()));
                    assert(old(self)@.contains_key(key) == (old(self).find(key) is Some));
                }
            }
            assert(self@ =~= old(self)@.insert(key, index));
        }
    }
}

proof fn lemma_same_entries(left: Seq<PlainEntry>, right: Seq<PlainEntry>)
    requires
        left.len() == right.len(),
        forall|k: int|
            0 <= k < left.len() ==> method::token_of((#[trigger] left[k]).method)
                == method::token_of(right[k].method) && left[k].index == right[k].index,
    ensures
        forall|method: Option<Seq<char>>| #[trigger]
            entry_for(left, method) == entry_for(right, method),
    decreases left.len(),
{
    if left.len() > 0 {
        assert forall|k: int| 0 <= k < left.len() - 1 implies method::token_of(
            (#[trigger] left.drop_first()[k]).method,
        ) == method::token_of(right.drop_first()[k].method) && left.drop_first()[k].index
            == right.drop_first()[k].index by {
            assert(left.drop_first()[k] == left[k + 1]);
        }
        lemma_same_entries(left.drop_first(), right.drop_first());
        assert(method::token_of(left[0].method) == method::token_of(right[0].method));
        assert forall|method: Option<Seq<char>>| #[trigger]
            entry_for(left, method) == entry_for(right, method) by {
            assert(entry_for(left.drop_first(), method) == entry_for(right.drop_first(), method));
        }
    }
}

proof fn lemma_entry_appended(
    entries: Seq<PlainEntry>,
    entry: PlainEntry,
    method: Option<Seq<char>>,
)
    ensures
        entry_for(entries.push(entry), method) == (if entry_for(entries, method) is Some {
            entry_for(entries, method)
        } else if method::token_of(entry.method) == method {
            Some(entry.index)
        } else {
            None
        }),
    decreases entries.len(),
{
    if entries.len() > 0 {
        assert(entries.push(entry).drop_first() =~= entries.drop_first().push(entry));
        lemma_entry_appended(entries.drop_first(), entry, method);
    } else {
        assert(entries.push(entry).drop_first() =~= Seq::<PlainEntry>::empty());
        assert(entry_for(Seq::<PlainEntry>::empty(), method) is None);
    }
}

} // verus!
