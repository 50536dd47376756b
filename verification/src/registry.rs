//! Things kept under numeric ids handed out in order: open prompts, terminal
//! sessions. An id is never handed out twice.

use vstd::prelude::*;
use crate::keyed::{
    as_map, keys_unique, lemma_lookup_prefix, lemma_lookup_push, lemma_lookup_some,
    lemma_remove_unique, lookup,
};

verus! {

/// Items under ids `1, 2, 3, …`, in the order they came.
pub struct Registry<T> {
    entries: Vec<(u64, T)>,
    last_id: u64,
}

/// The plain value of a [`Registry`].
pub struct RegistryView<T> {
    /// The items kept, by id.
    pub items: Map<u64, T>,
    /// The last id handed out; `0` before the first.
    pub last_id: u64,
}

impl<T> View for Registry<T> {
    type V = RegistryView<T>;

    closed spec fn view(&self) -> RegistryView<T> {
        RegistryView { items: as_map(self.entries@), last_id: self.last_id }
    }
}

/// With unique keys, the entry at `i` is what its key looks up.
proof fn lemma_lookup_unique_at<K, V>(s: Seq<(K, V)>, i: int)
    requires
        0 <= i < s.len(),
        keys_unique(s),
    ensures
        lookup(s, s[i].0) == Some(s[i].1),
    decreases s.len(),
{
    if i < s.len() - 1 {
        let d = s.drop_last();
        assert(d[i] == s[i]);
        assert(s[s.len() - 1].0 != s[i].0);
        assert forall|a: int, b: int| 0 <= a < b < d.len() implies (#[trigger] d[a]).0 != (
        #[trigger] d[b]).0 by {
            assert(d[a] == s[a] && d[b] == s[b]);
        }
        lemma_lookup_unique_at(d, i);
    }
}

impl<T> Registry<T> {
    /// Whether the registry is well formed: one entry per id, and none above
    /// the last id handed out.
    pub closed spec fn wf(&self) -> bool {
        &&& keys_unique(self.entries@)
        &&& forall|i: int| 0 <= i < self.entries@.len() ==> (#[trigger] self.entries@[i]).0 <= self.last_id
    }

    /// An empty registry; the first id it hands out is `1`.
    pub fn new() -> (r: Registry<T>)
        ensures
            r.wf(),
            r@.items == Map::<u64, T>::empty(),
            r@.last_id == 0,
    {
        let r = Registry { entries: Vec::new(), last_id: 0 };
        assert(r@.items =~= Map::<u64, T>::empty());
        r
    }

    /// The last id handed out; `0` before the first.
    pub fn last_id(&self) -> (id: u64)
        ensures
            id == self@.last_id,
    {
        self.last_id
    }

    /// Where the item `id` stands among the entries.
    fn position(&self, id: u64) -> (r: Option<usize>)
        requires
            self.wf(),
        ensures
            match r {
                Some(i) => i < self.entries@.len() && self.entries@[i as int].0 == id,
                None => lookup(self.entries@, id) is None,
            },
    {
        let mut i: usize = 0;
        while i < self.entries.len()
            invariant
                i <= self.entries@.len(),
                lookup(self.entries@.subrange(0, i as int), id) is None,
            decreases self.entries.len() - i,
        {
            proof {
                lemma_lookup_prefix(self.entries@, i as int, id);
            }
            if self.entries[i].0 == id {
                return Some(i);
            }
            i = i + 1;
        }
        assert(self.entries@.subrange(0, self.entries@.len() as int) =~= self.entries@);
        None
    }

    /// Keeps `item` under a new id — the one after the last handed out — and
    /// returns the id.
    pub fn insert(&mut self, item: T) -> (id: u64)
        requires
            old(self).wf(),
            old(self)@.last_id < u64::MAX,
        ensures
            final(self).wf(),
            id == old(self)@.last_id + 1,
            !old(self)@.items.contains_key(id),
            final(self)@.items == old(self)@.items.insert(id, item),
            final(self)@.last_id == id,
    {
        let ghost s = self.entries@;
        let id = self.last_id + 1;
        proof {
            lemma_lookup_some(s, id);
        }
        self.last_id = id;
        self.entries.push((id, item));
        proof {
            assert(self.entries@ == s.push((id, item)));
            assert forall|j: u64| #[trigger] lookup(self.entries@, j) == if j == id {
                Some(item)
            } else {
                lookup(s, j)
            } by {
                lemma_lookup_push(s, (id, item), j);
            }
            assert(self@.items =~= as_map(s).insert(id, item));
        }
        id
    }

    /// The item under `id`, if any.
    pub fn get(&self, id: u64) -> (r: Option<&T>)
        requires
            self.wf(),
        ensures
            match r {
                Some(item) => self@.items.contains_key(id) && self@.items[id] == *item,
                None => !self@.items.contains_key(id),
            },
    {
        match self.position(id) {
            Some(i) => {
                proof {
                    lemma_lookup_unique_at(self.entries@, i as int);
                }
                Some(&self.entries[i].1)
            },
            None => None,
        }
    }

    /// Takes the item under `id` out, if there is one; the others stay.
    pub fn remove(&mut self, id: u64) -> (r: Option<T>)
        requires
            old(self).wf(),
        ensures
            final(self).wf(),
            match r {
                Some(item) => old(self)@.items.contains_key(id) && old(self)@.items[id] == item,
                None => !old(self)@.items.contains_key(id),
            },
            final(self)@.items == old(self)@.items.remove(id),
            final(self)@.last_id == old(self)@.last_id,
    {
        let ghost s = self.entries@;
        match self.position(id) {
            None => {
                assert(self@.items =~= as_map(s).remove(id));
                None
            },
            Some(i) => {
                proof {
                    lemma_remove_unique(s, i as int, id);
                    lemma_lookup_unique_at(s, i as int);
                }
                let (_, item) = self.entries.remove(i);
                proof {
                    assert(self.entries@ == s.remove(i as int));
                    assert forall|j: u64| #[trigger] lookup(self.entries@, j) == if j == id {
                        None
                    } else {
                        lookup(s, j)
                    } by {
                        lemma_remove_unique(s, i as int, j);
                    }
                    assert forall|k: int| 0 <= k < self.entries@.len() implies (#[trigger] self.entries@[k]).0
                        <= self.last_id by {
                        let k2 = if k < i { k } else { k + 1 };
                        assert(self.entries@[k] == s[k2]);
                    }
                    assert(self@.items =~= as_map(s).remove(id));
                }
                Some(item)
            },
        }
    }

    /// The ids of the items kept, in the order they came.
    pub fn ids(&self) -> (r: Vec<u64>)
        requires
            self.wf(),
        ensures
            forall|k: int| 0 <= k < r@.len() ==> self@.items.contains_key(#[trigger] r@[k]),
            forall|id: u64| self@.items.contains_key(id) ==> r@.contains(id),
            forall|a: int, b: int| 0 <= a < b < r@.len() ==> r@[a] != r@[b],
    {
        let mut r: Vec<u64> = Vec::new();
        let mut i: usize = 0;
        while i < self.entries.len()
            invariant
                i <= self.entries@.len(),
                self.wf(),
                r@.len() == i,
                forall|k: int| 0 <= k < i ==> r@[k] == (#[trigger] self.entries@[k]).0,
            decreases self.entries.len() - i,
        {
            r.push(self.entries[i].0);
            i = i + 1;
        }
        proof {
            assert forall|k: int| 0 <= k < r@.len() implies self@.items.contains_key(#[trigger] r@[k]) by {
                assert(r@[k] == self.entries@[k].0);
                lemma_lookup_some(self.entries@, r@[k]);
            }
            assert forall|id: u64| self@.items.contains_key(id) implies r@.contains(id) by {
                lemma_lookup_some(self.entries@, id);
                let k = choose|k: int| 0 <= k < self.entries@.len() && (#[trigger] self.entries@[k]).0 == id;
                assert(r@[k] == id);
            }
            assert forall|a: int, b: int| 0 <= a < b < r@.len() implies r@[a] != r@[b] by {
                assert(r@[a] == self.entries@[a].0 && r@[b] == self.entries@[b].0);
            }
        }
        r
    }
}

/// Ids are never reused: every item kept is under an id at most the last one
/// handed out, so the next id names nothing kept, now or before.
pub proof fn law_kept_ids_are_at_most_the_last<T>(r: &Registry<T>, id: u64)
    requires
        r.wf(),
        r@.items.contains_key(id),
    ensures
        id <= r@.last_id,
{
    lemma_lookup_some(r.entries@, id);
    let k = choose|k: int| 0 <= k < r.entries@.len() && (#[trigger] r.entries@[k]).0 == id;
    assert(r.entries@[k].0 <= r.last_id);
}

} // verus!
