//! Small keyed tables kept as a list of entries, where the last entry under a
//! key is the one that counts.

use vstd::prelude::*;

verus! {

/// The value of the last entry under `k` in `s`, if there is one.
pub open spec fn lookup<K, V>(s: Seq<(K, V)>, k: K) -> Option<V>
    decreases s.len(),
{
    if s.len() == 0 {
        None
    } else if s.last().0 == k {
        Some(s.last().1)
    } else {
        lookup(s.drop_last(), k)
    }
}

/// The entries of `s` that are not under `k`, in order.
pub open spec fn without<K, V>(s: Seq<(K, V)>, k: K) -> Seq<(K, V)>
    decreases s.len(),
{
    if s.len() == 0 {
        s
    } else if s.last().0 == k {
        without(s.drop_last(), k)
    } else {
        without(s.drop_last(), k).push(s.last())
    }
}

/// The map that the entries `s` stand for.
pub open spec fn as_map<K, V>(s: Seq<(K, V)>) -> Map<K, V> {
    Map::new(|k: K| lookup(s, k) is Some, |k: K| lookup(s, k)->0)
}

/// Whether no two entries of `s` share a key.
pub open spec fn keys_unique<K, V>(s: Seq<(K, V)>) -> bool {
    forall|a: int, b: int| 0 <= a < b < s.len() ==> (#[trigger] s[a]).0 != (#[trigger] s[b]).0
}

pub proof fn lemma_lookup_push<K, V>(s: Seq<(K, V)>, e: (K, V), j: K)
    ensures
        lookup(s.push(e), j) == if e.0 == j {
            Some(e.1)
        } else {
            lookup(s, j)
        },
{
    assert(s.push(e).drop_last() =~= s);
}

pub proof fn lemma_lookup_prefix<K, V>(s: Seq<(K, V)>, i: int, j: K)
    requires
        0 <= i < s.len(),
    ensures
        lookup(s.subrange(0, i + 1), j) == if s[i].0 == j {
            Some(s[i].1)
        } else {
            lookup(s.subrange(0, i), j)
        },
{
    assert(s.subrange(0, i + 1).drop_last() =~= s.subrange(0, i));
}

pub proof fn lemma_without_prefix<K, V>(s: Seq<(K, V)>, i: int, k: K)
    requires
        0 <= i < s.len(),
    ensures
        without(s.subrange(0, i + 1), k) == if s[i].0 == k {
            without(s.subrange(0, i), k)
        } else {
            without(s.subrange(0, i), k).push(s[i])
        },
{
    assert(s.subrange(0, i + 1).drop_last() =~= s.subrange(0, i));
}

/// Dropping the entries under `k` forgets `k` and nothing else.
pub proof fn lemma_without<K, V>(s: Seq<(K, V)>, k: K, j: K)
    ensures
        lookup(without(s, k), j) == if j == k {
            None
        } else {
            lookup(s, j)
        },
    decreases s.len(),
{
    if s.len() > 0 {
        lemma_without(s.drop_last(), k, j);
        if s.last().0 != k {
            lemma_lookup_push(without(s.drop_last(), k), s.last(), j);
        }
    }
}

/// No entry of `without(s, k)` is under `k`.
pub proof fn lemma_without_drops_key<K, V>(s: Seq<(K, V)>, k: K)
    ensures
        forall|i: int| 0 <= i < without(s, k).len() ==> (#[trigger] without(s, k)[i]).0 != k,
    decreases s.len(),
{
    if s.len() > 0 {
        lemma_without_drops_key(s.drop_last(), k);
        let w = without(s.drop_last(), k);
        if s.last().0 != k {
            assert forall|i: int| 0 <= i < w.push(s.last()).len() implies (#[trigger] w.push(s.last())[i]).0 != k by {
                if i < w.len() {
                    assert(w.push(s.last())[i] == w[i]);
                }
            }
        }
    }
}

/// An entry not under `k` survives `without(s, k)`.
pub proof fn lemma_without_keeps<K, V>(s: Seq<(K, V)>, k: K, i: int)
    requires
        0 <= i < s.len(),
        s[i].0 != k,
    ensures
        without(s, k).contains(s[i]),
    decreases s.len(),
{
    let d = s.drop_last();
    let w = without(d, k);
    if i < s.len() - 1 {
        assert(d[i] == s[i]);
        lemma_without_keeps(d, k, i);
        let j = choose|j: int| 0 <= j < w.len() && w[j] == s[i];
        if s.last().0 != k {
            assert(w.push(s.last())[j] == s[i]);
        }
    } else {
        assert(s.last() == s[i]);
        assert(w.push(s.last())[w.len() as int] == s[i]);
    }
}

/// A key is found exactly when some entry is under it.
pub proof fn lemma_lookup_some<K, V>(s: Seq<(K, V)>, k: K)
    ensures
        lookup(s, k) is Some <==> exists|i: int| 0 <= i < s.len() && (#[trigger] s[i]).0 == k,
    decreases s.len(),
{
    if s.len() > 0 {
        lemma_lookup_some(s.drop_last(), k);
        if lookup(s.drop_last(), k) is Some {
            let i = choose|i: int| 0 <= i < s.drop_last().len() && (#[trigger] s.drop_last()[i]).0 == k;
            assert(s[i].0 == k);
        }
        if s.last().0 == k {
            assert(s[s.len() - 1].0 == k);
        }
        if exists|i: int| 0 <= i < s.len() && (#[trigger] s[i]).0 == k {
            let i = choose|i: int| 0 <= i < s.len() && (#[trigger] s[i]).0 == k;
            if i < s.len() - 1 {
                assert(s.drop_last()[i].0 == k);
            }
        }
    }
}

/// With unique keys, taking out the entry at `i` forgets its key and nothing
/// else.
pub proof fn lemma_remove_unique<K, V>(s: Seq<(K, V)>, i: int, j: K)
    requires
        0 <= i < s.len(),
        keys_unique(s),
    ensures
        lookup(s.remove(i), j) == if j == s[i].0 {
            None
        } else {
            lookup(s, j)
        },
        keys_unique(s.remove(i)),
    decreases s.len(),
{
    let r = s.remove(i);
    assert forall|a: int, b: int| 0 <= a < b < r.len() implies (#[trigger] r[a]).0 != (
    #[trigger] r[b]).0 by {
        let a2 = if a < i { a } else { a + 1 };
        let b2 = if b < i { b } else { b + 1 };
        assert(r[a] == s[a2] && r[b] == s[b2]);
    }
    if i == s.len() - 1 {
        assert(r =~= s.drop_last());
        if j == s[i].0 {
            lemma_lookup_some(r, j);
            if lookup(r, j) is Some {
                let a = choose|a: int| 0 <= a < r.len() && (#[trigger] r[a]).0 == j;
                assert(s[a].0 == s[i].0);
            }
        }
    } else {
        let d = s.drop_last();
        assert forall|a: int, b: int| 0 <= a < b < d.len() implies (#[trigger] d[a]).0 != (
        #[trigger] d[b]).0 by {
            assert(d[a] == s[a] && d[b] == s[b]);
        }
        lemma_remove_unique(d, i, j);
        assert(r =~= d.remove(i).push(s.last()));
        lemma_lookup_push(d.remove(i), s.last(), j);
        assert(s.last() == s[s.len() - 1]);
        assert(s.last().0 != s[i].0);
    }
}

/// The plain value of each entry.
pub open spec fn entry_views(s: Seq<(String, String)>) -> Seq<(Seq<char>, Seq<char>)> {
    s.map_values(|e: (String, String)| (e.0@, e.1@))
}

/// The entries of `entries` not under `key`, in order.
pub fn drop_key(entries: &Vec<(String, String)>, key: &String) -> (r: Vec<(String, String)>)
    ensures
        entry_views(r@) == without(entry_views(entries@), key@),
{
    let ghost s = entry_views(entries@);
    let mut out: Vec<(String, String)> = Vec::new();
    let mut i: usize = 0;
    while i < entries.len()
        invariant
            i <= entries@.len() == s.len(),
            s == entry_views(entries@),
            entry_views(out@) == without(s.subrange(0, i as int), key@),
        decreases entries.len() - i,
    {
        proof {
            lemma_without_prefix(s, i as int, key@);
        }
        if !entries[i].0.eq(key) {
            let e = (entries[i].0.clone(), entries[i].1.clone());
            let ghost before = out@;
            out.push(e);
            assert(entry_views(out@) =~= entry_views(before).push(s[i as int]));
        }
        i = i + 1;
    }
    assert(s.subrange(0, s.len() as int) =~= s);
    out
}

/// The value of the last entry under `key` in `entries`, if any.
pub fn value_of(entries: &Vec<(String, String)>, key: &str) -> (r: Option<String>)
    ensures
        match r {
            Some(v) => lookup(entry_views(entries@), key@) == Some(v@),
            None => lookup(entry_views(entries@), key@) is None,
        },
{
    let ghost s = entry_views(entries@);
    let k = String::from_str(key);
    let mut found: Option<usize> = None;
    let mut i: usize = 0;
    while i < entries.len()
        invariant
            i <= entries@.len() == s.len(),
            s == entry_views(entries@),
            k@ == key@,
            match found {
                Some(f) => f < i && lookup(s.subrange(0, i as int), key@) == Some(entries@[f as int].1@),
                None => lookup(s.subrange(0, i as int), key@) is None,
            },
        decreases entries.len() - i,
    {
        proof {
            lemma_lookup_prefix(s, i as int, key@);
        }
        if entries[i].0.eq(&k) {
            found = Some(i);
        }
        i = i + 1;
    }
    assert(s.subrange(0, s.len() as int) =~= s);
    match found {
        Some(f) => Some(entries[f].1.clone()),
        None => None,
    }
}

/// A table from text keys to text values.
pub struct Table {
    entries: Vec<(String, String)>,
}

impl View for Table {
    type V = Map<Seq<char>, Seq<char>>;

    closed spec fn view(&self) -> Map<Seq<char>, Seq<char>> {
        as_map(entry_views(self.entries@))
    }
}

impl Table {
    /// An empty table.
    pub fn new() -> (t: Table)
        ensures
            t@ == Map::<Seq<char>, Seq<char>>::empty(),
    {
        let t = Table { entries: Vec::new() };
        assert(t@ =~= Map::<Seq<char>, Seq<char>>::empty());
        t
    }

    /// Where the last entry under `key` stands, if any.
    fn position(&self, key: &String) -> (r: Option<usize>)
        ensures
            match r {
                Some(i) => i < self.entries@.len() && self.entries@[i as int].0@ == key@ && lookup(
                    entry_views(self.entries@),
                    key@,
                ) == Some(self.entries@[i as int].1@),
                None => lookup(entry_views(self.entries@), key@) is None,
            },
    {
        let ghost s = entry_views(self.entries@);
        let mut found: Option<usize> = None;
        let mut i: usize = 0;
        while i < self.entries.len()
            invariant
                i <= self.entries@.len() == s.len(),
                s == entry_views(self.entries@),
                match found {
                    Some(f) => f < i && self.entries@[f as int].0@ == key@ && lookup(
                        s.subrange(0, i as int),
                        key@,
                    ) == Some(self.entries@[f as int].1@),
                    None => lookup(s.subrange(0, i as int), key@) is None,
                },
            decreases self.entries.len() - i,
        {
            proof {
                lemma_lookup_prefix(s, i as int, key@);
            }
            if self.entries[i].0.eq(key) {
                found = Some(i);
            }
            i = i + 1;
        }
        assert(s.subrange(0, s.len() as int) =~= s);
        found
    }

    /// The value under `key`, if any.
    pub fn get(&self, key: &String) -> (r: Option<String>)
        ensures
            match r {
                Some(v) => self@.contains_key(key@) && self@[key@] == v@,
                None => !self@.contains_key(key@),
            },
    {
        match self.position(key) {
            Some(i) => Some(self.entries[i].1.clone()),
            None => None,
        }
    }

    /// Whether there is a value under `key`.
    pub fn contains_key(&self, key: &String) -> (b: bool)
        ensures
            b == self@.contains_key(key@),
    {
        self.position(key).is_some()
    }

    /// Sets the value under `key` to `value`.
    pub fn insert(&mut self, key: &String, value: &String)
        ensures
            final(self)@ == old(self)@.insert(key@, value@),
    {
        let ghost s = entry_views(self.entries@);
        let mut out = drop_key(&self.entries, key);
        let ghost w = entry_views(out@);
        out.push((key.clone(), value.clone()));
        assert(entry_views(out@) =~= w.push((key@, value@)));
        self.entries = out;
        assert forall|j: Seq<char>| #[trigger] lookup(entry_views(self.entries@), j) == if j == key@ {
            Some(value@)
        } else {
            lookup(s, j)
        } by {
            lemma_lookup_push(w, (key@, value@), j);
            lemma_without(s, key@, j);
        }
        assert(self@ =~= old(self)@.insert(key@, value@));
    }

    /// Takes away the value under `key`, if there is one.
    pub fn remove(&mut self, key: &String)
        ensures
            final(self)@ == old(self)@.remove(key@),
    {
        let ghost s = entry_views(self.entries@);
        let out = drop_key(&self.entries, key);
        self.entries = out;
        assert forall|j: Seq<char>| #[trigger] lookup(entry_views(self.entries@), j) == if j == key@ {
            None
        } else {
            lookup(s, j)
        } by {
            lemma_without(s, key@, j);
        }
        assert(self@ =~= old(self)@.remove(key@));
    }
}

} // verus!
