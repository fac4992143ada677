//! A finite map keyed by byte strings, kept as a list of entries whose keys
//! are pairwise distinct.  Each contract keeps its stored records in tables.

use vstd::prelude::*;
use crate::bytes::{byte_views, bytes_eq, copy_bytes};

verus! {

/// No two entries of `s` carry the same key.
pub open spec fn distinct_keys<V>(s: Seq<(Vec<u8>, V)>) -> bool {
    forall|i: int, j: int|
        0 <= i < s.len() && 0 <= j < s.len() && i != j ==> (#[trigger] s[i]).0@ != (
        #[trigger] s[j]).0@
}

/// The map that a list of entries with distinct keys stands for.
pub closed spec fn entries_map<V>(s: Seq<(Vec<u8>, V)>) -> Map<Seq<u8>, V> {
    Map::new(
        |k: Seq<u8>| exists|i: int| 0 <= i < s.len() && (#[trigger] s[i]).0@ == k,
        |k: Seq<u8>| s[choose|i: int| 0 <= i < s.len() && (#[trigger] s[i]).0@ == k].1,
    )
}

/// The entry at position `i` of a list with distinct keys is what its map
/// holds under that entry's key.
pub proof fn lemma_entries_map_index<V>(s: Seq<(Vec<u8>, V)>, i: int)
    requires
        distinct_keys(s),
        0 <= i < s.len(),
    ensures
        entries_map(s).contains_key(s[i].0@),
        entries_map(s)[s[i].0@] == s[i].1,
{
    let k = s[i].0@;
    assert(exists|j: int| 0 <= j < s.len() && (#[trigger] s[j]).0@ == k);
    let j = choose|j: int| 0 <= j < s.len() && (#[trigger] s[j]).0@ == k;
    assert(s[j].0@ == k);
}

/// Every key of the map of a list is the key of some entry of the list.
pub proof fn lemma_entries_map_key<V>(s: Seq<(Vec<u8>, V)>, k: Seq<u8>) -> (i: int)
    requires
        distinct_keys(s),
        entries_map(s).contains_key(k),
    ensures
        0 <= i < s.len(),
        s[i].0@ == k,
        entries_map(s)[k] == s[i].1,
{
    let i = choose|i: int| 0 <= i < s.len() && (#[trigger] s[i]).0@ == k;
    lemma_entries_map_index(s, i);
    i
}

/// A finite map from byte-string keys to values.
pub struct Table<V> {
    entries: Vec<(Vec<u8>, V)>,
}

impl<V> Table<V> {
    /// Whether some entry carries key `k`.
    pub closed spec fn has_key(&self, k: Seq<u8>) -> bool {
        exists|i: int| 0 <= i < self.entries@.len() && (#[trigger] self.entries@[i]).0@ == k
    }

    /// The position of the entry that carries key `k`.
    closed spec fn index_of(&self, k: Seq<u8>) -> int {
        choose|i: int| 0 <= i < self.entries@.len() && (#[trigger] self.entries@[i]).0@ == k
    }

    /// No two entries carry the same key.
    pub closed spec fn wf(&self) -> bool {
        distinct_keys(self.entries@)
    }

    /// The map that the table stands for.
    pub closed spec fn map(&self) -> Map<Seq<u8>, V> {
        entries_map(self.entries@)
    }

    proof fn lemma_index(&self, k: Seq<u8>, i: int)
        requires
            self.wf(),
            0 <= i < self.entries@.len(),
            self.entries@[i].0@ == k,
        ensures
            self.has_key(k),
            self.index_of(k) == i,
            self.map().contains_key(k),
            self.map()[k] == self.entries@[i].1,
    {
        assert(self.has_key(k));
        let j = self.index_of(k);
        assert(self.entries@[j].0@ == k);
    }

    /// The table's entries, to be read in place.
    pub fn entries_ref(&self) -> (r: &Vec<(Vec<u8>, V)>)
        requires
            self.wf(),
        ensures
            distinct_keys(r@),
            entries_map(r@) == self.map(),
    {
        &self.entries
    }

    /// The table's entries, for storing them elsewhere.
    pub fn into_entries(self) -> (r: Vec<(Vec<u8>, V)>)
        requires
            self.wf(),
        ensures
            distinct_keys(r@),
            entries_map(r@) == self.map(),
    {
        self.entries
    }

    /// The table holding `entries`, when no two of them carry the same key.
    pub fn from_entries(entries: Vec<(Vec<u8>, V)>) -> (r: Option<Table<V>>)
        ensures
            r is Some <==> distinct_keys(entries@),
            r matches Some(t) ==> t.wf() && t.map() == entries_map(entries@),
    {
        let n = entries.len();
        let mut i: usize = 0;
        while i < n
            invariant
                n == entries@.len(),
                i <= n,
                forall|a: int, b: int|
                    0 <= a < i && 0 <= b < n && a != b ==> (#[trigger] entries@[a]).0@ != (
                    #[trigger] entries@[b]).0@,
            decreases n - i,
        {
            let mut j: usize = 0;
            while j < n
                invariant
                    n == entries@.len(),
                    i < n,
                    j <= n,
                    forall|a: int, b: int|
                        0 <= a < i && 0 <= b < n && a != b ==> (#[trigger] entries@[a]).0@ != (
                        #[trigger] entries@[b]).0@,
                    forall|b: int| 0 <= b < j && b != i ==> entries@[i as int].0@ != (
                    #[trigger] entries@[b]).0@,
                decreases n - j,
            {
                if j != i && bytes_eq(&entries[i].0, &entries[j].0) {
                    assert(!distinct_keys(entries@)) by {
                        assert(entries@[i as int].0@ == entries@[j as int].0@);
                    }
                    return None;
                }
                j = j + 1;
            }
            i = i + 1;
        }
        Some(Table { entries })
    }

    /// An empty table.
    pub fn new() -> (r: Self)
        ensures
            r.wf(),
            r.map() == Map::<Seq<u8>, V>::empty(),
    {
        let r = Table { entries: Vec::new() };
        assert(r.map() =~= Map::<Seq<u8>, V>::empty());
        r
    }

    /// The position of the entry that carries `key`, if any.
    fn find(&self, key: &Vec<u8>) -> (r: Option<usize>)
        requires
            self.wf(),
        ensures
            match r {
                Some(i) => i < self.entries@.len() && self.entries@[i as int].0@ == key@
                    && self.map().contains_key(key@) && self.index_of(key@) == i,
                None => !self.map().contains_key(key@),
            },
    {
        let n = self.entries.len();
        let mut i: usize = 0;
        while i < n
            invariant
                self.wf(),
                n == self.entries@.len(),
                i <= n,
                forall|j: int| 0 <= j < i ==> (#[trigger] self.entries@[j]).0@ != key@,
            decreases n - i,
        {
            if bytes_eq(&self.entries[i].0, key) {
                proof {
                    self.lemma_index(key@, i as int);
                }
                return Some(i);
            }
            i = i + 1;
        }
        None
    }

    /// Whether the table holds key `key`.
    pub fn contains_key(&self, key: &Vec<u8>) -> (r: bool)
        requires
            self.wf(),
        ensures
            r == self.map().contains_key(key@),
    {
        self.find(key).is_some()
    }

    /// The value stored under `key`, if any.
    pub fn get(&self, key: &Vec<u8>) -> (r: Option<&V>)
        requires
            self.wf(),
        ensures
            r is Some <==> self.map().contains_key(key@),
            r matches Some(v) ==> *v == self.map()[key@],
    {
        match self.find(key) {
            Some(i) => Some(&self.entries[i].1),
            None => None,
        }
    }

    /// Store `value` under `key`, replacing any value stored there before.
    pub fn insert(&mut self, key: Vec<u8>, value: V)
        requires
            old(self).wf(),
        ensures
            final(self).wf(),
            final(self).map() == old(self).map().insert(key@, value),
    {
        let ghost k = key@;
        let ghost old_t = *self;
        match self.find(&key) {
            Some(i) => {
                self.entries[i] = (key, value);
                proof {
                    assert(self.entries@ == old_t.entries@.update(i as int, (key, value)));
                    assert forall|a: int, b: int|
                        0 <= a < self.entries@.len() && 0 <= b < self.entries@.len() && a != b implies (
                        #[trigger] self.entries@[a]).0@ != (#[trigger] self.entries@[b]).0@ by {
                        assert(old_t.entries@[a].0@ != old_t.entries@[b].0@);
                    }
                    self.lemma_index(k, i as int);
                    assert forall|k2: Seq<u8>| #[trigger]
                        self.map().contains_key(k2) == old_t.map().insert(k, value).contains_key(k2)
                        && (self.map().contains_key(k2) ==> self.map()[k2] == old_t.map().insert(
                        k, value)[k2]) by {
                        if k2 != k {
                            if self.has_key(k2) {
                                let j = self.index_of(k2);
                                old_t.lemma_index(k2, j);
                            }
                            if old_t.has_key(k2) {
                                let j = old_t.index_of(k2);
                                self.lemma_index(k2, j);
                            }
                        }
                    }
                    assert(self.map() =~= old_t.map().insert(k, value));
                }
            },
            None => {
                self.entries.push((key, value));
                proof {
                    let n = old_t.entries@.len() as int;
                    assert(self.entries@ == old_t.entries@.push((key, value)));
                    assert forall|a: int, b: int|
                        0 <= a < self.entries@.len() && 0 <= b < self.entries@.len() && a != b implies (
                        #[trigger] self.entries@[a]).0@ != (#[trigger] self.entries@[b]).0@ by {
                        if a == n {
                            assert(!old_t.has_key(k));
                            assert(old_t.entries@[b] == self.entries@[b]);
                        } else if b == n {
                            assert(!old_t.has_key(k));
                            assert(old_t.entries@[a] == self.entries@[a]);
                        } else {
                            assert(old_t.entries@[a].0@ != old_t.entries@[b].0@);
                        }
                    }
                    self.lemma_index(k, n);
                    assert forall|k2: Seq<u8>| #[trigger]
                        self.map().contains_key(k2) == old_t.map().insert(k, value).contains_key(k2)
                        && (self.map().contains_key(k2) ==> self.map()[k2] == old_t.map().insert(
                        k, value)[k2]) by {
                        if k2 != k {
                            if self.has_key(k2) {
                                let j = self.index_of(k2);
                                old_t.lemma_index(k2, j);
                            }
                            if old_t.has_key(k2) {
                                let j = old_t.index_of(k2);
                                self.lemma_index(k2, j);
                            }
                        }
                    }
                    assert(self.map() =~= old_t.map().insert(k, value));
                }
            },
        }
    }

    /// Take the value stored under `key` out of the table, if any.
    pub fn remove(&mut self, key: &Vec<u8>) -> (r: Option<V>)
        requires
            old(self).wf(),
        ensures
            final(self).wf(),
            final(self).map() == old(self).map().remove(key@),
            r is Some <==> old(self).map().contains_key(key@),
            r matches Some(v) ==> v == old(self).map()[key@],
    {
        let ghost k = key@;
        let ghost old_t = *self;
        match self.find(key) {
            Some(i) => {
                let (_, v) = self.entries.remove(i);
                proof {
                    let ii = i as int;
                    assert(self.entries@ == old_t.entries@.remove(ii));
                    assert forall|a: int, b: int|
                        0 <= a < self.entries@.len() && 0 <= b < self.entries@.len() && a != b implies (
                        #[trigger] self.entries@[a]).0@ != (#[trigger] self.entries@[b]).0@ by {
                        let oa = if a < ii { a } else { a + 1 };
                        let ob = if b < ii { b } else { b + 1 };
                        assert(self.entries@[a] == old_t.entries@[oa]);
                        assert(self.entries@[b] == old_t.entries@[ob]);
                        assert(old_t.entries@[oa].0@ != old_t.entries@[ob].0@);
                    }
                    old_t.lemma_index(k, ii);
                    assert forall|k2: Seq<u8>| #[trigger]
                        self.map().contains_key(k2) == old_t.map().remove(k).contains_key(k2) && (
                        self.map().contains_key(k2) ==> self.map()[k2] == old_t.map().remove(
                        k)[k2]) by {
                        if self.has_key(k2) {
                            let j = self.index_of(k2);
                            let oj = if j < ii { j } else { j + 1 };
                            assert(self.entries@[j] == old_t.entries@[oj]);
                            old_t.lemma_index(k2, oj);
                            assert(oj != ii);
                        }
                        if old_t.has_key(k2) && k2 != k {
                            let oj = old_t.index_of(k2);
                            assert(oj != ii);
                            let j = if oj < ii { oj } else { oj - 1 };
                            assert(self.entries@[j] == old_t.entries@[oj]);
                            self.lemma_index(k2, j);
                        }
                    }
                    assert(self.map() =~= old_t.map().remove(k));
                }
                Some(v)
            },
            None => {
                assert(self.map() =~= old_t.map().remove(k));
                None
            },
        }
    }
}

/// The contents of a table of byte-string lists.
pub open spec fn list_views(t: Map<Seq<u8>, Vec<Vec<u8>>>) -> Map<Seq<u8>, Seq<Seq<u8>>> {
    t.map_values(|l: Vec<Vec<u8>>| byte_views(l@))
}

/// `lists` with `item` appended to the list under `key`, where a missing
/// list counts as empty.
pub open spec fn appended(lists: Map<Seq<u8>, Seq<Seq<u8>>>, key: Seq<u8>, item: Seq<u8>) -> Map<
    Seq<u8>,
    Seq<Seq<u8>>,
> {
    lists.insert(
        key,
        if lists.contains_key(key) {
            lists[key]
        } else {
            Seq::empty()
        }.push(item),
    )
}

/// Append a copy of `item` to the list stored under `key`.
pub fn append_to_list(lists: &mut Table<Vec<Vec<u8>>>, key: Vec<u8>, item: &Vec<u8>)
    requires
        old(lists).wf(),
    ensures
        final(lists).wf(),
        list_views(final(lists).map()) == appended(list_views(old(lists).map()), key@, item@),
{
    let ghost before_map = lists.map();
    let ghost views = list_views(before_map);
    let ghost earlier = if views.contains_key(key@) {
        views[key@]
    } else {
        Seq::<Seq<u8>>::empty()
    };
    let mut list = match lists.remove(&key) {
        Some(l) => l,
        None => {
            let l: Vec<Vec<u8>> = Vec::new();
            assert(byte_views(l@) =~= Seq::<Seq<u8>>::empty());
            l
        },
    };
    assert(byte_views(list@) == earlier);
    let copy = copy_bytes(item);
    let ghost before = list@;
    list.push(copy);
    assert(list@ == before.push(copy));
    assert(byte_views(list@) =~= earlier.push(item@));
    let ghost new_list = list;
    lists.insert(key, list);
    assert(lists.map() =~= before_map.insert(key@, new_list));
    assert(list_views(lists.map()) =~= appended(views, key@, item@));
}

} // verus!
