//! In-memory caches of query results, keyed by name and stamped with the
//! fingerprint of the inputs they were computed from.

use vstd::prelude::*;
use vstd::string::StringSliceAdditionalSpecFns;
use crate::text::{chars_of, hex_fixed, hex_fixed_chars, owned, push_str_chars, str_eq, string_from_chars};
use super::fingerprint::{Fingerprint, fingerprint_of_bytes};

verus! {

#[derive(Debug, Clone)]
pub struct CacheEntry<V> {
    pub fingerprint: Fingerprint,
    pub value: V,
}

/// A cache entry stored on disk.
#[derive(Debug, Clone)]
pub struct DiskCacheEntry<V> {
    pub fingerprint: Fingerprint,
    pub value: V,
}

/// A map from keys to the latest value stored for each, with its fingerprint.
#[derive(Debug)]
pub struct Cache<V> {
    entries: Vec<(String, CacheEntry<V>)>,
}

/// Whether the keys are pairwise distinct.
pub open spec fn distinct_keys(keys: Seq<Seq<char>>) -> bool {
    forall|i: int, j: int| 0 <= i < keys.len() && 0 <= j < keys.len() && i != j ==> keys[i] != keys[j]
}

impl<V> Cache<V> {
    #[verifier::type_invariant]
    spec fn inv(self) -> bool {
        distinct_keys(self.key_views())
    }

    spec fn key_views(self) -> Seq<Seq<char>> {
        self.entries@.map_values(|e: (String, CacheEntry<V>)| e.0@)
    }

    spec fn index_of(self, key: Seq<char>) -> int {
        choose|i: int| 0 <= i < self.entries@.len() && self.entries@[i].0@ == key
    }

    /// The entry stored for each key.
    pub closed spec fn view(&self) -> Map<Seq<char>, CacheEntry<V>> {
        Map::new(
            |k: Seq<char>| exists|i: int| 0 <= i < self.entries@.len() && self.entries@[i].0@ == k,
            |k: Seq<char>| self.entries@[self.index_of(k)].1,
        )
    }

    proof fn lemma_index(self, i: int)
        requires
            self.inv(),
            0 <= i < self.entries@.len(),
        ensures
            self.index_of(self.entries@[i].0@) == i,
            self@.contains_key(self.entries@[i].0@),
            self@[self.entries@[i].0@] == self.entries@[i].1,
    {
        let k = self.entries@[i].0@;
        let j = self.index_of(k);
        assert(self.key_views()[i] == k);
        assert(0 <= j < self.entries@.len() && self.entries@[j].0@ == k);
        assert(self.key_views()[j] == k);
    }

    /// Where `key` is stored, if it is.
    fn find(&self, key: &str) -> (r: Option<usize>)
        ensures
            r is None <==> !self@.contains_key(key@),
            r matches Some(i) ==> i < self.entries@.len() && self.entries@[i as int].0@ == key@
                && self@[key@] == self.entries@[i as int].1,
    {
        proof {
            use_type_invariant(self);
        }
        let mut i: usize = 0;
        while i < self.entries.len()
            invariant
                i <= self.entries@.len(),
                self.inv(),
                forall|j: int| 0 <= j < i ==> self.entries@[j].0@ != key@,
            decreases self.entries@.len() - i,
        {
            if str_eq(self.entries[i].0.as_str(), key) {
                proof {
                    self.lemma_index(i as int);
                }
                return Some(i);
            }
            i += 1;
        }
        None
    }

    pub fn get(&self, key: &str) -> (r: Option<&V>)
        ensures
            r is Some <==> self@.contains_key(key@),
            r matches Some(v) ==> *v == self@[key@].value,
    {
        match self.find(key) {
            Some(i) => Some(&self.entries[i].1.value),
            None => None,
        }
    }

    /// The value stored for `key`, when it was stored with the given fingerprint.
    pub fn get_if_fresh(&self, key: &str, fingerprint: Fingerprint) -> (r: Option<&V>)
        ensures
            r is Some <==> (self@.contains_key(key@) && self@[key@].fingerprint == fingerprint),
            r matches Some(v) ==> *v == self@[key@].value,
    {
        match self.find(key) {
            Some(i) => {
                if self.entries[i].1.fingerprint.0 == fingerprint.0 {
                    Some(&self.entries[i].1.value)
                } else {
                    None
                }
            },
            None => None,
        }
    }

    pub fn fingerprint(&self, key: &str) -> (r: Option<Fingerprint>)
        ensures
            r is Some <==> self@.contains_key(key@),
            r matches Some(f) ==> f == self@[key@].fingerprint,
    {
        match self.find(key) {
            Some(i) => Some(self.entries[i].1.fingerprint),
            None => None,
        }
    }

    /// Stores `value` for `key`, replacing what was there.
    pub fn insert(&mut self, key: &str, fingerprint: Fingerprint, value: V)
        ensures
            final(self)@ == old(self)@.insert(key@, CacheEntry { fingerprint, value }),
            final(self)@.len() == old(self)@.len() + if old(self)@.contains_key(key@) { 0int } else { 1int },
    {
        proof {
            use_type_invariant(&*self);
            self.lemma_len();
        }
        let entry = CacheEntry { fingerprint, value };
        let ghost before = *self;
        let k = owned(key);
        match self.find(key) {
            Some(i) => {
                proof {
                    assert forall|a: int, b: int| 0 <= a < before.entries@.len() && 0 <= b < before.entries@.len() && a != b
                        implies before.entries@.update(i as int, (k, entry))[a].0@ != before.entries@.update(i as int, (k, entry))[b].0@ by {
                        assert(before.key_views()[a] == before.entries@[a].0@);
                        assert(before.key_views()[b] == before.entries@[b].0@);
                    }
                    assert(before.entries@.update(i as int, (k, entry)).map_values(|e: (String, CacheEntry<V>)| e.0@)
                        =~= before.key_views());
                }
                let mut entries: Vec<(String, CacheEntry<V>)> = Vec::new();
                std::mem::swap(&mut entries, &mut self.entries);
                entries.set(i, (k, entry));
                self.entries = entries;
                proof {
                    assert(self.key_views() =~= before.key_views());
                    assert forall|q: Seq<char>| #![auto] self@.contains_key(q) implies self@[q] == before@.insert(key@, entry)[q] by {
                        let j = self.index_of(q);
                        self.lemma_index(j);
                        before.lemma_index(j);
                        if q == key@ {
                            self.lemma_index(i as int);
                        }
                    }
                    assert forall|q: Seq<char>| before@.insert(key@, entry).contains_key(q) implies #[trigger] self@.contains_key(q) by {
                        if q == key@ {
                            self.lemma_index(i as int);
                        } else {
                            let j = before.index_of(q);
                            before.lemma_index(j);
                            self.lemma_index(j);
                        }
                    }
                    assert(self@ =~= before@.insert(key@, entry));
                }
            },
            None => {
                proof {
                    let ext = before.entries@.push((k, entry));
                    assert forall|a: int, b: int| 0 <= a < ext.len() && 0 <= b < ext.len() && a != b implies ext[a].0@ != ext[b].0@ by {
                        if a < before.entries@.len() && b < before.entries@.len() {
                            assert(before.key_views()[a] == ext[a].0@);
                            assert(before.key_views()[b] == ext[b].0@);
                        } else if a < before.entries@.len() {
                            before.lemma_index(a);
                        } else {
                            before.lemma_index(b);
                        }
                    }
                }
                let mut entries: Vec<(String, CacheEntry<V>)> = Vec::new();
                std::mem::swap(&mut entries, &mut self.entries);
                entries.push((k, entry));
                self.entries = entries;
                proof {
                    let n = before.entries@.len() as int;
                    assert forall|q: Seq<char>| #![auto] self@.contains_key(q) implies self@[q] == before@.insert(key@, entry)[q] by {
                        let j = self.index_of(q);
                        self.lemma_index(j);
                        if j < n {
                            before.lemma_index(j);
                        }
                    }
                    assert forall|q: Seq<char>| before@.insert(key@, entry).contains_key(q) implies #[trigger] self@.contains_key(q) by {
                        if q == key@ {
                            self.lemma_index(n);
                        } else {
                            let j = before.index_of(q);
                            before.lemma_index(j);
                            self.lemma_index(j);
                        }
                    }
                    assert(self@ =~= before@.insert(key@, entry));
                }
            },
        }
    }

    /// Drops the entry for `key`; whether there was one.
    pub fn invalidate(&mut self, key: &str) -> (r: bool)
        ensures
            r == old(self)@.contains_key(key@),
            final(self)@ == old(self)@.remove(key@),
            final(self)@.len() == old(self)@.len() - if r { 1int } else { 0int },
    {
        proof {
            use_type_invariant(&*self);
            self.lemma_len();
        }
        let ghost before = *self;
        match self.find(key) {
            Some(i) => {
                proof {
                    let rest = before.entries@.remove(i as int);
                    assert forall|a: int, b: int| 0 <= a < rest.len() && 0 <= b < rest.len() && a != b implies rest[a].0@ != rest[b].0@ by {
                        let a2 = if a < i { a } else { a + 1 };
                        let b2 = if b < i { b } else { b + 1 };
                        assert(before.key_views()[a2] == rest[a].0@);
                        assert(before.key_views()[b2] == rest[b].0@);
                    }
                }
                let mut entries: Vec<(String, CacheEntry<V>)> = Vec::new();
                std::mem::swap(&mut entries, &mut self.entries);
                entries.remove(i);
                self.entries = entries;
                proof {
                    assert forall|q: Seq<char>| #[trigger] self@.contains_key(q) implies self@[q] == before@.remove(key@)[q] && q != key@ && before@.remove(key@).contains_key(q) by {
                        let j = self.index_of(q);
                        self.lemma_index(j);
                        let j2 = if j < i { j } else { j + 1 };
                        assert(self.entries@[j] == before.entries@[j2]);
                        before.lemma_index(j2);
                        before.lemma_index(i as int);
                    }
                    assert forall|q: Seq<char>| before@.remove(key@).contains_key(q) implies #[trigger] self@.contains_key(q) by {
                        let j2 = before.index_of(q);
                        before.lemma_index(j2);
                        let j = if j2 < i { j2 } else { j2 - 1 };
                        self.lemma_index(j);
                    }
                    assert(self@ =~= before@.remove(key@));
                }
                true
            },
            None => {
                assert(self@ =~= old(self)@.remove(key@));
                false
            },
        }
    }

    pub fn clear(&mut self)
        ensures
            final(self)@ == Map::<Seq<char>, CacheEntry<V>>::empty(),
    {
        self.entries = Vec::new();
        assert(self@ =~= Map::<Seq<char>, CacheEntry<V>>::empty());
    }

    pub fn len(&self) -> (n: usize)
        ensures
            n == self@.len(),
    {
        proof {
            use_type_invariant(self);
            self.lemma_len();
        }
        self.entries.len()
    }

    pub fn is_empty(&self) -> (r: bool)
        ensures
            r == (self@.len() == 0),
    {
        self.len() == 0
    }

    proof fn lemma_len(self)
        requires
            self.inv(),
        ensures
            self@.dom().finite(),
            self@.len() == self.entries@.len(),
    {
        let ks = self.key_views();
        assert(self@.dom() =~= ks.to_set()) by {
            assert forall|k: Seq<char>| self@.dom().contains(k) implies ks.to_set().contains(k) by {
                let j = self.index_of(k);
                self.lemma_index(j);
                assert(ks[j] == k);
            }
            assert forall|k: Seq<char>| ks.to_set().contains(k) implies self@.dom().contains(k) by {
                let j = choose|j: int| 0 <= j < ks.len() && ks[j] == k;
                self.lemma_index(j);
            }
        }
        ks.unique_seq_to_set();
    }
}

impl<V> Default for Cache<V> {
    fn default() -> (c: Self)
        ensures
            c@ == Map::<Seq<char>, CacheEntry<V>>::empty(),
    {
        let c = Cache { entries: Vec::new() };
        assert(c@ =~= Map::<Seq<char>, CacheEntry<V>>::empty());
        c
    }
}

/// A value stored and then read with the same fingerprint is read back; read with
/// another fingerprint it is not.
pub proof fn lemma_fresh_read_after_insert<V>(before: Map<Seq<char>, CacheEntry<V>>, key: Seq<char>, f: Fingerprint, g: Fingerprint, v: V)
    ensures
        ({
            let after = before.insert(key, CacheEntry { fingerprint: f, value: v });
            &&& after.contains_key(key)
            &&& after[key].fingerprint == f
            &&& after[key].value == v
            &&& (g != f ==> after[key].fingerprint != g)
        }),
{
}

/// A cache of query results on disk, under `root/query`.
#[derive(Debug, Clone)]
pub struct DiskCache {
    pub root: String,
    pub query: &'static str,
}

/// `base` followed by `part` as a path: `part` alone when `base` is empty or `part` is
/// absolute, else the two with one `/` between them.
pub open spec fn path_join(base: Seq<char>, part: Seq<char>) -> Seq<char> {
    if base.len() == 0 || (part.len() > 0 && part[0] == '/') {
        part
    } else if base.last() == '/' {
        base + part
    } else {
        base + seq!['/'] + part
    }
}

/// The file that holds the entry for a key: the key's fingerprint in sixteen lower-case
/// hexadecimal digits, then `.bin`.
pub open spec fn entry_file_name(key_bytes: Seq<u8>) -> Seq<char> {
    hex_fixed(fingerprint_of_bytes(key_bytes) as nat, 16) + ".bin"@
}

fn join_into(base: &Vec<char>, part: &str) -> (r: Vec<char>)
    ensures
        r@ == path_join(base@, part@),
{
    let p = chars_of(part);
    if base.len() == 0 || (p.len() > 0 && p[0] == '/') {
        p
    } else {
        let mut r = base.clone();
        proof {
            assert(r@ == base@);
        }
        if base[base.len() - 1] != '/' {
            r.push('/');
        }
        push_str_chars(&mut r, part);
        r
    }
}

impl DiskCache {
    pub fn new(root: &str, query: &'static str) -> (d: Self)
        ensures
            d.root@ == root@,
            d.query == query,
    {
        DiskCache { root: owned(root), query }
    }

    /// The path of the file that holds the entry for `key`: `root/query/<name>`.
    pub fn entry_path(&self, key: &str) -> (p: String)
        ensures
            p@ == path_join(path_join(self.root@, self.query@), entry_file_name(key.spec_bytes())),
    {
        let root = chars_of(self.root.as_str());
        let dir = join_into(&root, self.query);
        let mut name = hex_fixed_chars(Fingerprint::of(key).0, 16);
        push_str_chars(&mut name, ".bin");
        let name_str = string_from_chars(&name);
        let full = join_into(&dir, name_str.as_str());
        proof {
            reveal_strlit(".bin");
        }
        string_from_chars(&full)
    }

    /// The value of an entry read back from disk, when it was stored with `fingerprint`.
    pub fn fresh_value<V>(entry: Option<DiskCacheEntry<V>>, fingerprint: Fingerprint) -> (r: Option<V>)
        ensures
            r == (match entry {
                Some(e) => if e.fingerprint == fingerprint { Some(e.value) } else { None },
                None => None,
            }),
    {
        match entry {
            Some(e) => {
                if e.fingerprint.0 == fingerprint.0 {
                    Some(e.value)
                } else {
                    None
                }
            },
            None => None,
        }
    }
}

} // verus!
