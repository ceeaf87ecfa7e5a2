//! A map from text to values, for the graph's two indexes.
//!
//! The map hashes its keys itself and keeps, in a `HashMap` keyed by the hash,
//! the entries of each hash in a bucket of their own. A lookup hashes the key
//! and reads one bucket.

use vstd::prelude::*;
use vstd::utf8::encode_utf8;
use std::collections::HashMap;

verus! {

/// One key of a `TextMap` with its value.
pub struct TextEntry<V> {
    pub key: String,
    pub value: V,
}

/// A map keyed by text.
pub struct TextMap<V> {
    buckets: HashMap<u64, Vec<TextEntry<V>>>,
}

/// The hash of `bytes` continued from `h`: for each byte, it is mixed in and
/// the hash is multiplied by a prime (FNV-1a, 64 bits).
pub open spec fn hash_bytes(bytes: Seq<u8>, h: u64) -> u64
    decreases bytes.len(),
{
    if bytes.len() == 0 {
        h
    } else {
        hash_bytes(bytes.drop_first(), (h ^ (bytes[0] as u64)).wrapping_mul(0x100_0000_01b3))
    }
}

/// The hash of a text: that of the bytes of its UTF-8 encoding.
pub open spec fn text_hash(s: Seq<char>) -> u64 {
    hash_bytes(encode_utf8(s), 0xcbf2_9ce4_8422_2325)
}

/// Whether some entry has the key `key`.
pub open spec fn has_key<V>(entries: Seq<TextEntry<V>>, key: Seq<char>) -> bool {
    exists|i: int| 0 <= i < entries.len() && #[trigger] entries[i].key@ == key
}

/// The place of an entry with the key `key`.
pub open spec fn place_of<V>(entries: Seq<TextEntry<V>>, key: Seq<char>) -> int {
    choose|i: int| 0 <= i < entries.len() && #[trigger] entries[i].key@ == key
}

/// No two entries share a key.
pub open spec fn keys_distinct<V>(entries: Seq<TextEntry<V>>) -> bool {
    forall|i: int, j: int|
        0 <= i < entries.len() && 0 <= j < entries.len() && #[trigger] entries[i].key@
            == #[trigger] entries[j].key@ ==> i == j
}

/// Every entry has a key that hashes to `h`.
pub open spec fn keys_hash_to<V>(entries: Seq<TextEntry<V>>, h: u64) -> bool {
    forall|i: int| 0 <= i < entries.len() ==> text_hash(#[trigger] entries[i].key@) == h
}

/// The map that the entries of one bucket spell out.
pub open spec fn entries_map<V>(entries: Seq<TextEntry<V>>) -> Map<Seq<char>, V> {
    Map::new(
        |key: Seq<char>| has_key(entries, key),
        |key: Seq<char>| entries[place_of(entries, key)].value,
    )
}

/// The entries that stand under the hash `h`: those of the bucket, or none.
pub open spec fn bucket_at<V>(buckets: Map<u64, Vec<TextEntry<V>>>, h: u64) -> Seq<TextEntry<V>> {
    if buckets.contains_key(h) {
        buckets[h]@
    } else {
        Seq::empty()
    }
}

/// The map that the buckets spell out: each key is looked for in the bucket
/// of its hash.
pub open spec fn buckets_map<V>(buckets: Map<u64, Vec<TextEntry<V>>>) -> Map<Seq<char>, V> {
    Map::new(
        |key: Seq<char>| has_key(bucket_at(buckets, text_hash(key)), key),
        |key: Seq<char>| entries_map(bucket_at(buckets, text_hash(key)))[key],
    )
}

proof fn lemma_place_of<V>(entries: Seq<TextEntry<V>>, i: int)
    requires
        keys_distinct(entries),
        0 <= i < entries.len(),
    ensures
        has_key(entries, entries[i].key@),
        place_of(entries, entries[i].key@) == i,
        entries_map(entries).contains_key(entries[i].key@),
        entries_map(entries)[entries[i].key@] == entries[i].value,
{
    let key = entries[i].key@;
    assert(0 <= i < entries.len() && entries[i].key@ == key);
    let p = place_of(entries, key);
    assert(0 <= p < entries.len() && entries[p].key@ == key);
}

/// The hash of a text.
fn hash_of(key: &String) -> (h: u64)
    ensures
        h == text_hash(key@),
{
    let bytes = key.as_str().as_bytes();
    let mut h: u64 = 0xcbf2_9ce4_8422_2325;
    let mut i: usize = 0;
    proof {
        assert(bytes@.skip(0) =~= bytes@);
    }
    while i < bytes.len()
        invariant
            i <= bytes@.len(),
            bytes@ == encode_utf8(key@),
            text_hash(key@) == hash_bytes(bytes@.skip(i as int), h),
        decreases bytes.len() - i,
    {
        proof {
            assert(bytes@.skip(i as int).drop_first() =~= bytes@.skip(i + 1));
        }
        h = (h ^ (bytes[i] as u64)).wrapping_mul(0x100_0000_01b3);
        i = i + 1;
    }
    h
}

/// The place in a bucket of the entry with the key `key`, if there is one.
fn find_in<V>(entries: &Vec<TextEntry<V>>, key: &String) -> (r: Option<usize>)
    ensures
        match r {
            Some(i) => i < entries@.len() && entries@[i as int].key@ == key@,
            None => !has_key(entries@, key@),
        },
{
    let mut i: usize = 0;
    while i < entries.len()
        invariant
            i <= entries@.len(),
            forall|j: int| 0 <= j < i ==> entries@[j].key@ != key@,
        decreases entries.len() - i,
    {
        if entries[i].key == *key {
            return Some(i);
        }
        i = i + 1;
    }
    None
}

/// Puts `value` under `key` in a bucket, in place of what was there.
fn put_in<V>(entries: &mut Vec<TextEntry<V>>, key: String, value: V)
    requires
        keys_distinct(old(entries)@),
    ensures
        keys_distinct(final(entries)@),
        entries_map(final(entries)@) == entries_map(old(entries)@).insert(key@, value),
        forall|h: u64|
            keys_hash_to(old(entries)@, h) && text_hash(key@) == h ==> keys_hash_to(
                final(entries)@,
                h,
            ),
{
    let ghost before = entries@;
    let ghost k = key@;
    match find_in(entries, &key) {
        Some(i) => {
            entries[i] = TextEntry { key, value };
            proof {
                let after = entries@;
                assert forall|j: int| 0 <= j < after.len() implies #[trigger] after[j].key@
                    == before[j].key@ by {}
                assert(keys_distinct(after));
                assert forall|x: Seq<char>| has_key(after, x) == has_key(before, x) by {
                    if has_key(before, x) {
                        let p = place_of(before, x);
                        assert(after[p].key@ == x);
                    }
                    if has_key(after, x) {
                        let p = place_of(after, x);
                        assert(before[p].key@ == x);
                    }
                }
                lemma_place_of(before, i as int);
                lemma_place_of(after, i as int);
                assert forall|x: Seq<char>| has_key(after, x) implies entries_map(after)[x]
                    == entries_map(before).insert(k, value)[x] by {
                    let p = place_of(after, x);
                    lemma_place_of(after, p);
                    lemma_place_of(before, p);
                }
                assert(entries_map(after) =~= entries_map(before).insert(k, value));
            }
        },
        None => {
            entries.push(TextEntry { key, value });
            proof {
                let after = entries@;
                let n = before.len() as int;
                assert(after[n].key@ == k);
                assert forall|j: int| 0 <= j < n implies #[trigger] after[j].key@
                    == before[j].key@ by {}
                assert(keys_distinct(after));
                assert forall|x: Seq<char>| has_key(after, x) == (has_key(before, x) || x
                    == k) by {
                    if has_key(before, x) {
                        let p = place_of(before, x);
                        assert(after[p].key@ == x);
                    }
                    if has_key(after, x) {
                        let p = place_of(after, x);
                        if p < n {
                            assert(before[p].key@ == x);
                        }
                    }
                }
                assert forall|x: Seq<char>| has_key(after, x) implies entries_map(after)[x]
                    == entries_map(before).insert(k, value)[x] by {
                    let p = place_of(after, x);
                    lemma_place_of(after, p);
                    if p < n {
                        lemma_place_of(before, p);
                    }
                }
                assert(entries_map(after) =~= entries_map(before).insert(k, value));
            }
        },
    }
}

impl<V> TextMap<V> {
    /// What the map holds.
    pub closed spec fn view(&self) -> Map<Seq<char>, V> {
        buckets_map(self.buckets@)
    }

    /// The map is well formed: every key stands in the bucket of its hash, and
    /// no bucket holds a key twice.
    pub closed spec fn wf(&self) -> bool {
        forall|h: u64| #[trigger]
            self.buckets@.contains_key(h) ==> keys_distinct(self.buckets@[h]@) && keys_hash_to(
                self.buckets@[h]@,
                h,
            )
    }

    /// An empty map.
    pub fn new() -> (r: Self)
        ensures
            r.wf(),
            r@ == Map::<Seq<char>, V>::empty(),
    {
        let r = TextMap { buckets: HashMap::new() };
        assert(r@ =~= Map::<Seq<char>, V>::empty());
        r
    }

    /// The value under `key`, if the map has the key.
    pub fn get(&self, key: &String) -> (r: Option<&V>)
        requires
            self.wf(),
        ensures
            match r {
                Some(v) => self@.contains_key(key@) && *v == self@[key@],
                None => !self@.contains_key(key@),
            },
    {
        let h = hash_of(key);
        match self.buckets.get(&h) {
            Some(bucket) => {
                assert(self.buckets@.contains_key(h));
                match find_in(bucket, key) {
                    Some(i) => {
                        proof {
                            lemma_place_of(bucket@, i as int);
                        }
                        Some(&bucket[i].value)
                    },
                    None => None,
                }
            },
            None => None,
        }
    }

    /// Whether the map has `key`.
    pub fn contains_key(&self, key: &String) -> (r: bool)
        requires
            self.wf(),
        ensures
            r == self@.contains_key(key@),
    {
        self.get(key).is_some()
    }

    /// Puts `value` under `key`, in place of what was there.
    pub fn insert(&mut self, key: String, value: V)
        requires
            old(self).wf(),
        ensures
            final(self).wf(),
            final(self)@ == old(self)@.insert(key@, value),
    {
        let ghost before = self.buckets@;
        let ghost k = key@;
        let h = hash_of(&key);
        let mut bucket: Vec<TextEntry<V>> = match self.buckets.remove(&h) {
            Some(b) => b,
            None => Vec::new(),
        };
        proof {
            assert(bucket@ == bucket_at(before, h));
            if before.contains_key(h) {
                assert(keys_distinct(before[h]@) && keys_hash_to(before[h]@, h));
            }
        }
        put_in(&mut bucket, key, value);
        let ghost filled = bucket@;
        self.buckets.insert(h, bucket);
        proof {
            let after = self.buckets@;
            assert forall|g: u64| #[trigger] after.contains_key(g) implies keys_distinct(
                after[g]@,
            ) && keys_hash_to(after[g]@, g) by {
                if g != h {
                    assert(before.contains_key(g));
                }
            }
            assert forall|x: Seq<char>| text_hash(x) != h implies bucket_at(after, text_hash(x))
                == bucket_at(before, text_hash(x)) by {}
            assert(bucket_at(after, h) == filled);
            let old_bucket = bucket_at(before, h);
            let target = buckets_map(before).insert(k, value);
            assert forall|x: Seq<char>| buckets_map(after).contains_key(x)
                == target.contains_key(x) by {
                if text_hash(x) == h {
                    assert(entries_map(filled).contains_key(x) == entries_map(old_bucket).insert(
                        k,
                        value,
                    ).contains_key(x));
                }
            }
            assert forall|x: Seq<char>| buckets_map(after).contains_key(x) implies buckets_map(
                after,
            )[x] == target[x] by {
                assert(target.contains_key(x));
                if x == k {
                    assert(entries_map(filled)[x] == entries_map(old_bucket).insert(k, value)[x]);
                } else if text_hash(x) == h {
                    assert(entries_map(filled).contains_key(x));
                    assert(entries_map(old_bucket).insert(k, value).contains_key(x));
                    assert(entries_map(old_bucket).contains_key(x));
                    assert(entries_map(filled)[x] == entries_map(old_bucket).insert(k, value)[x]);
                    assert(buckets_map(before).contains_key(x));
                    assert(buckets_map(before)[x] == entries_map(old_bucket)[x]);
                } else {
                    assert(buckets_map(before).contains_key(x));
                }
            }
            assert(buckets_map(after) =~= target);
        }
    }
}

} // verus!
