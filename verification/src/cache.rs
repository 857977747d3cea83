//! A memo cache of parse results by key and content hash.

use crate::text::{owned, str_eq};
use std::sync::Arc;
use vstd::prelude::*;
use vstd::string::*;

verus! {

/// One remembered result.
pub struct CacheEntry<V> {
    pub key: String,
    pub hash: u64,
    pub value: Arc<V>,
}

/// Results by key. A hit needs the same key and the same content hash. Short
/// contents are not kept, and a full cache is cleared as a whole.
pub struct MemoCache<V> {
    pub entries: Vec<CacheEntry<V>>,
    pub cap: usize,
    pub min_len: usize,
}

/// What an entry holds.
pub open spec fn held<V>(e: CacheEntry<V>) -> (u64, V) {
    (e.hash, *e.value)
}

/// What a cache remembers under each key.
pub open spec fn remembered<V>(entries: Seq<CacheEntry<V>>) -> Map<Seq<char>, (u64, V)>
    decreases entries.len(),
{
    if entries.len() == 0 {
        Map::empty()
    } else {
        let e = entries.last();
        remembered(entries.drop_last()).insert(e.key@, held(e))
    }
}

/// `Arc::clone`: another handle to the same value.
#[verifier::external_body]
pub(crate) fn share<V>(v: &Arc<V>) -> (r: Arc<V>)
    ensures
        r == *v,
{
    Arc::clone(v)
}

proof fn lemma_remembered<V>(entries: Seq<CacheEntry<V>>)
    requires
        forall|i: int, j: int|
            0 <= i < j < entries.len() ==> (#[trigger] entries[i]).key@ != (
            #[trigger] entries[j]).key@,
    ensures
        remembered(entries).dom().finite(),
        remembered(entries).dom().len() == entries.len(),
        forall|k: Seq<char>| #[trigger]
            remembered(entries).dom().contains(k) <==> exists|i: int|
                0 <= i < entries.len() && (#[trigger] entries[i]).key@ == k,
        forall|i: int|
            0 <= i < entries.len() ==> remembered(entries)[(#[trigger] entries[i]).key@] == held(
                entries[i],
            ),
    decreases entries.len(),
{
    if entries.len() > 0 {
        let init = entries.drop_last();
        let last = entries.last();
        lemma_remembered(init);
        assert(last == entries[entries.len() - 1]);
        assert(!remembered(init).dom().contains(last.key@)) by {
            if remembered(init).dom().contains(last.key@) {
                let w = choose|w: int| 0 <= w < init.len()
                    && (#[trigger] init[w]).key@ == last.key@;
                assert(entries[w] == init[w]);
            }
        }
        assert forall|k: Seq<char>| #[trigger]
            remembered(entries).dom().contains(k) <==> exists|i: int|
                0 <= i < entries.len() && (#[trigger] entries[i]).key@ == k by {
            if remembered(entries).dom().contains(k) {
                if k == last.key@ {
                    assert(entries[entries.len() - 1].key@ == k);
                } else {
                    assert(remembered(init).dom().contains(k));
                    let w = choose|w: int| 0 <= w < init.len() && (#[trigger] init[w]).key@ == k;
                    assert(entries[w] == init[w]);
                }
            }
            if exists|i: int| 0 <= i < entries.len() && (#[trigger] entries[i]).key@ == k {
                let w = choose|w: int| 0 <= w < entries.len() && (#[trigger] entries[w]).key@ == k;
                if w < init.len() {
                    assert(init[w] == entries[w]);
                }
            }
        }
        assert forall|i: int| 0 <= i < entries.len() implies remembered(entries)[(
        #[trigger] entries[i]).key@] == held(entries[i]) by {
            if i < init.len() {
                assert(init[i] == entries[i]);
                assert(entries[i].key@ != entries[entries.len() - 1].key@);
            }
        }
    }
}

impl<V> View for MemoCache<V> {
    type V = Map<Seq<char>, (u64, V)>;

    open spec fn view(&self) -> Map<Seq<char>, (u64, V)> {
        remembered(self.entries@)
    }
}

impl<V> MemoCache<V> {
    /// No key occurs twice.
    pub open spec fn wf(self) -> bool {
        forall|i: int, j: int|
            0 <= i < j < self.entries@.len() ==> (#[trigger] self.entries@[i]).key@ != (
            #[trigger] self.entries@[j]).key@
    }

    /// An empty cache. At `cap` entries it is cleared before the next one;
    /// contents shorter than `min_len` are not kept.
    pub fn new(cap: usize, min_len: usize) -> (r: MemoCache<V>)
        ensures
            r.wf(),
            r@ == Map::<Seq<char>, (u64, V)>::empty(),
            r.cap == cap,
            r.min_len == min_len,
    {
        MemoCache { entries: Vec::new(), cap, min_len }
    }

    fn position(&self, key: &str) -> (r: Option<usize>)
        ensures
            match r {
                Some(i) => i < self.entries@.len() && self.entries@[i as int].key@ == key@,
                None => forall|i: int|
                    0 <= i < self.entries@.len() ==> (#[trigger] self.entries@[i]).key@ != key@,
            },
    {
        let mut i: usize = 0;
        while i < self.entries.len()
            invariant
                i <= self.entries@.len(),
                forall|k: int| 0 <= k < i ==> (#[trigger] self.entries@[k]).key@ != key@,
            decreases self.entries@.len() - i,
        {
            if str_eq(self.entries[i].key.as_str(), key) {
                return Some(i);
            }
            i = i + 1;
        }
        None
    }

    /// What is remembered under a key, where the hash is the same.
    pub fn get(&self, key: &str, hash: u64) -> (r: Option<Arc<V>>)
        requires
            self.wf(),
        ensures
            match r {
                Some(v) => self@.dom().contains(key@) && self@[key@] == (hash, *v),
                None => !self@.dom().contains(key@) || self@[key@].0 != hash,
            },
    {
        proof {
            lemma_remembered(self.entries@);
        }
        match self.position(key) {
            Some(i) => {
                if self.entries[i].hash == hash {
                    Some(share(&self.entries[i].value))
                } else {
                    None
                }
            },
            None => None,
        }
    }

    /// Remembers a result for a content of `len` bytes.
    pub fn put(&mut self, key: &str, hash: u64, value: Arc<V>, len: usize)
        requires
            old(self).wf(),
        ensures
            final(self).wf(),
            final(self).cap == old(self).cap,
            final(self).min_len == old(self).min_len,
            final(self)@ == (if len < old(self).min_len {
                old(self)@
            } else if old(self)@.dom().len() >= old(self).cap {
                Map::empty().insert(key@, (hash, *value))
            } else {
                old(self)@.insert(key@, (hash, *value))
            }),
    {
        if len < self.min_len {
            return ;
        }
        proof {
            lemma_remembered(self.entries@);
        }
        if self.entries.len() >= self.cap {
            self.entries.clear();
        }
        let ghost before = self.entries@;
        proof {
            lemma_remembered(before);
        }
        let entry = CacheEntry { key: owned(key), hash, value };
        match self.position(key) {
            Some(i) => {
                self.entries.set(i, entry);
                proof {
                    lemma_remembered(self.entries@);
                    lemma_replaced(before, self.entries@, i as int, entry);
                }
            },
            None => {
                self.entries.push(entry);
                assert(self.entries@.drop_last() =~= before);
            },
        }
    }
}

proof fn lemma_replaced<V>(
    before: Seq<CacheEntry<V>>,
    after: Seq<CacheEntry<V>>,
    i: int,
    e: CacheEntry<V>,
)
    requires
        0 <= i < before.len(),
        after == before.update(i, e),
        before[i].key@ == e.key@,
        forall|a: int, b: int|
            0 <= a < b < before.len()
                ==> (#[trigger] before[a]).key@ != (#[trigger] before[b]).key@,
    ensures
        remembered(after) == remembered(before).insert(e.key@, held(e)),
{
    assert forall|a: int, b: int| 0 <= a < b < after.len() implies (#[trigger] after[a]).key@ != (
    #[trigger] after[b]).key@ by {
        assert(before[a].key@ != before[b].key@);
    }
    lemma_remembered(before);
    lemma_remembered(after);
    let want = remembered(before).insert(e.key@, held(e));
    assert forall|k: Seq<char>| #[trigger] remembered(after).dom().contains(k)
        == want.dom().contains(
        k,
    ) by {
        if remembered(after).dom().contains(k) {
            let w = choose|w: int| 0 <= w < after.len() && (#[trigger] after[w]).key@ == k;
            assert(before[w].key@ == k);
        }
        if want.dom().contains(k) && k != e.key@ {
            let w = choose|w: int| 0 <= w < before.len() && (#[trigger] before[w]).key@ == k;
            assert(after[w].key@ == k);
        }
        if k == e.key@ {
            assert(after[i].key@ == k);
        }
    }
    assert forall|k: Seq<char>| #[trigger] remembered(after).dom().contains(k) implies remembered(
        after,
    )[k] == want[k] by {
        let w = choose|w: int| 0 <= w < after.len() && (#[trigger] after[w]).key@ == k;
        if w == i {
        } else {
            assert(before[w] == after[w]);
            assert(k != e.key@) by {
                if w < i {
                    assert(before[w].key@ != before[i].key@);
                } else {
                    assert(before[i].key@ != before[w].key@);
                }
            }
        }
    }
    assert(remembered(after) =~= want);
}

/// What was put is got back with the same key and hash, and not with another
/// hash. A text that is too short is not kept.
pub proof fn law_cache_gives_back_what_was_put<V>(
    c: &mut MemoCache<V>,
    key: &str,
    hash: u64,
    other_hash: u64,
    value: Arc<V>,
    len: usize,
    found: Option<Arc<V>>,
    missed: Option<Arc<V>>,
)
    requires
        call_ensures(MemoCache::<V>::put, (c, key, hash, value, len), ()),
        call_ensures(MemoCache::<V>::get, (&*final(c), key, hash), found),
        call_ensures(MemoCache::<V>::get, (&*final(c), key, other_hash), missed),
        other_hash != hash,
    ensures
        len >= old(c).min_len ==> (found matches Some(v) && *v == *value),
        len >= old(c).min_len ==> missed is None,
        len < old(c).min_len ==> final(c)@ == old(c)@,
{
}

/// A full cache is emptied before something is put into it; one that is not
/// full keeps what it holds.
pub proof fn law_a_full_cache_is_emptied<V>(
    c: &mut MemoCache<V>,
    key: &str,
    hash: u64,
    value: Arc<V>,
    len: usize,
    other: Seq<char>,
)
    requires
        call_ensures(MemoCache::<V>::put, (c, key, hash, value, len), ()),
        c.wf(),
        len >= c.min_len,
        other != key@,
    ensures
        old(c).entries@.len() >= old(c).cap ==> !final(c)@.contains_key(other),
        old(c).entries@.len() < old(c).cap ==> (final(c)@.contains_key(other)
            <==> old(c)@.contains_key(other)),
        old(c).entries@.len() < old(c).cap && old(c)@.contains_key(other) ==> final(c)@[other]
            == old(c)@[other],
{
    lemma_remembered(c.entries@);
}

} // verus!
