//! Small keyed tables and sets that keep their keys distinct.

use crate::text::{owned, str_eq};
use vstd::prelude::*;
use vstd::string::*;

verus! {

// ---------------------------------------------------------------------------
// Tables
// ---------------------------------------------------------------------------
/// A table by text keys. Its entries keep the order of first insertion.
#[derive(Debug, PartialEq, Eq)]
pub struct Table<V> {
    pub entries: Vec<(String, V)>,
}

/// What entries hold under each key.
pub open spec fn mapping<V>(entries: Seq<(String, V)>) -> Map<Seq<char>, V>
    decreases entries.len(),
{
    if entries.len() == 0 {
        Map::empty()
    } else {
        mapping(entries.drop_last()).insert(entries.last().0@, entries.last().1)
    }
}

/// Entries without a key twice.
pub open spec fn distinct_keys<V>(entries: Seq<(String, V)>) -> bool {
    forall|i: int, j: int|
        0 <= i < j < entries.len() ==> (#[trigger] entries[i]).0@ != (#[trigger] entries[j]).0@
}

pub proof fn lemma_mapping<V>(entries: Seq<(String, V)>)
    requires
        distinct_keys(entries),
    ensures
        forall|k: Seq<char>| #[trigger]
            mapping(entries).dom().contains(k) <==> exists|i: int|
                0 <= i < entries.len() && (#[trigger] entries[i]).0@ == k,
        forall|i: int|
            0 <= i < entries.len() ==> mapping(entries)[(#[trigger] entries[i]).0@] == entries[i].1,
    decreases entries.len(),
{
    if entries.len() > 0 {
        let init = entries.drop_last();
        let last = entries.last();
        assert(distinct_keys(init)) by {
            assert forall|i: int, j: int| 0 <= i < j < init.len() implies (#[trigger] init[i]).0@
                != (#[trigger] init[j]).0@ by {
                assert(entries[i].0@ != entries[j].0@);
            }
        }
        lemma_mapping(init);
        assert(last == entries[entries.len() - 1]);
        assert forall|k: Seq<char>| #[trigger]
            mapping(entries).dom().contains(k) <==> exists|i: int|
                0 <= i < entries.len() && (#[trigger] entries[i]).0@ == k by {
            if mapping(entries).dom().contains(k) {
                if k == last.0@ {
                    assert(entries[entries.len() - 1].0@ == k);
                } else {
                    assert(mapping(init).dom().contains(k));
                    let w = choose|w: int| 0 <= w < init.len() && (#[trigger] init[w]).0@ == k;
                    assert(entries[w] == init[w]);
                }
            }
            if exists|i: int| 0 <= i < entries.len() && (#[trigger] entries[i]).0@ == k {
                let w = choose|w: int| 0 <= w < entries.len() && (#[trigger] entries[w]).0@ == k;
                if w < init.len() {
                    assert(init[w] == entries[w]);
                }
            }
        }
        assert forall|i: int| 0 <= i < entries.len() implies mapping(entries)[(
        #[trigger] entries[i]).0@] == entries[i].1 by {
            if i < init.len() {
                assert(init[i] == entries[i]);
                assert(entries[i].0@ != entries[entries.len() - 1].0@);
            }
        }
    }
}

proof fn lemma_mapping_update<V>(entries: Seq<(String, V)>, i: int, e: (String, V))
    requires
        distinct_keys(entries),
        0 <= i < entries.len(),
        entries[i].0@ == e.0@,
    ensures
        distinct_keys(entries.update(i, e)),
        mapping(entries.update(i, e)) == mapping(entries).insert(e.0@, e.1),
{
    let after = entries.update(i, e);
    assert forall|a: int, b: int| 0 <= a < b < after.len() implies (#[trigger] after[a]).0@ != (
    #[trigger] after[b]).0@ by {
        assert(entries[a].0@ != entries[b].0@);
    }
    lemma_mapping(entries);
    lemma_mapping(after);
    let want = mapping(entries).insert(e.0@, e.1);
    assert forall|k: Seq<char>| #[trigger] mapping(after).dom().contains(k) == want.dom().contains(
        k,
    ) by {
        if mapping(after).dom().contains(k) {
            let w = choose|w: int| 0 <= w < after.len() && (#[trigger] after[w]).0@ == k;
            assert(entries[w].0@ == k);
        }
        if want.dom().contains(k) {
            if k == e.0@ {
                assert(after[i].0@ == k);
            } else {
                let w = choose|w: int| 0 <= w < entries.len() && (#[trigger] entries[w]).0@ == k;
                assert(after[w].0@ == k);
            }
        }
    }
    assert forall|k: Seq<char>| #[trigger] mapping(after).dom().contains(k) implies mapping(after)[k]
        == want[k] by {
        let w = choose|w: int| 0 <= w < after.len() && (#[trigger] after[w]).0@ == k;
        if w != i {
            assert(entries[w] == after[w]);
            if w < i {
                assert(entries[w].0@ != entries[i].0@);
            } else {
                assert(entries[i].0@ != entries[w].0@);
            }
        }
    }
    assert(mapping(after) =~= want);
}

impl<V> View for Table<V> {
    type V = Map<Seq<char>, V>;

    open spec fn view(&self) -> Map<Seq<char>, V> {
        mapping(self.entries@)
    }
}

impl<V> Table<V> {
    /// No key occurs twice.
    pub open spec fn wf(self) -> bool {
        distinct_keys(self.entries@)
    }

    /// An empty table.
    pub fn new() -> (r: Table<V>)
        ensures
            r.wf(),
            r@ == Map::<Seq<char>, V>::empty(),
    {
        Table { entries: Vec::new() }
    }

    fn position(&self, key: &str) -> (r: Option<usize>)
        ensures
            match r {
                Some(i) => i < self.entries@.len() && self.entries@[i as int].0@ == key@,
                None => forall|i: int|
                    0 <= i < self.entries@.len() ==> (#[trigger] self.entries@[i]).0@ != key@,
            },
    {
        let mut i: usize = 0;
        while i < self.entries.len()
            invariant
                i <= self.entries@.len(),
                forall|k: int| 0 <= k < i ==> (#[trigger] self.entries@[k]).0@ != key@,
            decreases self.entries@.len() - i,
        {
            if str_eq(self.entries[i].0.as_str(), key) {
                return Some(i);
            }
            i = i + 1;
        }
        None
    }

    /// What stands under a key.
    pub fn get(&self, key: &str) -> (r: Option<&V>)
        requires
            self.wf(),
        ensures
            match r {
                Some(v) => self@.dom().contains(key@) && self@[key@] == *v,
                None => !self@.dom().contains(key@),
            },
    {
        proof {
            lemma_mapping(self.entries@);
        }
        match self.position(key) {
            Some(i) => Some(&self.entries[i].1),
            None => None,
        }
    }

    /// Whether something stands under a key.
    pub fn contains_key(&self, key: &str) -> (r: bool)
        requires
            self.wf(),
        ensures
            r == self@.dom().contains(key@),
    {
        self.get(key).is_some()
    }

    /// Puts a value under a key.
    pub fn insert(&mut self, key: &str, value: V)
        requires
            old(self).wf(),
        ensures
            final(self).wf(),
            final(self)@ == old(self)@.insert(key@, value),
    {
        let e = (owned(key), value);
        let ghost before = self.entries@;
        match self.position(key) {
            Some(i) => {
                proof {
                    lemma_mapping_update(before, i as int, e);
                }
                self.entries.set(i, e);
            },
            None => {
                self.entries.push(e);
                assert(self.entries@.drop_last() =~= before);
            },
        }
    }
}

// ---------------------------------------------------------------------------
// Sets of texts
// ---------------------------------------------------------------------------
/// A set of texts.
#[derive(Debug, PartialEq, Eq)]
pub struct NameSet {
    pub items: Vec<String>,
}

impl View for NameSet {
    type V = Set<Seq<char>>;

    open spec fn view(&self) -> Set<Seq<char>> {
        Set::new(|k: Seq<char>| holds_name(self.items@, k))
    }
}

/// Whether a text is among the items.
pub open spec fn holds_name(items: Seq<String>, k: Seq<char>) -> bool {
    exists|i: int| 0 <= i < items.len() && (#[trigger] items[i])@ == k
}

/// A set with a member added where it was missing, or removed where it was
/// there.
pub open spec fn toggled<T>(s: Set<T>, x: T) -> Set<T> {
    if s.contains(x) {
        s.remove(x)
    } else {
        s.insert(x)
    }
}

/// Toggling twice changes nothing.
pub proof fn law_toggle_twice_is_identity<T>(s: Set<T>, x: T)
    ensures
        toggled(toggled(s, x), x) == s,
{
    assert(toggled(toggled(s, x), x) =~= s);
}

impl NameSet {
    /// No text occurs twice.
    pub open spec fn wf(self) -> bool {
        forall|i: int, j: int|
            0 <= i < j < self.items@.len() ==> (#[trigger] self.items@[i])@ != (
            #[trigger] self.items@[j])@
    }

    /// The empty set.
    pub fn new() -> (r: NameSet)
        ensures
            r.wf(),
            r@ == Set::<Seq<char>>::empty(),
    {
        let r = NameSet { items: Vec::new() };
        assert(r@ =~= Set::<Seq<char>>::empty());
        r
    }

    fn position(&self, name: &str) -> (r: Option<usize>)
        ensures
            match r {
                Some(i) => i < self.items@.len() && self.items@[i as int]@ == name@,
                None => forall|i: int|
                    0 <= i < self.items@.len() ==> (#[trigger] self.items@[i])@ != name@,
            },
    {
        let mut i: usize = 0;
        while i < self.items.len()
            invariant
                i <= self.items@.len(),
                forall|k: int| 0 <= k < i ==> (#[trigger] self.items@[k])@ != name@,
            decreases self.items@.len() - i,
        {
            if str_eq(self.items[i].as_str(), name) {
                return Some(i);
            }
            i = i + 1;
        }
        None
    }

    /// Whether a text is a member.
    pub fn contains(&self, name: &str) -> (r: bool)
        ensures
            r == self@.contains(name@),
    {
        match self.position(name) {
            Some(i) => {
                assert(self.items@[i as int]@ == name@);
                true
            },
            None => false,
        }
    }

    /// Adds a text where it is missing, removes it where it is there.
    pub fn toggle(&mut self, name: &str)
        requires
            old(self).wf(),
        ensures
            final(self).wf(),
            final(self)@ == toggled(old(self)@, name@),
    {
        let ghost before = self.items@;
        match self.position(name) {
            Some(i) => {
                let _ = self.items.remove(i);
                proof {
                    let after = self.items@;
                    assert(before[i as int]@ == name@);
                    assert forall|a: int, b: int| 0 <= a < b < after.len() implies (
                    #[trigger] after[a])@ != (#[trigger] after[b])@ by {
                        let oa = if a < i {
                            a
                        } else {
                            a + 1
                        };
                        let ob = if b < i {
                            b
                        } else {
                            b + 1
                        };
                        assert(before[oa]@ != before[ob]@);
                    }
                    assert forall|k: Seq<char>| holds_name(after, k) == (holds_name(before, k) && k
                        != name@) by {
                        if holds_name(after, k) {
                            let w = choose|w: int| 0 <= w < after.len() && (#[trigger] after[w])@
                                == k;
                            let ow = if w < i {
                                w
                            } else {
                                w + 1
                            };
                            assert(before[ow]@ == k);
                            if ow < i {
                                assert(before[ow]@ != before[i as int]@);
                            } else {
                                assert(before[i as int]@ != before[ow]@);
                            }
                        }
                        if holds_name(before, k) && k != name@ {
                            let w = choose|w: int| 0 <= w < before.len() && (#[trigger] before[w])@
                                == k;
                            let nw = if w < i {
                                w
                            } else {
                                w - 1
                            };
                            assert(after[nw]@ == k);
                        }
                    }
                    assert(self@ =~= toggled(old(self)@, name@));
                }
            },
            None => {
                self.items.push(owned(name));
                proof {
                    let after = self.items@;
                    assert(!holds_name(before, name@));
                    assert forall|k: Seq<char>| holds_name(after, k) == (holds_name(before, k) || k
                        == name@) by {
                        if holds_name(after, k) {
                            let w = choose|w: int| 0 <= w < after.len() && (#[trigger] after[w])@
                                == k;
                            if w < before.len() {
                                assert(before[w]@ == k);
                            }
                        }
                        if holds_name(before, k) {
                            let w = choose|w: int| 0 <= w < before.len() && (#[trigger] before[w])@
                                == k;
                            assert(after[w]@ == k);
                        }
                        if k == name@ {
                            assert(after[before.len() as int]@ == k);
                        }
                    }
                    assert(self@ =~= toggled(old(self)@, name@));
                }
            },
        }
    }
}

// ---------------------------------------------------------------------------
// Sets of numbers
// ---------------------------------------------------------------------------
/// A set of numbers.
#[derive(Debug, PartialEq, Eq)]
pub struct IdSet {
    pub items: Vec<u64>,
}

impl View for IdSet {
    type V = Set<u64>;

    open spec fn view(&self) -> Set<u64> {
        self.items@.to_set()
    }
}

impl IdSet {
    /// No number occurs twice.
    pub open spec fn wf(self) -> bool {
        self.items@.no_duplicates()
    }

    /// The empty set.
    pub fn new() -> (r: IdSet)
        ensures
            r.wf(),
            r@ == Set::<u64>::empty(),
    {
        let r = IdSet { items: Vec::new() };
        assert(r@ =~= Set::<u64>::empty());
        r
    }

    /// Empties the set.
    pub fn clear(&mut self)
        ensures
            final(self).wf(),
            final(self)@ == Set::<u64>::empty(),
    {
        self.items.clear();
        assert(self@ =~= Set::<u64>::empty());
    }

    fn position(&self, id: u64) -> (r: Option<usize>)
        ensures
            match r {
                Some(i) => i < self.items@.len() && self.items@[i as int] == id,
                None => !self.items@.contains(id),
            },
    {
        let mut i: usize = 0;
        while i < self.items.len()
            invariant
                i <= self.items@.len(),
                forall|k: int| 0 <= k < i ==> #[trigger] self.items@[k] != id,
            decreases self.items@.len() - i,
        {
            if self.items[i] == id {
                return Some(i);
            }
            i = i + 1;
        }
        None
    }

    /// Whether a number is a member.
    pub fn contains(&self, id: u64) -> (r: bool)
        ensures
            r == self@.contains(id),
    {
        match self.position(id) {
            Some(i) => {
                assert(self.items@.contains(self.items@[i as int]));
                true
            },
            None => false,
        }
    }

    /// Removes a number.
    pub fn remove(&mut self, id: u64)
        requires
            old(self).wf(),
        ensures
            final(self).wf(),
            final(self)@ == old(self)@.remove(id),
    {
        let ghost before = self.items@;
        match self.position(id) {
            Some(i) => {
                let _ = self.items.remove(i);
                proof {
                    lemma_remove_at(before, i as int);
                }
            },
            None => {
                assert(self@ =~= old(self)@.remove(id));
            },
        }
    }

    /// Adds a number where it is missing, removes it where it is there.
    pub fn toggle(&mut self, id: u64)
        requires
            old(self).wf(),
        ensures
            final(self).wf(),
            final(self)@ == toggled(old(self)@, id),
    {
        let ghost before = self.items@;
        match self.position(id) {
            Some(i) => {
                let _ = self.items.remove(i);
                proof {
                    assert(before.contains(before[i as int]));
                    lemma_remove_at(before, i as int);
                }
            },
            None => {
                self.items.push(id);
                proof {
                    let after = self.items@;
                    assert forall|k: u64| #[trigger] after.contains(k) == (before.contains(k) || k
                        == id) by {
                        if before.contains(k) {
                            let w = choose|w: int| 0 <= w < before.len() && before[w] == k;
                            assert(after[w] == k);
                        }
                        if k == id {
                            assert(after[before.len() as int] == k);
                        }
                        if after.contains(k) && k != id {
                            let w = choose|w: int| 0 <= w < after.len() && after[w] == k;
                            assert(before[w] == k);
                        }
                    }
                    assert(self@ =~= toggled(old(self)@, id));
                }
            },
        }
    }
}

proof fn lemma_remove_at(s: Seq<u64>, i: int)
    requires
        s.no_duplicates(),
        0 <= i < s.len(),
    ensures
        s.remove(i).no_duplicates(),
        s.remove(i).to_set() == s.to_set().remove(s[i]),
{
    let after = s.remove(i);
    assert forall|k: u64| #[trigger] after.contains(k) == (s.contains(k) && k != s[i]) by {
        if after.contains(k) {
            let w = choose|w: int| 0 <= w < after.len() && after[w] == k;
            if w < i {
                assert(s[w] == k);
            } else {
                assert(s[w + 1] == k);
            }
        }
        if s.contains(k) && k != s[i] {
            let w = choose|w: int| 0 <= w < s.len() && s[w] == k;
            if w < i {
                assert(after[w] == k);
            } else {
                assert(after[w - 1] == k);
            }
        }
    }
    assert(after.to_set() =~= s.to_set().remove(s[i]));
}

/// What was put under a key is found there, and what stands under other keys
/// stays.
pub proof fn law_tables_give_back_what_was_put<V>(
    t: &mut Table<V>,
    key: &str,
    value: V,
    other: Seq<char>,
)
    requires
        call_ensures(Table::<V>::insert, (t, key, value), ()),
        other != key@,
    ensures
        final(t)@.contains_key(key@),
        final(t)@[key@] == value,
        final(t)@.contains_key(other) <==> old(t)@.contains_key(other),
        old(t)@.contains_key(other) ==> final(t)@[other] == old(t)@[other],
{
}

/// A key is found exactly where an entry has it, with the value of that entry.
pub proof fn law_tables_find_their_entries<V>(t: &Table<V>, key: &str, r: Option<&V>, has: bool)
    requires
        call_ensures(Table::<V>::get, (t, key), r),
        call_ensures(Table::<V>::contains_key, (t, key), has),
        t.wf(),
    ensures
        has <==> r is Some,
        r is Some <==> exists|i: int|
            0 <= i < t.entries@.len() && (#[trigger] t.entries@[i]).0@ == key@,
        forall|i: int|
            0 <= i < t.entries@.len() && (#[trigger] t.entries@[i]).0@ == key@ ==> r == Some(
                &t.entries@[i].1,
            ),
{
    lemma_mapping(t.entries@);
}

/// A toggle puts in what was not there and takes out what was.
pub proof fn law_toggles_change_one_member(
    s: &mut NameSet,
    n: &mut IdSet,
    name: &str,
    other: Seq<char>,
    id: u64,
    other_id: u64,
)
    requires
        call_ensures(NameSet::toggle, (s, name), ()),
        call_ensures(IdSet::toggle, (n, id), ()),
        other != name@,
        other_id != id,
    ensures
        holds_name(final(s).items@, name@) <==> !holds_name(old(s).items@, name@),
        holds_name(final(s).items@, other) <==> holds_name(old(s).items@, other),
        final(n).items@.contains(id) <==> !old(n).items@.contains(id),
        final(n).items@.contains(other_id) <==> old(n).items@.contains(other_id),
{
    assert(final(s)@.contains(name@) == holds_name(final(s).items@, name@));
    assert(s@.contains(name@) == holds_name(s.items@, name@));
    assert(final(s)@.contains(other) == holds_name(final(s).items@, other));
    assert(s@.contains(other) == holds_name(s.items@, other));
    assert(final(n)@.contains(id) == final(n).items@.contains(id));
    assert(n@.contains(id) == n.items@.contains(id));
    assert(final(n)@.contains(other_id) == final(n).items@.contains(other_id));
    assert(n@.contains(other_id) == n.items@.contains(other_id));
}

/// A set holds what is among its items, and no longer what was taken out.
pub proof fn law_sets_hold_their_items(
    s: &NameSet,
    n: &IdSet,
    m: &mut IdSet,
    c: &mut IdSet,
    name: &str,
    id: u64,
    other: u64,
    has_name: bool,
    has_id: bool,
)
    requires
        call_ensures(NameSet::contains, (s, name), has_name),
        call_ensures(IdSet::contains, (n, id), has_id),
        call_ensures(IdSet::remove, (m, id), ()),
        call_ensures(IdSet::clear, (c,), ()),
        other != id,
    ensures
        has_name <==> exists|i: int| 0 <= i < s.items@.len() && (#[trigger] s.items@[i])@ == name@,
        has_id <==> n.items@.contains(id),
        !final(m).items@.contains(id),
        final(m).items@.contains(other) <==> old(m).items@.contains(other),
        !final(c).items@.contains(id),
{
    assert(has_name == holds_name(s.items@, name@));
    assert(final(m)@.contains(id) == final(m).items@.contains(id));
    assert(final(m)@.contains(other) == final(m).items@.contains(other));
    assert(m@.contains(other) == m.items@.contains(other));
    assert(final(c)@.contains(id) == final(c).items@.contains(id));
}

} // verus!
