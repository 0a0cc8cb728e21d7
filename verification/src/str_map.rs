use vstd::prelude::*;

use crate::text::str_eq;

verus! {

/// The map that a list of entries stands for: each key to the value of its
/// last entry.
pub open spec fn map_of<V>(entries: Seq<(Seq<char>, V)>) -> Map<Seq<char>, V>
    decreases entries.len(),
{
    if entries.len() == 0 {
        Map::empty()
    } else {
        map_of(entries.drop_last()).insert(entries.last().0, entries.last().1)
    }
}

/// No key occurs twice among the entries.
pub open spec fn keys_distinct<V>(entries: Seq<(Seq<char>, V)>) -> bool {
    forall|i: int, j: int|
        0 <= i < entries.len() && 0 <= j < entries.len() && i != j ==> #[trigger] entries[i].0
            != #[trigger] entries[j].0
}

/// The entries before `n` have distinct keys too.
proof fn lemma_keys_distinct_prefix<V>(entries: Seq<(Seq<char>, V)>, n: int)
    requires
        keys_distinct(entries),
        0 <= n <= entries.len(),
    ensures
        keys_distinct(entries.take(n)),
{
    let t = entries.take(n);
    assert forall|a: int, b: int|
        0 <= a < t.len() && 0 <= b < t.len() && a != b implies #[trigger] t[a].0
        != #[trigger] t[b].0 by {
        assert(t[a] == entries[a] && t[b] == entries[b]);
    }
}

/// A key of the entries is a key of their map, and only those are.
pub proof fn lemma_map_of_dom<V>(entries: Seq<(Seq<char>, V)>, k: Seq<char>)
    ensures
        map_of(entries).contains_key(k) <==> exists|i: int|
            0 <= i < entries.len() && #[trigger] entries[i].0 == k,
    decreases entries.len(),
{
    if entries.len() > 0 {
        let init = entries.drop_last();
        lemma_map_of_dom(init, k);
        if map_of(entries).contains_key(k) {
            if k == entries.last().0 {
                assert(entries[entries.len() - 1].0 == k);
            } else {
                let i = choose|i: int| 0 <= i < init.len() && #[trigger] init[i].0 == k;
                assert(entries[i].0 == k);
            }
        }
        if exists|i: int| 0 <= i < entries.len() && #[trigger] entries[i].0 == k {
            let i = choose|i: int| 0 <= i < entries.len() && #[trigger] entries[i].0 == k;
            if i < entries.len() - 1 {
                assert(init[i].0 == k);
            }
        }
    }
}

/// With distinct keys, each entry's key maps to the entry's value.
pub proof fn lemma_map_of_value<V>(entries: Seq<(Seq<char>, V)>, i: int)
    requires
        keys_distinct(entries),
        0 <= i < entries.len(),
    ensures
        map_of(entries).contains_key(entries[i].0),
        map_of(entries)[entries[i].0] == entries[i].1,
    decreases entries.len(),
{
    if i < entries.len() - 1 {
        let init = entries.drop_last();
        assert(init[i] == entries[i]);
        lemma_keys_distinct_prefix(entries, init.len() as int);
        lemma_map_of_value(init, i);
        assert(entries[entries.len() - 1].0 != entries[i].0);
    }
}

proof fn lemma_map_of_update<V>(entries: Seq<(Seq<char>, V)>, i: int, v: V)
    requires
        keys_distinct(entries),
        0 <= i < entries.len(),
    ensures
        map_of(entries.update(i, (entries[i].0, v))) == map_of(entries).insert(entries[i].0, v),
    decreases entries.len(),
{
    let k = entries[i].0;
    let upd = entries.update(i, (k, v));
    if i == entries.len() - 1 {
        assert(upd.drop_last() =~= entries.drop_last());
        assert(map_of(upd) =~= map_of(entries).insert(k, v));
    } else {
        let init = entries.drop_last();
        assert(upd.drop_last() =~= init.update(i, (k, v)));
        lemma_keys_distinct_prefix(entries, init.len() as int);
        lemma_map_of_update(init, i, v);
        assert(entries[entries.len() - 1].0 != k);
        assert(upd.last() == entries.last());
        assert(map_of(upd) =~= map_of(entries).insert(k, v));
    }
}

proof fn lemma_map_of_len<V>(es: Seq<(Seq<char>, V)>)
    requires
        keys_distinct(es),
    ensures
        map_of(es).dom().finite(),
        map_of(es).len() == es.len(),
    decreases es.len(),
{
    if es.len() > 0 {
        let init = es.drop_last();
        lemma_keys_distinct_prefix(es, init.len() as int);
        lemma_map_of_len(init);
        lemma_map_of_dom(init, es.last().0);
        if map_of(init).contains_key(es.last().0) {
            let i = choose|i: int| 0 <= i < init.len() && #[trigger] init[i].0 == es.last().0;
            assert(es[i].0 == es[es.len() - 1].0);
        }
    }
}

/// `m` with the entries `es` put in, in order, a later entry of a key taking
/// the place of an earlier one.
pub open spec fn insert_all<V>(m: Map<Seq<char>, V>, es: Seq<(Seq<char>, V)>) -> Map<Seq<char>, V>
    decreases es.len(),
{
    if es.len() == 0 {
        m
    } else {
        insert_all(m, es.drop_last()).insert(es.last().0, es.last().1)
    }
}

/// The keys of the entries `es`.
pub open spec fn keys_of<V>(es: Seq<(Seq<char>, V)>) -> Set<Seq<char>> {
    Set::new(|k: Seq<char>| exists|i: int| 0 <= i < es.len() && #[trigger] es[i].0 == k)
}

/// Putting entries into a map keeps every key it had and adds exactly the
/// keys of the entries; a key takes the value of its last entry.
pub proof fn law_insert_all_keys<V>(m: Map<Seq<char>, V>, es: Seq<(Seq<char>, V)>)
    ensures
        insert_all(m, es).dom() == m.dom().union(keys_of(es)),
        forall|i: int|
            0 <= i < es.len() && (forall|j: int| i < j < es.len() ==> es[j].0 != es[i].0)
                ==> #[trigger] insert_all(m, es)[es[i].0] == es[i].1,
        forall|k: Seq<char>|
            m.contains_key(k) && !keys_of(es).contains(k) ==> #[trigger] insert_all(m, es)[k]
                == m[k],
    decreases es.len(),
{
    if es.len() > 0 {
        let init = es.drop_last();
        law_insert_all_keys(m, init);
        assert forall|k: Seq<char>| #[trigger] keys_of(es).contains(k) == (keys_of(init).contains(
            k,
        ) || k == es.last().0) by {
            if keys_of(es).contains(k) {
                let i = choose|i: int| 0 <= i < es.len() && #[trigger] es[i].0 == k;
                if i < init.len() {
                    assert(init[i] == es[i]);
                }
            }
            if keys_of(init).contains(k) {
                let i = choose|i: int| 0 <= i < init.len() && #[trigger] init[i].0 == k;
                assert(es[i] == init[i]);
            }
            if k == es.last().0 {
                assert(es[es.len() - 1].0 == k);
            }
        }
        assert(insert_all(m, es).dom() =~= m.dom().union(keys_of(es)));
        assert forall|i: int|
            0 <= i < es.len() && (forall|j: int| i < j < es.len() ==> es[j].0 != es[i].0)
            implies #[trigger] insert_all(m, es)[es[i].0] == es[i].1 by {
            if i < es.len() - 1 {
                assert(init[i] == es[i]);
                assert(es[es.len() - 1].0 != es[i].0);
                assert forall|j: int| i < j < init.len() implies init[j].0 != init[i].0 by {
                    assert(init[j] == es[j]);
                }
            }
        }
        assert forall|k: Seq<char>|
            m.contains_key(k) && !keys_of(es).contains(k) implies #[trigger] insert_all(m, es)[k]
            == m[k] by {
            assert(!keys_of(init).contains(k));
        }
    }
}

/// A map from strings to values, kept as a list of entries in which no key
/// occurs twice.
pub struct StrMap<V: View> {
    entries: Vec<(String, V)>,
}

impl<V: View> StrMap<V> {
    /// The entries, in the order in which the map holds them.
    pub closed spec fn entry_seq(&self) -> Seq<(Seq<char>, V::V)> {
        Seq::new(self.entries.len() as nat, |i: int| (self.entries@[i].0@, self.entries@[i].1@))
    }

    #[verifier::type_invariant]
    spec fn wf(&self) -> bool {
        keys_distinct(self.entry_seq())
    }

    /// An empty map.
    pub fn new() -> (m: Self)
        ensures
            m@ == Map::<Seq<char>, V::V>::empty(),
            m.entry_seq() == Seq::<(Seq<char>, V::V)>::empty(),
    {
        let m = StrMap { entries: Vec::new() };
        assert(m.entry_seq() =~= Seq::<(Seq<char>, V::V)>::empty());
        m
    }

    /// How many entries the map holds.
    pub fn len(&self) -> (n: usize)
        ensures
            n == self.entry_seq().len(),
            n == self@.len(),
    {
        proof {
            use_type_invariant(self);
            lemma_map_of_len(self.entry_seq());
        }
        self.entries.len()
    }

    fn find(&self, key: &str) -> (r: Option<usize>)
        ensures
            r matches Some(i) ==> i < self.entry_seq().len() && self.entry_seq()[i as int].0
                == key@,
            r is None ==> forall|i: int|
                0 <= i < self.entry_seq().len() ==> #[trigger] self.entry_seq()[i].0 != key@,
    {
        let mut i: usize = 0;
        while i < self.entries.len()
            invariant
                i <= self.entries.len(),
                forall|j: int| 0 <= j < i ==> #[trigger] self.entry_seq()[j].0 != key@,
            decreases self.entries.len() - i,
        {
            if str_eq(self.entries[i].0.as_str(), key) {
                return Some(i);
            }
            i = i + 1;
        }
        None
    }

    /// Whether `key` has a value in the map.
    pub fn contains_key(&self, key: &str) -> (r: bool)
        ensures
            r == self@.contains_key(key@),
    {
        proof {
            use_type_invariant(self);
            lemma_map_of_dom(self.entry_seq(), key@);
        }
        self.find(key).is_some()
    }

    /// The value of `key`, if it has one.
    pub fn get(&self, key: &str) -> (r: Option<&V>)
        ensures
            r matches Some(v) ==> self@.contains_key(key@) && self@[key@] == v@,
            r is None ==> !self@.contains_key(key@),
    {
        proof {
            use_type_invariant(self);
            lemma_map_of_dom(self.entry_seq(), key@);
        }
        match self.find(key) {
            Some(i) => {
                proof {
                    lemma_map_of_value(self.entry_seq(), i as int);
                }
                Some(&self.entries[i].1)
            },
            None => None,
        }
    }

    /// Gives `key` the value `v`: an entry of `key` takes the new value where
    /// there is one, and a new entry is added at the end where there is none.
    pub fn insert(&mut self, key: String, v: V)
        ensures
            final(self)@ == old(self)@.insert(key@, v@),
            old(self)@.contains_key(key@) ==> exists|i: int|
                0 <= i < old(self).entry_seq().len() && old(self).entry_seq()[i].0 == key@
                    && final(self).entry_seq() == #[trigger] old(self).entry_seq().update(
                    i,
                    (key@, v@),
                ),
            !old(self)@.contains_key(key@) ==> final(self).entry_seq() == old(self).entry_seq().push(
                (key@, v@),
            ),
    {
        proof {
            use_type_invariant(&*self);
            lemma_map_of_dom(self.entry_seq(), key@);
        }
        let ghost old_seq = self.entry_seq();
        match self.find(key.as_str()) {
            Some(i) => {
                let ghost vv = v@;
                let mut entries: Vec<(String, V)> = Vec::new();
                std::mem::swap(&mut entries, &mut self.entries);
                entries.set(i, (key, v));
                let ghost es = Seq::new(entries.len() as nat, |j: int| (entries@[j].0@, entries@[j].1@));
                proof {
                    assert(es =~= old_seq.update(i as int, (old_seq[i as int].0, vv)));
                    lemma_map_of_update(old_seq, i as int, vv);
                    assert forall|a: int, b: int|
                        0 <= a < es.len() && 0 <= b < es.len() && a != b implies #[trigger] es[a].0
                        != #[trigger] es[b].0 by {
                        assert(es[a].0 == old_seq[a].0 && es[b].0 == old_seq[b].0);
                    }
                }
                self.entries = entries;
                assert(self.entry_seq() =~= es);
                assert(old_seq[i as int].0 == key@);
                assert(self.entry_seq() == old_seq.update(i as int, (key@, vv)));
            },
            None => {
                let ghost kv = key@;
                let ghost vv = v@;
                let mut entries: Vec<(String, V)> = Vec::new();
                std::mem::swap(&mut entries, &mut self.entries);
                entries.push((key, v));
                let ghost es = Seq::new(entries.len() as nat, |j: int| (entries@[j].0@, entries@[j].1@));
                proof {
                    assert(es =~= old_seq.push((kv, vv)));
                    assert(es.drop_last() =~= old_seq);
                    assert forall|a: int, b: int|
                        0 <= a < es.len() && 0 <= b < es.len() && a != b implies #[trigger] es[a].0
                        != #[trigger] es[b].0 by {
                        if a < old_seq.len() && b < old_seq.len() {
                            assert(es[a].0 == old_seq[a].0 && es[b].0 == old_seq[b].0);
                        } else if a < old_seq.len() {
                            assert(old_seq[a].0 != kv);
                        } else {
                            assert(old_seq[b].0 != kv);
                        }
                    }
                }
                self.entries = entries;
                assert(self.entry_seq() =~= es);
            },
        }
    }

    /// The entries, in the map's order.
    pub fn into_entries(self) -> (es: Vec<(String, V)>)
        ensures
            es.len() == self.entry_seq().len(),
            forall|i: int|
                0 <= i < es.len() ==> (#[trigger] es@[i]).0@ == self.entry_seq()[i].0 && es@[i].1@
                    == self.entry_seq()[i].1,
            keys_distinct(self.entry_seq()),
            self@ == map_of(self.entry_seq()),
    {
        proof {
            use_type_invariant(&self);
        }
        self.entries
    }
}

impl<V: View> View for StrMap<V> {
    type V = Map<Seq<char>, V::V>;

    closed spec fn view(&self) -> Map<Seq<char>, V::V> {
        map_of(self.entry_seq())
    }
}

} // verus!
