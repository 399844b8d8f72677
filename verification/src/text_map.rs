//! A map keyed by text, which keeps its entries in the order in which their keys came first.
use crate::text::str_eq;
use vstd::prelude::*;

verus! {

/// No key occurs twice.
pub open spec fn distinct<V>(p: Seq<(Seq<char>, V)>) -> bool {
    forall|i: int, j: int| 0 <= i < j < p.len() ==> (#[trigger] p[i]).0 != (#[trigger] p[j]).0
}

/// The map that a list of entries stands for.
pub open spec fn map_of<V>(p: Seq<(Seq<char>, V)>) -> Map<Seq<char>, V>
    decreases p.len(),
{
    if p.len() == 0 {
        Map::empty()
    } else {
        map_of(p.drop_last()).insert(p.last().0, p.last().1)
    }
}

/// A list of distinct entries and its map hold the same pairs.
pub proof fn lemma_map_of<V>(p: Seq<(Seq<char>, V)>)
    requires
        distinct(p),
    ensures
        forall|i: int|
            0 <= i < p.len() ==> map_of(p).dom().contains((#[trigger] p[i]).0) && map_of(p)[p[i].0]
                == p[i].1,
        forall|k: Seq<char>| #[trigger]
            map_of(p).dom().contains(k) ==> exists|i: int|
                0 <= i < p.len() && (#[trigger] p[i]).0 == k,
        map_of(p).dom().finite(),
        map_of(p).dom().len() == p.len(),
    decreases p.len(),
{
    if p.len() > 0 {
        let q = p.drop_last();
        assert forall|i: int, j: int| 0 <= i < j < q.len() implies (#[trigger] q[i]).0 != (
        #[trigger] q[j]).0 by {
            assert(p[i].0 != p[j].0);
        }
        lemma_map_of(q);
        let last = p.last();
        assert(!map_of(q).dom().contains(last.0)) by {
            if map_of(q).dom().contains(last.0) {
                let i = choose|i: int| 0 <= i < q.len() && (#[trigger] q[i]).0 == last.0;
                assert(p[i].0 != p[p.len() - 1].0);
            }
        }
        assert forall|i: int| 0 <= i < p.len() implies map_of(p).dom().contains((#[trigger] p[i]).0)
            && map_of(p)[p[i].0] == p[i].1 by {
            if i < q.len() {
                assert(q[i] == p[i]);
                assert(p[i].0 != p[p.len() - 1].0);
            }
        }
        assert forall|k: Seq<char>| #[trigger] map_of(p).dom().contains(k) implies exists|i: int|
            0 <= i < p.len() && (#[trigger] p[i]).0 == k by {
            if k == last.0 {
                assert(p[p.len() - 1].0 == k);
            } else {
                assert(map_of(q).dom().contains(k));
                let i = choose|i: int| 0 <= i < q.len() && (#[trigger] q[i]).0 == k;
                assert(p[i].0 == k);
            }
        }
    }
}

/// A map from texts to values.
pub struct TextMap<V> {
    entries: Vec<(String, V)>,
}

impl<V> View for TextMap<V> {
    type V = Map<Seq<char>, V>;

    open spec fn view(&self) -> Map<Seq<char>, V> {
        map_of(self.pairs())
    }
}

impl<V> TextMap<V> {
    /// The entries in order, keys as texts.
    pub closed spec fn pairs(&self) -> Seq<(Seq<char>, V)> {
        pairs_of(self.entries@)
    }

    #[verifier::type_invariant]
    spec fn well_formed(self) -> bool {
        distinct(self.pairs())
    }

    /// An empty map.
    pub fn new() -> (r: Self)
        ensures
            r.pairs() == Seq::<(Seq<char>, V)>::empty(),
            r@ == Map::<Seq<char>, V>::empty(),
    {
        let entries: Vec<(String, V)> = Vec::new();
        assert(pairs_of(entries@) =~= Seq::<(Seq<char>, V)>::empty());
        TextMap { entries }
    }

    /// How many keys the map holds.
    pub fn len(&self) -> (r: usize)
        ensures
            r == self.pairs().len(),
            r == self@.dom().len(),
            self@.dom().finite(),
            distinct(self.pairs()),
    {
        proof {
            use_type_invariant(self);
            lemma_map_of(self.pairs());
        }
        self.entries.len()
    }

    /// Whether the map holds no key.
    pub fn is_empty(&self) -> (r: bool)
        ensures
            r == (self@ == Map::<Seq<char>, V>::empty()),
    {
        proof {
            use_type_invariant(self);
            lemma_map_of(self.pairs());
        }
        if self.entries.len() == 0 {
            assert(self@ =~= Map::<Seq<char>, V>::empty());
            true
        } else {
            assert(self@.dom().contains(self.pairs()[0].0));
            false
        }
    }

    /// The entry at a position.
    pub fn entry_at(&self, i: usize) -> (r: (&str, &V))
        requires
            i < self.pairs().len(),
        ensures
            r.0@ == self.pairs()[i as int].0,
            *r.1 == self.pairs()[i as int].1,
            self@.dom().contains(r.0@),
            self@[r.0@] == *r.1,
    {
        proof {
            use_type_invariant(self);
            lemma_map_of(self.pairs());
        }
        let e = &self.entries[i];
        assert(self.pairs()[i as int] == (e.0@, e.1));
        (e.0.as_str(), &e.1)
    }

    /// The position of a key, or the number of entries where it is absent.
    fn position(entries: &Vec<(String, V)>, key: &str) -> (r: usize)
        ensures
            r <= entries@.len(),
            r < entries@.len() ==> pairs_of(entries@)[r as int].0 == key@,
            r == entries@.len() ==> forall|j: int|
                0 <= j < entries@.len() ==> (#[trigger] pairs_of(entries@)[j]).0 != key@,
    {
        let mut i: usize = 0;
        while i < entries.len()
            invariant
                i <= entries@.len(),
                forall|j: int| 0 <= j < i ==> (#[trigger] pairs_of(entries@)[j]).0 != key@,
            decreases entries@.len() - i,
        {
            let e = &entries[i];
            assert(pairs_of(entries@)[i as int] == (e.0@, e.1));
            if str_eq(e.0.as_str(), key) {
                return i;
            }
            i = i + 1;
        }
        i
    }

    /// The value of a key.
    pub fn get(&self, key: &str) -> (r: Option<&V>)
        ensures
            match r {
                Some(v) => self@.dom().contains(key@) && *v == self@[key@],
                None => !self@.dom().contains(key@),
            },
    {
        proof {
            use_type_invariant(self);
            lemma_map_of(self.pairs());
        }
        let i = Self::position(&self.entries, key);
        if i < self.entries.len() {
            let e = &self.entries[i];
            assert(self.pairs()[i as int] == (e.0@, e.1));
            Some(&e.1)
        } else {
            None
        }
    }

    /// Whether a key is present.
    pub fn contains_key(&self, key: &str) -> (r: bool)
        ensures
            r == self@.dom().contains(key@),
    {
        self.get(key).is_some()
    }

    /// Gives a key a value, in place of the one it had.
    pub fn insert(&mut self, key: String, value: V)
        ensures
            final(self)@ == old(self)@.insert(key@, value),
    {
        proof {
            use_type_invariant(&*self);
            lemma_map_of(self.pairs());
        }
        let mut entries: Vec<(String, V)> = Vec::new();
        assert(pairs_of(entries@) =~= Seq::<(Seq<char>, V)>::empty());
        core::mem::swap(&mut entries, &mut self.entries);
        let ghost before = pairs_of(entries@);
        let i = Self::position(&entries, key.as_str());
        let ghost text = key@;
        if i < entries.len() {
            entries.set(i, (key, value));
            proof {
                let after = pairs_of(entries@);
                assert(after =~= before.update(i as int, (text, value)));
                assert forall|a: int, b: int| 0 <= a < b < after.len() implies (#[trigger] after[a]).0
                    != (#[trigger] after[b]).0 by {
                    assert(before[a].0 != before[b].0);
                }
                lemma_map_of(after);
                assert(map_of(after) =~= map_of(before).insert(text, value)) by {
                    assert forall|k: Seq<char>| #[trigger]
                        map_of(before).insert(text, value).dom().contains(k) implies map_of(
                        after,
                    ).dom().contains(k) && map_of(after)[k] == map_of(before).insert(
                        text,
                        value,
                    )[k] by {
                        if k == text {
                            assert(after[i as int] == (text, value));
                        } else {
                            let j = choose|j: int| 0 <= j < before.len() && (#[trigger] before[j]).0
                                == k;
                            assert(after[j] == before[j]);
                        }
                    }
                    assert forall|k: Seq<char>| #[trigger]
                        map_of(after).dom().contains(k) implies map_of(before).insert(
                        text,
                        value,
                    ).dom().contains(k) by {
                        let j = choose|j: int| 0 <= j < after.len() && (#[trigger] after[j]).0 == k;
                        if j != i {
                            assert(after[j] == before[j]);
                        }
                    }
                }
            }
        } else {
            entries.push((key, value));
            proof {
                let after = pairs_of(entries@);
                assert(after =~= before.push((text, value)));
                assert(after.drop_last() =~= before);
                assert forall|a: int, b: int| 0 <= a < b < after.len() implies (#[trigger] after[a]).0
                    != (#[trigger] after[b]).0 by {
                    assert(after[a] == before[a]);
                    if b < before.len() {
                        assert(after[b] == before[b]);
                    }
                }
            }
        }
        self.entries = entries;
    }

    /// Takes a key out of the map.
    pub fn remove(&mut self, key: &str) -> (r: Option<V>)
        ensures
            final(self)@ == old(self)@.remove(key@),
            match r {
                Some(v) => old(self)@.dom().contains(key@) && v == old(self)@[key@],
                None => !old(self)@.dom().contains(key@),
            },
    {
        proof {
            use_type_invariant(&*self);
            lemma_map_of(self.pairs());
        }
        let mut entries: Vec<(String, V)> = Vec::new();
        assert(pairs_of(entries@) =~= Seq::<(Seq<char>, V)>::empty());
        core::mem::swap(&mut entries, &mut self.entries);
        let ghost before = pairs_of(entries@);
        let i = Self::position(&entries, key);
        let mut out: Option<V> = None;
        if i < entries.len() {
            assert(before[i as int] == (entries@[i as int].0@, entries@[i as int].1));
            let e = entries.remove(i);
            out = Some(e.1);
            proof {
                let after = pairs_of(entries@);
                assert(after =~= before.remove(i as int));
                assert forall|a: int, b: int| 0 <= a < b < after.len() implies (#[trigger] after[a]).0
                    != (#[trigger] after[b]).0 by {
                    let a2 = if a < i { a } else { a + 1 };
                    let b2 = if b < i { b } else { b + 1 };
                    assert(before[a2].0 != before[b2].0);
                }
                lemma_map_of(after);
                assert(map_of(after) =~= map_of(before).remove(key@)) by {
                    assert forall|k: Seq<char>| #[trigger]
                        map_of(before).remove(key@).dom().contains(k) implies map_of(
                        after,
                    ).dom().contains(k) && map_of(after)[k] == map_of(before)[k] by {
                        let j = choose|j: int| 0 <= j < before.len() && (#[trigger] before[j]).0
                            == k;
                        let j2 = if j < i { j } else { j - 1 };
                        assert(after[j2] == before[j]);
                    }
                    assert forall|k: Seq<char>| #[trigger]
                        map_of(after).dom().contains(k) implies map_of(before).remove(
                        key@,
                    ).dom().contains(k) by {
                        let j = choose|j: int| 0 <= j < after.len() && (#[trigger] after[j]).0 == k;
                        let j2 = if j < i { j } else { j + 1 };
                        assert(before[j2] == after[j]);
                        if j2 < i {
                            assert(before[j2].0 != before[i as int].0);
                        } else {
                            assert(before[i as int].0 != before[j2].0);
                        }
                    }
                }
            }
        } else {
            assert(map_of(before) =~= map_of(before).remove(key@));
        }
        self.entries = entries;
        out
    }
}

/// Entries with their keys as texts.
pub open spec fn pairs_of<V>(entries: Seq<(String, V)>) -> Seq<(Seq<char>, V)> {
    entries.map_values(|e: (String, V)| (e.0@, e.1))
}

} // verus!
