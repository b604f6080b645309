//! A map from variable names to values, kept as a list of distinct keys.
use vstd::prelude::*;

use crate::text::chars_eq;

verus! {

/// Name/value pairs where no name occurs twice.
#[derive(Debug)]
pub struct VarMap {
    entries: Vec<(Vec<char>, Vec<char>)>,
}

/// The pairs as texts.
pub open spec fn pair_views(e: Seq<(Vec<char>, Vec<char>)>) -> Seq<(Seq<char>, Seq<char>)> {
    e.map_values(|p: (Vec<char>, Vec<char>)| (p.0@, p.1@))
}

/// The map that a list of pairs denotes; a later pair wins over an earlier one.
pub open spec fn map_of(e: Seq<(Seq<char>, Seq<char>)>) -> Map<Seq<char>, Seq<char>>
    decreases e.len(),
{
    if e.len() == 0 {
        Map::empty()
    } else {
        map_of(e.drop_last()).insert(e.last().0, e.last().1)
    }
}

pub open spec fn distinct_keys(e: Seq<(Seq<char>, Seq<char>)>) -> bool {
    forall|i: int, j: int| 0 <= i < j < e.len() ==> #[trigger] e[i].0 != #[trigger] e[j].0
}

pub proof fn lemma_map_of_dom(e: Seq<(Seq<char>, Seq<char>)>, k: Seq<char>)
    ensures
        map_of(e).contains_key(k) <==> exists|i: int| 0 <= i < e.len() && #[trigger] e[i].0 == k,
    decreases e.len(),
{
    if e.len() > 0 {
        lemma_map_of_dom(e.drop_last(), k);
        if map_of(e).contains_key(k) && k != e.last().0 {
            let i = choose|i: int| 0 <= i < e.drop_last().len() && #[trigger] e.drop_last()[i].0 == k;
            assert(e[i].0 == k);
        }
        if exists|i: int| 0 <= i < e.len() && #[trigger] e[i].0 == k {
            let i = choose|i: int| 0 <= i < e.len() && #[trigger] e[i].0 == k;
            if i < e.len() - 1 {
                assert(e.drop_last()[i].0 == k);
            }
        }
    }
}

pub proof fn lemma_map_of_value(e: Seq<(Seq<char>, Seq<char>)>, i: int)
    requires
        distinct_keys(e),
        0 <= i < e.len(),
    ensures
        map_of(e).contains_key(e[i].0),
        map_of(e)[e[i].0] == e[i].1,
    decreases e.len(),
{
    if i < e.len() - 1 {
        lemma_map_of_value(e.drop_last(), i);
        assert(e.drop_last()[i] == e[i]);
        assert(e[i].0 != e.last().0);
    }
}

proof fn lemma_map_of_update(e: Seq<(Seq<char>, Seq<char>)>, i: int, v: Seq<char>)
    requires
        distinct_keys(e),
        0 <= i < e.len(),
    ensures
        map_of(e.update(i, (e[i].0, v))) == map_of(e).insert(e[i].0, v),
    decreases e.len(),
{
    let k = e[i].0;
    let f = e.update(i, (k, v));
    if i == e.len() - 1 {
        assert(f.drop_last() =~= e.drop_last());
        assert(map_of(f) =~= map_of(e).insert(k, v));
    } else {
        assert(f.drop_last() =~= e.drop_last().update(i, (k, v)));
        lemma_map_of_update(e.drop_last(), i, v);
        assert(e.last().0 != k);
        assert(map_of(f) =~= map_of(e).insert(k, v));
    }
}

proof fn lemma_map_of_remove(e: Seq<(Seq<char>, Seq<char>)>, i: int)
    requires
        distinct_keys(e),
        0 <= i < e.len(),
    ensures
        map_of(e.remove(i)) == map_of(e).remove(e[i].0),
    decreases e.len(),
{
    let k = e[i].0;
    if i == e.len() - 1 {
        assert(e.remove(i) =~= e.drop_last());
        lemma_map_of_dom(e.drop_last(), k);
        assert(!map_of(e.drop_last()).contains_key(k));
        assert(map_of(e.remove(i)) =~= map_of(e).remove(k));
    } else {
        let f = e.remove(i);
        assert(f.drop_last() =~= e.drop_last().remove(i));
        assert(f.last() == e.last());
        lemma_map_of_remove(e.drop_last(), i);
        assert(e.last().0 != k);
        assert(map_of(f) =~= map_of(e).remove(k));
    }
}

impl View for VarMap {
    type V = Map<Seq<char>, Seq<char>>;

    closed spec fn view(&self) -> Map<Seq<char>, Seq<char>> {
        map_of(pair_views(self.entries@))
    }
}

impl VarMap {
    /// No name occurs twice.
    pub closed spec fn wf(&self) -> bool {
        distinct_keys(pair_views(self.entries@))
    }

    /// The names, in the order they were first inserted.
    pub closed spec fn key_order(&self) -> Seq<Seq<char>> {
        pair_views(self.entries@).map_values(|p: (Seq<char>, Seq<char>)| p.0)
    }

    pub fn new() -> (m: VarMap)
        ensures
            m.wf(),
            m@ == Map::<Seq<char>, Seq<char>>::empty(),
            m.key_order() == Seq::<Seq<char>>::empty(),
    {
        let m = VarMap { entries: Vec::new() };
        assert(pair_views(m.entries@) =~= seq![]);
        m
    }

    fn index_of(&self, key: &Vec<char>) -> (r: Option<usize>)
        requires
            self.wf(),
        ensures
            match r {
                Some(i) => i < self.entries@.len() && self.entries@[i as int].0@ == key@,
                None => !self@.contains_key(key@),
            },
    {
        let mut i: usize = 0;
        while i < self.entries.len()
            invariant
                i <= self.entries@.len(),
                forall|j: int| 0 <= j < i ==> #[trigger] self.entries@[j].0@ != key@,
            decreases self.entries.len() - i,
        {
            if chars_eq(&self.entries[i].0, key) {
                return Some(i);
            }
            i = i + 1;
        }
        proof {
            let e = pair_views(self.entries@);
            lemma_map_of_dom(e, key@);
            if self@.contains_key(key@) {
                let j = choose|j: int| 0 <= j < e.len() && #[trigger] e[j].0 == key@;
                assert(self.entries@[j].0@ == key@);
            }
        }
        None
    }

    /// The value of a name.
    pub fn get(&self, key: &Vec<char>) -> (r: Option<Vec<char>>)
        requires
            self.wf(),
        ensures
            match r {
                Some(v) => self@.contains_key(key@) && self@[key@] == v@,
                None => !self@.contains_key(key@),
            },
    {
        match self.index_of(key) {
            Some(i) => {
                proof {
                    lemma_map_of_value(pair_views(self.entries@), i as int);
                }
                Some(self.entries[i].1.clone())
            },
            None => None,
        }
    }

    /// Whether a name has a value.
    pub fn contains_key(&self, key: &Vec<char>) -> (b: bool)
        requires
            self.wf(),
        ensures
            b == self@.contains_key(key@),
    {
        match self.index_of(key) {
            Some(i) => {
                proof {
                    lemma_map_of_value(pair_views(self.entries@), i as int);
                }
                true
            },
            None => false,
        }
    }

    /// Sets a name to a value.
    pub fn insert(&mut self, key: Vec<char>, value: Vec<char>)
        requires
            old(self).wf(),
        ensures
            final(self).wf(),
            final(self)@ == old(self)@.insert(key@, value@),
    {
        match self.index_of(&key) {
            Some(i) => {
                let ghost e = pair_views(self.entries@);
                proof {
                    lemma_map_of_update(e, i as int, value@);
                }
                self.entries.set(i, (key, value));
                assert(pair_views(self.entries@) =~= e.update(i as int, (e[i as int].0, value@)));
                assert forall|a: int, b: int|
                    0 <= a < b < pair_views(self.entries@).len() implies #[trigger] pair_views(
                        self.entries@,
                    )[a].0 != #[trigger] pair_views(self.entries@)[b].0 by {
                    assert(pair_views(self.entries@)[a].0 == e[a].0);
                    assert(pair_views(self.entries@)[b].0 == e[b].0);
                }
            },
            None => {
                let ghost e = pair_views(self.entries@);
                proof {
                    lemma_map_of_dom(e, key@);
                }
                let ghost k = key@;
                self.entries.push((key, value));
                assert(pair_views(self.entries@).drop_last() =~= e);
                assert forall|a: int, b: int|
                    0 <= a < b < pair_views(self.entries@).len() implies #[trigger] pair_views(
                        self.entries@,
                    )[a].0 != #[trigger] pair_views(self.entries@)[b].0 by {
                    assert(pair_views(self.entries@)[a].0 == e[a].0);
                    if b < e.len() {
                        assert(pair_views(self.entries@)[b].0 == e[b].0);
                    } else {
                        assert(pair_views(self.entries@)[b].0 == k);
                    }
                }
            },
        }
    }

    /// Removes a name.
    pub fn remove(&mut self, key: &Vec<char>)
        requires
            old(self).wf(),
        ensures
            final(self).wf(),
            final(self)@ == old(self)@.remove(key@),
    {
        match self.index_of(key) {
            Some(i) => {
                let ghost e = pair_views(self.entries@);
                proof {
                    lemma_map_of_remove(e, i as int);
                }
                self.entries.remove(i);
                assert(pair_views(self.entries@) =~= e.remove(i as int));
            },
            None => {
                assert(self@ =~= self@.remove(key@));
            },
        }
    }

    /// Number of names.
    pub fn len(&self) -> (n: usize)
        ensures
            n == self.key_order().len(),
    {
        self.entries.len()
    }

    /// The names in insertion order are exactly the names of the map, each once.
    pub proof fn lemma_key_order(&self)
        requires
            self.wf(),
        ensures
            forall|k: Seq<char>| self@.contains_key(k) <==> self.key_order().contains(k),
            self.key_order().no_duplicates(),
    {
        let e = pair_views(self.entries@);
        assert forall|k: Seq<char>| self@.contains_key(k) <==> self.key_order().contains(k) by {
            lemma_map_of_dom(e, k);
            if self.key_order().contains(k) {
                let i = choose|i: int| 0 <= i < self.key_order().len() && self.key_order()[i] == k;
                assert(e[i].0 == k);
            }
            if self@.contains_key(k) {
                let i = choose|i: int| 0 <= i < e.len() && #[trigger] e[i].0 == k;
                assert(self.key_order()[i] == k);
            }
        }
        assert forall|i: int, j: int|
            0 <= i < self.key_order().len() && 0 <= j < self.key_order().len() && i != j implies
            self.key_order()[i] != self.key_order()[j] by {
            if i < j {
                assert(e[i].0 != e[j].0);
            } else {
                assert(e[j].0 != e[i].0);
            }
        }
    }

    /// The pair at a position of the insertion order.
    pub fn entry(&self, i: usize) -> (r: (Vec<char>, Vec<char>))
        requires
            self.wf(),
            i < self.key_order().len(),
        ensures
            self@.contains_key(r.0@),
            self@[r.0@] == r.1@,
            r.0@ == self.key_order()[i as int],
    {
        proof {
            lemma_map_of_value(pair_views(self.entries@), i as int);
        }
        (self.entries[i].0.clone(), self.entries[i].1.clone())
    }

    /// A copy.
    pub fn copy(&self) -> (r: VarMap)
        requires
            self.wf(),
        ensures
            r.wf(),
            r@ == self@,
            r.key_order() == self.key_order(),
    {
        let mut entries: Vec<(Vec<char>, Vec<char>)> = Vec::new();
        let mut i: usize = 0;
        while i < self.entries.len()
            invariant
                i <= self.entries@.len(),
                entries@.len() == i,
                pair_views(entries@) == pair_views(self.entries@).take(i as int),
            decreases self.entries.len() - i,
        {
            let k = self.entries[i].0.clone();
            let v = self.entries[i].1.clone();
            entries.push((k, v));
            i = i + 1;
            assert(pair_views(entries@) =~= pair_views(self.entries@).take(i as int));
        }
        let r = VarMap { entries };
        assert(pair_views(r.entries@) =~= pair_views(self.entries@));
        r
    }
}

/// The entries of `after` that are new or hold another value than in `before`.
pub open spec fn changed_entries(
    before: Map<Seq<char>, Seq<char>>,
    after: Map<Seq<char>, Seq<char>>,
) -> Map<Seq<char>, Seq<char>> {
    after.restrict(Set::new(|k: Seq<char>| !(before.contains_key(k) && before[k] == after[k])))
}

impl VarMap {
    /// The entries that are new, or changed, since `before`.
    pub fn changes_since(&self, before: &VarMap) -> (r: VarMap)
        requires
            self.wf(),
            before.wf(),
        ensures
            r.wf(),
            r@ == changed_entries(before@, self@),
    {
        proof {
            self.lemma_key_order();
        }
        let ghost ks = self.key_order();
        let mut r = VarMap::new();
        let mut i: usize = 0;
        while i < self.len()
            invariant
                i <= ks.len(),
                ks == self.key_order(),
                self.wf(),
                before.wf(),
                r.wf(),
                forall|k: Seq<char>| self@.contains_key(k) <==> ks.contains(k),
                forall|k: Seq<char>| #[trigger] r@.contains_key(k) <==> (ks.take(i as int).to_set().contains(k) && !(before@.contains_key(k) && before@[k] == self@[k])),
                forall|k: Seq<char>| #[trigger] r@.contains_key(k) ==> r@[k] == self@[k],
            decreases ks.len() - i,
        {
            let (k, v) = self.entry(i);
            proof {
                assert(ks.take(i + 1) =~= ks.take(i as int).push(ks[i as int]));
                ks.take(i as int).lemma_push_to_set_commute(ks[i as int]);
            }
            let same = match before.get(&k) {
                Some(b) => crate::text::chars_eq(&b, &v),
                None => false,
            };
            assert(same == (before@.contains_key(k@) && before@[k@] == self@[k@]));
            if !same {
                r.insert(k, v);
            }
            assert(ks.take(i + 1).to_set() == ks.take(i as int).to_set().insert(ks[i as int]));
            i = i + 1;
        }
        proof {
            assert(ks.take(ks.len() as int) =~= ks);
            assert(ks.to_set() =~= self@.dom());
        }
        assert(r@ =~= changed_entries(before@, self@));
        r
    }

    /// Puts every entry of `other` into this map.
    pub fn extend_from(&mut self, other: &VarMap)
        requires
            old(self).wf(),
            other.wf(),
        ensures
            final(self).wf(),
            final(self)@ == old(self)@.union_prefer_right(other@),
    {
        proof {
            other.lemma_key_order();
        }
        let ghost ks = other.key_order();
        let ghost m0 = self@;
        let mut i: usize = 0;
        assert(ks.take(0).to_set() =~= Set::<Seq<char>>::empty());
        assert(self@ =~= m0.union_prefer_right(other@.restrict(ks.take(0).to_set())));
        while i < other.len()
            invariant
                i <= ks.len(),
                ks == other.key_order(),
                other.wf(),
                self.wf(),
                self@ == m0.union_prefer_right(other@.restrict(ks.take(i as int).to_set())),
            decreases ks.len() - i,
        {
            let (k, v) = other.entry(i);
            proof {
                assert(ks.take(i + 1) =~= ks.take(i as int).push(ks[i as int]));
                ks.take(i as int).lemma_push_to_set_commute(ks[i as int]);
            }
            self.insert(k, v);
            assert(self@ =~= m0.union_prefer_right(other@.restrict(ks.take(i + 1).to_set())));
            i = i + 1;
        }
        proof {
            assert(ks.take(ks.len() as int) =~= ks);
            assert(ks.to_set() =~= other@.dom());
            assert(other@.restrict(other@.dom()) =~= other@);
        }
    }
}

/// Taking over the changes since `before` gives `after`, when nothing was
/// removed: what the caller of awaited tasks ends with is what they
/// exported.
pub proof fn lemma_changes_carry_over(before: Map<Seq<char>, Seq<char>>, after: Map<Seq<char>, Seq<char>>)
    requires
        forall|k: Seq<char>| before.contains_key(k) ==> #[trigger] after.contains_key(k),
    ensures
        before.union_prefer_right(changed_entries(before, after)) == after,
{
    assert(before.union_prefer_right(changed_entries(before, after)) =~= after);
}

} // verus!
