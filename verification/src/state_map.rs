use vstd::prelude::*;
use vstd::pervasive::VecAdditionalExecFns;
use crate::value::{Value, ValModel};

verus! {

/// What a lookup yields: the entry's value, or the null sentinel for an
/// absent key.
pub open spec fn spec_get(m: Map<Seq<char>, ValModel>, k: Seq<char>) -> ValModel {
    if m.dom().contains(k) {
        m[k]
    } else {
        ValModel::Null
    }
}

/// The single source of truth: a mutable mapping from string keys to
/// values, stored as an entry list whose keys are pairwise distinct.
pub struct StateMap {
    entries: Vec<(String, Value)>,
}

impl StateMap {
    /// Well-formed: no key occurs twice.
    pub closed spec fn wf(self) -> bool {
        forall|i: int, j: int|
            0 <= i < j < self.entries@.len() ==> self.entries@[i].0@ != self.entries@[j].0@
    }

    /// The mapping an entry list stands for; a later entry would win,
    /// though well-formedness rules repeated keys out.
    pub closed spec fn assoc(s: Seq<(String, Value)>) -> Map<Seq<char>, ValModel>
        decreases s.len(),
    {
        if s.len() == 0 {
            Map::empty()
        } else {
            Self::assoc(s.drop_last()).insert(s.last().0@, s.last().1.model())
        }
    }

    /// The mapping this state stands for: the model every contract speaks of.
    pub closed spec fn as_map(self) -> Map<Seq<char>, ValModel> {
        Self::assoc(self.entries@)
    }

    /// A key that no entry carries is absent from the mapping the list
    /// stands for.
    pub proof fn lemma_absent(s: Seq<(String, Value)>, k: Seq<char>)
        requires
            forall|i: int| 0 <= i < s.len() ==> s[i].0@ != k,
        ensures
            !Self::assoc(s).dom().contains(k),
        decreases s.len(),
    {
        if s.len() > 0 {
            Self::lemma_absent(s.drop_last(), k);
        }
    }

    proof fn lemma_present(s: Seq<(String, Value)>, k: Seq<char>)
        requires
            exists|i: int| 0 <= i < s.len() && s[i].0@ == k,
        ensures
            Self::assoc(s).dom().contains(k),
        decreases s.len(),
    {
        let i = choose|i: int| 0 <= i < s.len() && s[i].0@ == k;
        if i < s.len() - 1 {
            assert(s.drop_last()[i].0@ == k);
            Self::lemma_present(s.drop_last(), k);
        }
    }

    /// In a list with pairwise-distinct keys, the entry holding a key
    /// decides what a lookup of that key yields.
    pub proof fn lemma_get(s: Seq<(String, Value)>, k: Seq<char>, i: int)
        requires
            forall|p: int, q: int| 0 <= p < q < s.len() ==> s[p].0@ != s[q].0@,
            0 <= i < s.len(),
            s[i].0@ == k,
        ensures
            Self::assoc(s).dom().contains(k),
            Self::assoc(s)[k] == s[i].1.model(),
        decreases s.len(),
    {
        Self::lemma_present(s, k);
        if i == s.len() - 1 {
        } else {
            assert(s.drop_last()[i] == s[i]);
            Self::lemma_get(s.drop_last(), k, i);
            assert(s.last().0@ != k);
        }
    }

    proof fn lemma_update(s: Seq<(String, Value)>, i: int, p: (String, Value))
        requires
            forall|x: int, y: int| 0 <= x < y < s.len() ==> s[x].0@ != s[y].0@,
            0 <= i < s.len(),
            p.0@ == s[i].0@,
        ensures
            Self::assoc(s.update(i, p)) == Self::assoc(s).insert(p.0@, p.1.model()),
        decreases s.len(),
    {
        let s2 = s.update(i, p);
        if i == s.len() - 1 {
            assert(s2.drop_last() =~= s.drop_last());
            assert(Self::assoc(s2) =~= Self::assoc(s).insert(p.0@, p.1.model()));
        } else {
            assert(s2.drop_last() =~= s.drop_last().update(i, p));
            assert(s.drop_last()[i] == s[i]);
            Self::lemma_update(s.drop_last(), i, p);
            assert(s2.last() == s.last());
            assert(s.last().0@ != p.0@);
            assert(Self::assoc(s2) =~= Self::assoc(s).insert(p.0@, p.1.model()));
        }
    }

    proof fn lemma_remove(s: Seq<(String, Value)>, i: int)
        requires
            forall|x: int, y: int| 0 <= x < y < s.len() ==> s[x].0@ != s[y].0@,
            0 <= i < s.len(),
        ensures
            Self::assoc(s.remove(i)) == Self::assoc(s).remove(s[i].0@),
        decreases s.len(),
    {
        let k = s[i].0@;
        let s2 = s.remove(i);
        if i == s.len() - 1 {
            assert(s2 =~= s.drop_last());
            assert(forall|j: int| 0 <= j < s.drop_last().len() ==> s.drop_last()[j].0@ != k);
            Self::lemma_absent(s.drop_last(), k);
            assert(Self::assoc(s2) =~= Self::assoc(s).remove(k));
        } else {
            assert(s2.len() == s.len() - 1);
            assert(s2.drop_last() =~= s.drop_last().remove(i));
            assert(s.drop_last()[i] == s[i]);
            Self::lemma_remove(s.drop_last(), i);
            assert(s2.last() == s.last());
            assert(s.last().0@ != k);
            assert(Self::assoc(s2) =~= Self::assoc(s).remove(k));
        }
    }

    /// Pointwise equal keys and value models give the same mapping.
    proof fn lemma_congruent(a: Seq<(String, Value)>, b: Seq<(String, Value)>)
        requires
            a.len() == b.len(),
            forall|i: int|
                0 <= i < a.len() ==> a[i].0@ == b[i].0@ && a[i].1.model() == b[i].1.model(),
        ensures
            Self::assoc(a) == Self::assoc(b),
        decreases a.len(),
    {
        if a.len() > 0 {
            Self::lemma_congruent(a.drop_last(), b.drop_last());
            assert(Self::assoc(a) =~= Self::assoc(b));
        } else {
            assert(Self::assoc(a) =~= Self::assoc(b));
        }
    }

    /// An empty state.
    pub fn new() -> (r: StateMap)
        ensures
            r.wf(),
            r.as_map() == Map::<Seq<char>, ValModel>::empty(),
    {
        StateMap { entries: Vec::new() }
    }

    /// The position of the entry for `key`, if one exists.
    fn find(&self, key: &String) -> (r: Option<usize>)
        ensures
            match r {
                Some(i) => i < self.entries@.len() && self.entries@[i as int].0@ == key@,
                None => forall|j: int| 0 <= j < self.entries@.len() ==> self.entries@[j].0@ != key@,
            },
    {
        let mut j: usize = 0;
        while j < self.entries.len()
            invariant
                j <= self.entries@.len(),
                forall|q: int| 0 <= q < j ==> self.entries@[q].0@ != key@,
            decreases self.entries@.len() - j,
        {
            if self.entries[j].0 == *key {
                return Some(j);
            }
            j = j + 1;
        }
        None
    }

    /// Insert or overwrite: afterwards the mapping holds `value` under `key`.
    pub fn set(&mut self, key: &str, value: Value)
        requires
            old(self).wf(),
        ensures
            final(self).wf(),
            final(self).as_map() == old(self).as_map().insert(key@, value.model()),
    {
        let owned: String = key.to_owned();
        match self.find(&owned) {
            Some(i) => {
                let ghost s = self.entries@;
                let ghost p = (owned, value);
                self.entries.set(i, (owned, value));
                proof {
                    Self::lemma_update(s, i as int, p);
                    assert(forall|x: int, y: int|
                        0 <= x < y < self.entries@.len()
                            ==> self.entries@[x].0@ != self.entries@[y].0@);
                }
            },
            None => {
                let ghost s = self.entries@;
                self.entries.push((owned, value));
                proof {
                    assert(self.entries@.drop_last() =~= s);
                }
            },
        }
    }

    /// The value under `key`, or the null sentinel if the key is absent;
    /// total, never fails.
    pub fn get(&self, key: &str) -> (r: Value)
        requires
            self.wf(),
        ensures
            r.model() == spec_get(self.as_map(), key@),
    {
        let owned: String = key.to_owned();
        match self.find(&owned) {
            Some(i) => {
                proof {
                    Self::lemma_get(self.entries@, key@, i as int);
                }
                self.entries[i].1.duplicate()
            },
            None => {
                proof {
                    Self::lemma_absent(self.entries@, key@);
                }
                Value::Null
            },
        }
    }

    /// Delete `key` if present; a no-op on the contents if absent.
    pub fn remove(&mut self, key: &str)
        requires
            old(self).wf(),
        ensures
            final(self).wf(),
            final(self).as_map() == old(self).as_map().remove(key@),
    {
        let owned: String = key.to_owned();
        match self.find(&owned) {
            Some(i) => {
                let ghost s = self.entries@;
                let _ = self.entries.remove(i);
                proof {
                    Self::lemma_remove(s, i as int);
                    assert(forall|x: int, y: int|
                        0 <= x < y < self.entries@.len()
                            ==> self.entries@[x].0@ != self.entries@[y].0@);
                }
            },
            None => {
                proof {
                    Self::lemma_absent(self.entries@, key@);
                    assert(self.as_map().remove(key@) =~= self.as_map());
                }
            },
        }
    }

    /// Delete every entry.
    pub fn clear(&mut self)
        ensures
            final(self).wf(),
            final(self).as_map() == Map::<Seq<char>, ValModel>::empty(),
    {
        self.entries = Vec::new();
    }

    /// A snapshot of all entries: same keys, same value models, same order.
    pub fn snapshot(&self) -> (r: Vec<(String, Value)>)
        requires
            self.wf(),
        ensures
            Self::assoc(r@) == self.as_map(),
            forall|i: int, j: int| 0 <= i < j < r@.len() ==> r@[i].0@ != r@[j].0@,
    {
        let mut out: Vec<(String, Value)> = Vec::new();
        let mut i: usize = 0;
        while i < self.entries.len()
            invariant
                i <= self.entries@.len(),
                out@.len() == i,
                forall|q: int|
                    0 <= q < i
                        ==> out@[q].0@ == self.entries@[q].0@
                            && out@[q].1.model() == self.entries@[q].1.model(),
            decreases self.entries@.len() - i,
        {
            let e = &self.entries[i];
            let key = e.0.clone();
            let val = e.1.duplicate();
            out.push((key, val));
            i = i + 1;
        }
        proof {
            Self::lemma_congruent(out@, self.entries@);
            assert(forall|p: int, q: int| 0 <= p < q < out@.len() ==> out@[p].0@ != out@[q].0@);
        }
        out
    }
}

} // verus!
