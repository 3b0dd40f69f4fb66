//! A map from text keys to values that keeps insertion order.
use vstd::prelude::*;
use vstd::string::*;
use crate::text::str_eq;

verus! {

broadcast use vstd::seq_lib::group_seq_properties;

/// The map denoted by a list of `(key, value)` pairs; a later pair wins.
pub open spec fn entries_map<V>(s: Seq<(String, V)>) -> Map<Seq<char>, V>
    decreases s.len(),
{
    if s.len() == 0 {
        Map::empty()
    } else {
        entries_map(s.drop_last()).insert(s.last().0@, s.last().1)
    }
}

/// Whether no key occurs twice.
pub open spec fn distinct_keys<V>(s: Seq<(String, V)>) -> bool {
    forall|i: int, j: int|
        0 <= i < s.len() && 0 <= j < s.len() && i != j ==> (#[trigger] s[i]).0@ != (#[trigger] s[j]).0@
}

proof fn lemma_entries_map<V>(s: Seq<(String, V)>)
    requires
        distinct_keys(s),
    ensures
        forall|k: Seq<char>|
            #[trigger] entries_map(s).dom().contains(k) <==> exists|i: int| 0 <= i < s.len() && (#[trigger] s[i]).0@ == k,
        forall|i: int| 0 <= i < s.len() ==> #[trigger] entries_map(s)[s[i].0@] == s[i].1,
        entries_map(s).dom().finite(),
        entries_map(s).dom().len() == s.len(),
    decreases s.len(),
{
    if s.len() > 0 {
        let p = s.drop_last();
        assert(distinct_keys(p)) by {
            assert forall|i: int, j: int|
                0 <= i < p.len() && 0 <= j < p.len() && i != j implies (#[trigger] p[i]).0@ != (
                #[trigger] p[j]).0@ by {
                assert(p[i] == s[i] && p[j] == s[j]);
            }
        }
        lemma_entries_map(p);
        assert forall|k: Seq<char>|
            #[trigger] entries_map(s).dom().contains(k) <==> exists|i: int|
                0 <= i < s.len() && (#[trigger] s[i]).0@ == k by {
            if entries_map(p).dom().contains(k) {
                let i = choose|i: int| 0 <= i < p.len() && (#[trigger] p[i]).0@ == k;
                assert(s[i] == p[i]);
            }
            if exists|i: int| 0 <= i < s.len() && (#[trigger] s[i]).0@ == k {
                let i = choose|i: int| 0 <= i < s.len() && (#[trigger] s[i]).0@ == k;
                if i < p.len() {
                    assert(p[i] == s[i]);
                }
            }
        }
        assert forall|i: int| 0 <= i < s.len() implies #[trigger] entries_map(s)[s[i].0@] == s[i].1 by {
            if i < p.len() {
                assert(p[i] == s[i]);
                assert(entries_map(p)[p[i].0@] == p[i].1);
                assert(s.last() == s[s.len() - 1]);
                assert(s[i].0@ != s[s.len() - 1].0@);
            }
        }
        assert(!entries_map(p).dom().contains(s.last().0@)) by {
            if entries_map(p).dom().contains(s.last().0@) {
                let i = choose|i: int| 0 <= i < p.len() && (#[trigger] p[i]).0@ == s.last().0@;
                assert(p[i] == s[i]);
                assert(s[i].0@ != s[s.len() - 1].0@);
            }
        }
    }
}

/// An insertion-ordered map with text keys.
#[derive(Debug)]
pub struct TextMap<V> {
    entries: Vec<(String, V)>,
}

impl<V> TextMap<V> {
    /// The map's contents.
    pub closed spec fn view_map(&self) -> Map<Seq<char>, V> {
        entries_map(self.entries@)
    }

    /// The pairs in insertion order.
    pub closed spec fn pairs(&self) -> Seq<(String, V)> {
        self.entries@
    }

    /// The invariant: no key twice.
    pub closed spec fn wf(&self) -> bool {
        distinct_keys(self.entries@)
    }

    /// A map whose invariant holds has finitely many keys.
    pub proof fn lemma_finite(&self)
        requires
            self.wf(),
        ensures
            self.view_map().dom().finite(),
    {
        lemma_entries_map(self.entries@);
    }

    /// An empty map.
    pub fn new() -> (r: Self)
        ensures
            r.wf(),
            r.view_map() == Map::<Seq<char>, V>::empty(),
    {
        TextMap { entries: Vec::new() }
    }

    fn position(&self, key: &str) -> (r: Option<usize>)
        ensures
            match r {
                Some(i) => i < self.entries@.len() && self.entries@[i as int].0@ == key@,
                None => forall|i: int| 0 <= i < self.entries@.len() ==> (#[trigger] self.entries@[i]).0@ != key@,
            },
    {
        let n = self.entries.len();
        let mut i: usize = 0;
        while i < n
            invariant
                n == self.entries@.len(),
                i <= n,
                forall|j: int| 0 <= j < i ==> (#[trigger] self.entries@[j]).0@ != key@,
            decreases n - i,
        {
            if str_eq(self.entries[i].0.as_str(), key) {
                return Some(i);
            }
            i = i + 1;
        }
        None
    }

    /// Whether `key` has a value.
    pub fn contains_key(&self, key: &str) -> (r: bool)
        requires
            self.wf(),
        ensures
            r == self.view_map().dom().contains(key@),
    {
        proof {
            lemma_entries_map(self.entries@);
        }
        self.position(key).is_some()
    }

    /// The value under `key`.
    pub fn get(&self, key: &str) -> (r: Option<&V>)
        requires
            self.wf(),
        ensures
            match r {
                Some(v) => self.view_map().dom().contains(key@) && self.view_map()[key@] == *v,
                None => !self.view_map().dom().contains(key@),
            },
    {
        proof {
            lemma_entries_map(self.entries@);
        }
        match self.position(key) {
            Some(i) => Some(&self.entries[i].1),
            None => None,
        }
    }

    /// Number of keys.
    pub fn len(&self) -> (r: usize)
        requires
            self.wf(),
        ensures
            r == self.view_map().dom().len(),
    {
        proof {
            lemma_entries_map(self.entries@);
        }
        self.entries.len()
    }

    /// Sets the value of `key`, returning the value it replaces (a new key goes
    /// last; an existing key keeps its place).
    pub fn insert(&mut self, key: String, value: V) -> (r: Option<V>)
        requires
            old(self).wf(),
        ensures
            final(self).wf(),
            final(self).view_map() == old(self).view_map().insert(key@, value),
            match r {
                Some(p) => old(self).view_map().dom().contains(key@) && old(self).view_map()[key@] == p,
                None => !old(self).view_map().dom().contains(key@),
            },
    {
        proof {
            lemma_entries_map(self.entries@);
        }
        let ghost kv = key@;
        match self.position(key.as_str()) {
            Some(i) => {
                let ghost s0 = self.entries@;
                let (k, prev) = self.entries.remove(i);
                self.entries.insert(i, (k, value));
                proof {
                    let s1 = self.entries@;
                    assert(s1 =~= s0.update(i as int, s1[i as int]));
                    assert(distinct_keys(s1)) by {
                        assert forall|a: int, b: int|
                            0 <= a < s1.len() && 0 <= b < s1.len() && a != b implies (
                            #[trigger] s1[a]).0@ != (#[trigger] s1[b]).0@ by {
                            if a != i as int {
                                assert(s1[a] == s0[a]);
                            }
                            if b != i as int {
                                assert(s1[b] == s0[b]);
                            }
                        }
                    }
                    lemma_entries_map(s1);
                    assert(entries_map(s1) =~= entries_map(s0).insert(kv, value)) by {
                        assert forall|q: Seq<char>| #[trigger] entries_map(s1).dom().contains(q) <==> entries_map(
                            s0,
                        ).insert(kv, value).dom().contains(q) by {
                            if exists|j: int| 0 <= j < s1.len() && (#[trigger] s1[j]).0@ == q {
                                let j = choose|j: int| 0 <= j < s1.len() && (#[trigger] s1[j]).0@ == q;
                                if j != i as int {
                                    assert(s1[j] == s0[j]);
                                }
                            }
                            if exists|j: int| 0 <= j < s0.len() && (#[trigger] s0[j]).0@ == q {
                                let j = choose|j: int| 0 <= j < s0.len() && (#[trigger] s0[j]).0@ == q;
                                if j != i as int {
                                    assert(s1[j] == s0[j]);
                                }
                            }
                        }
                        assert forall|q: Seq<char>| #[trigger] entries_map(s1).dom().contains(q) implies
                            entries_map(s1)[q] == entries_map(s0).insert(kv, value)[q] by {
                            let j = choose|j: int| 0 <= j < s1.len() && (#[trigger] s1[j]).0@ == q;
                            if j != i as int {
                                assert(s1[j] == s0[j]);
                            }
                        }
                    }
                }
                Some(prev)
            },
            None => {
                let ghost s0 = self.entries@;
                self.entries.push((key, value));
                proof {
                    let s1 = self.entries@;
                    assert(s1.drop_last() =~= s0);
                    assert(distinct_keys(s1)) by {
                        assert forall|a: int, b: int|
                            0 <= a < s1.len() && 0 <= b < s1.len() && a != b implies (
                            #[trigger] s1[a]).0@ != (#[trigger] s1[b]).0@ by {
                            if a < s0.len() {
                                assert(s1[a] == s0[a]);
                            }
                            if b < s0.len() {
                                assert(s1[b] == s0[b]);
                            }
                        }
                    }
                }
                None
            },
        }
    }

    /// Removes `key`, returning its value.
    pub fn remove(&mut self, key: &str) -> (r: Option<V>)
        requires
            old(self).wf(),
        ensures
            final(self).wf(),
            final(self).view_map() == old(self).view_map().remove(key@),
            match r {
                Some(p) => old(self).view_map().dom().contains(key@) && old(self).view_map()[key@] == p,
                None => !old(self).view_map().dom().contains(key@),
            },
    {
        proof {
            lemma_entries_map(self.entries@);
        }
        match self.position(key) {
            Some(i) => {
                let ghost s0 = self.entries@;
                let (_k, v) = self.entries.remove(i);
                proof {
                    let s1 = self.entries@;
                    assert(distinct_keys(s1)) by {
                        assert forall|a: int, b: int|
                            0 <= a < s1.len() && 0 <= b < s1.len() && a != b implies (
                            #[trigger] s1[a]).0@ != (#[trigger] s1[b]).0@ by {
                            let a0 = if a < i { a } else { a + 1 };
                            let b0 = if b < i { b } else { b + 1 };
                            assert(s1[a] == s0[a0]);
                            assert(s1[b] == s0[b0]);
                        }
                    }
                    lemma_entries_map(s1);
                    assert(entries_map(s1) =~= entries_map(s0).remove(key@)) by {
                        assert forall|q: Seq<char>| #[trigger] entries_map(s1).dom().contains(q) <==> entries_map(
                            s0,
                        ).remove(key@).dom().contains(q) by {
                            if exists|j: int| 0 <= j < s1.len() && (#[trigger] s1[j]).0@ == q {
                                let j = choose|j: int| 0 <= j < s1.len() && (#[trigger] s1[j]).0@ == q;
                                let j0 = if j < i { j } else { j + 1 };
                                assert(s1[j] == s0[j0]);
                            }
                            if q != key@ && exists|j: int| 0 <= j < s0.len() && (#[trigger] s0[j]).0@ == q {
                                let j = choose|j: int| 0 <= j < s0.len() && (#[trigger] s0[j]).0@ == q;
                                if j < i {
                                    assert(s1[j] == s0[j]);
                                } else if j > i {
                                    assert(s1[j - 1] == s0[j]);
                                }
                            }
                        }
                        assert forall|q: Seq<char>| #[trigger] entries_map(s1).dom().contains(q) implies
                            entries_map(s1)[q] == entries_map(s0).remove(key@)[q] by {
                            let j = choose|j: int| 0 <= j < s1.len() && (#[trigger] s1[j]).0@ == q;
                            let j0 = if j < i { j } else { j + 1 };
                            assert(s1[j] == s0[j0]);
                        }
                    }
                }
                Some(v)
            },
            None => {
                proof {
                    assert(entries_map(self.entries@).remove(key@) =~= entries_map(self.entries@));
                }
                None
            },
        }
    }

    /// The keys, in insertion order.
    pub fn keys(&self) -> (r: Vec<String>)
        requires
            self.wf(),
        ensures
            r@.len() == self.pairs().len(),
            r@.len() == self.view_map().dom().len(),
            forall|i: int| 0 <= i < r@.len() ==> (#[trigger] r@[i])@ == self.pairs()[i].0@,
            forall|a: int, b: int| 0 <= a < r@.len() && 0 <= b < r@.len() && a != b ==> (#[trigger] r@[a])@ != (#[trigger] r@[b])@,
            forall|k: Seq<char>| self.view_map().dom().contains(k) <==> exists|i: int| 0 <= i < r@.len() && (#[trigger] r@[i])@ == k,
    {
        proof {
            lemma_entries_map(self.entries@);
        }
        let mut out: Vec<String> = Vec::new();
        let n = self.entries.len();
        let mut i: usize = 0;
        while i < n
            invariant
                n == self.entries@.len(),
                i <= n,
                out@.len() == i,
                forall|j: int| 0 <= j < i ==> (#[trigger] out@[j])@ == self.entries@[j].0@,
            decreases n - i,
        {
            out.push(self.entries[i].0.clone());
            i = i + 1;
        }
        proof {
            assert forall|k: Seq<char>| self.view_map().dom().contains(k) implies exists|i: int|
                0 <= i < out@.len() && (#[trigger] out@[i])@ == k by {
                let i = choose|i: int| 0 <= i < self.entries@.len() && (#[trigger] self.entries@[i]).0@ == k;
                assert(out@[i]@ == k);
            }
            assert forall|k: Seq<char>| (exists|i: int| 0 <= i < out@.len() && (#[trigger] out@[i])@ == k) implies
                self.view_map().dom().contains(k) by {
                let i = choose|i: int| 0 <= i < out@.len() && (#[trigger] out@[i])@ == k;
                assert(self.entries@[i].0@ == k);
            }
        }
        out
    }

    /// Removes every key.
    pub fn clear(&mut self)
        ensures
            final(self).wf(),
            final(self).view_map() == Map::<Seq<char>, V>::empty(),
    {
        self.entries.clear();
    }
}

} // verus!
