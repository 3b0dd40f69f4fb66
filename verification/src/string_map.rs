//! A map from strings to strings that keeps insertion order, used for HTTP
//! headers and query parameters.
use vstd::prelude::*;
use vstd::string::*;
use crate::text::str_eq;

verus! {

/// The map denoted by a list of `(key, value)` pairs; a later pair wins.
pub open spec fn pairs_map(s: Seq<(String, String)>) -> Map<Seq<char>, Seq<char>>
    decreases s.len(),
{
    if s.len() == 0 {
        Map::empty()
    } else {
        pairs_map(s.drop_last()).insert(s.last().0@, s.last().1@)
    }
}

/// Whether no key occurs twice.
pub open spec fn keys_unique(s: Seq<(String, String)>) -> bool {
    forall|i: int, j: int|
        0 <= i < s.len() && 0 <= j < s.len() && i != j ==> (#[trigger] s[i]).0@ != (#[trigger] s[j]).0@
}

proof fn lemma_pairs_map(s: Seq<(String, String)>)
    requires
        keys_unique(s),
    ensures
        forall|k: Seq<char>|
            #[trigger] pairs_map(s).dom().contains(k) <==> exists|i: int| 0 <= i < s.len() && (#[trigger] s[i]).0@ == k,
        forall|i: int| 0 <= i < s.len() ==> #[trigger] pairs_map(s)[s[i].0@] == s[i].1@,
    decreases s.len(),
{
    if s.len() > 0 {
        let p = s.drop_last();
        assert(keys_unique(p)) by {
            assert forall|i: int, j: int|
                0 <= i < p.len() && 0 <= j < p.len() && i != j implies (#[trigger] p[i]).0@ != (
                #[trigger] p[j]).0@ by {
                assert(p[i] == s[i] && p[j] == s[j]);
            }
        }
        lemma_pairs_map(p);
        assert forall|k: Seq<char>|
            #[trigger] pairs_map(s).dom().contains(k) <==> exists|i: int|
                0 <= i < s.len() && (#[trigger] s[i]).0@ == k by {
            if pairs_map(p).dom().contains(k) {
                let i = choose|i: int| 0 <= i < p.len() && (#[trigger] p[i]).0@ == k;
                assert(s[i] == p[i]);
            }
            if exists|i: int| 0 <= i < s.len() && (#[trigger] s[i]).0@ == k {
                let i = choose|i: int| 0 <= i < s.len() && (#[trigger] s[i]).0@ == k;
                if i < p.len() {
                    assert(p[i] == s[i]);
                }
            }
        }
        assert forall|i: int| 0 <= i < s.len() implies #[trigger] pairs_map(s)[s[i].0@] == s[i].1@ by {
            if i < p.len() {
                assert(p[i] == s[i]);
                assert(pairs_map(p)[p[i].0@] == p[i].1@);
                assert(s.last() == s[s.len() - 1]);
                assert(s[i].0@ != s[s.len() - 1].0@);
            }
        }
    }
}

/// An insertion-ordered string map with unique keys.
#[derive(Debug, Clone)]
pub struct StringMap {
    entries: Vec<(String, String)>,
}

impl View for StringMap {
    type V = Map<Seq<char>, Seq<char>>;

    closed spec fn view(&self) -> Map<Seq<char>, Seq<char>> {
        pairs_map(self.entries@)
    }
}

impl StringMap {
    /// The pairs in insertion order.
    pub closed spec fn pairs(&self) -> Seq<(String, String)> {
        self.entries@
    }

    /// The invariant: no key occurs twice.
    pub closed spec fn wf(&self) -> bool {
        keys_unique(self.entries@)
    }

    /// An empty map.
    pub fn new() -> (r: Self)
        ensures
            r.wf(),
            r@ == Map::<Seq<char>, Seq<char>>::empty(),
            r.pairs().len() == 0,
    {
        StringMap { entries: Vec::new() }
    }

    fn position(&self, key: &str) -> (r: Option<usize>)
        requires
            self.wf(),
        ensures
            match r {
                Some(i) => i < self.entries@.len() && self.entries@[i as int].0@ == key@,
                None => forall|i: int| 0 <= i < self.entries@.len() ==> (#[trigger] self.entries@[i]).0@ != key@,
            },
    {
        let n = self.entries.len();
        let mut i: usize = 0;
        while i < n
            invariant
                n == self.entries@.len(),
                i <= n,
                forall|j: int| 0 <= j < i ==> (#[trigger] self.entries@[j]).0@ != key@,
            decreases n - i,
        {
            if str_eq(self.entries[i].0.as_str(), key) {
                return Some(i);
            }
            i = i + 1;
        }
        None
    }

    /// Inserts a pair, replacing the value of an existing key in place.
    pub fn insert(&mut self, key: String, value: String)
        requires
            old(self).wf(),
        ensures
            final(self).wf(),
            final(self)@ == old(self)@.insert(key@, value@),
    {
        proof {
            lemma_pairs_map(self.entries@);
        }
        match self.position(key.as_str()) {
            Some(i) => {
                let ghost s0 = self.entries@;
                let _old = self.entries.remove(i);
                self.entries.insert(i, (key, value));
                proof {
                    let s1 = self.entries@;
                    assert(s1 =~= s0.update(i as int, s1[i as int]));
                    assert(keys_unique(s1)) by {
                        assert forall|a: int, b: int|
                            0 <= a < s1.len() && 0 <= b < s1.len() && a != b implies (
                            #[trigger] s1[a]).0@ != (#[trigger] s1[b]).0@ by {
                            if a != i as int {
                                assert(s1[a] == s0[a]);
                            }
                            if b != i as int {
                                assert(s1[b] == s0[b]);
                            }
                        }
                    }
                    lemma_pairs_map(s1);
                    assert(pairs_map(s1) =~= pairs_map(s0).insert(key@, value@)) by {
                        assert forall|k: Seq<char>| #[trigger] pairs_map(s1).dom().contains(k) <==> pairs_map(
                            s0,
                        ).insert(key@, value@).dom().contains(k) by {
                            if exists|j: int| 0 <= j < s1.len() && (#[trigger] s1[j]).0@ == k {
                                let j = choose|j: int| 0 <= j < s1.len() && (#[trigger] s1[j]).0@ == k;
                                if j != i as int {
                                    assert(s1[j] == s0[j]);
                                }
                            }
                            if exists|j: int| 0 <= j < s0.len() && (#[trigger] s0[j]).0@ == k {
                                let j = choose|j: int| 0 <= j < s0.len() && (#[trigger] s0[j]).0@ == k;
                                if j != i as int {
                                    assert(s1[j] == s0[j]);
                                }
                            }
                        }
                        assert forall|k: Seq<char>| #[trigger] pairs_map(s1).dom().contains(k) implies
                            pairs_map(s1)[k] == pairs_map(s0).insert(key@, value@)[k] by {
                            let j = choose|j: int| 0 <= j < s1.len() && (#[trigger] s1[j]).0@ == k;
                            if j != i as int {
                                assert(s1[j] == s0[j]);
                            }
                        }
                    }
                }
            },
            None => {
                let ghost s0 = self.entries@;
                self.entries.push((key, value));
                proof {
                    let s1 = self.entries@;
                    assert(s1.drop_last() =~= s0);
                    assert(keys_unique(s1)) by {
                        assert forall|a: int, b: int|
                            0 <= a < s1.len() && 0 <= b < s1.len() && a != b implies (
                            #[trigger] s1[a]).0@ != (#[trigger] s1[b]).0@ by {
                            if a < s0.len() {
                                assert(s1[a] == s0[a]);
                            }
                            if b < s0.len() {
                                assert(s1[b] == s0[b]);
                            }
                        }
                    }
                }
            },
        }
    }

    /// The value stored under `key`.
    pub fn get(&self, key: &str) -> (r: Option<&String>)
        requires
            self.wf(),
        ensures
            match r {
                Some(v) => self@.dom().contains(key@) && self@[key@] == v@,
                None => !self@.dom().contains(key@),
            },
    {
        proof {
            lemma_pairs_map(self.entries@);
        }
        match self.position(key) {
            Some(i) => Some(&self.entries[i].1),
            None => None,
        }
    }

    /// Whether `key` has a value.
    pub fn contains_key(&self, key: &str) -> (r: bool)
        requires
            self.wf(),
        ensures
            r == self@.dom().contains(key@),
    {
        proof {
            lemma_pairs_map(self.entries@);
        }
        self.position(key).is_some()
    }

    /// Number of pairs.
    pub fn len(&self) -> (r: usize)
        ensures
            r == self.pairs().len(),
    {
        self.entries.len()
    }

    /// The pairs in insertion order.
    pub fn entries(&self) -> (r: &Vec<(String, String)>)
        ensures
            r@ == self.pairs(),
    {
        &self.entries
    }
}

impl StringMap {
    /// The pairs in insertion order, consuming the map.
    pub fn into_entries(self) -> (r: Vec<(String, String)>)
        ensures
            r@ == self.pairs(),
    {
        self.entries
    }
}

impl StringMap {
    /// A copy of this map, with the same pairs in the same order.
    pub fn duplicate(&self) -> (r: StringMap)
        ensures
            r.pairs() == self.pairs(),
            r@ == self@,
            r.wf() == self.wf(),
    {
        let mut v: Vec<(String, String)> = Vec::new();
        let n = self.entries.len();
        let mut i: usize = 0;
        while i < n
            invariant
                n == self.entries@.len(),
                i <= n,
                v@ == self.entries@.subrange(0, i as int),
            decreases n - i,
        {
            let k = self.entries[i].0.clone();
            let val = self.entries[i].1.clone();
            v.push((k, val));
            proof {
                assert(v@ =~= self.entries@.subrange(0, i + 1));
            }
            i = i + 1;
        }
        assert(v@ =~= self.entries@);
        StringMap { entries: v }
    }
}

} // verus!
