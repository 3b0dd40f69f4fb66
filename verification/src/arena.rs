//! Arena allocation for JSON parsing: strings and values are placed in
//! `typed_arena` arenas, with counters of what was allocated.
use vstd::prelude::*;
use vstd::string::*;
use typed_arena::Arena;
use crate::keyed::TextMap;

verus! {

/// `typed_arena::Arena`, declared so that it can stand in fields.
#[verifier::external_type_specification]
#[verifier::external_body]
#[verifier::reject_recursive_types(T)]
pub struct ExArena<T>(Arena<T>);

/// `serde_json::Value`, declared so that it can stand in the JSON arena's types.
#[verifier::external_type_specification]
#[verifier::external_body]
pub struct ExJsonValue(serde_json::Value);

/// `serde_json::Map`, declared so that it can stand in the JSON arena's types.
#[verifier::external_type_specification]
#[verifier::external_body]
#[verifier::reject_recursive_types(K)]
#[verifier::reject_recursive_types(V)]
pub struct ExJsonMap<K, V>(serde_json::Map<K, V>);

/// `typed_arena::Arena::new`: an arena that holds nothing yet.
#[verifier::external_body]
fn new_arena<T>() -> Arena<T> {
    Arena::new()
}

/// `typed_arena::Arena::alloc`: moves `value` into the arena and returns a
/// reference to it there, which holds `value`.
#[verifier::external_body]
fn arena_alloc<'a, T>(arena: &'a Arena<T>, value: T) -> (r: &'a mut T)
    ensures
        *r == value,
{
    arena.alloc(value)
}

/// `typed_arena::Arena::alloc_extend`: moves the values into the arena, in
/// order, and returns the slice of them there.
#[verifier::external_body]
fn arena_alloc_extend<'a, T>(arena: &'a Arena<T>, values: Vec<T>) -> (r: &'a mut [T])
    ensures
        r@ == values@,
{
    arena.alloc_extend(values)
}

/// Memory usage statistics of a string arena.
#[derive(Debug, Clone)]
pub struct ArenaStats {
    /// Number of internal chunks the arena holds (always 1).
    pub chunks_allocated: usize,
    /// Total bytes of the strings interned.
    pub total_bytes: usize,
    /// Number of distinct strings interned.
    pub strings_allocated: usize,
}

/// Strings placed in an arena, with interning of repeated strings.
pub struct StringArena {
    arena: Arena<String>,
    interned: TextMap<String>,
    strings_allocated: usize,
    total_bytes: usize,
}

impl StringArena {
    /// The distinct strings interned so far.
    pub closed spec fn interned_set(&self) -> Set<Seq<char>> {
        self.interned.view_map().dom()
    }

    /// Number of distinct strings interned.
    pub closed spec fn strings_count(&self) -> nat {
        self.strings_allocated as nat
    }

    /// Total UTF-8 bytes of the strings interned.
    pub closed spec fn bytes_count(&self) -> nat {
        self.total_bytes as nat
    }

    /// The arena's invariant: the counter of strings is the number interned.
    pub closed spec fn wf(&self) -> bool {
        &&& self.interned.wf()
        &&& self.strings_allocated as nat == self.interned.view_map().dom().len()
        &&& forall|k: Seq<char>| #[trigger]
            self.interned.view_map().dom().contains(k) ==> self.interned.view_map()[k]@ == k
    }

    /// An empty arena.
    pub fn new() -> (r: Self)
        ensures
            r.wf(),
            r.interned_set() == Set::<Seq<char>>::empty(),
            r.strings_count() == 0,
            r.bytes_count() == 0,
    {
        let interned: TextMap<String> = TextMap::new();
        StringArena { arena: new_arena(), interned, strings_allocated: 0, total_bytes: 0 }
    }

    /// Moves `s` into the arena and returns it from there; counts nothing.
    pub fn alloc_str(&self, s: String) -> (r: &str)
        ensures
            r@ == s@,
    {
        let placed: &String = arena_alloc(&self.arena, s);
        placed.as_str()
    }

    /// The interned copy of `s`: the first time a string is interned it is
    /// placed in the arena and counted; later calls give it back uncounted.
    pub fn intern(&mut self, s: &str) -> (r: &str)
        requires
            old(self).wf(),
            !old(self).interned_set().contains(s@) ==> old(self).bytes_count() + s.spec_bytes().len()
                <= usize::MAX,
        ensures
            final(self).wf(),
            r@ == s@,
            final(self).interned_set() == old(self).interned_set().insert(s@),
            old(self).interned_set().contains(s@) ==> {
                &&& final(self).strings_count() == old(self).strings_count()
                &&& final(self).bytes_count() == old(self).bytes_count()
            },
            !old(self).interned_set().contains(s@) ==> {
                &&& final(self).strings_count() == old(self).strings_count() + 1
                &&& final(self).bytes_count() == old(self).bytes_count() + s.spec_bytes().len()
            },
    {
        if self.interned.contains_key(s) {
            let found = self.interned.get(s);
            match found {
                Some(v) => {
                    return v.as_str();
                },
                None => {
                    proof {
                        assert(false);
                    }
                    return self.alloc_str(String::from_str(s));
                },
            }
        }
        let bytes = s.len();
        let ghost before = self.interned.view_map();
        proof {
            self.interned.lemma_finite();
        }
        let _ = self.interned.insert(String::from_str(s), String::from_str(s));
        let n = self.interned.len();
        proof {
            assert(self.interned.view_map().dom() =~= before.dom().insert(s@));
        }
        self.strings_allocated = n;
        self.total_bytes = self.total_bytes + bytes;
        let placed: &String = arena_alloc(&self.arena, String::from_str(s));
        placed.as_str()
    }

    /// The arena's counters.
    pub fn memory_usage(&self) -> (r: ArenaStats)
        ensures
            r.chunks_allocated == 1,
            r.total_bytes == self.bytes_count(),
            r.strings_allocated == self.strings_count(),
    {
        ArenaStats {
            chunks_allocated: 1,
            total_bytes: self.total_bytes,
            strings_allocated: self.strings_allocated,
        }
    }
}

impl Default for StringArena {
    fn default() -> (r: Self)
        ensures
            r.wf(),
            r.interned_set() == Set::<Seq<char>>::empty(),
            r.strings_count() == 0,
            r.bytes_count() == 0,
    {
        Self::new()
    }
}

/// Values placed in an arena, with a count of them.
#[verifier::reject_recursive_types(T)]
pub struct ValueArena<T> {
    arena: Arena<T>,
    allocated_count: usize,
}

impl<T> ValueArena<T> {
    /// Number of values placed so far.
    pub closed spec fn count(&self) -> nat {
        self.allocated_count as nat
    }

    /// An empty arena.
    pub fn new() -> (r: Self)
        ensures
            r.count() == 0,
    {
        ValueArena { arena: new_arena(), allocated_count: 0 }
    }

    /// Moves `value` into the arena and returns it from there.
    pub fn alloc_one(&mut self, value: T) -> (r: &mut T)
        requires
            old(self).count() + 1 <= usize::MAX,
        ensures
            *r == value,
            final(self).count() == old(self).count() + 1,
    {
        self.allocated_count = self.allocated_count + 1;
        arena_alloc(&self.arena, value)
    }

    /// Moves the values into the arena, in order, and returns them from there.
    pub fn alloc_extend(&mut self, values: Vec<T>) -> (r: &mut [T])
        requires
            old(self).count() + values@.len() <= usize::MAX,
        ensures
            r@ == values@,
            final(self).count() == old(self).count() + values@.len(),
    {
        self.allocated_count = self.allocated_count + values.len();
        arena_alloc_extend(&self.arena, values)
    }

    /// Number of values placed so far.
    pub fn allocated_count(&self) -> (r: usize)
        ensures
            r == self.count(),
    {
        self.allocated_count
    }
}

impl<T> Default for ValueArena<T> {
    fn default() -> (r: Self)
        ensures
            r.count() == 0,
    {
        Self::new()
    }
}

/// Statistics of all the arenas of a [`JsonArena`].
#[derive(Debug, Clone)]
pub struct CombinedArenaStats {
    /// Statistics of the string arena.
    pub string_stats: ArenaStats,
    /// Number of objects placed in the object arena.
    pub objects_allocated: usize,
    /// Number of arrays placed in the array arena.
    pub arrays_allocated: usize,
    /// Number of values placed in the value arena.
    pub values_allocated: usize,
}

/// The arenas used while parsing a JSON document.
pub struct JsonArena {
    /// Strings.
    pub strings: StringArena,
    /// Objects.
    pub objects: ValueArena<serde_json::Map<String, serde_json::Value>>,
    /// Arrays.
    pub arrays: ValueArena<Vec<serde_json::Value>>,
    /// Other values.
    pub values: ValueArena<serde_json::Value>,
}

/// Whether every arena of `a` is empty.
pub open spec fn json_arena_empty(a: JsonArena) -> bool {
    &&& a.strings.wf()
    &&& a.strings.interned_set() == Set::<Seq<char>>::empty()
    &&& a.strings.strings_count() == 0
    &&& a.strings.bytes_count() == 0
    &&& a.objects.count() == 0
    &&& a.arrays.count() == 0
    &&& a.values.count() == 0
}

impl JsonArena {
    /// Empty arenas.
    pub fn new() -> (r: Self)
        ensures
            json_arena_empty(r),
    {
        JsonArena {
            strings: StringArena::new(),
            objects: ValueArena::new(),
            arrays: ValueArena::new(),
            values: ValueArena::new(),
        }
    }

    /// The counters of all the arenas.
    pub fn stats(&self) -> (r: CombinedArenaStats)
        ensures
            r.string_stats.chunks_allocated == 1,
            r.string_stats.total_bytes == self.strings.bytes_count(),
            r.string_stats.strings_allocated == self.strings.strings_count(),
            r.objects_allocated == self.objects.count(),
            r.arrays_allocated == self.arrays.count(),
            r.values_allocated == self.values.count(),
    {
        CombinedArenaStats {
            string_stats: self.strings.memory_usage(),
            objects_allocated: self.objects.allocated_count(),
            arrays_allocated: self.arrays.allocated_count(),
            values_allocated: self.values.allocated_count(),
        }
    }

    /// Drops everything allocated and starts over with empty arenas.
    pub fn reset(&mut self)
        ensures
            json_arena_empty(*final(self)),
    {
        *self = Self::new();
    }
}

impl Default for JsonArena {
    fn default() -> (r: Self)
        ensures
            json_arena_empty(r),
    {
        Self::new()
    }
}

} // verus!
