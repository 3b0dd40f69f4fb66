//! A bounded pool of reusable objects with usage statistics.
use vstd::prelude::*;
use std::collections::VecDeque;

verus! {

/// Usage statistics of an object pool.
#[derive(Debug, Clone, Copy, PartialEq, Eq, Default)]
pub struct PoolStats {
    /// Objects made by the factory.
    pub objects_created: usize,
    /// Objects handed out again from the pool.
    pub objects_reused: usize,
    /// Objects taken back into the pool.
    pub objects_returned: usize,
    /// Largest number of created objects in use at once, as seen when creating.
    pub peak_usage: usize,
    /// Objects waiting in the pool.
    pub current_pool_size: usize,
}

/// A pool holding at most `capacity` idle objects, handing them out oldest first
/// and making new ones with `factory` when it is empty.
#[verifier::reject_recursive_types(T)]
#[verifier::reject_recursive_types(F)]
pub struct ObjectPool<T, F: Fn() -> T> {
    objects: VecDeque<T>,
    capacity: usize,
    factory: F,
    stats: PoolStats,
}

impl<T, F: Fn() -> T> ObjectPool<T, F> {
    /// The idle objects, oldest first.
    pub closed spec fn idle(&self) -> Seq<T> {
        self.objects@
    }

    /// The most idle objects kept.
    pub closed spec fn spec_capacity(&self) -> usize {
        self.capacity
    }

    /// The statistics so far.
    pub closed spec fn spec_stats(&self) -> PoolStats {
        self.stats
    }

    /// The factory.
    pub closed spec fn spec_factory(&self) -> F {
        self.factory
    }

    /// The pool's invariant: within capacity, and the recorded pool size is the
    /// number of idle objects.
    pub open spec fn wf(&self) -> bool {
        &&& self.idle().len() <= self.spec_capacity()
        &&& self.spec_stats().current_pool_size == self.idle().len()
    }

    /// An empty pool.
    pub fn new(capacity: usize, factory: F) -> (r: Self)
        ensures
            r.wf(),
            r.idle().len() == 0,
            r.spec_capacity() == capacity,
            r.spec_factory() == factory,
            r.spec_stats() == PoolStats::default_spec(),
    {
        ObjectPool { objects: VecDeque::new(), capacity, factory, stats: PoolStats::zero() }
    }

    /// Hands out an object: the oldest idle one (counted as reused), or a new one
    /// from the factory (counted as created, with the peak of objects in use
    /// updated).
    pub fn get(&mut self) -> (r: T)
        requires
            old(self).wf(),
            old(self).spec_factory().requires(()),
            old(self).spec_stats().objects_created < usize::MAX,
            old(self).spec_stats().objects_reused < usize::MAX,
        ensures
            final(self).wf(),
            final(self).spec_capacity() == old(self).spec_capacity(),
            final(self).spec_factory() == old(self).spec_factory(),
            old(self).idle().len() > 0 ==> r == old(self).idle()[0] && final(self).idle() == old(self).idle().drop_first()
                && final(self).spec_stats() == (PoolStats {
                objects_reused: (old(self).spec_stats().objects_reused + 1) as usize,
                current_pool_size: (old(self).spec_stats().current_pool_size - 1) as usize,
                ..old(self).spec_stats()
            }),
            old(self).idle().len() == 0 ==> old(self).spec_factory().ensures((), r) && final(self).idle() == old(self).idle()
                && final(self).spec_stats() == (PoolStats {
                objects_created: (old(self).spec_stats().objects_created + 1) as usize,
                peak_usage: if old(self).spec_stats().objects_created + 1 - old(self).spec_stats().current_pool_size
                    > old(self).spec_stats().peak_usage {
                    (old(self).spec_stats().objects_created + 1 - old(self).spec_stats().current_pool_size) as usize
                } else {
                    old(self).spec_stats().peak_usage
                },
                ..old(self).spec_stats()
            }),
    {
        match self.objects.pop_front() {
            Some(obj) => {
                self.stats.objects_reused = self.stats.objects_reused + 1;
                self.stats.current_pool_size = self.stats.current_pool_size - 1;
                obj
            },
            None => {
                let obj = (self.factory)();
                let created = self.stats.objects_created + 1;
                self.stats.objects_created = created;
                let in_use = created.saturating_sub(self.stats.current_pool_size);
                if in_use > self.stats.peak_usage {
                    self.stats.peak_usage = in_use;
                }
                obj
            },
        }
    }

    /// Takes an object back: it is kept (and counted as returned) when the pool has
    /// room, and dropped otherwise.
    pub fn return_object(&mut self, obj: T)
        requires
            old(self).wf(),
            old(self).spec_stats().objects_returned < usize::MAX,
        ensures
            final(self).wf(),
            final(self).spec_capacity() == old(self).spec_capacity(),
            final(self).spec_factory() == old(self).spec_factory(),
            old(self).idle().len() < old(self).spec_capacity() ==> final(self).idle() == old(self).idle().push(obj)
                && final(self).spec_stats() == (PoolStats {
                objects_returned: (old(self).spec_stats().objects_returned + 1) as usize,
                current_pool_size: (old(self).spec_stats().current_pool_size + 1) as usize,
                ..old(self).spec_stats()
            }),
            old(self).idle().len() >= old(self).spec_capacity() ==> final(self).idle() == old(self).idle()
                && final(self).spec_stats() == old(self).spec_stats(),
    {
        if self.objects.len() < self.capacity {
            self.objects.push_back(obj);
            self.stats.objects_returned = self.stats.objects_returned + 1;
            self.stats.current_pool_size = self.stats.current_pool_size + 1;
        }
    }

    /// The statistics so far.
    pub fn stats(&self) -> (r: PoolStats)
        ensures
            r == self.spec_stats(),
    {
        self.stats
    }
}

impl PoolStats {
    /// All counters at zero.
    pub open spec fn default_spec() -> PoolStats {
        PoolStats {
            objects_created: 0,
            objects_reused: 0,
            objects_returned: 0,
            peak_usage: 0,
            current_pool_size: 0,
        }
    }

    /// All counters at zero.
    pub fn zero() -> (r: PoolStats)
        ensures
            r == PoolStats::default_spec(),
    {
        PoolStats {
            objects_created: 0,
            objects_reused: 0,
            objects_returned: 0,
            peak_usage: 0,
            current_pool_size: 0,
        }
    }
}

/// An object handed out and then taken back finds the pool as it was, plus one
/// idle object and one count each of reuse and return, when the pool had an idle
/// object to hand out.
pub proof fn lemma_reuse_round_trip(before: PoolStats)
    requires
        before.current_pool_size > 0,
        before.objects_reused < usize::MAX,
        before.objects_returned < usize::MAX,
    ensures
        ({
            let after_get = PoolStats {
                objects_reused: (before.objects_reused + 1) as usize,
                current_pool_size: (before.current_pool_size - 1) as usize,
                ..before
            };
            let after_return = PoolStats {
                objects_returned: (after_get.objects_returned + 1) as usize,
                current_pool_size: (after_get.current_pool_size + 1) as usize,
                ..after_get
            };
            after_return.current_pool_size == before.current_pool_size
                && after_return.objects_created == before.objects_created
                && after_return.peak_usage == before.peak_usage
        }),
{
}

} // verus!
