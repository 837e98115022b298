//! A heap: one queue per size class and a list of large objects. It routes each
//! request by size and decides when frees handed over by other threads are due.
use vstd::prelude::*;

use crate::arena::ArenaError;
use crate::classes::{classes, find_class, fits, valid_table, Class};
use crate::config::{
    is_power_of_two, lemma_mod_transitive, lemma_power_of_two_divides, LARGE_SC_LIMIT,
    PAGE_SIZE, REMOTE_BATCH_SIZE, REMOTE_CHECK_FREQUENCY, REMOTE_MAX_BATCH, SIZES,
};
use crate::queue::Position;
use crate::segment::lemma_live_slot_placement;
use crate::large::{large_probe, Large, LargeError};
use crate::list::List;
use crate::mapper::Mapper;
use crate::queue::Queue;
use crate::registry::Registry;

verus! {

#[derive(Debug)]
pub enum HeapError {
    Arena(ArenaError),
    Large(LargeError),
    InvalidSize,
    InvalidPointer,
}

/// A request goes to a mapping of its own when it is larger than the
/// largest class.
pub open spec fn is_large_request(size: usize, align: usize) -> bool {
    size > LARGE_SC_LIMIT
}

/// Class `i` of `t` is the smallest that serves `size` bytes aligned to `align`.
pub open spec fn smallest_fit(t: Seq<Class>, i: int, size: usize, align: usize) -> bool {
    0 <= i < t.len() && fits(t[i], size, align) && forall|j: int| 0 <= j < i ==> !fits(#[trigger] t[j], size, align)
}

/// Whether a heap whose remote list holds `remote_len` frees drains it at
/// operation count `operations`.
pub open spec fn spec_should_free_remote(remote_len: usize, operations: usize) -> bool {
    remote_len > 0 && (remote_len > REMOTE_BATCH_SIZE || operations % REMOTE_CHECK_FREQUENCY == 0)
}

pub struct Heap {
    table: Vec<Class>,
    queues: Vec<Queue>,
    large: List<Large>,
    operations: usize,
}

impl Heap {
    pub closed spec fn table_view(&self) -> Seq<Class> {
        self.table@
    }

    pub closed spec fn queues_view(&self) -> Seq<Queue> {
        self.queues@
    }

    pub closed spec fn larges(&self) -> Seq<Large> {
        self.large@
    }

    pub closed spec fn spec_operations(&self) -> usize {
        self.operations
    }

    /// The class table is valid and queue `i` serves class `i`.
    pub closed spec fn wf(&self) -> bool {
        &&& valid_table(self.table@)
        &&& self.queues@.len() == SIZES
        &&& forall|i: int|
            0 <= i < SIZES ==> (#[trigger] self.queues@[i]).wf() && self.queues@[i].spec_class()
                == self.table@[i]
        &&& forall|k: int| 0 <= k < self.large@.len() ==> (#[trigger] self.large@[k]).wf()
    }

    /// `p` is a small allocation in use in the queue of class `i`.
    pub open spec fn is_live_small(&self, i: int, p: int) -> bool {
        0 <= i < self.queues_view().len() && self.queues_view()[i].is_live(p)
    }

    /// Freeing `p` finds one of the heap's large objects through its page.
    pub open spec fn finds_large(&self, p: int) -> bool {
        exists|k: int| 0 <= k < self.larges().len() && large_probe(#[trigger] self.larges()[k], p)
    }

    /// `p` lies among the user bytes of one of the heap's large objects.
    pub open spec fn is_live_large(&self, p: int) -> bool {
        exists|k: int|
            0 <= k < self.larges().len() && (#[trigger] self.larges()[k]).spec_user() <= p
                < self.larges()[k].spec_user() + self.larges()[k].spec_len()
    }

    pub fn new() -> (r: Heap)
        ensures
            r.wf(),
            r.larges().len() == 0,
            r.spec_operations() == 0,
            forall|i: int, p: Position| 0 <= i < SIZES ==> (#[trigger] r.queues_view()[i].list_of(p)).len() == 0,
    {
        let table = classes();
        let queues = class_init(&table);
        Heap { table, queues, large: List::new(), operations: 0 }
    }

    pub fn operations(&self) -> (r: usize)
        ensures
            r == self.spec_operations(),
    {
        self.operations
    }

    /// The queue of class `id`.
    pub fn queue(&self, id: usize) -> (r: Option<&Queue>)
        ensures
            id < self.queues_view().len() ==> r == Some(&self.queues_view()[id as int]),
            id >= self.queues_view().len() ==> r is None,
    {
        if id < self.queues.len() {
            Some(&self.queues[id])
        } else {
            None
        }
    }

    /// Number of large objects.
    pub fn large_count(&self) -> (r: usize)
        ensures
            r == self.larges().len(),
    {
        self.large.count()
    }

    /// The class table.
    pub fn table(&self) -> (r: &[Class])
        ensures
            r@ == self.table_view(),
    {
        self.table.as_slice()
    }

    /// Well-formedness, in terms callers can use: the class table is valid,
    /// queue `i` serves class `i`, and every large object is well formed.
    pub proof fn lemma_wf(&self)
        requires
            self.wf(),
        ensures
            valid_table(self.table_view()),
            self.queues_view().len() == SIZES,
            forall|i: int|
                0 <= i < SIZES ==> (#[trigger] self.queues_view()[i]).wf() && self.queues_view()[i].spec_class()
                    == self.table_view()[i],
            forall|k: int| 0 <= k < self.larges().len() ==> (#[trigger] self.larges()[k]).wf(),
    {
    }

    /// A slot in use in queue `i` is aligned to every power of two up to the
    /// alignment of class `i`.
    proof fn lemma_small_aligned(&self, i: int, p: int, align: usize)
        requires
            self.wf(),
            0 <= i < SIZES,
            self.queues_view()[i].is_live(p),
            is_power_of_two(align as nat),
            align <= self.table_view()[i].align.0,
        ensures
            p % (align as int) == 0,
    {
        let q = self.queues_view()[i];
        let (pos, k) = choose|pos: Position, k: int| 0 <= k < q.list_of(pos).len() && (#[trigger] q.list_of(pos)[k]).is_live(p);
        let s = q.list_of(pos)[k];
        lemma_live_slot_placement(s, p);
        let ca = self.table_view()[i].align.0;
        lemma_power_of_two_divides(align as nat, ca as nat);
        if align > 0 {
            lemma_mod_transitive(p, align as int, ca as int);
        }
    }

    /// Serves `size` bytes aligned to `align`: from the queue of the smallest
    /// fitting class, or, for a request larger than every class or more
    /// aligned than any, from a mapping of its own.
    pub fn allocate<M: Mapper>(&mut self, registry: &mut Registry<M>, size: usize, align: usize) -> (r: Result<usize, HeapError>)
        requires
            old(self).wf(),
            old(registry).wf(),
            is_power_of_two(align as nat),
        ensures
            final(self).wf(),
            final(registry).wf(),
            final(self).table_view() == old(self).table_view(),
            size == 0 ==> (r matches Err(HeapError::InvalidSize) && final(self).spec_operations() == old(self).spec_operations()),
            size > 0 ==> final(self).spec_operations() == old(self).spec_operations().wrapping_add(1),
            r matches Err(HeapError::InvalidSize) ==> final(self).queues_view() == old(self).queues_view()
                && final(self).larges() == old(self).larges(),
            r matches Ok(p) ==> (p as int) % (align as int) == 0,
            size > 0 && is_large_request(size, align) ==> {
                &&& final(self).queues_view() == old(self).queues_view()
                &&& align > PAGE_SIZE ==> (r matches Err(HeapError::InvalidSize))
                &&& r is Err ==> final(self).larges() == old(self).larges()
                &&& r matches Ok(p) ==> exists|l: Large|
                    #[trigger] final(self).larges() == old(self).larges().push(l) && l.wf() && l.spec_user() == p
                        && l.spec_len() == size
            },
            size > 0 && !is_large_request(size, align) ==> {
                &&& final(self).larges() == old(self).larges()
                &&& (r matches Err(HeapError::InvalidSize)) <==> forall|i: int|
                    0 <= i < SIZES ==> !fits(#[trigger] old(self).table_view()[i], size, align)
                &&& forall|i: int| 0 <= i < SIZES && (#[trigger] old(self).queues_view()[i]).backed_by(*old(registry))
                    && old(self).queues_view()[i].distinct_bases() ==> final(self).queues_view()[i].backed_by(*final(registry))
                    && final(self).queues_view()[i].distinct_bases()
                &&& forall|i: int| #[trigger] smallest_fit(old(self).table_view(), i, size, align) ==> {
                    let q0 = old(self).queues_view()[i];
                    let q1 = final(self).queues_view()[i];
                    &&& forall|j: int| 0 <= j < SIZES && j != i ==> #[trigger] final(self).queues_view()[j] == old(self).queues_view()[j]
                    &&& q0.spec_has_available() ==> r == Ok::<usize, HeapError>(q0.next_source().slot_addr(q0.next_source().next_index()) as usize)
                    &&& r is Ok ==> q1.total() == q0.total() + (if q0.spec_has_available() { 0int } else { 1int })
                    &&& r matches Ok(p) ==> q1.is_live(p as int)
                    &&& r is Err ==> q1.total() == q0.total()
                }
            },
    {
        if size == 0 {
            return Err(HeapError::InvalidSize);
        }
        self.operations = self.operations.wrapping_add(1);
        let ghost mid = *self;
        assert(mid.table_view() == old(self).table_view());
        assert(mid.queues_view() == old(self).queues_view());
        assert(mid.larges() == old(self).larges());
        if size > LARGE_SC_LIMIT {
            if align > PAGE_SIZE {
                return Err(HeapError::InvalidSize);
            }
            return self.alloc_large(registry, size, align);
        }
        self.alloc_small(registry, size, align)
    }

    fn alloc_small<M: Mapper>(&mut self, registry: &mut Registry<M>, size: usize, align: usize) -> (r: Result<usize, HeapError>)
        requires
            old(self).wf(),
            old(registry).wf(),
            size > 0,
            !is_large_request(size, align),
            is_power_of_two(align as nat),
        ensures
            final(self).wf(),
            final(registry).wf(),
            final(self).spec_operations() == old(self).spec_operations(),
            final(self).table_view() == old(self).table_view(),
            final(self).larges() == old(self).larges(),
            (r matches Err(HeapError::InvalidSize)) <==> forall|i: int|
                0 <= i < SIZES ==> !fits(#[trigger] old(self).table_view()[i], size, align),
            r matches Err(HeapError::InvalidSize) ==> final(self).queues_view() == old(self).queues_view(),
            r matches Ok(p) ==> (p as int) % (align as int) == 0,
            forall|i: int| 0 <= i < SIZES && (#[trigger] old(self).queues_view()[i]).backed_by(*old(registry))
                && old(self).queues_view()[i].distinct_bases() ==> final(self).queues_view()[i].backed_by(*final(registry))
                && final(self).queues_view()[i].distinct_bases(),
            forall|i: int| #[trigger] smallest_fit(old(self).table_view(), i, size, align) ==> {
                let q0 = old(self).queues_view()[i];
                let q1 = final(self).queues_view()[i];
                &&& forall|j: int| 0 <= j < SIZES && j != i ==> #[trigger] final(self).queues_view()[j] == old(self).queues_view()[j]
                &&& q0.spec_has_available() ==> r == Ok::<usize, HeapError>(q0.next_source().slot_addr(q0.next_source().next_index()) as usize)
                &&& r is Ok ==> q1.total() == q0.total() + (if q0.spec_has_available() { 0int } else { 1int })
                &&& r matches Ok(p) ==> q1.is_live(p as int)
                &&& r is Err ==> q1.total() == q0.total()
            },
    {
        let id = match find_class(self.table.as_slice(), size, align) {
            Some(class) => class.id,
            None => return Err(HeapError::InvalidSize),
        };
        proof {
            assert(smallest_fit(self.table@, id as int, size, align));
            assert forall|i: int| #[trigger] smallest_fit(self.table@, i, size, align) implies i == id by {
                if i < id {
                    assert(!fits(self.table@[i], size, align));
                } else if i > id {
                    assert(!fits(self.table@[id as int], size, align));
                }
            }
        }
        let ghost before = self.queues@;
        let result = self.queues[id].allocate(registry);
        proof {
            assert forall|i: int| 0 <= i < SIZES implies (#[trigger] self.queues@[i]).wf() && self.queues@[i].spec_class()
                == self.table@[i] by {
                if i != id {
                    assert(self.queues@[i] == before[i]);
                }
            }
            assert forall|j: int| 0 <= j < SIZES && j != id implies #[trigger] self.queues_view()[j] == old(self).queues_view()[j] by {
                assert(self.queues@[j] == before[j]);
            }
            assert forall|i: int| 0 <= i < SIZES && (#[trigger] old(self).queues_view()[i]).backed_by(*old(registry))
                && old(self).queues_view()[i].distinct_bases() implies self.queues_view()[i].backed_by(*registry)
                && self.queues_view()[i].distinct_bases() by {
                if i != id {
                    assert(self.queues_view()[i] == old(self).queues_view()[i]);
                    let q = self.queues_view()[i];
                    assert forall|pp: Position, k: int| 0 <= k < q.list_of(pp).len() implies registry.records(#[trigger] q.list_of(pp)[k]) by {
                        assert(old(registry).records(q.list_of(pp)[k]));
                    }
                }
            }
        }
        match result {
            Some(p) => {
                proof {
                    self.lemma_small_aligned(id as int, p as int, align);
                    assert(fits(old(self).table_view()[id as int], size, align));
                }
                Ok(p)
            },
            None => {
                proof {
                    assert(fits(old(self).table_view()[id as int], size, align));
                }
                Err(HeapError::Arena(ArenaError::Insufficient))
            },
        }
    }

    fn alloc_large<M: Mapper>(&mut self, registry: &Registry<M>, size: usize, align: usize) -> (r: Result<usize, HeapError>)
        requires
            old(self).wf(),
            size > 0,
            is_power_of_two(align as nat),
            align <= PAGE_SIZE,
        ensures
            final(self).wf(),
            final(self).spec_operations() == old(self).spec_operations(),
            final(self).table_view() == old(self).table_view(),
            final(self).queues_view() == old(self).queues_view(),
            !(r matches Err(HeapError::InvalidSize)),
            r is Err ==> final(self).larges() == old(self).larges(),
            r matches Ok(p) ==> (p as int) % (align as int) == 0 && exists|l: Large|
                #[trigger] final(self).larges() == old(self).larges().push(l) && l.wf() && l.spec_user() == p
                    && l.spec_len() == size,
    {
        let large = match Large::new(registry.mapper(), size, align) {
            Ok(l) => l,
            Err(e) => return Err(HeapError::Large(e)),
        };
        let (user, _) = large.user_slice();
        let ghost l = large;
        self.large.push(large);
        proof {
            assert(self.larges() == old(self).larges().push(l));
        }
        Ok(user)
    }

    /// Takes back `ptr`, allocated with `size` and `align`.
    pub fn deallocate<M: Mapper>(&mut self, registry: &mut Registry<M>, ptr: usize, size: usize, align: usize) -> (r: Result<(), HeapError>)
        requires
            old(self).wf(),
            old(registry).wf(),
        ensures
            final(self).wf(),
            final(registry).wf(),
            final(self).table_view() == old(self).table_view(),
            size == 0 ==> (r matches Err(HeapError::InvalidSize) && final(self).spec_operations() == old(self).spec_operations()
                && final(self).queues_view() == old(self).queues_view() && final(self).larges() == old(self).larges()),
            size > 0 ==> final(self).spec_operations() == old(self).spec_operations().wrapping_add(1),
            size > 0 ==> Self::freed(*old(self), *final(self), *old(registry), ptr, size, align, r),
    {
        if size == 0 {
            return Err(HeapError::InvalidSize);
        }
        self.operations = self.operations.wrapping_add(1);
        let ghost mid = *self;
        let r = self.deallocate_internal(registry, ptr, size, align);
        proof {
            assert(mid.queues_view() == old(self).queues_view());
            assert(mid.larges() == old(self).larges());
            assert(mid.table_view() == old(self).table_view());
        }
        r
    }

    /// What freeing `ptr` of `size` bytes aligned to `align` does to the heap
    /// (`size > 0`). A large one succeeds exactly when the page probe finds
    /// its object, which leaves the list; a small one succeeds exactly when
    /// the queue of the smallest fitting class frees it; nothing else changes.
    pub open spec fn freed<M: Mapper>(old: Heap, new: Heap, registry: Registry<M>, ptr: usize, size: usize, align: usize, r: Result<(), HeapError>) -> bool {
        if is_large_request(size, align) {
            &&& new.queues_view() == old.queues_view()
            &&& (r is Ok) == old.finds_large(ptr as int)
            &&& r is Err ==> (r matches Err(HeapError::InvalidPointer) && new.larges() == old.larges())
            &&& r is Ok ==> exists|k: int|
                0 <= k < old.larges().len() && large_probe(old.larges()[k], ptr as int) && (forall|j: int|
                    0 <= j < k ==> !large_probe(#[trigger] old.larges()[j], ptr as int)) && #[trigger] new.larges()
                    == old.larges().remove(k)
        } else {
            &&& new.larges() == old.larges()
            &&& (forall|i: int| 0 <= i < SIZES ==> !fits(#[trigger] old.table_view()[i], size, align)) ==> (r matches Err(
                HeapError::InvalidSize,
            ) && new.queues_view() == old.queues_view())
            &&& forall|i: int| #[trigger] smallest_fit(old.table_view(), i, size, align) ==> {
                &&& (r is Ok) == old.queues_view()[i].frees(registry, ptr as int)
                &&& r is Err ==> (r matches Err(HeapError::InvalidPointer))
                &&& forall|j: int| 0 <= j < SIZES && j != i ==> #[trigger] new.queues_view()[j] == old.queues_view()[j]
            }
        }
    }

    /// The routing of `deallocate`, without counting an operation; also used
    /// for frees handed over by other threads.
    pub fn deallocate_internal<M: Mapper>(&mut self, registry: &mut Registry<M>, ptr: usize, size: usize, align: usize) -> (r: Result<(), HeapError>)
        requires
            old(self).wf(),
            old(registry).wf(),
        ensures
            final(self).wf(),
            final(registry).wf(),
            final(self).spec_operations() == old(self).spec_operations(),
            final(self).table_view() == old(self).table_view(),
            size == 0 ==> (r matches Err(HeapError::InvalidSize) && final(self).queues_view() == old(self).queues_view()
                && final(self).larges() == old(self).larges()),
            size > 0 ==> Self::freed(*old(self), *final(self), *old(registry), ptr, size, align, r),
    {
        if size == 0 {
            return Err(HeapError::InvalidSize);
        }
        if size > LARGE_SC_LIMIT {
            return self.dealloc_large(registry, ptr);
        }
        self.dealloc_small(registry, ptr, size, align)
    }

    fn dealloc_small<M: Mapper>(&mut self, registry: &mut Registry<M>, ptr: usize, size: usize, align: usize) -> (r: Result<(), HeapError>)
        requires
            old(self).wf(),
            old(registry).wf(),
            size > 0,
            !is_large_request(size, align),
        ensures
            final(self).wf(),
            final(registry).wf(),
            final(self).spec_operations() == old(self).spec_operations(),
            final(self).table_view() == old(self).table_view(),
            Self::freed(*old(self), *final(self), *old(registry), ptr, size, align, r),
    {
        let id = match find_class(self.table.as_slice(), size, align) {
            Some(class) => class.id,
            None => return Err(HeapError::InvalidSize),
        };
        proof {
            assert forall|i: int| #[trigger] smallest_fit(self.table@, i, size, align) implies i == id by {
                if i < id {
                    assert(!fits(self.table@[i], size, align));
                } else if i > id {
                    assert(!fits(self.table@[id as int], size, align));
                }
            }
        }
        let ghost before = self.queues@;
        let ok = self.queues[id].deallocate(registry, ptr);
        proof {
            assert forall|i: int| 0 <= i < SIZES implies (#[trigger] self.queues@[i]).wf() && self.queues@[i].spec_class()
                == self.table@[i] by {
                if i != id {
                    assert(self.queues@[i] == before[i]);
                }
            }
            assert forall|j: int| 0 <= j < SIZES && j != id implies #[trigger] self.queues_view()[j] == old(self).queues_view()[j] by {
                assert(self.queues@[j] == before[j]);
            }
        }
        proof {
            assert(fits(old(self).table_view()[id as int], size, align));
            assert(smallest_fit(old(self).table_view(), id as int, size, align));
        }
        if ok {
            Ok(())
        } else {
            Err(HeapError::InvalidPointer)
        }
    }

    fn dealloc_large<M: Mapper>(&mut self, registry: &Registry<M>, ptr: usize) -> (r: Result<(), HeapError>)
        requires
            old(self).wf(),
        ensures
            final(self).wf(),
            final(self).spec_operations() == old(self).spec_operations(),
            final(self).queues_view() == old(self).queues_view(),
            final(self).table_view() == old(self).table_view(),
            (r is Ok) == old(self).finds_large(ptr as int),
            r is Err ==> (r matches Err(HeapError::InvalidPointer) && final(self).larges() == old(self).larges()),
            r is Ok ==> exists|k: int|
                0 <= k < old(self).larges().len() && large_probe(old(self).larges()[k], ptr as int) && (forall|j: int|
                    0 <= j < k ==> !large_probe(#[trigger] old(self).larges()[j], ptr as int)) && #[trigger] final(self).larges()
                    == old(self).larges().remove(k),
    {
        let n = self.large.count();
        let mut k: usize = 0;
        while k < n
            invariant
                self.wf(),
                *self == *old(self),
                n == self.large@.len(),
                0 <= k <= n,
                forall|j: int| 0 <= j < k ==> !large_probe(#[trigger] self.large@[j], ptr as int),
            decreases n - k,
        {
            let found = match self.large.get(k) {
                Some(l) => l.from_user_ptr(ptr),
                None => false,
            };
            if found {
                let ghost before = self.large@;
                let l = self.large.remove(k).unwrap();
                proof {
                    assert forall|j: int| 0 <= j < self.large@.len() implies (#[trigger] self.large@[j]).wf() by {
                        assert(self.large@[j] == before[if j < k { j } else { j + 1 }]);
                    }
                    assert(large_probe(old(self).larges()[k as int], ptr as int));
                    assert(forall|j: int| 0 <= j < k ==> !large_probe(#[trigger] old(self).larges()[j], ptr as int));
                    assert(self.larges() == old(self).larges().remove(k as int));
                }
                l.release(registry.mapper());
                return Ok(());
            }
            k = k + 1;
        }
        proof {
            assert forall|j: int| 0 <= j < old(self).larges().len() implies !large_probe(#[trigger] old(self).larges()[j], ptr as int) by {
                assert(old(self).larges()[j] == self.large@[j]);
            }
        }
        Err(HeapError::InvalidPointer)
    }

    /// Gives everything back: each segment of every queue to its arena, and
    /// each large object's mapping to the system. The heap is left empty.
    pub fn release<M: Mapper>(&mut self, registry: &mut Registry<M>)
        requires
            old(self).wf(),
            old(registry).wf(),
        ensures
            final(self).wf(),
            final(registry).wf(),
            final(self).table_view() == old(self).table_view(),
            final(self).larges().len() == 0,
            forall|i: int, p: Position| 0 <= i < SIZES ==> (#[trigger] final(self).queues_view()[i].list_of(p)).len() == 0,
    {
        let n = self.queues.len();
        let mut i: usize = 0;
        while i < n
            invariant
                self.wf(),
                registry.wf(),
                n == SIZES,
                self.table_view() == old(self).table_view(),
                forall|j: int, p: Position| 0 <= j < i ==> (#[trigger] self.queues_view()[j].list_of(p)).len() == 0,
            decreases n - i,
        {
            let ghost head = *self;
            let ghost before = self.queues@;
            let segments = self.queues[i].drain();
            proof {
                assert forall|j: int| 0 <= j < SIZES implies (#[trigger] self.queues@[j]).wf() && self.queues@[j].spec_class()
                    == self.table@[j] by {
                    if j != i {
                        assert(self.queues@[j] == before[j]);
                    }
                }
                assert forall|j: int, p: Position| 0 <= j < i + 1 implies (#[trigger] self.queues_view()[j].list_of(p)).len() == 0 by {
                    if j != i {
                        assert(self.queues@[j] == before[j]);
                        assert(head.queues_view()[j].list_of(p).len() == 0);
                    }
                }
            }
            let m = segments.len();
            let mut k: usize = 0;
            while k < m
                invariant
                    registry.wf(),
                    m == segments@.len(),
                decreases m - k,
            {
                let _ = registry.deallocate_segment(segments[k].base());
                k = k + 1;
            }
            i = i + 1;
        }
        let ghost queues_now = self.queues_view();
        let mut larges = self.large.drain();
        assert(self.queues_view() == queues_now);
        while larges.len() > 0
            invariant
                registry.wf(),
                self.wf(),
                self.larges().len() == 0,
                self.table_view() == old(self).table_view(),
                forall|i: int, p: Position| 0 <= i < SIZES ==> (#[trigger] self.queues_view()[i].list_of(p)).len() == 0,
            decreases larges@.len(),
        {
            let l = larges.pop().unwrap();
            l.release(registry.mapper());
        }
    }

    /// Takes back frees handed over by other threads, each given as start,
    /// size and alignment, at most `REMOTE_MAX_BATCH` of them; returns how
    /// many it took.
    pub fn free_remote_batch<M: Mapper>(&mut self, registry: &mut Registry<M>, batch: &[(usize, usize, usize)]) -> (r: usize)
        requires
            old(self).wf(),
            old(registry).wf(),
        ensures
            final(self).wf(),
            final(registry).wf(),
            final(self).table_view() == old(self).table_view(),
            final(self).spec_operations() == old(self).spec_operations(),
            r == if batch@.len() < REMOTE_MAX_BATCH { batch@.len() as usize } else { REMOTE_MAX_BATCH },
            batch@.len() == 0 ==> final(self).queues_view() == old(self).queues_view() && final(self).larges()
                == old(self).larges(),
    {
        let n = if batch.len() < REMOTE_MAX_BATCH {
            batch.len()
        } else {
            REMOTE_MAX_BATCH
        };
        let mut k: usize = 0;
        while k < n
            invariant
                self.wf(),
                registry.wf(),
                k <= n,
                n <= batch@.len(),
                self.table_view() == old(self).table_view(),
                self.spec_operations() == old(self).spec_operations(),
                k == 0 ==> self.queues_view() == old(self).queues_view() && self.larges() == old(self).larges(),
            decreases n - k,
        {
            let (base, size, align) = batch[k];
            let _ = self.deallocate_internal(registry, base, size, align);
            k = k + 1;
        }
        n
    }

    /// Freeing a slot that queue `i` has in use succeeds, with a size and
    /// alignment whose smallest class is `i`, when the registry records the
    /// queue's segments.
    pub proof fn lemma_free_succeeds<M: Mapper>(&self, registry: Registry<M>, i: int, p: usize, size: usize, align: usize, new: Heap, r: Result<(), HeapError>)
        requires
            self.wf(),
            registry.wf(),
            size > 0,
            !is_large_request(size, align),
            smallest_fit(self.table_view(), i, size, align),
            self.queues_view()[i].backed_by(registry),
            self.queues_view()[i].is_live(p as int),
            Self::freed(*self, new, registry, p, size, align, r),
        ensures
            r is Ok,
    {
        self.queues_view()[i].lemma_backed_frees(registry, p as int);
    }

    /// Whether the remote list, holding `remote_len` frees, is due for a
    /// drain: when it holds more than `REMOTE_BATCH_SIZE`, or on every
    /// `REMOTE_CHECK_FREQUENCY`-th operation.
    pub fn should_free_remote(&self, remote_len: usize) -> (r: bool)
        ensures
            r == spec_should_free_remote(remote_len, self.spec_operations()),
    {
        if remote_len == 0 {
            return false;
        }
        remote_len > REMOTE_BATCH_SIZE || self.operations % REMOTE_CHECK_FREQUENCY == 0
    }
}

/// One queue per class of `table`, in table order.
pub fn class_init(table: &Vec<Class>) -> (r: Vec<Queue>)
    requires
        valid_table(table@),
    ensures
        r@.len() == table@.len(),
        forall|i: int| 0 <= i < r@.len() ==> (#[trigger] r@[i]).wf() && r@[i].spec_class() == table@[i],
        forall|i: int, p: Position| 0 <= i < r@.len() ==> (#[trigger] r@[i].list_of(p)).len() == 0,
{
    let mut queues: Vec<Queue> = Vec::new();
    let mut i: usize = 0;
    while i < table.len()
        invariant
            valid_table(table@),
            i <= table@.len(),
            queues@.len() == i,
            forall|j: int| 0 <= j < i ==> (#[trigger] queues@[j]).wf() && queues@[j].spec_class() == table@[j],
            forall|j: int, p: Position| 0 <= j < i ==> (#[trigger] queues@[j].list_of(p)).len() == 0,
        decreases table@.len() - i,
    {
        queues.push(Queue::new(table[i]));
        i = i + 1;
    }
    queues
}

/// Frees handed to a heap by other threads are taken back soon: at once when
/// they number more than `REMOTE_BATCH_SIZE`, and otherwise within
/// `REMOTE_CHECK_FREQUENCY` operations of the owner.
pub proof fn lemma_remote_frees_drained(remote_len: usize, operations: usize)
    requires
        remote_len > 0,
    ensures
        remote_len > REMOTE_BATCH_SIZE ==> spec_should_free_remote(remote_len, operations),
        exists|k: usize|
            k < REMOTE_CHECK_FREQUENCY && #[trigger] spec_should_free_remote(
                remote_len,
                operations.wrapping_add(k),
            ),
{
    let k: usize = if operations % 16 == 0 {
        0
    } else {
        (16 - operations % 16) as usize
    };
    let m = operations.wrapping_add(k);
    if operations + k <= usize::MAX {
        assert(m == operations + k);
    } else {
        assert(usize::MAX == 0xffff_ffff || usize::MAX == 0xffff_ffff_ffff_ffff);
        assert(m == operations + k - (usize::MAX + 1));
    }
    assert(m % 16 == 0);
    assert(spec_should_free_remote(remote_len, m));
}

} // verus!
