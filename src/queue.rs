//! The segments of one size class, kept in three lists by how full they are.
use vstd::prelude::*;

use crate::classes::{valid_class, Class};
use crate::config::QUEUE_THRESHOLD;
use crate::list::List;
use crate::mapper::Mapper;
use crate::registry::Registry;
use crate::segment::{lemma_alloc_dealloc_round_trip, Segment, SEGMENT_CACHE_SIZE};

verus! {

/// Which list a segment is in.
#[derive(Debug, Clone, Copy, PartialEq, Eq, Structural)]
pub enum Position {
    Free,
    Partial,
    Full,
}

impl Default for Position {
    fn default() -> (r: Self)
        ensures
            r == Position::Free,
    {
        Position::Free
    }
}

/// The list a segment belongs in: `Full` when every slot is in use, `Free`
/// when none is, `Partial` otherwise.
pub open spec fn position_of(s: Segment) -> Position {
    if s.spec_is_full() {
        Position::Full
    } else if s.spec_is_empty() {
        Position::Free
    } else {
        Position::Partial
    }
}

/// A slot handed out by a segment and taken back again leaves the segment in
/// the list it started in.
pub proof fn lemma_round_trip_position(s0: Segment, s1: Segment, s2: Segment, p: int)
    requires
        s0.wf(),
        !s0.spec_is_full(),
        s1.spec_class() == s0.spec_class(),
        s1.spec_slots() == s0.spec_slots(),
        s1.used() == s0.used().update(s0.next_index(), true),
        p == s0.slot_addr(s0.next_index()),
        0 <= s0.next_index() < s0.slot_count(),
        !s0.used()[s0.next_index()],
        s2.used() == s1.used().update((p - s1.spec_slots()) / (s1.spec_class().size.0 as int), false),
    ensures
        s2.used() == s0.used(),
        position_of(s2) == position_of(s0),
{
    lemma_alloc_dealloc_round_trip(s0, s1, s2, p);
}

pub struct Queue {
    class: Class,
    free_list: List<Segment>,
    partial_list: List<Segment>,
    full_list: List<Segment>,
}

impl Queue {
    pub closed spec fn spec_class(&self) -> Class {
        self.class
    }

    /// The segments in list `p`, oldest first.
    pub closed spec fn list_of(&self, p: Position) -> Seq<Segment> {
        match p {
            Position::Free => self.free_list@,
            Position::Partial => self.partial_list@,
            Position::Full => self.full_list@,
        }
    }

    /// Every segment is well formed, of the queue's class, and in the list
    /// that matches its state.
    pub open spec fn wf(&self) -> bool {
        &&& valid_class(self.spec_class())
        &&& forall|p: Position, k: int|
            0 <= k < self.list_of(p).len() ==> {
                let s = #[trigger] self.list_of(p)[k];
                &&& s.wf()
                &&& s.spec_class() == self.spec_class()
                &&& position_of(s) == p
            }
    }

    /// `ptr` is a slot in use in one of the queue's segments.
    pub open spec fn is_live(&self, ptr: int) -> bool {
        exists|p: Position, k: int|
            0 <= k < self.list_of(p).len() && (#[trigger] self.list_of(p)[k]).is_live(ptr)
    }

    /// Number of segments in the queue.
    pub open spec fn total(&self) -> int {
        (self.list_of(Position::Free).len() + self.list_of(Position::Partial).len() + self.list_of(
            Position::Full,
        ).len()) as int
    }

    /// The segment `allocate` takes its slot from when one is available: the
    /// newest free segment, else the newest partial one.
    pub open spec fn next_source(&self) -> Segment {
        if self.list_of(Position::Free).len() > 0 {
            self.list_of(Position::Free).last()
        } else {
            self.list_of(Position::Partial).last()
        }
    }

    /// When a segment is available, the slot `allocate` hands out is free in
    /// it.
    pub proof fn lemma_source_slot_free(&self)
        requires
            self.wf(),
            self.spec_has_available(),
        ensures
            self.next_source().wf(),
            !self.next_source().spec_is_full(),
            0 <= self.next_source().next_index() < self.next_source().slot_count(),
            !self.next_source().used()[self.next_source().next_index()],
    {
        let p = if self.list_of(Position::Free).len() > 0 { Position::Free } else { Position::Partial };
        let k = self.list_of(p).len() - 1;
        assert(self.list_of(p)[k] == self.next_source());
        assert(position_of(self.list_of(p)[k]) == p);
        self.next_source().lemma_next_index_free();
    }

    pub open spec fn spec_has_available(&self) -> bool {
        self.list_of(Position::Free).len() > 0 || self.list_of(Position::Partial).len() > 0
    }

    pub fn new(class: Class) -> (r: Queue)
        requires
            valid_class(class),
        ensures
            r.wf(),
            r.spec_class() == class,
            forall|p: Position| (#[trigger] r.list_of(p)).len() == 0,
    {
        Queue { class, free_list: List::new(), partial_list: List::new(), full_list: List::new() }
    }

    pub fn class(&self) -> (r: Class)
        ensures
            r == self.spec_class(),
    {
        self.class
    }

    /// The segment at `index` of list `p`.
    pub fn segment(&self, p: Position, index: usize) -> (r: Option<&Segment>)
        ensures
            index < self.list_of(p).len() ==> r == Some(&self.list_of(p)[index as int]),
            index >= self.list_of(p).len() ==> r is None,
    {
        match p {
            Position::Free => self.free_list.get(index),
            Position::Partial => self.partial_list.get(index),
            Position::Full => self.full_list.get(index),
        }
    }

    /// Number of segments in list `p`.
    pub fn count(&self, p: Position) -> (r: usize)
        ensures
            r == self.list_of(p).len(),
    {
        match p {
            Position::Free => self.free_list.count(),
            Position::Partial => self.partial_list.count(),
            Position::Full => self.full_list.count(),
        }
    }

    fn remove_at(&mut self, p: Position, index: usize) -> (r: Segment)
        requires
            index < old(self).list_of(p).len(),
        ensures
            r == old(self).list_of(p)[index as int],
            final(self).list_of(p) == old(self).list_of(p).remove(index as int),
            forall|q: Position| q != p ==> #[trigger] final(self).list_of(q) == old(self).list_of(q),
            final(self).spec_class() == old(self).spec_class(),
    {
        match p {
            Position::Free => self.free_list.remove(index).unwrap(),
            Position::Partial => self.partial_list.remove(index).unwrap(),
            Position::Full => self.full_list.remove(index).unwrap(),
        }
    }

    fn insert_at(&mut self, p: Position, index: usize, s: Segment)
        requires
            index <= old(self).list_of(p).len(),
        ensures
            final(self).list_of(p) == old(self).list_of(p).insert(index as int, s),
            forall|q: Position| q != p ==> #[trigger] final(self).list_of(q) == old(self).list_of(q),
            final(self).spec_class() == old(self).spec_class(),
    {
        match p {
            Position::Free => self.free_list.insert(index, s),
            Position::Partial => self.partial_list.insert(index, s),
            Position::Full => self.full_list.insert(index, s),
        }
    }

    fn push_at(&mut self, p: Position, s: Segment)
        ensures
            final(self).list_of(p) == old(self).list_of(p).push(s),
            forall|q: Position| q != p ==> #[trigger] final(self).list_of(q) == old(self).list_of(q),
            final(self).spec_class() == old(self).spec_class(),
    {
        match p {
            Position::Free => self.free_list.push(s),
            Position::Partial => self.partial_list.push(s),
            Position::Full => self.full_list.push(s),
        }
    }

    /// Moves the segment at `index` of list `from` to the tail of list `to`.
    pub fn displace(&mut self, from: Position, index: usize, to: Position)
        requires
            old(self).wf(),
            index < old(self).list_of(from).len(),
            position_of(old(self).list_of(from)[index as int]) == to,
        ensures
            final(self).wf(),
            final(self).spec_class() == old(self).spec_class(),
            from == to ==> forall|q: Position| #[trigger] final(self).list_of(q) == old(self).list_of(q),
            from != to ==> {
                &&& final(self).list_of(from) == old(self).list_of(from).remove(index as int)
                &&& final(self).list_of(to) == old(self).list_of(to).push(
                    old(self).list_of(from)[index as int],
                )
                &&& forall|q: Position|
                    q != from && q != to ==> #[trigger] final(self).list_of(q) == old(self).list_of(q)
            },
    {
        if from == to {
            return;
        }
        let s = self.remove_at(from, index);
        self.push_at(to, s);
        proof {
            assert forall|p: Position, k: int| 0 <= k < self.list_of(p).len() implies {
                let s = #[trigger] self.list_of(p)[k];
                &&& s.wf()
                &&& s.spec_class() == self.spec_class()
                &&& position_of(s) == p
            } by {
                if p == from {
                    assert(self.list_of(p)[k] == old(self).list_of(p)[if k < index { k } else { k + 1 }]);
                } else if p == to {
                    if k < old(self).list_of(p).len() {
                        assert(self.list_of(p)[k] == old(self).list_of(p)[k]);
                    }
                } else {
                    assert(self.list_of(p)[k] == old(self).list_of(p)[k]);
                }
            }
        }
    }

    pub fn has_available(&self) -> (r: bool)
        ensures
            r == self.spec_has_available(),
    {
        !self.free_list.is_empty() || !self.partial_list.is_empty()
    }

    /// Takes out the newest free segment, or else the newest partial one.
    pub fn get_available(&mut self) -> (r: Option<Segment>)
        requires
            old(self).wf(),
        ensures
            final(self).wf(),
            final(self).spec_class() == old(self).spec_class(),
            old(self).spec_has_available() <==> r is Some,
            r matches Some(s) ==> s.wf() && s.spec_class() == old(self).spec_class() && !s.spec_is_full(),
            old(self).list_of(Position::Free).len() > 0 ==> r == Some(old(self).list_of(Position::Free).last())
                && final(self).list_of(Position::Free) == old(self).list_of(Position::Free).drop_last()
                && final(self).list_of(Position::Partial) == old(self).list_of(Position::Partial),
            old(self).list_of(Position::Free).len() == 0 && old(self).list_of(Position::Partial).len() > 0
                ==> r == Some(old(self).list_of(Position::Partial).last())
                && final(self).list_of(Position::Partial) == old(self).list_of(Position::Partial).drop_last()
                && final(self).list_of(Position::Free) == old(self).list_of(Position::Free),
            final(self).list_of(Position::Full) == old(self).list_of(Position::Full),
            r is None ==> forall|q: Position| #[trigger] final(self).list_of(q) == old(self).list_of(q),
    {
        let r = if self.free_list.count() > 0 {
            self.free_list.pop()
        } else {
            self.partial_list.pop()
        };
        proof {
            if r is Some {
                let p = if old(self).free_list@.len() > 0 { Position::Free } else { Position::Partial };
                let k = old(self).list_of(p).len() - 1;
                assert(old(self).list_of(p)[k] == r->Some_0);
            }
            assert forall|p: Position, k: int| 0 <= k < self.list_of(p).len() implies {
                let s = #[trigger] self.list_of(p)[k];
                &&& s.wf()
                &&& s.spec_class() == self.spec_class()
                &&& position_of(s) == p
            } by {
                assert(self.list_of(p)[k] == old(self).list_of(p)[k]);
            }
        }
        r
    }

    /// Files `segment` in the list that matches its state.
    pub fn update_state(&mut self, segment: Segment)
        requires
            old(self).wf(),
            segment.wf(),
            segment.spec_class() == old(self).spec_class(),
        ensures
            final(self).wf(),
            final(self).spec_class() == old(self).spec_class(),
            final(self).list_of(position_of(segment)) == old(self).list_of(position_of(segment)).push(segment),
            forall|q: Position| q != position_of(segment) ==> #[trigger] final(self).list_of(q) == old(self).list_of(q),
    {
        let p = if segment.is_full() {
            Position::Full
        } else if segment.is_empty() {
            Position::Free
        } else {
            Position::Partial
        };
        let ghost seg = segment;
        self.push_at(p, segment);
        proof {
            assert forall|q: Position, k: int| 0 <= k < self.list_of(q).len() implies {
                let s = #[trigger] self.list_of(q)[k];
                &&& s.wf()
                &&& s.spec_class() == self.spec_class()
                &&& position_of(s) == q
            } by {
                if q == p && k == old(self).list_of(q).len() {
                    assert(self.list_of(q)[k] == seg);
                } else {
                    assert(self.list_of(q)[k] == old(self).list_of(q)[k]);
                }
            }
        }
    }

    /// Adds a fresh, empty segment to the free list.
    pub fn add_segment(&mut self, segment: Segment)
        requires
            old(self).wf(),
            segment.wf(),
            segment.spec_class() == old(self).spec_class(),
            segment.spec_is_empty(),
        ensures
            final(self).wf(),
            final(self).spec_class() == old(self).spec_class(),
            final(self).list_of(Position::Free) == old(self).list_of(Position::Free).push(segment),
    {
        proof {
            segment.lemma_has_slot();
        }
        self.update_state(segment);
    }

    /// A slot of this class: from the newest free segment, else the newest
    /// partial one, else from a new segment of the registry.
    pub fn allocate<M: Mapper>(&mut self, registry: &mut Registry<M>) -> (r: Option<usize>)
        requires
            old(self).wf(),
            old(registry).wf(),
        ensures
            final(self).wf(),
            final(registry).wf(),
            final(self).spec_class() == old(self).spec_class(),
            old(self).spec_has_available() ==> r is Some,
            r matches Some(p) ==> final(self).is_live(p as int),
            old(self).spec_has_available() ==> r == Some(
                old(self).next_source().slot_addr(old(self).next_source().next_index()) as usize,
            ),
            r is Some ==> final(self).total() == old(self).total() + (if old(self).spec_has_available() {
                0int
            } else {
                1int
            }),
            r is None ==> forall|q: Position| #[trigger] final(self).list_of(q) == old(self).list_of(q),
            old(self).spec_has_available() ==> exists|s: Segment|
                #[trigger] Queue::took_from(*old(self), *final(self), old(self).source_position(), s)
                    && s.wf() && s.spec_class() == old(self).spec_class()
                    && s.spec_base() == old(self).next_source().spec_base()
                    && s.spec_slots() == old(self).next_source().spec_slots()
                    && s.used() == old(self).next_source().used().update(old(self).next_source().next_index(), true)
                    && (old(self).next_source().cached().len() > 0 ==> s.cached() == old(self).next_source().cached().drop_last())
                    && (old(self).next_source().cached().len() == 0 ==> s.cached() == old(self).next_source().cached()),
            !old(self).spec_has_available() && r is Some ==> exists|s: Segment|
                #[trigger] Queue::added(*old(self), *final(self), s) && s.wf() && s.spec_class() == old(self).spec_class()
                    && s.is_live(r->Some_0 as int) && final(registry).is_live_segment(s.spec_base())
                    && final(registry).records(s),
            old(self).backed_by(*old(registry)) ==> final(self).backed_by(*final(registry)),
            old(self).backed_by(*old(registry)) && old(self).distinct_bases() ==> final(self).distinct_bases(),
            forall|g: Segment| #[trigger] old(registry).records(g) ==> final(registry).records(g),
    {
        if let Some(mut segment) = self.get_available() {
            let ghost old_seg = segment;
            let r = segment.alloc_slot();
            let ghost seg = segment;
            self.update_state(segment);
            proof {
                let p = position_of(seg);
                let k = self.list_of(p).len() - 1;
                assert(self.list_of(p)[k] == seg);
                let i = old_seg.next_index();
                assert(0 <= i < seg.slot_count());
                assert(seg.used()[i]);
                assert(seg.slot_addr(i) == old_seg.slot_addr(i));
                assert(r->Some_0 as int == seg.slot_addr(i));
                assert(seg.is_live(r->Some_0 as int));
                assert(old_seg == old(self).next_source());
                assert(Queue::took_from(*old(self), *self, old(self).source_position(), seg));
                if old(self).backed_by(*registry) && old(self).distinct_bases() {
                    assert(seg.spec_end() == old_seg.spec_end());
                    Queue::lemma_took_keeps(*old(self), *self, old(self).source_position(), seg, *registry, *registry);
                }
                if old(self).backed_by(*registry) {
                    let sp = old(self).source_position();
                    let last = old(self).list_of(sp).len() - 1;
                    assert(old(self).list_of(sp)[last] == old_seg);
                    assert(registry.records(old_seg));
                    let k2 = choose|k: int| 0 <= k < registry.arenas_view().len() && (#[trigger] registry.arenas_view()[k]).records(old_seg);
                    assert(seg.spec_end() == old_seg.spec_end());
                    assert(registry.arenas_view()[k2].records(seg));
                    assert forall|q: Position, k: int| 0 <= k < self.list_of(q).len() implies registry.records(#[trigger] self.list_of(q)[k]) by {
                        if q == sp {
                            if position_of(seg) == sp && k == self.list_of(q).len() - 1 {
                                assert(self.list_of(q)[k] == seg);
                            } else {
                                assert(self.list_of(q)[k] == old(self).list_of(q)[k]);
                            }
                        } else if q == position_of(seg) {
                            if k == self.list_of(q).len() - 1 {
                                assert(self.list_of(q)[k] == seg);
                            } else {
                                assert(self.list_of(q)[k] == old(self).list_of(q)[k]);
                            }
                        } else {
                            assert(self.list_of(q)[k] == old(self).list_of(q)[k]);
                        }
                    }
                }
            }
            return r;
        }
        let mut segment = match registry.allocate_segment(self.class) {
            Ok(s) => s,
            Err(_) => return None,
        };
        proof {
            segment.lemma_has_slot();
        }
        let ghost old_seg = segment;
        let r = segment.alloc_slot();
        let ghost seg = segment;
        self.update_state(segment);
        proof {
            let p = position_of(seg);
            let k = self.list_of(p).len() - 1;
            assert(self.list_of(p)[k] == seg);
            let i = old_seg.next_index();
            assert(0 <= i < seg.slot_count());
            assert(seg.used()[i]);
            assert(seg.slot_addr(i) == old_seg.slot_addr(i));
            assert(r->Some_0 as int == seg.slot_addr(i));
            assert(seg.is_live(r->Some_0 as int));
            assert(Queue::added(*old(self), *self, seg));
            assert(seg.spec_end() == old_seg.spec_end());
            let k2 = choose|k: int| 0 <= k < registry.arenas_view().len() && (#[trigger] registry.arenas_view()[k]).records(old_seg);
            assert(registry.arenas_view()[k2].records(seg));
            assert(registry.records(seg));
            if old(self).backed_by(*old(registry)) && old(self).distinct_bases() {
                Queue::lemma_added_keeps(*old(self), *self, seg, *old(registry), *registry);
            }
            if old(self).backed_by(*old(registry)) {
                assert forall|q: Position, k: int| 0 <= k < self.list_of(q).len() implies registry.records(#[trigger] self.list_of(q)[k]) by {
                    if q == position_of(seg) && k == self.list_of(q).len() - 1 {
                        assert(self.list_of(q)[k] == seg);
                    } else {
                        assert(self.list_of(q)[k] == old(self).list_of(q)[k]);
                        assert(old(registry).records(old(self).list_of(q)[k]));
                    }
                }
            }
        }
        r
    }

    /// Empties the queue, handing over its segments: the free ones, then the
    /// partial ones, then the full ones, each list oldest first.
    pub fn drain(&mut self) -> (r: Vec<Segment>)
        requires
            old(self).wf(),
        ensures
            final(self).wf(),
            final(self).spec_class() == old(self).spec_class(),
            forall|q: Position| (#[trigger] final(self).list_of(q)).len() == 0,
            r@ == old(self).list_of(Position::Free) + old(self).list_of(Position::Partial) + old(self).list_of(
                Position::Full,
            ),
    {
        let mut out = self.free_list.drain();
        let mut partial = self.partial_list.drain();
        let mut full = self.full_list.drain();
        out.append(&mut partial);
        out.append(&mut full);
        proof {
            assert forall|p: Position, k: int| 0 <= k < self.list_of(p).len() implies {
                let s = #[trigger] self.list_of(p)[k];
                &&& s.wf()
                &&& s.spec_class() == self.spec_class()
                &&& position_of(s) == p
            } by {
                assert(self.list_of(p).len() == 0);
            }
        }
        out
    }

    /// The list `allocate` takes its segment from when one is available.
    pub open spec fn source_position(&self) -> Position {
        if self.list_of(Position::Free).len() > 0 {
            Position::Free
        } else {
            Position::Partial
        }
    }

    /// `new` is `old` with the tail of list `p` taken out and `s` filed at
    /// the tail of the list that matches its state.
    pub open spec fn took_from(old: Queue, new: Queue, p: Position, s: Segment) -> bool {
        &&& new.list_of(p) == if position_of(s) == p {
            old.list_of(p).drop_last().push(s)
        } else {
            old.list_of(p).drop_last()
        }
        &&& position_of(s) != p ==> new.list_of(position_of(s)) == old.list_of(position_of(s)).push(s)
        &&& forall|q: Position| q != p && q != position_of(s) ==> #[trigger] new.list_of(q) == old.list_of(q)
    }

    /// `new` is `old` with `s` filed at the tail of the list that matches its
    /// state.
    pub open spec fn added(old: Queue, new: Queue, s: Segment) -> bool {
        &&& new.list_of(position_of(s)) == old.list_of(position_of(s)).push(s)
        &&& forall|q: Position| q != position_of(s) ==> #[trigger] new.list_of(q) == old.list_of(q)
    }

    /// Where the first segment that starts at `base` and has `ptr` in use is
    /// filed, looking through the free, partial and full lists in turn.
    fn find_segment(&self, base: usize, ptr: usize) -> (r: Option<(Position, usize)>)
        requires
            self.wf(),
        ensures
            r matches Some((p, k)) ==> k < self.list_of(p).len() && self.list_of(p)[k as int].spec_base() == base
                && self.list_of(p)[k as int].is_live(ptr as int),
            r is None ==> forall|p: Position, k: int|
                0 <= k < self.list_of(p).len() && (#[trigger] self.list_of(p)[k]).spec_base() == base
                    ==> !self.list_of(p)[k].is_live(ptr as int),
    {
        let mut k: usize = 0;
        while k < self.free_list.count()
            invariant
                self.wf(),
                forall|j: int| 0 <= j < k && (#[trigger] self.list_of(Position::Free)[j]).spec_base() == base
                    ==> !self.list_of(Position::Free)[j].is_live(ptr as int),
            decreases self.free_list@.len() - k,
        {
            let s = self.free_list.get(k).unwrap();
            proof {
                assert(self.list_of(Position::Free)[k as int].wf());
            }
            if s.base() == base && s.is_live_ptr(ptr) {
                return Some((Position::Free, k));
            }
            k = k + 1;
        }
        k = 0;
        while k < self.partial_list.count()
            invariant
                self.wf(),
                forall|j: int| 0 <= j < self.list_of(Position::Free).len() && (#[trigger] self.list_of(Position::Free)[j]).spec_base() == base
                    ==> !self.list_of(Position::Free)[j].is_live(ptr as int),
                forall|j: int| 0 <= j < k && (#[trigger] self.list_of(Position::Partial)[j]).spec_base() == base
                    ==> !self.list_of(Position::Partial)[j].is_live(ptr as int),
            decreases self.partial_list@.len() - k,
        {
            let s = self.partial_list.get(k).unwrap();
            proof {
                assert(self.list_of(Position::Partial)[k as int].wf());
            }
            if s.base() == base && s.is_live_ptr(ptr) {
                return Some((Position::Partial, k));
            }
            k = k + 1;
        }
        k = 0;
        while k < self.full_list.count()
            invariant
                self.wf(),
                forall|j: int| 0 <= j < self.list_of(Position::Free).len() && (#[trigger] self.list_of(Position::Free)[j]).spec_base() == base
                    ==> !self.list_of(Position::Free)[j].is_live(ptr as int),
                forall|j: int| 0 <= j < self.list_of(Position::Partial).len() && (#[trigger] self.list_of(Position::Partial)[j]).spec_base() == base
                    ==> !self.list_of(Position::Partial)[j].is_live(ptr as int),
                forall|j: int| 0 <= j < k && (#[trigger] self.list_of(Position::Full)[j]).spec_base() == base
                    ==> !self.list_of(Position::Full)[j].is_live(ptr as int),
            decreases self.full_list@.len() - k,
        {
            let s = self.full_list.get(k).unwrap();
            proof {
                assert(self.list_of(Position::Full)[k as int].wf());
            }
            if s.base() == base && s.is_live_ptr(ptr) {
                return Some((Position::Full, k));
            }
            k = k + 1;
        }
        proof {
            assert forall|p: Position, j: int|
                0 <= j < self.list_of(p).len() && (#[trigger] self.list_of(p)[j]).spec_base() == base
                    implies !self.list_of(p)[j].is_live(ptr as int) by {
                match p {
                    Position::Free => {},
                    Position::Partial => {},
                    Position::Full => {},
                }
            }
        }
        None
    }

    /// Freeing `ptr` finds it: a segment of the queue has `ptr` in use, and
    /// `registry` records the slots of the live segment at its start as
    /// holding `ptr`.
    pub open spec fn frees<M: Mapper>(&self, registry: Registry<M>, ptr: int) -> bool {
        exists|p: Position, k: int|
            0 <= k < self.list_of(p).len() && (#[trigger] self.list_of(p)[k]).is_live(ptr)
                && registry.holds(self.list_of(p)[k].spec_base(), ptr)
    }

    /// Every segment of the queue is recorded by `registry`.
    pub open spec fn backed_by<M: Mapper>(&self, registry: Registry<M>) -> bool {
        forall|p: Position, k: int| 0 <= k < self.list_of(p).len() ==> registry.records(#[trigger] self.list_of(p)[k])
    }

    /// No two segments of the queue start at the same address.
    pub open spec fn distinct_bases(&self) -> bool {
        forall|p: Position, k: int, q: Position, l: int|
            0 <= k < self.list_of(p).len() && 0 <= l < self.list_of(q).len() && (p != q || k != l)
                ==> (#[trigger] self.list_of(p)[k]).spec_base() != (#[trigger] self.list_of(q)[l]).spec_base()
    }

    /// Where the segment at `l` of list `q` of a queue refiled from `old` by
    /// replacing the segment at `k` of list `p` with `s` was in `old`.
    pub open spec fn refiled_origin(old: Queue, p: Position, k: int, s: Segment, q: Position, l: int) -> (Position, int) {
        if q == p {
            if position_of(s) == p {
                (p, l)
            } else if l < k {
                (p, l)
            } else {
                (p, l + 1)
            }
        } else if l < old.list_of(q).len() {
            (q, l)
        } else {
            (p, k)
        }
    }

    /// Refiling one segment, as `deallocate` does, keeps the queue's
    /// segments recorded and their starts distinct, when the registry keeps
    /// recording every other segment (and that one, unless it was dropped).
    pub proof fn lemma_refiled_keeps<M: Mapper>(old: Queue, new: Queue, p: Position, k: int, s: Segment, before: Registry<M>, after: Registry<M>)
        requires
            0 <= k < old.list_of(p).len(),
            Queue::refiled(old, new, p, k, s),
            s.spec_base() == old.list_of(p)[k].spec_base(),
            s.spec_slots() == old.list_of(p)[k].spec_slots(),
            s.spec_end() == old.list_of(p)[k].spec_end(),
            old.backed_by(before),
            old.distinct_bases(),
            position_of(old.list_of(p)[k]) == p,
            p != Position::Free,
            s.wf(),
            forall|g: Segment| #[trigger] before.records(g) && g.spec_base() != s.spec_base() ==> after.records(g),
            new.total() == old.total() ==> after.records(s),
        ensures
            new.backed_by(after),
            new.distinct_bases(),
    {
        let case_a = position_of(s) == p && new.list_of(p) == old.list_of(p).update(k, s) && (forall|q: Position|
            q != p ==> #[trigger] new.list_of(q) == old.list_of(q));
        let case_b = position_of(s) != p && new.list_of(p) == old.list_of(p).remove(k) && new.list_of(position_of(s))
            == old.list_of(position_of(s)).push(s) && (forall|q: Position|
            q != p && q != position_of(s) ==> #[trigger] new.list_of(q) == old.list_of(q));
        let case_c = s.spec_is_empty() && old.list_of(Position::Free).len() > QUEUE_THRESHOLD && new.list_of(p)
            == old.list_of(p).remove(k) && (forall|q: Position| q != p ==> #[trigger] new.list_of(q) == old.list_of(q));
        assert(case_a || case_b || case_c);
        if case_c && !case_a && !case_b {
            s.lemma_has_slot();
            assert(position_of(s) == Position::Free);
        }
        assert forall|q: Position, l: int| 0 <= l < new.list_of(q).len() implies {
            let o = Queue::refiled_origin(old, p, k, s, q, l);
            &&& 0 <= o.1 < old.list_of(o.0).len()
            &&& (o == (p, k) ==> #[trigger] new.list_of(q)[l] == s && new.total() == old.total())
            &&& (o != (p, k) ==> new.list_of(q)[l] == old.list_of(o.0)[o.1])
        } by {
            if case_a {
                if q != p {
                    assert(new.list_of(q) == old.list_of(q));
                }
            } else if case_b {
                if q != p && q != position_of(s) {
                    assert(new.list_of(q) == old.list_of(q));
                }
            } else {
                if q != p {
                    assert(new.list_of(q) == old.list_of(q));
                }
            }
        }
        assert forall|q: Position, l: int| 0 <= l < new.list_of(q).len() implies after.records(#[trigger] new.list_of(q)[l]) by {
            let o = Queue::refiled_origin(old, p, k, s, q, l);
            if o == (p, k) {
            } else {
                assert(before.records(old.list_of(o.0)[o.1]));
                assert(old.list_of(o.0)[o.1].spec_base() != old.list_of(p)[k].spec_base());
            }
        }
        assert forall|q1: Position, l1: int, q2: Position, l2: int|
            0 <= l1 < new.list_of(q1).len() && 0 <= l2 < new.list_of(q2).len() && (q1 != q2 || l1 != l2)
                implies (#[trigger] new.list_of(q1)[l1]).spec_base() != (#[trigger] new.list_of(q2)[l2]).spec_base() by {
            let o1 = Queue::refiled_origin(old, p, k, s, q1, l1);
            let o2 = Queue::refiled_origin(old, p, k, s, q2, l2);
            assert(o1 != o2);
            assert(old.list_of(o1.0)[o1.1].spec_base() != old.list_of(o2.0)[o2.1].spec_base());
        }
    }

    /// Taking a slot from the tail segment of list `sp`, as `allocate` does,
    /// keeps the queue's segments recorded and their starts distinct.
    pub proof fn lemma_took_keeps<M: Mapper>(old: Queue, new: Queue, sp: Position, s: Segment, before: Registry<M>, after: Registry<M>)
        requires
            old.list_of(sp).len() > 0,
            Queue::took_from(old, new, sp, s),
            s.spec_base() == old.list_of(sp).last().spec_base(),
            s.spec_slots() == old.list_of(sp).last().spec_slots(),
            s.spec_end() == old.list_of(sp).last().spec_end(),
            old.backed_by(before),
            old.distinct_bases(),
            forall|g: Segment| #[trigger] before.records(g) ==> after.records(g),
        ensures
            new.backed_by(after),
            new.distinct_bases(),
    {
        let last = old.list_of(sp).len() - 1;
        before.lemma_records_same(old.list_of(sp)[last], s);
        let origin = |q: Position, l: int| if q == sp { (sp, l) } else if l < old.list_of(q).len() { (q, l) } else { (sp, last) };
        assert forall|q: Position, l: int| 0 <= l < new.list_of(q).len() implies {
            let o = origin(q, l);
            &&& 0 <= o.1 < old.list_of(o.0).len()
            &&& (o == (sp, last) ==> #[trigger] new.list_of(q)[l] == s)
            &&& (o != (sp, last) ==> new.list_of(q)[l] == old.list_of(o.0)[o.1])
        } by {
            if q != sp && q != position_of(s) {
                assert(new.list_of(q) == old.list_of(q));
            }
        }
        assert forall|q: Position, l: int| 0 <= l < new.list_of(q).len() implies after.records(#[trigger] new.list_of(q)[l]) by {
            let o = origin(q, l);
            if o != (sp, last) {
                assert(before.records(old.list_of(o.0)[o.1]));
            }
        }
        assert forall|q1: Position, l1: int, q2: Position, l2: int|
            0 <= l1 < new.list_of(q1).len() && 0 <= l2 < new.list_of(q2).len() && (q1 != q2 || l1 != l2)
                implies (#[trigger] new.list_of(q1)[l1]).spec_base() != (#[trigger] new.list_of(q2)[l2]).spec_base() by {
            let o1 = origin(q1, l1);
            let o2 = origin(q2, l2);
            assert(o1 != o2);
            assert(old.list_of(o1.0)[o1.1].spec_base() != old.list_of(o2.0)[o2.1].spec_base());
        }
    }

    /// Filing a fresh segment that was live in no arena, as `allocate` does,
    /// keeps the queue's segments recorded and their starts distinct.
    pub proof fn lemma_added_keeps<M: Mapper>(old: Queue, new: Queue, s: Segment, before: Registry<M>, after: Registry<M>)
        requires
            Queue::added(old, new, s),
            old.backed_by(before),
            old.distinct_bases(),
            forall|g: Segment| #[trigger] before.records(g) ==> after.records(g),
            after.records(s),
            !before.is_live_segment(s.spec_base()),
        ensures
            new.backed_by(after),
            new.distinct_bases(),
    {
        let t = position_of(s);
        let n = old.list_of(t).len();
        assert forall|q: Position, l: int| 0 <= l < new.list_of(q).len() implies {
            &&& (q == t && l == n ==> #[trigger] new.list_of(q)[l] == s)
            &&& (!(q == t && l == n) ==> l < old.list_of(q).len() && new.list_of(q)[l] == old.list_of(q)[l])
        } by {
            if q != t {
                assert(new.list_of(q) == old.list_of(q));
            }
        }
        assert forall|q: Position, l: int| 0 <= l < old.list_of(q).len() implies (#[trigger] old.list_of(q)[l]).spec_base() != s.spec_base() by {
            let g = old.list_of(q)[l];
            assert(before.records(g));
            let k = choose|k: int| 0 <= k < before.arenas_view().len() && (#[trigger] before.arenas_view()[k]).records(g);
            assert(before.arenas_view()[k].live_segments().contains(g.spec_base()));
        }
        assert forall|q: Position, l: int| 0 <= l < new.list_of(q).len() implies after.records(#[trigger] new.list_of(q)[l]) by {
            if !(q == t && l == n) {
                assert(before.records(old.list_of(q)[l]));
            }
        }
        assert forall|q1: Position, l1: int, q2: Position, l2: int|
            0 <= l1 < new.list_of(q1).len() && 0 <= l2 < new.list_of(q2).len() && (q1 != q2 || l1 != l2)
                implies (#[trigger] new.list_of(q1)[l1]).spec_base() != (#[trigger] new.list_of(q2)[l2]).spec_base() by {
            if !(q1 == t && l1 == n) && !(q2 == t && l2 == n) {
                assert(old.list_of(q1)[l1].spec_base() != old.list_of(q2)[l2].spec_base());
            }
        }
    }

    /// When the registry records every segment of the queue, freeing a slot
    /// in use finds it.
    pub proof fn lemma_backed_frees<M: Mapper>(&self, registry: Registry<M>, ptr: int)
        requires
            self.wf(),
            registry.wf(),
            self.backed_by(registry),
            self.is_live(ptr),
        ensures
            self.frees(registry, ptr),
    {
        let (p, k) = choose|p: Position, k: int| 0 <= k < self.list_of(p).len() && (#[trigger] self.list_of(p)[k]).is_live(ptr);
        registry.lemma_records_hold(self.list_of(p)[k], ptr);
    }

    /// `new` is `old` with the segment at `k` of list `p` replaced by `s`:
    /// kept in place, moved to the tail of the list that matches its state,
    /// or, when it is empty and the free list is over the threshold, dropped.
    pub open spec fn refiled(old: Queue, new: Queue, p: Position, k: int, s: Segment) -> bool {
        ||| {
            &&& position_of(s) == p
            &&& new.list_of(p) == old.list_of(p).update(k, s)
            &&& forall|q: Position| q != p ==> #[trigger] new.list_of(q) == old.list_of(q)
        }
        ||| {
            &&& position_of(s) != p
            &&& new.list_of(p) == old.list_of(p).remove(k)
            &&& new.list_of(position_of(s)) == old.list_of(position_of(s)).push(s)
            &&& forall|q: Position| q != p && q != position_of(s) ==> #[trigger] new.list_of(q) == old.list_of(q)
        }
        ||| {
            &&& s.spec_is_empty()
            &&& old.list_of(Position::Free).len() > QUEUE_THRESHOLD
            &&& new.list_of(p) == old.list_of(p).remove(k)
            &&& forall|q: Position| q != p ==> #[trigger] new.list_of(q) == old.list_of(q)
        }
    }

    /// Takes back the slot at `ptr`, found through the registry. The segment
    /// that held it is refiled by its new state; one left empty while more
    /// than `QUEUE_THRESHOLD` segments are free goes back to its arena, or,
    /// when the arena cannot take it back, stays in the free list.
    pub fn deallocate<M: Mapper>(&mut self, registry: &mut Registry<M>, ptr: usize) -> (r: bool)
        requires
            old(self).wf(),
            old(registry).wf(),
        ensures
            final(self).wf(),
            final(registry).wf(),
            final(self).spec_class() == old(self).spec_class(),
            r == old(self).frees(*old(registry), ptr as int),
            !r ==> forall|q: Position| #[trigger] final(self).list_of(q) == old(self).list_of(q),
            r ==> exists|p: Position, k: int, s: Segment|
                0 <= k < old(self).list_of(p).len() && old(self).list_of(p)[k].is_live(ptr as int)
                    && s.wf() && s.spec_class() == old(self).spec_class() && s.spec_base() == old(self).list_of(p)[k].spec_base()
                    && s.used() == old(self).list_of(p)[k].used().update(
                        (ptr - s.spec_slots()) / (s.spec_class().size.0 as int),
                        false,
                    ) && !s.is_live(ptr as int) && #[trigger] Queue::refiled(*old(self), *final(self), p, k, s)
                    && s.spec_slots() == old(self).list_of(p)[k].spec_slots()
                    && (old(self).list_of(p)[k].cached().len() < SEGMENT_CACHE_SIZE ==> s.cached()
                        == old(self).list_of(p)[k].cached().push(
                        ((ptr - s.spec_slots()) / (s.spec_class().size.0 as int)) as usize,
                    ))
                    && (old(self).list_of(p)[k].cached().len() >= SEGMENT_CACHE_SIZE ==> s.cached()
                        == old(self).list_of(p)[k].cached())
                    && (final(self).total() < old(self).total() ==> !final(registry).is_live_segment(s.spec_base())),
            old(self).backed_by(*old(registry)) && old(self).distinct_bases() ==> final(self).backed_by(*final(registry))
                && final(self).distinct_bases(),
    {
        let ghost reg0 = *registry;
        let base = match registry.segment_from_ptr(ptr) {
            Some(b) => b,
            None => return false,
        };
        let found = self.find_segment(base, ptr);
        proof {
            if old(self).frees(*old(registry), ptr as int) {
                let (p0, k0) = choose|p: Position, k: int|
                    0 <= k < old(self).list_of(p).len() && (#[trigger] old(self).list_of(p)[k]).is_live(ptr as int)
                        && old(registry).holds(old(self).list_of(p)[k].spec_base(), ptr as int);
                old(registry).lemma_holds(old(self).list_of(p0)[k0].spec_base(), ptr as int);
                old(registry).lemma_unique_segment(base as int, old(self).list_of(p0)[k0].spec_base(), ptr as int);
            }
        }
        let (p, index) = match found {
            Some(f) => f,
            None => return false,
        };
        let ghost before = *self;
        let mut segment = self.remove_at(p, index);
        proof {
            self.lemma_wf_after_remove(before, p, index as int);
        }
        let ok = segment.dealloc(ptr);
        assert(ok);
        let ghost seg = segment;
        let ghost backed = old(self).backed_by(reg0) && old(self).distinct_bases();
        proof {
            let old_seg = before.list_of(p)[index as int];
            let i = choose|i: int| 0 <= i < old_seg.slot_count() && old_seg.used()[i] && ptr == old_seg.slot_addr(i);
            assert(!old_seg.spec_is_empty());
            assert(position_of(old_seg) == p);
            assert(p != Position::Free);
            assert(seg.spec_end() == old_seg.spec_end());
            if backed {
                assert(reg0.records(old_seg));
                reg0.lemma_records_same(old_seg, seg);
            }
        }
        if segment.is_empty() && self.free_list.count() > QUEUE_THRESHOLD {
            let b = segment.base();
            proof {
                let old_seg = before.list_of(p)[index as int];
                let i = choose|i: int| 0 <= i < old_seg.slot_count() && old_seg.used()[i] && ptr == old_seg.slot_addr(i);
                assert(!old_seg.spec_is_empty());
                assert(position_of(old_seg) == p);
                assert(p != Position::Free);
                assert(before.list_of(Position::Free) == self.list_of(Position::Free));
            }
            match registry.deallocate_segment(b) {
                Ok(()) => {
                    proof {
                        assert(Queue::refiled(before, *self, p, index as int, seg));
                        if backed {
                            Queue::lemma_refiled_keeps(before, *self, p, index as int, seg, reg0, *registry);
                        }
                    }
                },
                Err(_) => {
                    self.update_state(segment);
                    proof {
                        seg.lemma_has_slot();
                        assert(position_of(seg) == Position::Free);
                        assert(Queue::refiled(before, *self, p, index as int, seg));
                        if backed {
                            Queue::lemma_refiled_keeps(before, *self, p, index as int, seg, reg0, *registry);
                        }
                    }
                },
            }
        } else {
            let now_full = segment.is_full();
            let now_empty = segment.is_empty();
            let q = if now_full {
                Position::Full
            } else if now_empty {
                Position::Free
            } else {
                Position::Partial
            };
            if q == p {
                self.insert_at(p, index, segment);
                proof {
                    assert(self.list_of(p) =~= before.list_of(p).update(index as int, seg));
                    self.lemma_wf_after_put_back(before, p, index as int, seg);
                    assert(Queue::refiled(before, *self, p, index as int, seg));
                    if backed {
                        Queue::lemma_refiled_keeps(before, *self, p, index as int, seg, reg0, *registry);
                    }
                }
            } else {
                self.update_state(segment);
                proof {
                    assert(Queue::refiled(before, *self, p, index as int, seg));
                    if backed {
                        Queue::lemma_refiled_keeps(before, *self, p, index as int, seg, reg0, *registry);
                    }
                }
            }
        }
        proof {
            assert(before.list_of(p)[index as int].is_live(ptr as int));
        }
        true
    }

    proof fn lemma_wf_after_remove(&self, before: Queue, p: Position, index: int)
        requires
            before.wf(),
            0 <= index < before.list_of(p).len(),
            self.list_of(p) == before.list_of(p).remove(index),
            forall|q: Position| q != p ==> #[trigger] self.list_of(q) == before.list_of(q),
            self.spec_class() == before.spec_class(),
        ensures
            self.wf(),
    {
        assert forall|q: Position, k: int| 0 <= k < self.list_of(q).len() implies {
            let s = #[trigger] self.list_of(q)[k];
            &&& s.wf()
            &&& s.spec_class() == self.spec_class()
            &&& position_of(s) == q
        } by {
            if q == p {
                assert(self.list_of(q)[k] == before.list_of(q)[if k < index { k } else { k + 1 }]);
            } else {
                assert(self.list_of(q)[k] == before.list_of(q)[k]);
            }
        }
    }

    proof fn lemma_wf_after_put_back(&self, before: Queue, p: Position, index: int, seg: Segment)
        requires
            before.wf(),
            0 <= index < before.list_of(p).len(),
            self.list_of(p) == before.list_of(p).update(index, seg),
            forall|q: Position| q != p ==> #[trigger] self.list_of(q) == before.list_of(q),
            self.spec_class() == before.spec_class(),
            seg.wf(),
            seg.spec_class() == self.spec_class(),
            position_of(seg) == p,
        ensures
            self.wf(),
    {
        assert forall|q: Position, k: int| 0 <= k < self.list_of(q).len() implies {
            let s = #[trigger] self.list_of(q)[k];
            &&& s.wf()
            &&& s.spec_class() == self.spec_class()
            &&& position_of(s) == q
        } by {
            if q != p || k != index {
                assert(self.list_of(q)[k] == before.list_of(q)[k]);
            }
        }
    }
}

} // verus!
