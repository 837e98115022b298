//! The registry of arenas: it hands out segments from the first arena with
//! room, creates arenas when none has room, and finds the arena and segment an
//! address belongs to. The arenas' segment areas never overlap.
use vstd::prelude::*;

use crate::arena::{Arena, ArenaError};
use crate::classes::{valid_class, Class};
use crate::config::{ARENA_GROWTH, ARENA_INITIAL_SIZE, ARENA_LIMIT, ARENA_STEP, SEGMENT_SIZE};
use crate::mapper::Mapper;
use crate::segment::Segment;

verus! {

pub struct Registry<M: Mapper> {
    mapper: M,
    arenas: Vec<Arena>,
    next_arena_size: usize,
}

/// Size of the next arena once `count` arenas have been added, starting from
/// `size`: it doubles each time the count reaches a multiple of the step, as
/// long as the double fits.
pub open spec fn grown_size(count: nat, size: usize) -> usize {
    if count > 0 && count % (ARENA_STEP as nat) == 0 && size * ARENA_GROWTH <= usize::MAX {
        (size * ARENA_GROWTH) as usize
    } else {
        size
    }
}

/// The segment areas of `a` and `b` share no byte.
pub open spec fn disjoint(a: Arena, b: Arena) -> bool {
    a.spec_user_start() + a.spec_user_len() <= b.spec_user_start() || b.spec_user_start()
        + b.spec_user_len() <= a.spec_user_start()
}

impl<M: Mapper> Registry<M> {
    pub closed spec fn arenas_view(&self) -> Seq<Arena> {
        self.arenas@
    }

    pub closed spec fn spec_next_arena_size(&self) -> usize {
        self.next_arena_size
    }

    /// At most `ARENA_LIMIT` well-formed arenas with disjoint segment areas.
    pub open spec fn wf(&self) -> bool {
        &&& self.arenas_view().len() <= ARENA_LIMIT
        &&& forall|k: int| 0 <= k < self.arenas_view().len() ==> (#[trigger] self.arenas_view()[k]).wf()
        &&& forall|k: int, l: int|
            0 <= k < l < self.arenas_view().len() ==> disjoint(
                #[trigger] self.arenas_view()[k],
                #[trigger] self.arenas_view()[l],
            )
    }

    /// `b` starts a live segment of one of the arenas.
    pub open spec fn is_live_segment(&self, b: int) -> bool {
        exists|k: int|
            0 <= k < self.arenas_view().len() && (#[trigger] self.arenas_view()[k]).live_segments().contains(
                b,
            )
    }

    /// `s` is a live segment of one of the arenas, which records its slots.
    pub open spec fn records(&self, s: Segment) -> bool {
        exists|k: int| 0 <= k < self.arenas_view().len() && (#[trigger] self.arenas_view()[k]).records(s)
    }

    /// Whether a segment is recorded depends only on its start and its slots.
    pub proof fn lemma_records_same(&self, g1: Segment, g2: Segment)
        requires
            self.records(g1),
            g1.spec_base() == g2.spec_base(),
            g1.spec_slots() == g2.spec_slots(),
            g1.spec_end() == g2.spec_end(),
        ensures
            self.records(g2),
    {
        let k = choose|k: int| 0 <= k < self.arenas_view().len() && (#[trigger] self.arenas_view()[k]).records(g1);
        assert(self.arenas_view()[k].records(g2));
    }

    /// The slots of a recorded segment that has `addr` in use hold `addr`.
    pub proof fn lemma_records_hold(&self, s: Segment, addr: int)
        requires
            self.wf(),
            self.records(s),
            s.wf(),
            s.is_live(addr),
        ensures
            self.holds(s.spec_base(), addr),
    {
        let k = choose|k: int| 0 <= k < self.arenas_view().len() && (#[trigger] self.arenas_view()[k]).records(s);
        crate::segment::lemma_live_slot_placement(s, addr);
        assert(self.arenas_view()[k].holds(s.spec_base(), addr));
    }

    /// The slots of the live segment that starts at `b` hold `addr`.
    pub open spec fn holds(&self, b: int, addr: int) -> bool {
        exists|k: int| 0 <= k < self.arenas_view().len() && (#[trigger] self.arenas_view()[k]).holds(b, addr)
    }

    /// Slots that hold `addr` belong to a live segment that spans `addr`.
    pub proof fn lemma_holds(&self, b: int, addr: int)
        requires
            self.wf(),
            self.holds(b, addr),
        ensures
            self.is_live_segment(b),
            b <= addr < b + SEGMENT_SIZE,
    {
        let k = choose|k: int| 0 <= k < self.arenas_view().len() && (#[trigger] self.arenas_view()[k]).holds(b, addr);
        self.arenas_view()[k].lemma_holds_in_segment(b, addr);
    }

    /// Two live segments that both hold `addr` are the same segment.
    pub proof fn lemma_unique_segment(&self, b1: int, b2: int, addr: int)
        requires
            self.wf(),
            self.is_live_segment(b1),
            self.is_live_segment(b2),
            b1 <= addr < b1 + SEGMENT_SIZE,
            b2 <= addr < b2 + SEGMENT_SIZE,
        ensures
            b1 == b2,
    {
        let k1 = choose|k: int| 0 <= k < self.arenas_view().len() && (#[trigger] self.arenas_view()[k]).live_segments().contains(b1);
        let k2 = choose|k: int| 0 <= k < self.arenas_view().len() && (#[trigger] self.arenas_view()[k]).live_segments().contains(b2);
        let a1 = self.arenas_view()[k1];
        let a2 = self.arenas_view()[k2];
        a1.lemma_live_segment_in_user(b1);
        a2.lemma_live_segment_in_user(b2);
        if k1 < k2 {
            assert(disjoint(a1, a2));
        } else if k2 < k1 {
            assert(disjoint(a2, a1));
        } else {
            a1.lemma_segments_apart(b1, b2, addr);
        }
    }

    pub fn new(mapper: M) -> (r: Self)
        ensures
            r.wf(),
            r.arenas_view().len() == 0,
            r.spec_next_arena_size() == ARENA_INITIAL_SIZE,
    {
        Registry { mapper, arenas: Vec::new(), next_arena_size: ARENA_INITIAL_SIZE }
    }

    pub fn mapper(&self) -> &M {
        &self.mapper
    }

    pub fn arena_count(&self) -> (r: usize)
        ensures
            r == self.arenas_view().len(),
    {
        self.arenas.len()
    }

    pub fn next_arena_size(&self) -> (r: usize)
        ensures
            r == self.spec_next_arena_size(),
    {
        self.next_arena_size
    }

    /// Maps a fresh arena of the current next size.
    pub fn create_arena(&self) -> (r: Result<Arena, ArenaError>)
        ensures
            r matches Ok(a) ==> a.wf() && a.spec_region().1 == self.spec_next_arena_size(),
    {
        Arena::new(&self.mapper, self.next_arena_size)
    }

    /// Whether `arena`'s segment area overlaps that of a registered arena.
    fn overlaps(&self, arena: &Arena) -> (r: bool)
        ensures
            r == exists|k: int| 0 <= k < self.arenas_view().len() && !disjoint(#[trigger] self.arenas_view()[k], *arena),
    {
        let n = self.arenas.len();
        let mut i: usize = 0;
        while i < n
            invariant
                n == self.arenas@.len(),
                forall|k: int| 0 <= k < i ==> disjoint(#[trigger] self.arenas_view()[k], *arena),
            decreases n - i,
        {
            let a = &self.arenas[i];
            let (s1, l1) = (a.user_start(), a.user_len());
            let (s2, l2) = (arena.user_start(), arena.user_len());
            if !(s1 as u128 + l1 as u128 <= s2 as u128 || s2 as u128 + l2 as u128 <= s1 as u128) {
                proof {
                    assert(!disjoint(self.arenas_view()[i as int], *arena));
                }
                return true;
            }
            i = i + 1;
        }
        false
    }

    /// Registers `arena`, unless the registry is full or `arena` overlaps a
    /// registered one; every `ARENA_STEP` arenas the next size doubles.
    pub fn add_arena(&mut self, arena: Arena) -> (r: Result<(), ArenaError>)
        requires
            old(self).wf(),
            arena.wf(),
        ensures
            final(self).wf(),
            final(self).spec_next_arena_size() == grown_size(
                old(self).arenas_view().len(),
                old(self).spec_next_arena_size(),
            ),
            old(self).arenas_view().len() < ARENA_LIMIT && !(exists|k: int|
                0 <= k < old(self).arenas_view().len() && !disjoint(#[trigger] old(self).arenas_view()[k], arena))
                ==> r is Ok && final(self).arenas_view() == old(self).arenas_view().push(arena),
            r is Err ==> (r matches Err(ArenaError::Insufficient) && final(self).arenas_view()
                == old(self).arenas_view()),
            r is Ok ==> final(self).arenas_view() == old(self).arenas_view().push(arena),
    {
        let count = self.arenas.len();
        if count > 0 && count % ARENA_STEP == 0 {
            self.next_arena_size = match self.next_arena_size.checked_mul(ARENA_GROWTH) {
                Some(n) => n,
                None => self.next_arena_size,
            };
        }
        if count >= ARENA_LIMIT || self.overlaps(&arena) {
            return Err(ArenaError::Insufficient);
        }
        let ghost before = self.arenas@;
        self.arenas.push(arena);
        proof {
            assert forall|k: int, l: int| 0 <= k < l < self.arenas_view().len() implies disjoint(
                #[trigger] self.arenas_view()[k],
                #[trigger] self.arenas_view()[l],
            ) by {
                if l == count {
                    assert(self.arenas_view()[k] == before[k]);
                    assert(disjoint(before[k], arena));
                } else {
                    assert(self.arenas_view()[k] == before[k]);
                    assert(self.arenas_view()[l] == before[l]);
                }
            }
            assert forall|k: int| 0 <= k < self.arenas_view().len() implies (#[trigger] self.arenas_view()[k]).wf() by {
                if k < count {
                    assert(self.arenas_view()[k] == before[k]);
                }
            }
        }
        Ok(())
    }

    /// After one arena, `self.arenas[i]`, was replaced by a version with the
    /// same layout, the registry is still well formed.
    proof fn lemma_replaced(&self, before: Seq<Arena>, i: int)
        requires
            before.len() == self.arenas_view().len(),
            0 <= i < before.len(),
            before.len() <= ARENA_LIMIT,
            forall|k: int| 0 <= k < before.len() ==> (#[trigger] before[k]).wf(),
            forall|k: int, l: int| 0 <= k < l < before.len() ==> disjoint(#[trigger] before[k], #[trigger] before[l]),
            forall|k: int| 0 <= k < before.len() && k != i ==> #[trigger] self.arenas_view()[k] == before[k],
            self.arenas_view()[i].wf(),
            self.arenas_view()[i].same_layout(before[i]),
        ensures
            self.wf(),
    {
        assert forall|k: int, l: int| 0 <= k < l < self.arenas_view().len() implies disjoint(
            #[trigger] self.arenas_view()[k],
            #[trigger] self.arenas_view()[l],
        ) by {
            assert(disjoint(before[k], before[l]));
        }
        assert forall|k: int| 0 <= k < self.arenas_view().len() implies (#[trigger] self.arenas_view()[k]).wf() by {
            if k != i {
                assert(self.arenas_view()[k] == before[k]);
            }
        }
    }

    /// A new segment of `class`: from the first arena with room that can
    /// commit one, else from a newly created arena. No arena but the one the
    /// segment comes from changes its live segments, and at most one arena is
    /// added, only when no existing arena gave a segment.
    pub fn allocate_segment(&mut self, class: Class) -> (r: Result<Segment, ArenaError>)
        requires
            old(self).wf(),
            valid_class(class),
        ensures
            final(self).wf(),
            old(self).arenas_view().len() <= final(self).arenas_view().len() <= old(self).arenas_view().len() + 1,
            forall|j: int| 0 <= j < old(self).arenas_view().len() ==> (#[trigger] final(self).arenas_view()[j]).same_layout(old(self).arenas_view()[j]),
            final(self).arenas_view().len() > old(self).arenas_view().len() ==> forall|j: int|
                0 <= j < old(self).arenas_view().len() ==> (#[trigger] final(self).arenas_view()[j]).occupied()
                    == old(self).arenas_view()[j].occupied(),
            r is Err ==> forall|j: int|
                0 <= j < old(self).arenas_view().len() ==> (#[trigger] final(self).arenas_view()[j]).occupied()
                    == old(self).arenas_view()[j].occupied(),
            forall|s: Segment| #[trigger] old(self).records(s) ==> final(self).records(s),
            r matches Ok(s) ==> !old(self).is_live_segment(s.spec_base()),
            r matches Ok(s) ==> s.wf() && s.spec_class() == class && s.spec_is_empty()
                && final(self).is_live_segment(s.spec_base()) && final(self).records(s)
                && s.spec_end() <= s.spec_base() + SEGMENT_SIZE && exists|k: int|
                0 <= k < final(self).arenas_view().len() && (#[trigger] final(self).arenas_view()[k]).live_segments().contains(
                    s.spec_base(),
                ) && forall|j: int|
                    0 <= j < old(self).arenas_view().len() && j != k ==> (#[trigger] final(self).arenas_view()[j]).occupied()
                        == old(self).arenas_view()[j].occupied(),
    {
        let n = self.arenas.len();
        let mut i: usize = 0;
        while i < n
            invariant
                self.wf(),
                n == self.arenas@.len(),
                n == old(self).arenas_view().len(),
                valid_class(class),
                forall|j: int| 0 <= j < n ==> (#[trigger] self.arenas_view()[j]).same_layout(old(self).arenas_view()[j]),
                forall|j: int| 0 <= j < n ==> (#[trigger] self.arenas_view()[j]).occupied() == old(self).arenas_view()[j].occupied(),
                forall|s: Segment| #[trigger] old(self).records(s) ==> self.records(s),
                old(self).wf(),
            decreases n - i,
        {
            if self.arenas[i].has_space() {
                let ghost before = self.arenas@;
                let result = self.arenas[i].allocate(&self.mapper, class);
                proof {
                    self.lemma_replaced(before, i as int);
                    assert forall|j: int| 0 <= j < n implies (#[trigger] self.arenas_view()[j]).same_layout(old(self).arenas_view()[j]) by {
                        if j != i {
                            assert(self.arenas_view()[j] == before[j]);
                        }
                    }
                    assert forall|j: int| 0 <= j < n && j != i implies (#[trigger] self.arenas_view()[j]).occupied() == old(self).arenas_view()[j].occupied() by {
                        assert(self.arenas_view()[j] == before[j]);
                    }
                    assert forall|s: Segment| #[trigger] old(self).records(s) implies self.records(s) by {
                        let k = choose|k: int| 0 <= k < before.len() && (#[trigger] before[k]).records(s);
                        if k != i {
                            assert(self.arenas_view()[k] == before[k]);
                        }
                        assert(self.arenas_view()[k].records(s));
                    }
                }
                match result {
                    Ok(segment) => {
                        proof {
                            assert(self.arenas_view()[i as int].live_segments().contains(segment.spec_base()));
                            assert(self.arenas_view()[i as int].records(segment));
                            self.lemma_fresh(*old(self), before, i as int, segment.spec_base());
                            assert(!old(self).is_live_segment(segment.spec_base()));
                        }
                        return Ok(segment);
                    },
                    Err(_) => {},
                }
            }
            i = i + 1;
        }
        let ghost looped = *self;
        let arena = match self.create_arena() {
            Ok(a) => a,
            Err(e) => return Err(e),
        };
        match self.add_arena(arena) {
            Ok(()) => {},
            Err(e) => return Err(e),
        }
        let last = self.arenas.len() - 1;
        let ghost before = self.arenas@;
        proof {
            assert forall|s: Segment| #[trigger] old(self).records(s) implies (exists|k: int| 0 <= k < n && (#[trigger] before[k]).records(s)) by {
                assert(looped.records(s));
                let k = choose|k: int| 0 <= k < looped.arenas_view().len() && (#[trigger] looped.arenas_view()[k]).records(s);
                assert(before[k] == looped.arenas_view()[k]);
            }
        }
        let result = self.arenas[last].allocate(&self.mapper, class);
        proof {
            self.lemma_replaced(before, last as int);
            assert forall|j: int| 0 <= j < n implies (#[trigger] self.arenas_view()[j]).same_layout(old(self).arenas_view()[j])
                && self.arenas_view()[j].occupied() == old(self).arenas_view()[j].occupied() by {
                assert(self.arenas_view()[j] == before[j]);
            }
            assert forall|s: Segment| #[trigger] old(self).records(s) implies self.records(s) by {
                let k = choose|k: int| 0 <= k < n && (#[trigger] before[k]).records(s);
                assert(self.arenas_view()[k] == before[k]);
            }
            if result is Ok {
                assert(self.arenas_view()[last as int].live_segments().contains(result->Ok_0.spec_base()));
                assert(self.arenas_view()[last as int].records(result->Ok_0));
                assert(before == looped.arenas_view().push(before[last as int]));
                assert forall|j: int| 0 <= j < last implies (#[trigger] self.arenas_view()[j]).same_layout(looped.arenas_view()[j]) by {
                    assert(self.arenas_view()[j] == before[j]);
                }
                self.lemma_fresh_new_arena(*old(self), looped, last as int, result->Ok_0.spec_base());
            }
        }
        result
    }

    /// A segment that arena `i` newly made, in its segment area, was live in
    /// no arena of `old`, whose arenas had the layout and occupancy of
    /// `before`.
    proof fn lemma_fresh(&self, old: Registry<M>, before: Seq<Arena>, i: int, b: int)
        requires
            old.wf(),
            before.len() == old.arenas_view().len(),
            0 <= i < before.len(),
            forall|j: int| 0 <= j < before.len() ==> (#[trigger] before[j]).same_layout(old.arenas_view()[j])
                && before[j].occupied() == old.arenas_view()[j].occupied(),
            forall|j: int| 0 <= j < before.len() ==> (#[trigger] before[j]).wf(),
            !before[i].live_segments().contains(b),
            before[i].spec_user_start() <= b,
            b + SEGMENT_SIZE <= before[i].spec_user_start() + before[i].spec_user_len(),
        ensures
            !old.is_live_segment(b),
    {
        assert forall|k: int| 0 <= k < old.arenas_view().len() implies !(#[trigger] old.arenas_view()[k]).live_segments().contains(b) by {
            let a = old.arenas_view()[k];
            assert(before[k].live_segments() =~= a.live_segments());
            if k != i && a.live_segments().contains(b) {
                a.lemma_live_segment_in_user(b);
                if k < i {
                    assert(disjoint(old.arenas_view()[k], old.arenas_view()[i]));
                } else {
                    assert(disjoint(old.arenas_view()[i], old.arenas_view()[k]));
                }
            }
        }
    }

    /// A segment in the area of an arena added after those of `looped` was
    /// live in none of `old`'s arenas.
    proof fn lemma_fresh_new_arena(&self, old: Registry<M>, looped: Registry<M>, last: int, b: int)
        requires
            old.wf(),
            looped.wf(),
            looped.arenas_view().len() == old.arenas_view().len(),
            last == looped.arenas_view().len(),
            self.wf(),
            self.arenas_view().len() == last + 1,
            forall|j: int| 0 <= j < last ==> (#[trigger] self.arenas_view()[j]).same_layout(looped.arenas_view()[j]),
            forall|j: int| 0 <= j < last ==> (#[trigger] looped.arenas_view()[j]).same_layout(old.arenas_view()[j])
                && looped.arenas_view()[j].occupied() == old.arenas_view()[j].occupied(),
            self.arenas_view()[last].spec_user_start() <= b,
            b + SEGMENT_SIZE <= self.arenas_view()[last].spec_user_start() + self.arenas_view()[last].spec_user_len(),
        ensures
            !old.is_live_segment(b),
    {
        assert forall|k: int| 0 <= k < old.arenas_view().len() implies !(#[trigger] old.arenas_view()[k]).live_segments().contains(b) by {
            let a = old.arenas_view()[k];
            if a.live_segments().contains(b) {
                a.lemma_live_segment_in_user(b);
                assert(disjoint(self.arenas_view()[k], self.arenas_view()[last]));
            }
        }
    }

    /// Hands the segment that starts at `segment` back to its arena.
    pub fn deallocate_segment(&mut self, segment: usize) -> (r: Result<(), ArenaError>)
        requires
            old(self).wf(),
        ensures
            final(self).wf(),
            final(self).arenas_view().len() == old(self).arenas_view().len(),
            (r matches Err(ArenaError::Insufficient)) <==> !old(self).is_live_segment(segment as int),
            old(self).is_live_segment(segment as int) ==> (r is Ok || r matches Err(ArenaError::MapError(_))),
            r is Ok ==> !final(self).is_live_segment(segment as int),
            r is Err ==> forall|j: int| 0 <= j < old(self).arenas_view().len() ==> (#[trigger] final(self).arenas_view()[j]).occupied()
                == old(self).arenas_view()[j].occupied(),
            forall|s: Segment| #[trigger] old(self).records(s) && s.spec_base() != segment ==> final(self).records(s),
            r is Err ==> forall|s: Segment| #[trigger] old(self).records(s) ==> final(self).records(s),
    {
        let n = self.arenas.len();
        let mut i: usize = 0;
        while i < n
            invariant
                self.wf(),
                n == self.arenas@.len(),
                self.arenas@ == old(self).arenas@,
                forall|k: int| 0 <= k < i ==> !(#[trigger] self.arenas_view()[k]).live_segments().contains(segment as int),
            decreases n - i,
        {
            let start = self.arenas[i].user_start();
            let len = self.arenas[i].user_len();
            if segment >= start && segment - start < len {
                let ghost before = self.arenas@;
                let result = self.arenas[i].deallocate(&self.mapper, segment);
                proof {
                    self.lemma_replaced(before, i as int);
                    assert forall|s: Segment| #[trigger] old(self).records(s) && s.spec_base() != segment implies self.records(s) by {
                        let k = choose|k: int| 0 <= k < n && (#[trigger] before[k]).records(s);
                        if k != i {
                            assert(self.arenas_view()[k] == before[k]);
                        }
                        assert(self.arenas_view()[k].records(s));
                    }
                    if result is Err {
                        assert forall|s: Segment| #[trigger] old(self).records(s) implies self.records(s) by {
                            let k = choose|k: int| 0 <= k < n && (#[trigger] before[k]).records(s);
                            if k != i {
                                assert(self.arenas_view()[k] == before[k]);
                            }
                            assert(self.arenas_view()[k].records(s));
                        }
                    }
                    assert forall|j: int| 0 <= j < n && j != i implies #[trigger] self.arenas_view()[j] == before[j] by {}
                    if old(self).is_live_segment(segment as int) {
                        let k = choose|k: int| 0 <= k < n && (#[trigger] old(self).arenas_view()[k]).live_segments().contains(segment as int);
                        if k != i {
                            old(self).arenas_view()[k].lemma_live_segment_in_user(segment as int);
                            if k < i {
                                assert(disjoint(before[k], before[i as int]));
                            } else {
                                assert(disjoint(before[i as int], before[k]));
                            }
                        }
                    }
                    if result is Ok {
                        assert forall|k: int| 0 <= k < n implies !(#[trigger] self.arenas_view()[k]).live_segments().contains(segment as int) by {
                            if k != i && self.arenas_view()[k].live_segments().contains(segment as int) {
                                self.arenas_view()[k].lemma_live_segment_in_user(segment as int);
                                if k < i {
                                    assert(disjoint(self.arenas_view()[k], self.arenas_view()[i as int]));
                                } else {
                                    assert(disjoint(self.arenas_view()[i as int], self.arenas_view()[k]));
                                }
                            }
                        }
                    }
                }
                return result;
            }
            proof {
                if self.arenas_view()[i as int].live_segments().contains(segment as int) {
                    self.arenas_view()[i as int].lemma_live_segment_in_user(segment as int);
                }
            }
            i = i + 1;
        }
        Err(ArenaError::Insufficient)
    }

    /// Start of the live segment whose slots hold `addr`, looking through
    /// the arenas whose segment area holds it; none when no segment's slots
    /// hold it.
    pub fn segment_from_ptr(&self, addr: usize) -> (r: Option<usize>)
        requires
            self.wf(),
        ensures
            r matches Some(b) ==> self.holds(b as int, addr as int) && self.is_live_segment(b as int) && b <= addr
                < b + SEGMENT_SIZE,
            r is None ==> forall|b: int| !#[trigger] self.holds(b, addr as int),
    {
        let n = self.arenas.len();
        let mut i: usize = 0;
        while i < n
            invariant
                self.wf(),
                n == self.arenas@.len(),
                forall|k: int, b: int| 0 <= k < i ==> !#[trigger] self.arenas_view()[k].holds(b, addr as int),
            decreases n - i,
        {
            let start = self.arenas[i].user_start();
            let len = self.arenas[i].user_len();
            if addr >= start && addr - start < len {
                match self.arenas[i].slots_at(addr) {
                    Some(b) => {
                        proof {
                            assert(self.arenas_view()[i as int].holds(b as int, addr as int));
                            self.lemma_holds(b as int, addr as int);
                        }
                        return Some(b);
                    },
                    None => {},
                }
            } else {
                proof {
                    assert forall|b: int| !#[trigger] self.arenas_view()[i as int].holds(b, addr as int) by {
                        if self.arenas_view()[i as int].holds(b, addr as int) {
                            self.arenas_view()[i as int].lemma_holds_in_segment(b, addr as int);
                            self.arenas_view()[i as int].lemma_live_segment_in_user(b);
                        }
                    }
                }
            }
            i = i + 1;
        }
        None
    }
}

} // verus!
