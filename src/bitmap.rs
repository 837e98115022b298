//! A set of bits with an exact count, stored in a vector of machine words.
use vstd::prelude::*;

use crate::arith::{lemma_compose, lemma_div_mod_split, lemma_same_position, lemma_word_below};
use crate::bits::Bits;

verus! {

#[derive(Debug)]
pub enum BitmapError {
    InsufficientSize { have: usize, need: usize },
    OutOfBounds { index: usize, size: usize },
}

/// Number of entries of `s` that are set.
pub open spec fn count_set(s: Seq<bool>) -> nat
    decreases s.len(),
{
    if s.len() == 0 {
        0
    } else {
        count_set(s.drop_last()) + (if s.last() {
            1nat
        } else {
            0nat
        })
    }
}

/// Positions of `s` that are set.
pub open spec fn set_positions(s: Seq<bool>) -> Set<int> {
    Set::new(|i: int| 0 <= i < s.len() && s[i])
}

pub proof fn lemma_count_bound(s: Seq<bool>)
    ensures
        count_set(s) <= s.len(),
    decreases s.len(),
{
    if s.len() > 0 {
        lemma_count_bound(s.drop_last());
    }
}

/// Changing one entry changes the count by at most one, in the expected direction.
pub proof fn lemma_count_update(s: Seq<bool>, i: int, v: bool)
    requires
        0 <= i < s.len(),
    ensures
        count_set(s.update(i, v)) + (if s[i] {
            1int
        } else {
            0int
        }) == count_set(s) + (if v {
            1int
        } else {
            0int
        }),
    decreases s.len(),
{
    if i == s.len() - 1 {
        assert(s.update(i, v).drop_last() =~= s.drop_last());
    } else {
        lemma_count_update(s.drop_last(), i, v);
        assert(s.update(i, v).drop_last() =~= s.drop_last().update(i, v));
    }
}

/// The count is zero exactly when no entry is set.
pub proof fn lemma_count_zero(s: Seq<bool>)
    ensures
        (count_set(s) == 0) == (forall|i: int| 0 <= i < s.len() ==> !#[trigger] s[i]),
    decreases s.len(),
{
    if s.len() > 0 {
        let d = s.drop_last();
        lemma_count_zero(d);
        assert(forall|i: int| 0 <= i < d.len() ==> d[i] == s[i]);
        if count_set(s) == 0 {
            assert forall|i: int| 0 <= i < s.len() implies !#[trigger] s[i] by {
                if i < s.len() - 1 {
                    assert(d[i] == s[i]);
                }
            }
        }
        if forall|i: int| 0 <= i < s.len() ==> !#[trigger] s[i] {
            assert(!s[s.len() - 1]);
            assert forall|i: int| 0 <= i < d.len() implies !#[trigger] d[i] by {
                assert(d[i] == s[i]);
            }
        }
    }
}

/// The count equals the length exactly when every entry is set.
pub proof fn lemma_count_full(s: Seq<bool>)
    ensures
        (count_set(s) == s.len()) == (forall|i: int| 0 <= i < s.len() ==> #[trigger] s[i]),
    decreases s.len(),
{
    if s.len() > 0 {
        let d = s.drop_last();
        lemma_count_full(d);
        lemma_count_bound(d);
        assert(forall|i: int| 0 <= i < d.len() ==> d[i] == s[i]);
        if count_set(s) == s.len() {
            assert forall|i: int| 0 <= i < s.len() implies #[trigger] s[i] by {
                if i < s.len() - 1 {
                    assert(d[i] == s[i]);
                }
            }
        }
        if forall|i: int| 0 <= i < s.len() ==> #[trigger] s[i] {
            assert(s[s.len() - 1]);
            assert forall|i: int| 0 <= i < d.len() implies #[trigger] d[i] by {
                assert(d[i] == s[i]);
            }
        }
    }
}

/// The count is the number of set positions.
pub proof fn lemma_count_is_size(s: Seq<bool>)
    ensures
        set_positions(s).finite(),
        set_positions(s).len() == count_set(s),
    decreases s.len(),
{
    if s.len() == 0 {
        assert(set_positions(s) =~= Set::empty());
    } else {
        let d = s.drop_last();
        lemma_count_is_size(d);
        let last = s.len() - 1;
        if s.last() {
            assert(set_positions(s) =~= set_positions(d).insert(last));
        } else {
            assert(set_positions(s) =~= set_positions(d));
        }
    }
}

/// A bit set over a vector of words, with the number of set bits kept alongside.
pub struct Bitmap<T: Bits> {
    store: Vec<T>,
    bits: usize,
    used: usize,
}

impl<T: Bits> View for Bitmap<T> {
    type V = Seq<bool>;

    closed spec fn view(&self) -> Seq<bool> {
        Seq::new(
            self.bits as nat,
            |i: int| self.store@[i / (T::width() as int)].bit(i % (T::width() as int)),
        )
    }
}

impl<T: Bits> Bitmap<T> {
    /// Well-formedness: the bits fit in the words and the count is exact.
    pub closed spec fn wf(&self) -> bool {
        &&& self.layout_ok()
        &&& self.used == count_set(self@)
    }

    /// The bits fit in the words, and the words' bit count fits in a `usize`.
    pub closed spec fn layout_ok(&self) -> bool {
        &&& self.bits as int <= self.store@.len() * T::width()
        &&& self.store@.len() * T::width() <= usize::MAX
        &&& 8 <= T::width() <= 64
    }

    /// Number of bits the words can hold.
    pub closed spec fn capacity(&self) -> nat {
        self.store@.len() * T::width()
    }

    /// The words themselves.
    pub closed spec fn words_view(&self) -> Seq<T> {
        self.store@
    }

    /// Number of words needed for `fields` bits.
    pub fn words(fields: usize) -> (r: usize)
        requires
            fields + T::width() - 1 <= usize::MAX,
        ensures
            r == (fields + T::width() - 1) / (T::width() as int),
    {
        let w = T::bits();
        (fields + (w - 1)) / w
    }

    /// Number of bytes of words needed for `fields` bits.
    pub fn bytes(fields: usize) -> (r: usize)
        requires
            fields + T::width() - 1 <= usize::MAX,
        ensures
            r == (fields + T::width() - 1) / (T::width() as int) * (T::width() as int / 8),
    {
        let w = T::bits();
        let words = Self::words(fields);
        proof {
            assert(words * (w / 8) <= fields + w - 1) by (nonlinear_arith)
                requires
                    words == (fields + w - 1) / (w as int),
                    8 <= w <= 64,
            ;
        }
        words * (w / 8)
    }

    /// Number of bits the words can hold.
    pub fn available(&self) -> (r: usize)
        requires
            self.wf(),
        ensures
            r == self.capacity(),
    {
        self.store.len() * T::bits()
    }

    pub fn store(&self) -> (r: &[T])
        ensures
            r@ == self.words_view(),
    {
        self.store.as_slice()
    }

    pub fn bits(&self) -> (r: usize)
        ensures
            r == self@.len(),
    {
        self.bits
    }

    fn position(&self, index: usize) -> (r: Result<(usize, usize), BitmapError>)
        requires
            self.wf(),
        ensures
            index < self@.len() ==> r == Ok::<(usize, usize), BitmapError>(
                (((index as int) / (T::width() as int)) as usize, ((index as int) % (T::width() as int)) as usize),
            ),
            index < self@.len() ==> (index as int) / (T::width() as int) < self.store@.len(),
            index >= self@.len() ==> r == Err::<(usize, usize), BitmapError>(
                BitmapError::OutOfBounds { index, size: self.bits },
            ),
    {
        if index >= self.bits {
            return Err(BitmapError::OutOfBounds { index, size: self.bits });
        }
        let w = T::bits();
        proof {
            lemma_word_below(index as int, w as int, self.store@.len() as int);
        }
        Ok((index / w, index % w))
    }

    proof fn lemma_word_update(&self, other: &Self, wi: int, index: int)
        requires
            8 <= T::width() <= 64,
            self.bits == other.bits,
            self.bits <= self.store@.len() * T::width(),
            self.store@.len() == other.store@.len(),
            0 <= index < self.bits,
            wi == (index as int) / (T::width() as int),
            other.store@ == self.store@.update(wi, other.store@[wi]),
            forall|j: int|
                0 <= j < T::width() && j != (index as int) % (T::width() as int) ==> #[trigger] other.store@[wi].bit(j)
                    == self.store@[wi].bit(j),
        ensures
            forall|j: int| 0 <= j < self.bits && j != index ==> #[trigger] other@[j] == self@[j],
    {
        let w = T::width() as int;
        lemma_word_below(index, w, self.store@.len() as int);
        lemma_div_mod_split(index, w);
        assert forall|j: int| 0 <= j < self.bits && j != index implies #[trigger] other@[j] == self@[j] by {
            lemma_div_mod_split(j, w);
            lemma_word_below(j, w, self.store@.len() as int);
            if j / w == wi {
                if j % w == index % w {
                    lemma_same_position(j, index, w);
                }
                assert(other.store@[wi].bit(j % w) == self.store@[wi].bit(j % w));
            } else {
                assert(other.store@[j / w] == self.store@[j / w]);
            }
            assert(other@[j] == other.store@[j / w].bit(j % w));
            assert(self@[j] == self.store@[j / w].bit(j % w));
        }
    }

    /// A bitmap of `fields` bits over `store` as it stands.
    pub fn within(store: Vec<T>, fields: usize) -> (r: Result<Self, BitmapError>)
        requires
            store@.len() * T::width() <= usize::MAX,
        ensures
            fields <= store@.len() * T::width() ==> (r matches Ok(b) && b.wf() && b@ == Seq::new(
                fields as nat,
                |i: int| store@[i / (T::width() as int)].bit(i % (T::width() as int)),
            ) && b.words_view() == store@),
            fields > store@.len() * T::width() ==> r == Err::<Self, BitmapError>(
                BitmapError::InsufficientSize { have: (store@.len() * T::width()) as usize, need: fields },
            ),
    {
        let w = T::bits();
        let total_bits = store.len() * w;
        if fields > total_bits {
            return Err(BitmapError::InsufficientSize { have: total_bits, need: fields });
        }
        let ghost s = Seq::new(
            fields as nat,
            |i: int| store@[i / (T::width() as int)].bit(i % (T::width() as int)),
        );
        let mut used: usize = 0;
        let mut i: usize = 0;
        while i < fields
            invariant
                i <= fields,
                fields <= store@.len() * w,
                w == T::width(),
                8 <= w <= 64,
                used == count_set(s.take(i as int)),
                used <= i,
                s == Seq::new(
                    fields as nat,
                    |i: int| store@[i / (T::width() as int)].bit(i % (T::width() as int)),
                ),
            decreases fields - i,
        {
            proof {
                lemma_div_mod_split(i as int, w as int);
                lemma_word_below(i as int, w as int, store@.len() as int);
                assert(s.take(i + 1).drop_last() =~= s.take(i as int));
            }
            if store[i / w].get(i % w) {
                used = used + 1;
            }
            i = i + 1;
        }
        let bitmap = Bitmap { store, bits: fields, used };
        proof {
            assert(s.take(fields as int) =~= s);
            assert(bitmap@ =~= s);
        }
        Ok(bitmap)
    }

    pub fn zero(store: Vec<T>, bits: usize) -> (r: Result<Self, BitmapError>)
        requires
            store@.len() * T::width() <= usize::MAX,
        ensures
            bits <= store@.len() * T::width() ==> (r matches Ok(b) && b.wf() && b@ == Seq::new(
                bits as nat,
                |i: int| false,
            ) && b.words_view().len() == store@.len()),
            bits > store@.len() * T::width() ==> r == Err::<Self, BitmapError>(
                BitmapError::InsufficientSize { have: (store@.len() * T::width()) as usize, need: bits },
            ),
    {
        let available = store.len() * T::bits();
        if bits > available {
            return Err(BitmapError::InsufficientSize { have: available, need: bits });
        }
        let mut bitmap = Bitmap { store, bits, used: 0 };
        bitmap.clear_all();
        Ok(bitmap)
    }

    pub fn one(store: Vec<T>, bits: usize) -> (r: Result<Self, BitmapError>)
        requires
            store@.len() * T::width() <= usize::MAX,
        ensures
            bits <= store@.len() * T::width() ==> (r matches Ok(b) && b.wf() && b@ == Seq::new(
                bits as nat,
                |i: int| true,
            ) && b.words_view().len() == store@.len()),
            bits > store@.len() * T::width() ==> r == Err::<Self, BitmapError>(
                BitmapError::InsufficientSize { have: (store@.len() * T::width()) as usize, need: bits },
            ),
    {
        let available = store.len() * T::bits();
        if bits > available {
            return Err(BitmapError::InsufficientSize { have: available, need: bits });
        }
        let mut bitmap = Bitmap { store, bits, used: 0 };
        bitmap.set_all();
        Ok(bitmap)
    }

    /// Whether the words can hold `fields` bits.
    pub fn check(&self, fields: usize) -> (r: Result<(), BitmapError>)
        requires
            self.wf(),
        ensures
            fields <= self.capacity() ==> r is Ok,
            fields > self.capacity() ==> r == Err::<(), BitmapError>(
                BitmapError::InsufficientSize { have: self.capacity() as usize, need: fields },
            ),
    {
        let total_bits = self.store.len() * T::bits();
        if fields > total_bits {
            return Err(BitmapError::InsufficientSize { have: total_bits, need: fields });
        }
        Ok(())
    }

    pub fn set(&mut self, index: usize) -> (r: Result<(), BitmapError>)
        requires
            old(self).wf(),
        ensures
            final(self).wf(),
            final(self).capacity() == old(self).capacity(),
            index < old(self)@.len() ==> r is Ok && final(self)@ == old(self)@.update(
                index as int,
                true,
            ),
            index >= old(self)@.len() ==> r == Err::<(), BitmapError>(
                BitmapError::OutOfBounds { index, size: old(self)@.len() as usize },
            ) && final(self)@ == old(self)@,
    {
        let (wi, bi) = match self.position(index) {
            Ok(p) => p,
            Err(e) => return Err(e),
        };
        let word = self.store[wi];
        let was = word.get(bi);
        let next = word.set(bi);
        let ghost before = *self;
        self.store.set(wi, next);
        proof {
            before.lemma_word_update(self, wi as int, index as int);
            assert(self@ =~= before@.update(index as int, true));
            lemma_count_update(before@, index as int, true);
            lemma_count_bound(self@);
        }
        if !was {
            self.used = self.used + 1;
        }
        Ok(())
    }

    pub fn clear(&mut self, index: usize) -> (r: Result<(), BitmapError>)
        requires
            old(self).wf(),
        ensures
            final(self).wf(),
            final(self).capacity() == old(self).capacity(),
            index < old(self)@.len() ==> r is Ok && final(self)@ == old(self)@.update(
                index as int,
                false,
            ),
            index >= old(self)@.len() ==> r == Err::<(), BitmapError>(
                BitmapError::OutOfBounds { index, size: old(self)@.len() as usize },
            ) && final(self)@ == old(self)@,
    {
        let (wi, bi) = match self.position(index) {
            Ok(p) => p,
            Err(e) => return Err(e),
        };
        let word = self.store[wi];
        let was = word.get(bi);
        let next = word.clear(bi);
        let ghost before = *self;
        self.store.set(wi, next);
        proof {
            before.lemma_word_update(self, wi as int, index as int);
            assert(self@ =~= before@.update(index as int, false));
            lemma_count_update(before@, index as int, false);
        }
        if was {
            self.used = self.used - 1;
        }
        Ok(())
    }

    pub fn flip(&mut self, index: usize) -> (r: Result<(), BitmapError>)
        requires
            old(self).wf(),
        ensures
            final(self).wf(),
            final(self).capacity() == old(self).capacity(),
            index < old(self)@.len() ==> r is Ok && final(self)@ == old(self)@.update(
                index as int,
                !old(self)@[index as int],
            ),
            index >= old(self)@.len() ==> r == Err::<(), BitmapError>(
                BitmapError::OutOfBounds { index, size: old(self)@.len() as usize },
            ) && final(self)@ == old(self)@,
    {
        let (wi, bi) = match self.position(index) {
            Ok(p) => p,
            Err(e) => return Err(e),
        };
        let word = self.store[wi];
        let was = word.get(bi);
        let next = word.flip(bi);
        let ghost before = *self;
        self.store.set(wi, next);
        proof {
            before.lemma_word_update(self, wi as int, index as int);
            assert(self@ =~= before@.update(index as int, !was));
            lemma_count_update(before@, index as int, !was);
            lemma_count_bound(self@);
        }
        if was {
            self.used = self.used - 1;
        } else {
            self.used = self.used + 1;
        }
        Ok(())
    }

    pub fn get(&self, index: usize) -> (r: Result<bool, BitmapError>)
        requires
            self.wf(),
        ensures
            index < self@.len() ==> r == Ok::<bool, BitmapError>(self@[index as int]),
            index >= self@.len() ==> r == Err::<bool, BitmapError>(
                BitmapError::OutOfBounds { index, size: self@.len() as usize },
            ),
    {
        let (wi, bi) = match self.position(index) {
            Ok(p) => p,
            Err(e) => return Err(e),
        };
        Ok(self.store[wi].get(bi))
    }

    pub fn clear_all(&mut self)
        requires
            old(self).layout_ok(),
        ensures
            final(self).wf(),
            final(self)@ == Seq::new(old(self)@.len(), |i: int| false),
            final(self).words_view().len() == old(self).words_view().len(),
            forall|j: int, b: int|
                0 <= j < final(self).words_view().len() && 0 <= b < T::width() ==> !#[trigger] final(self).words_view()[j].bit(b),
    {
        let n = self.store.len();
        let mut k: usize = 0;
        while k < n
            invariant
                0 <= k <= n,
                n == self.store@.len(),
                self.bits == old(self).bits,
                forall|j: int, b: int|
                    0 <= j < k && 0 <= b < T::width() ==> !#[trigger] self.store@[j].bit(b),
            decreases n - k,
        {
            self.store.set(k, T::zero());
            k = k + 1;
        }
        self.used = 0;
        proof {
            let w = T::width() as int;
            assert forall|i: int| 0 <= i < self.bits implies !#[trigger] self@[i] by {
                lemma_div_mod_split(i, w);
                lemma_word_below(i, w, n as int);
            }
            assert(self@ =~= Seq::new(old(self)@.len(), |i: int| false));
            lemma_count_zero(self@);
        }
    }

    pub fn set_all(&mut self)
        requires
            old(self).layout_ok(),
        ensures
            final(self).wf(),
            final(self)@ == Seq::new(old(self)@.len(), |i: int| true),
            final(self).words_view().len() == old(self).words_view().len(),
            forall|j: int, b: int|
                0 <= j < (old(self)@.len() as int) / (T::width() as int) && 0 <= b < T::width() ==> #[trigger] final(self).words_view()[j].bit(b),
            (old(self)@.len() as int) % (T::width() as int) != 0 ==> forall|b: int|
                0 <= b < T::width() ==> (#[trigger] final(self).words_view()[(old(self)@.len() as int) / (T::width() as int)].bit(b)
                    <==> b < (old(self)@.len() as int) % (T::width() as int)),
            forall|j: int|
                (old(self)@.len() as int) / (T::width() as int) + (if (old(self)@.len() as int) % (T::width() as int) != 0 { 1int } else { 0int }) <= j
                    < old(self).words_view().len() ==> #[trigger] final(self).words_view()[j] == old(self).words_view()[j],
    {
        let w = T::bits();
        let full_words = self.bits / w;
        proof {
            lemma_div_mod_split(self.bits as int, w as int);
            assert(full_words <= self.store@.len()) by (nonlinear_arith)
                requires
                    full_words * w <= self.bits,
                    self.bits <= self.store@.len() * w,
                    w > 0,
            ;
        }
        let mut k: usize = 0;
        while k < full_words
            invariant
                0 <= k <= full_words,
                full_words <= self.store@.len(),
                full_words == (self.bits as int) / (w as int),
                w == T::width(),
                self.store@.len() == old(self).store@.len(),
                self.bits == old(self).bits,
                forall|j: int, b: int|
                    0 <= j < k && 0 <= b < T::width() ==> #[trigger] self.store@[j].bit(b),
                forall|j: int| k <= j < self.store@.len() ==> #[trigger] self.store@[j] == old(self).store@[j],
            decreases full_words - k,
        {
            self.store.set(k, T::max());
            k = k + 1;
        }
        let remaining = self.bits % w;
        if remaining > 0 && full_words < self.store.len() {
            self.store.set(full_words, T::low_ones(remaining));
        }
        self.used = self.bits;
        proof {
            let wi = w as int;
            assert forall|i: int| 0 <= i < self.bits implies #[trigger] self@[i] by {
                lemma_div_mod_split(i, wi);
                lemma_div_mod_split(self.bits as int, wi);
                if i / wi >= full_words {
                    assert(i / wi == full_words && i % wi < remaining) by (nonlinear_arith)
                        requires
                            i == (i / wi) * wi + i % wi,
                            self.bits == full_words * wi + remaining,
                            0 <= i % wi < wi,
                            i < self.bits,
                            i / wi >= full_words,
                            remaining < wi,
                            full_words >= 0,
                    ;
                    lemma_word_below(i, wi, self.store@.len() as int);
                }
            }
            assert(self@ =~= Seq::new(old(self)@.len(), |i: int| true));
            lemma_count_full(self@);
        }
    }

    /// Index of the lowest set bit.
    pub fn find_fs(&self) -> (r: Option<usize>)
        requires
            self.wf(),
        ensures
            r matches Some(i) ==> i < self@.len() && self@[i as int] && forall|j: int|
                0 <= j < i ==> !#[trigger] self@[j],
            r is None ==> forall|j: int| 0 <= j < self@.len() ==> !#[trigger] self@[j],
    {
        let w = T::bits();
        let n = self.store.len();
        let mut k: usize = 0;
        while k < n
            invariant
                0 <= k <= n,
                n == self.store@.len(),
                w == T::width(),
                self.wf(),
                forall|j: int| 0 <= j < self@.len() && j < k * w ==> !#[trigger] self@[j],
            decreases n - k,
        {
            let word = self.store[k];
            let tz = word.trailing_zeros();
            proof {
                assert(k * w + w <= n * w) by (nonlinear_arith)
                    requires
                        k < n,
                ;
            }
            if (tz as usize) < w {
                let global_index = k * w + tz as usize;
                proof {
                    lemma_compose(k as int, tz as int, w as int);
                    assert forall|j: int| 0 <= j < global_index && j < self@.len() implies !#[trigger] self@[j]
                        by {
                        if j >= k * w {
                            lemma_div_mod_split(j, w as int);
                            assert(j / (w as int) == k && j % (w as int) < tz) by (nonlinear_arith)
                                requires
                                    j == (j / (w as int)) * (w as int) + j % (w as int),
                                    0 <= j % (w as int) < w,
                                    k * w <= j < k * w + tz,
                                    tz < w,
                            ;
                        }
                    }
                }
                if global_index < self.bits {
                    return Some(global_index);
                } else {
                    return None;
                }
            }
            proof {
                assert forall|j: int| 0 <= j < self@.len() && j < (k + 1) * w implies !#[trigger] self@[j]
                    by {
                    if j >= k * w {
                        lemma_div_mod_split(j, w as int);
                        assert(j / (w as int) == k) by (nonlinear_arith)
                            requires
                                j == (j / (w as int)) * (w as int) + j % (w as int),
                                0 <= j % (w as int) < w,
                                k * w <= j < (k + 1) * w,
                        ;
                    }
                }
            }
            k = k + 1;
        }
        proof {
            assert forall|j: int| 0 <= j < self@.len() implies !#[trigger] self@[j] by {
                assert(j < n * w);
            }
        }
        None
    }

    /// Index of the lowest clear bit.
    pub fn find_fc(&self) -> (r: Option<usize>)
        requires
            self.wf(),
        ensures
            r matches Some(i) ==> i < self@.len() && !self@[i as int] && forall|j: int|
                0 <= j < i ==> #[trigger] self@[j],
            r is None ==> forall|j: int| 0 <= j < self@.len() ==> #[trigger] self@[j],
    {
        let w = T::bits();
        let n = self.store.len();
        let mut k: usize = 0;
        while k < n
            invariant
                0 <= k <= n,
                n == self.store@.len(),
                w == T::width(),
                self.wf(),
                forall|j: int| 0 <= j < self@.len() && j < k * w ==> #[trigger] self@[j],
            decreases n - k,
        {
            let word = self.store[k];
            let to = word.trailing_ones();
            proof {
                assert(k * w + w <= n * w) by (nonlinear_arith)
                    requires
                        k < n,
                ;
            }
            if (to as usize) < w {
                let global_index = k * w + to as usize;
                proof {
                    lemma_compose(k as int, to as int, w as int);
                    assert forall|j: int| 0 <= j < global_index && j < self@.len() implies #[trigger] self@[j]
                        by {
                        if j >= k * w {
                            lemma_div_mod_split(j, w as int);
                            assert(j / (w as int) == k && j % (w as int) < to) by (nonlinear_arith)
                                requires
                                    j == (j / (w as int)) * (w as int) + j % (w as int),
                                    0 <= j % (w as int) < w,
                                    k * w <= j < k * w + to,
                                    to < w,
                            ;
                        }
                    }
                }
                if global_index < self.bits {
                    return Some(global_index);
                } else {
                    return None;
                }
            }
            proof {
                assert forall|j: int| 0 <= j < self@.len() && j < (k + 1) * w implies #[trigger] self@[j]
                    by {
                    if j >= k * w {
                        lemma_div_mod_split(j, w as int);
                        assert(j / (w as int) == k) by (nonlinear_arith)
                            requires
                                j == (j / (w as int)) * (w as int) + j % (w as int),
                                0 <= j % (w as int) < w,
                                k * w <= j < (k + 1) * w,
                        ;
                    }
                }
            }
            k = k + 1;
        }
        proof {
            assert forall|j: int| 0 <= j < self@.len() implies #[trigger] self@[j] by {
                assert(j < n * w);
            }
        }
        None
    }

    /// Whether no bit is set.
    pub fn is_clear(&self) -> (r: bool)
        requires
            self.wf(),
        ensures
            r == (forall|i: int| 0 <= i < self@.len() ==> !#[trigger] self@[i]),
    {
        proof {
            lemma_count_zero(self@);
        }
        self.used == 0
    }

    /// Whether some bit is clear.
    pub fn one_clear(&self) -> (r: bool)
        requires
            self.wf(),
        ensures
            r == (exists|i: int| 0 <= i < self@.len() && !#[trigger] self@[i]),
    {
        proof {
            lemma_count_full(self@);
            lemma_count_bound(self@);
        }
        self.used < self.bits
    }
}

} // verus!
