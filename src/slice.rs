//! A stack of values kept in the front of a borrowed slice.
use vstd::prelude::*;

use crate::array::one_more;

verus! {

#[derive(Debug)]
pub enum SliceError {
    OutOfBounds { index: usize, size: usize },
    InsufficientCapacity { have: usize, need: usize },
}

/// The first `len` entries of `data` are the stack's values.
#[derive(Debug)]
pub struct Slice<'data, T> {
    data: &'data mut [T],
    len: usize,
}

impl<'data, T> View for Slice<'data, T> {
    type V = Seq<T>;

    closed spec fn view(&self) -> Seq<T> {
        self.data@.take(self.len as int)
    }
}

impl<'data, T> Slice<'data, T> {
    /// The stack never holds more values than the slice has room for.
    pub closed spec fn wf(&self) -> bool {
        self.len <= self.data@.len()
    }

    /// Room in the slice.
    pub closed spec fn room(&self) -> nat {
        self.data@.len()
    }

    /// Everything in the slice, the stack's values first.
    pub closed spec fn backing(&self) -> Seq<T> {
        self.data@
    }

    pub fn new(slice: &'data mut [T]) -> (r: Self)
        ensures
            r.wf(),
            r@ == Seq::<T>::empty(),
            r.room() == old(slice)@.len(),
            r.backing() == old(slice)@,
    {
        Slice { data: slice, len: 0 }
    }

    pub fn len(&self) -> (r: usize)
        requires
            self.wf(),
        ensures
            r == self@.len(),
    {
        self.len
    }

    pub fn capacity(&self) -> (r: usize)
        ensures
            r == self.room(),
    {
        self.data.len()
    }

    pub fn is_empty(&self) -> (r: bool)
        requires
            self.wf(),
        ensures
            r == (self@.len() == 0),
    {
        self.len == 0
    }

    pub fn is_full(&self) -> (r: bool)
        requires
            self.wf(),
        ensures
            r == (self@.len() == self.room()),
    {
        self.len == self.data.len()
    }

    pub fn push(&mut self, value: T) -> (r: Result<(), SliceError>)
        requires
            old(self).wf(),
        ensures
            final(self).wf(),
            final(self).room() == old(self).room(),
            old(self)@.len() < old(self).room() ==> r is Ok && final(self)@ == old(self)@.push(
                value,
            ),
            old(self)@.len() >= old(self).room() ==> r == Err::<(), SliceError>(
                SliceError::InsufficientCapacity {
                    have: old(self).room() as usize,
                    need: one_more(old(self)@.len() as usize),
                },
            ) && final(self)@ == old(self)@,
    {
        if self.len == self.data.len() {
            let need = if self.len < usize::MAX {
                self.len + 1
            } else {
                self.len
            };
            return Err(SliceError::InsufficientCapacity { have: self.data.len(), need });
        }
        let ghost before = self.data@;
        self.data[self.len] = value;
        self.len = self.len + 1;
        assert(self.data@.take(self.len as int) =~= before.take(self.len - 1).push(value));
        Ok(())
    }

    /// Drops the top value, which stays in the slice.
    pub fn pop(&mut self) -> (r: Option<()>)
        requires
            old(self).wf(),
        ensures
            final(self).wf(),
            final(self).room() == old(self).room(),
            old(self)@.len() == 0 ==> r is None && final(self)@ == old(self)@,
            old(self)@.len() > 0 ==> r == Some(()) && final(self)@ == old(self)@.drop_last(),
    {
        if self.len == 0 {
            None
        } else {
            self.len = self.len - 1;
            assert(self.data@.take(self.len as int) =~= old(self)@.drop_last());
            Some(())
        }
    }

    pub fn get(&self, index: usize) -> (r: Result<&T, SliceError>)
        requires
            self.wf(),
        ensures
            index < self@.len() ==> r == Ok::<&T, SliceError>(&self@[index as int]),
            index >= self@.len() ==> r == Err::<&T, SliceError>(
                SliceError::OutOfBounds { index, size: self@.len() as usize },
            ),
    {
        if index >= self.len {
            Err(SliceError::OutOfBounds { index, size: self.len })
        } else {
            Ok(&self.data[index])
        }
    }

    pub fn get_mut(&mut self, index: usize) -> (r: Result<&mut T, SliceError>)
        requires
            old(self).wf(),
        ensures
            index < old(self)@.len() ==> (r matches Ok(e) && *e == old(self)@[index as int]
                && final(self)@ == old(self)@.update(index as int, *final(e))),
            index >= old(self)@.len() ==> r == Err::<&mut T, SliceError>(
                SliceError::OutOfBounds { index, size: old(self)@.len() as usize },
            ) && final(self)@ == old(self)@,
            final(self).wf(),
            final(self).room() == old(self).room(),
    {
        if index >= self.len {
            Err(SliceError::OutOfBounds { index, size: self.len })
        } else {
            Ok(&mut self.data[index])
        }
    }

    pub fn clear(&mut self)
        requires
            old(self).wf(),
        ensures
            final(self).wf(),
            final(self).room() == old(self).room(),
            final(self)@ == Seq::<T>::empty(),
    {
        self.len = 0;
        assert(self.data@.take(0) =~= Seq::<T>::empty());
    }

    pub fn as_slice(&self) -> (r: &[T])
        requires
            self.wf(),
        ensures
            r@ == self@,
    {
        vstd::slice::slice_subrange(&*self.data, 0, self.len)
    }
}

impl<'data, T> core::ops::Deref for Slice<'data, T> {
    type Target = [T];

    fn deref(&self) -> (r: &[T])
        ensures
            self.wf() ==> r@ == self@,
    {
        if self.len <= self.data.len() {
            self.as_slice()
        } else {
            &*self.data
        }
    }
}

} // verus!
