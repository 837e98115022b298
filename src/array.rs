//! A fixed-capacity stack of values, used as a recent-free cache.
use vstd::prelude::*;

verus! {

#[derive(Debug)]
pub enum ArrayError {
    OutOfBounds { index: usize, size: usize },
    InsufficientCapacity { have: usize, need: usize },
}

/// `n + 1`, saturated at the largest `usize`.
pub open spec fn one_more(n: usize) -> usize {
    if n < usize::MAX {
        (n + 1) as usize
    } else {
        n
    }
}

/// At most `SIZE` values, last in first out.
#[derive(Debug)]
pub struct Array<T, const SIZE: usize> {
    data: Vec<T>,
}

impl<T, const SIZE: usize> View for Array<T, SIZE> {
    type V = Seq<T>;

    closed spec fn view(&self) -> Seq<T> {
        self.data@
    }
}

impl<T, const SIZE: usize> Array<T, SIZE> {
    /// Never more than `SIZE` values.
    pub closed spec fn wf(&self) -> bool {
        self.data@.len() <= SIZE
    }

    pub fn new() -> (r: Self)
        ensures
            r.wf(),
            r@ == Seq::<T>::empty(),
    {
        Array { data: Vec::new() }
    }

    pub fn len(&self) -> (r: usize)
        ensures
            r == self@.len(),
    {
        self.data.len()
    }

    pub fn capacity(&self) -> (r: usize)
        ensures
            r == SIZE,
    {
        SIZE
    }

    pub fn is_empty(&self) -> (r: bool)
        ensures
            r == (self@.len() == 0),
    {
        self.data.len() == 0
    }

    pub fn is_full(&self) -> (r: bool)
        ensures
            r == (self@.len() == SIZE),
    {
        self.data.len() == SIZE
    }

    pub fn push(&mut self, value: T) -> (r: Result<(), ArrayError>)
        requires
            old(self).wf(),
        ensures
            final(self).wf(),
            old(self)@.len() < SIZE ==> r is Ok && final(self)@ == old(self)@.push(value),
            old(self)@.len() >= SIZE ==> r == Err::<(), ArrayError>(
                ArrayError::InsufficientCapacity { have: SIZE, need: one_more(SIZE) },
            ) && final(self)@ == old(self)@,
    {
        if self.data.len() >= SIZE {
            let need = if SIZE < usize::MAX {
                SIZE + 1
            } else {
                SIZE
            };
            return Err(ArrayError::InsufficientCapacity { have: SIZE, need });
        }
        self.data.push(value);
        Ok(())
    }

    pub fn pop(&mut self) -> (r: Option<T>)
        requires
            old(self).wf(),
        ensures
            final(self).wf(),
            old(self)@.len() == 0 ==> r is None && final(self)@ == old(self)@,
            old(self)@.len() > 0 ==> r == Some(old(self)@.last()) && final(self)@
                == old(self)@.drop_last(),
    {
        self.data.pop()
    }

    pub fn get(&self, index: usize) -> (r: Result<&T, ArrayError>)
        ensures
            index < self@.len() ==> r == Ok::<&T, ArrayError>(&self@[index as int]),
            index >= self@.len() ==> r == Err::<&T, ArrayError>(
                ArrayError::OutOfBounds { index, size: self@.len() as usize },
            ),
    {
        if index >= self.data.len() {
            Err(ArrayError::OutOfBounds { index, size: self.data.len() })
        } else {
            Ok(&self.data[index])
        }
    }

    pub fn get_mut(&mut self, index: usize) -> (r: Result<&mut T, ArrayError>)
        ensures
            index < old(self)@.len() ==> (r matches Ok(e) && *e == old(self)@[index as int]
                && final(self)@ == old(self)@.update(index as int, *final(e))),
            index >= old(self)@.len() ==> r == Err::<&mut T, ArrayError>(
                ArrayError::OutOfBounds { index, size: old(self)@.len() as usize },
            ) && final(self)@ == old(self)@,
    {
        if index >= self.data.len() {
            Err(ArrayError::OutOfBounds { index, size: self.data.len() })
        } else {
            Ok(&mut self.data[index])
        }
    }

    pub fn clear(&mut self)
        requires
            old(self).wf(),
        ensures
            final(self).wf(),
            final(self)@ == Seq::<T>::empty(),
    {
        while self.data.len() > 0
            invariant
                self.data@.len() <= SIZE,
            decreases self.data@.len(),
        {
            self.data.pop();
        }
        assert(self.data@ =~= Seq::<T>::empty());
    }

    pub fn as_slice(&self) -> (r: &[T])
        ensures
            r@ == self@,
    {
        self.data.as_slice()
    }

    pub fn as_mut_slice(&mut self) -> (r: &mut [T])
        ensures
            r@ == old(self)@,
            final(self)@ == final(r)@,
    {
        self.data.as_mut_slice()
    }
}

impl<T, const SIZE: usize> Default for Array<T, SIZE> {
    fn default() -> (r: Self)
        ensures
            r.wf(),
            r@ == Seq::<T>::empty(),
    {
        Self::new()
    }
}

impl<T, const SIZE: usize> core::ops::Deref for Array<T, SIZE> {
    type Target = [T];

    fn deref(&self) -> (r: &[T])
        ensures
            r@ == self@,
    {
        self.as_slice()
    }
}

impl<T, const SIZE: usize> core::ops::DerefMut for Array<T, SIZE> {
    fn deref_mut(&mut self) -> (r: &mut [T])
        ensures
            r@ == old(self)@,
            final(self)@ == final(r)@,
    {
        self.as_mut_slice()
    }
}

} // verus!
