use std::collections::VecDeque;
use vstd::prelude::*;

verus! {

/// The samples that have arrived and not yet been let go, oldest first.
///
/// The front of the buffer is the first sample of the next analysis frame.
pub struct SampleWindow<T> {
    samples: VecDeque<T>,
}

impl<T: Copy> View for SampleWindow<T> {
    type V = Seq<T>;

    closed spec fn view(&self) -> Seq<T> {
        self.samples@
    }
}

impl<T: Copy> SampleWindow<T> {
    /// An empty buffer.
    pub fn new() -> (r: Self)
        ensures
            r@ == Seq::<T>::empty(),
    {
        SampleWindow { samples: VecDeque::new() }
    }

    /// Number of samples held.
    pub fn len(&self) -> (r: usize)
        ensures
            r == self@.len(),
    {
        self.samples.len()
    }

    /// Appends `new_samples` at the back, in order.
    pub fn append(&mut self, new_samples: &[T])
        ensures
            final(self)@ == old(self)@ + new_samples@,
    {
        let mut i: usize = 0;
        while i < new_samples.len()
            invariant
                i <= new_samples@.len(),
                self@ == old(self)@ + new_samples@.subrange(0, i as int),
            decreases new_samples@.len() - i,
        {
            self.samples.push_back(new_samples[i]);
            i = i + 1;
            assert(new_samples@.subrange(0, i as int) =~= new_samples@.subrange(0, i - 1).push(
                new_samples@[i - 1],
            ));
        }
        assert(new_samples@.subrange(0, i as int) =~= new_samples@);
    }

    /// A copy of the `n` oldest samples; the buffer is left as it is.
    pub fn snapshot(&self, n: usize) -> (r: Vec<T>)
        requires
            n <= self@.len(),
        ensures
            r@ == self@.subrange(0, n as int),
    {
        let mut frame: Vec<T> = Vec::with_capacity(n);
        let mut i: usize = 0;
        while i < n
            invariant
                i <= n,
                n <= self@.len(),
                frame@ == self@.subrange(0, i as int),
            decreases n - i,
        {
            frame.push(self.samples[i]);
            i = i + 1;
            assert(frame@ =~= self@.subrange(0, i as int));
        }
        frame
    }

    /// Lets the `n` oldest samples go.
    pub fn discard(&mut self, n: usize)
        requires
            n <= old(self)@.len(),
        ensures
            final(self)@ == old(self)@.subrange(n as int, old(self)@.len() as int),
    {
        let mut i: usize = 0;
        while i < n
            invariant
                i <= n,
                n <= old(self)@.len(),
                self@ == old(self)@.subrange(i as int, old(self)@.len() as int),
            decreases n - i,
        {
            let _ = self.samples.pop_front();
            i = i + 1;
            assert(self@ =~= old(self)@.subrange(i as int, old(self)@.len() as int));
        }
    }
}

} // verus!
