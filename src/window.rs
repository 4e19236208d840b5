//! A growing buffer that also exposes its last `window_len` elements.
use vstd::prelude::*;
use vstd::slice::slice_subrange;

verus! {

/// Every element pushed so far, with a window over the last `window_len` of them.
pub struct Buf<T> {
    inner: Vec<T>,
    window_len: usize,
}

impl<T> View for Buf<T> {
    type V = Seq<T>;

    closed spec fn view(&self) -> Seq<T> {
        self.inner@
    }
}

impl<T> Buf<T> {
    pub closed spec fn spec_window_len(&self) -> usize {
        self.window_len
    }

    /// An empty buffer with a window of `window_len` elements.
    pub fn new(window_len: usize) -> (r: Self)
        ensures
            r@ == Seq::<T>::empty(),
            r.spec_window_len() == window_len,
    {
        Buf { inner: Vec::new(), window_len }
    }

    /// Append `new`; once the window is full, return the element that has just left it.
    pub fn push(&mut self, new: T) -> (r: Option<&T>)
        ensures
            final(self)@ == old(self)@.push(new),
            final(self).spec_window_len() == old(self).spec_window_len(),
            old(self)@.len() < old(self).spec_window_len() ==> r is None,
            old(self)@.len() >= old(self).spec_window_len() ==> r == Some(
                &final(self)@[old(self)@.len() - old(self).spec_window_len()],
            ),
    {
        if self.inner.len() < self.window_len {
            self.inner.push(new);
            None
        } else {
            self.inner.push(new);
            let n = self.inner.len();
            Some(&self.inner[n - self.window_len - 1])
        }
    }

    /// How many elements have been pushed.
    pub fn len(&self) -> (r: usize)
        ensures
            r == self@.len(),
    {
        self.inner.len()
    }

    /// The last `window_len` elements.
    pub fn window(&self) -> (r: &[T])
        requires
            self@.len() >= self.spec_window_len(),
        ensures
            r@ == self@.skip(self@.len() - self.spec_window_len()),
    {
        let s = self.inner.as_slice();
        let r = slice_subrange(s, self.inner.len() - self.window_len, self.inner.len());
        assert(r@ =~= self@.skip(self@.len() - self.spec_window_len()));
        r
    }

    /// Every element pushed, as a slice.
    pub fn as_slice(&self) -> (r: &[T])
        ensures
            r@ == self@,
    {
        self.inner.as_slice()
    }

    /// Every element pushed.
    pub fn into_vec(self) -> (r: Vec<T>)
        ensures
            r@ == self@,
    {
        self.inner
    }
}

} // verus!
