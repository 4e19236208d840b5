//! A fixed-capacity FIFO that overwrites its oldest element once full.
use vstd::prelude::*;
use vstd::slice::slice_subrange;

verus! {

/// A circular buffer of at most `limit` elements.
pub struct Buf<T> {
    inner: Vec<T>,
    limit: usize,
    /// physical index of the oldest element once the buffer is full
    first: usize,
}

/// Where the `j`-th oldest element of a buffer whose oldest element is at `first` lies.
pub open spec fn slot(first: int, j: int, limit: int) -> int {
    if first + j < limit {
        first + j
    } else {
        first + j - limit
    }
}

/// The last `min(h.len(), w)` elements of `h`, oldest first.
pub open spec fn last_n<T>(h: Seq<T>, w: nat) -> Seq<T> {
    if h.len() <= w {
        h
    } else {
        h.skip(h.len() - w)
    }
}

impl<T> View for Buf<T> {
    type V = Seq<T>;

    /// The elements, oldest first.
    closed spec fn view(&self) -> Seq<T> {
        Seq::new(
            self.inner@.len(),
            |j: int| self.inner@[slot(self.first as int, j, self.limit as int)],
        )
    }
}

impl<T> Buf<T> {
    /// The buffer is well formed.
    pub closed spec fn wf(&self) -> bool {
        &&& self.limit > 0
        &&& self.inner@.len() <= self.limit
        &&& self.first < self.limit
        &&& self.inner@.len() < self.limit ==> self.first == 0
    }

    pub closed spec fn spec_limit(&self) -> usize {
        self.limit
    }

    /// An empty buffer that holds up to `limit` elements.
    pub fn new(limit: usize) -> (r: Self)
        requires
            limit > 0,
        ensures
            r.wf(),
            r@ == Seq::<T>::empty(),
            r.spec_limit() == limit,
    {
        let r = Buf { inner: Vec::new(), limit, first: 0 };
        assert(r@ =~= Seq::<T>::empty());
        r
    }

    /// Append `new`; once the buffer is full, the oldest element leaves it and is returned.
    pub fn push(&mut self, new: T) -> (r: Option<T>)
        requires
            old(self).wf(),
        ensures
            final(self).wf(),
            final(self).spec_limit() == old(self).spec_limit(),
            old(self)@.len() < old(self).spec_limit() ==> r is None && final(self)@ == old(self)@.push(new),
            old(self)@.len() >= old(self).spec_limit() ==> r == Some(old(self)@[0]) && final(self)@ == old(self)@.skip(1).push(new),
    {
        let ghost v0 = self@;
        if self.inner.len() < self.limit {
            self.inner.push(new);
            assert(self@ =~= v0.push(new));
            None
        } else {
            let f = self.first;
            let mut new = new;
            std::mem::swap(&mut new, &mut self.inner[f]);
            self.first = if f + 1 == self.limit {
                0
            } else {
                f + 1
            };
            assert(self@ =~= v0.skip(1).push(new_value_of(&self.inner@, f)));
            Some(new)
        }
    }

    /// Iterate from the oldest element to the newest.
    pub fn iter<'a>(&'a self) -> (r: Iter<'a, T>)
        ensures
            r.spec_buf() == self,
            r.spec_pos() == 0,
    {
        Iter::from(self)
    }

    /// How many elements the buffer holds.
    pub fn len(&self) -> (r: usize)
        ensures
            r == self@.len(),
    {
        self.inner.len()
    }

    /// The capacity given at construction.
    pub fn limit(&self) -> (r: usize)
        ensures
            r == self.spec_limit(),
    {
        self.limit
    }

    /// The `index`-th oldest element.
    pub fn get(&self, index: usize) -> (r: &T)
        requires
            self.wf(),
            index < self@.len(),
        ensures
            *r == self@[index as int],
    {
        let p = if index < self.limit - self.first {
            self.first + index
        } else {
            index - (self.limit - self.first)
        };
        &self.inner[p]
    }

    /// The elements as two slices, the older part first.
    pub fn as_slices(&self) -> (r: (&[T], &[T]))
        requires
            self.wf(),
        ensures
            r.0@ + r.1@ == self@,
    {
        let s = self.inner.as_slice();
        let a1 = slice_subrange(s, self.first, self.inner.len());
        let a2 = slice_subrange(s, 0, self.first);
        assert(a1@ + a2@ =~= self@);
        (a1, a2)
    }

    /// Remove every element; the capacity stays.
    pub fn clear(&mut self)
        requires
            old(self).wf(),
        ensures
            final(self).wf(),
            final(self)@ == Seq::<T>::empty(),
            final(self).spec_limit() == old(self).spec_limit(),
    {
        self.inner.clear();
        self.first = 0;
        assert(self@ =~= Seq::<T>::empty());
    }
}

impl<T: Copy> Buf<T> {
    /// The elements, oldest first, in a new vector.
    pub fn to_vec(&self) -> (r: Vec<T>)
        requires
            self.wf(),
        ensures
            r@ == self@,
    {
        let mut v: Vec<T> = Vec::with_capacity(self.len());
        let n = self.len();
        let mut j: usize = 0;
        while j < n
            invariant
                j <= n,
                self.wf(),
                n == self@.len(),
                v@ == self@.take(j as int),
            decreases n - j,
        {
            let x = *self.get(j);
            v.push(x);
            assert(v@ =~= self@.take(j + 1));
            j += 1;
        }
        assert(self@.take(n as int) =~= self@);
        v
    }
}

/// The element that `push` wrote at physical index `f`.
spec fn new_value_of<T>(inner: &Seq<T>, f: usize) -> T {
    inner[f as int]
}

/// A buffer that holds the last `min(h.len(), w)` bytes of `h` still does after `v` is
/// appended to both, and the byte that leaves it is the one `w` positions before `v`.
pub proof fn lemma_window_push(win: Seq<u8>, h: Seq<u8>, w: nat, v: u8)
    requires
        w > 0,
        win == last_n(h, w),
    ensures
        h.len() < w ==> win.len() < w && win.push(v) == last_n(h.push(v), w),
        h.len() >= w ==> win.len() >= w && win[0] == h[h.len() - w] && win.skip(1).push(v)
            == last_n(h.push(v), w),
{
    if h.len() < w {
        assert(win.push(v) =~= last_n(h.push(v), w));
    } else {
        assert(win.skip(1).push(v) =~= last_n(h.push(v), w));
    }
}

/// The last `i` bytes of `hc` are the first `i` bytes of `data`.
pub open spec fn ends_with(hc: Seq<u8>, data: Seq<u8>, i: int) -> bool {
    &&& 0 <= i <= hc.len()
    &&& i <= data.len()
    &&& forall|j: int| 0 <= j < i ==> #[trigger] hc[hc.len() - i + j] == data[j]
}

/// The last bytes of a history, kept at the front of the caller's slice.
pub proof fn lemma_ends_with_start(h: Seq<u8>, data: Seq<u8>, o: int)
    requires
        0 <= o <= h.len(),
        o <= data.len(),
        forall|j: int| 0 <= j < o ==> #[trigger] data[j] == h[h.len() - o + j],
    ensures
        ends_with(h, data, o),
{
    assert forall|j: int| 0 <= j < o implies #[trigger] h[h.len() - o + j] == data[j] by {
        assert(data[j] == h[h.len() - o + j]);
    }
}

/// Appending `data[i]` keeps the history ending with `data[..i + 1]`; the byte `w` positions
/// back is then in `data` too.
pub proof fn lemma_ends_with_push(hc: Seq<u8>, data: Seq<u8>, i: int, w: int)
    requires
        ends_with(hc, data, i),
        i < data.len(),
        w > 0,
    ensures
        ends_with(hc.push(data[i]), data, i + 1),
        i >= w ==> hc[hc.len() - w] == data[i - w],
{
    let hn = hc.push(data[i]);
    assert forall|j: int| 0 <= j < i + 1 implies #[trigger] hn[hn.len() - (i + 1) + j]
        == data[j] by {
        if j < i {
            assert(hn[hn.len() - (i + 1) + j] == hc[hc.len() - i + j]);
        }
    }
    if i >= w {
        assert(hc[hc.len() - i + (i - w)] == data[i - w]);
    }
}

/// Iterates over a [`Buf`] from the oldest element to the newest.
pub struct Iter<'a, T> {
    inner: &'a Buf<T>,
    pos: usize,
}

impl<'a, T> Iter<'a, T> {
    pub closed spec fn spec_buf(&self) -> &'a Buf<T> {
        self.inner
    }

    pub closed spec fn spec_pos(&self) -> usize {
        self.pos
    }

    /// An iterator at the oldest element of `inner`.
    pub fn from(inner: &'a Buf<T>) -> (r: Self)
        ensures
            r.spec_buf() == inner,
            r.spec_pos() == 0,
    {
        Iter { inner, pos: 0 }
    }

    /// The next element, oldest first; `None` once every element has been returned.
    pub fn next(&mut self) -> (r: Option<&'a T>)
        requires
            old(self).spec_buf().wf(),
        ensures
            final(self).spec_buf() == old(self).spec_buf(),
            old(self).spec_pos() < old(self).spec_buf()@.len() ==> r == Some(
                &old(self).spec_buf()@[old(self).spec_pos() as int],
            ) && final(self).spec_pos() == old(self).spec_pos() + 1,
            old(self).spec_pos() >= old(self).spec_buf()@.len() ==> r is None && final(self).spec_pos() == old(self).spec_pos(),
    {
        let p = self.pos;
        if p < self.inner.len() {
            self.pos = p + 1;
            Some(self.inner.get(p))
        } else {
            None
        }
    }
}

} // verus!
