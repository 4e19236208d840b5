//! Inclusive, exclusive or absent bounds on a chunk size.
use vstd::prelude::*;

verus! {

/// One end of a range.
#[derive(Clone, Copy, Debug, PartialEq, Eq)]
pub enum Bound<T> {
    Included(T),
    Excluded(T),
    Unbounded,
}

/// `x` lies past the upper end `end`.
pub open spec fn spec_exceeds_max(end: Bound<u64>, x: int) -> bool {
    match end {
        Bound::Included(i) => x > i,
        Bound::Excluded(i) => x >= i,
        Bound::Unbounded => false,
    }
}

/// `x` lies before the lower end `start`.
pub open spec fn spec_under_min(start: Bound<u64>, x: int) -> bool {
    match start {
        Bound::Included(i) => x < i,
        Bound::Excluded(i) => x <= i,
        Bound::Unbounded => false,
    }
}

/// Tests of a chunk size against a range given by its two ends.
pub trait RangeExt {
    spec fn spec_start(&self) -> Bound<u64>;

    spec fn spec_end(&self) -> Bound<u64>;

    /// `item` lies past the upper end.
    fn exceeds_max(&self, item: &u64) -> (r: bool)
        ensures
            r == spec_exceeds_max(self.spec_end(), *item as int),
    ;

    /// `item` lies before the lower end.
    fn under_min(&self, item: &u64) -> (r: bool)
        ensures
            r == spec_under_min(self.spec_start(), *item as int),
    ;

    /// `item` lies inside the range.
    fn contains(&self, item: &u64) -> (r: bool)
        ensures
            r == (!spec_under_min(self.spec_start(), *item as int) && !spec_exceeds_max(
                self.spec_end(),
                *item as int,
            )),
    ;

    /// The two ends.
    fn into_tuple(self) -> (r: (Bound<u64>, Bound<u64>))
        ensures
            r == (self.spec_start(), self.spec_end()),
    ;
}

impl RangeExt for (Bound<u64>, Bound<u64>) {
    open spec fn spec_start(&self) -> Bound<u64> {
        self.0
    }

    open spec fn spec_end(&self) -> Bound<u64> {
        self.1
    }

    fn exceeds_max(&self, item: &u64) -> (r: bool) {
        match self.1 {
            Bound::Included(i) => *item > i,
            Bound::Excluded(i) => *item >= i,
            Bound::Unbounded => false,
        }
    }

    fn under_min(&self, item: &u64) -> (r: bool) {
        match self.0 {
            Bound::Included(i) => *item < i,
            Bound::Excluded(i) => *item <= i,
            Bound::Unbounded => false,
        }
    }

    fn contains(&self, item: &u64) -> (r: bool) {
        !self.under_min(item) && !self.exceeds_max(item)
    }

    fn into_tuple(self) -> (r: (Bound<u64>, Bound<u64>)) {
        (bound_cloned(self.0.as_ref()), bound_cloned(self.1.as_ref()))
    }
}

impl<T> Bound<T> {
    /// The same bound, holding a reference to its value.
    pub fn as_ref(&self) -> (r: Bound<&T>)
        ensures
            r == match *self {
                Bound::Included(x) => Bound::Included(&x),
                Bound::Excluded(x) => Bound::Excluded(&x),
                Bound::Unbounded => Bound::<&T>::Unbounded,
            },
    {
        match self {
            Bound::Included(x) => Bound::Included(x),
            Bound::Excluded(x) => Bound::Excluded(x),
            Bound::Unbounded => Bound::Unbounded,
        }
    }
}

/// Map a `Bound<&T>` to a `Bound<T>` by copying the value.
pub fn bound_cloned<T: Copy>(src: Bound<&T>) -> (r: Bound<T>)
    ensures
        r == match src {
            Bound::Included(x) => Bound::Included(*x),
            Bound::Excluded(x) => Bound::Excluded(*x),
            Bound::Unbounded => Bound::<T>::Unbounded,
        },
{
    match src {
        Bound::Unbounded => Bound::Unbounded,
        Bound::Included(x) => Bound::Included(*x),
        Bound::Excluded(x) => Bound::Excluded(*x),
    }
}

} // verus!
