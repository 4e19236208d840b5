//! MII: split after `w` consecutive increments of the byte value.
//!
//! C. Zhang et al., "MII: A Novel Content Defined Chunking Algorithm for Finding Incremental
//! Data in Data Synchronization", IEEE Access 7 (2019).
//!
//! A stream starts as if its previous byte were `0xff`, so its first byte is never an
//! increment. After a boundary the previous byte counts as `0`: the history then starts with
//! one zero byte that only stands in as that previous byte.
use crate::{
    first_cut, lemma_first_cut_found, lemma_first_cut_none, lemma_first_cut_spec,
    lemma_same_rule_first_cut, lemma_take_push, no_cut_within, Chunk, ChunkIncr, CutRule,
    ToChunkIncr,
};
use vstd::prelude::*;

verus! {

/// `(previous byte, consecutive increments)` after the history `s`.
pub open spec fn mii_state(s: Seq<u8>) -> (u8, nat)
    decreases s.len(),
{
    if s.len() == 0 {
        (0xffu8, 0nat)
    } else {
        let (prev, inc) = mii_state(s.drop_last());
        if s.last() > prev {
            (s.last(), inc + 1)
        } else {
            (s.last(), 0nat)
        }
    }
}

/// The increment count is at most the history's length.
proof fn lemma_mii_inc_bound(s: Seq<u8>)
    ensures
        mii_state(s).1 <= s.len(),
        mii_state(s).1 <= 255,
    decreases s.len(),
{
    if s.len() > 0 {
        lemma_mii_inc_bound(s.drop_last());
        let (prev, inc) = mii_state(s.drop_last());
        if s.last() > prev {
            lemma_mii_inc_prev(s.drop_last());
        }
    }
}

/// A run of `inc` increments ends at a byte of value at least `inc`.
proof fn lemma_mii_inc_prev(s: Seq<u8>)
    ensures
        mii_state(s).1 <= mii_state(s).0 || s.len() == 0,
        s.len() == 0 ==> mii_state(s).1 == 0,
    decreases s.len(),
{
    if s.len() > 0 {
        lemma_mii_inc_prev(s.drop_last());
    }
}

/// Parameters of MII.
#[derive(Clone, Copy, Debug, PartialEq, Eq)]
pub struct Mii {
    w: u64,
}

impl Mii {
    pub closed spec fn spec_w(&self) -> u64 {
        self.w
    }

    /// Split after `w` consecutive increments (bytes greater than the byte before them).
    pub fn with_w(w: u64) -> (r: Self)
        ensures
            r.spec_w() == w,
    {
        Self { w }
    }

    /// The window of 5 used in the paper.
    pub fn default() -> (r: Self)
        ensures
            r.spec_w() == 5,
    {
        Mii::with_w(5)
    }
}

impl CutRule for Mii {
    /// A boundary follows the byte that completes `w` consecutive increments.
    open spec fn cut_at(&self, h: Seq<u8>) -> bool {
        h.len() > 0 && h.last() > mii_state(h.drop_last()).0 && mii_state(h).1 == self.spec_w()
    }

    open spec fn after_cut(&self, h: Seq<u8>) -> Seq<u8> {
        seq![0u8]
    }
}

/// The running state of MII.
pub struct MiiIncr {
    /// split after this many increments
    w: u64,
    /// the previous byte
    prev: u8,
    /// consecutive increments so far
    increment: u64,
    hist: Ghost<Seq<u8>>,
}

impl MiiIncr {
    pub closed spec fn spec_params(&self) -> Mii {
        Mii { w: self.w }
    }

    pub closed spec fn spec_history(&self) -> Seq<u8> {
        self.hist@
    }

    pub closed spec fn wf(&self) -> bool {
        self.prev == mii_state(self.hist@).0 && self.increment == mii_state(self.hist@).1
    }

    /// A fresh state for a new source.
    pub fn new(params: &Mii) -> (r: Self)
        ensures
            r.wf(),
            r.spec_params() == *params,
            r.spec_history() == Seq::<u8>::empty(),
    {
        MiiIncr { w: params.w, prev: 0xff, increment: 0, hist: Ghost(Seq::empty()) }
    }

    /// Feed `input`; the offset just past the first boundary in it, if any.
    fn feed(&mut self, input: &[u8]) -> (r: Option<usize>)
        requires
            old(self).wf(),
        ensures
            final(self).wf(),
            final(self).w == old(self).w,
            match first_cut(old(self).spec_params(), old(self).hist@, input@) {
                Some(k) => r == Some(k as usize) && final(self).hist@ == seq![0u8],
                None => r is None && final(self).hist@ == old(self).hist@ + input@,
            },
    {
        let ghost h = self.hist@;
        let ghost p = self.spec_params();
        proof {
            assert(h + input@.take(0) =~= h);
            lemma_first_cut_spec(p, h, input@);
        }
        let mut i: usize = 0;
        while i < input.len()
            invariant
                i <= input.len(),
                h == old(self).hist@,
                p == old(self).spec_params(),
                self.w == p.w,
                self.hist@ == h + input@.take(i as int),
                self.wf(),
                no_cut_within(p, h, input@, i as int),
            decreases input.len() - i,
        {
            let ghost hc = self.hist@;
            let b = input[i];
            proof {
                lemma_take_push(h, input@, i as int);
                assert(hc.push(b).drop_last() =~= hc);
                lemma_mii_inc_bound(hc);
            }
            self.hist = Ghost(hc.push(b));
            if b > self.prev {
                self.increment = self.increment + 1;
                if self.increment == self.w {
                    proof {
                        lemma_first_cut_found(p, h, input@, (i + 1) as nat);
                    }
                    // the next chunk starts after a zero byte
                    self.increment = 0;
                    self.prev = 0;
                    self.hist = Ghost(Seq::empty().push(0u8));
                    proof {
                        assert(Seq::<u8>::empty().push(0u8) =~= seq![0u8]);
                        assert(seq![0u8].drop_last() =~= Seq::<u8>::empty());
                    }
                    return Some(i + 1);
                }
            } else {
                self.increment = 0;
            }
            self.prev = b;
            i += 1;
        }
        proof {
            assert(input@.take(input.len() as int) =~= input@);
            lemma_first_cut_none(p, h, input@);
        }
        None
    }
}

impl CutRule for MiiIncr {
    open spec fn cut_at(&self, h: Seq<u8>) -> bool {
        self.spec_params().cut_at(h)
    }

    open spec fn after_cut(&self, h: Seq<u8>) -> Seq<u8> {
        seq![0u8]
    }
}

impl ChunkIncr for MiiIncr {
    closed spec fn history(&self) -> Seq<u8> {
        self.hist@
    }

    closed spec fn inv(&self) -> bool {
        self.wf()
    }

    open spec fn footprint(&self) -> nat {
        0
    }

    fn push(&mut self, input: &[u8]) -> (r: Option<usize>) {
        proof {
            lemma_same_rule_first_cut(*self, self.spec_params(), self.hist@, input@);
        }
        self.feed(input)
    }
}

/// Search state of [`Mii`].
pub struct MiiSearchState {
    incr: MiiIncr,
}

impl MiiSearchState {
    fn push(&mut self, data: &[u8]) -> (r: Option<usize>)
        requires
            old(self).incr.wf(),
        ensures
            final(self).incr.wf(),
            final(self).incr.w == old(self).incr.w,
            match first_cut(old(self).incr.spec_params(), old(self).incr.hist@, data@) {
                Some(k) => r == Some(k as usize) && final(self).incr.hist@ == seq![0u8],
                None => r is None && final(self).incr.hist@ == old(self).incr.hist@ + data@,
            },
    {
        self.incr.feed(data)
    }
}

impl Chunk for Mii {
    type SearchState = MiiSearchState;

    closed spec fn search_history(&self, st: MiiSearchState) -> Seq<u8> {
        st.incr.hist@
    }

    closed spec fn search_offset(&self, st: MiiSearchState) -> nat {
        0
    }

    open spec fn lookback(&self) -> nat {
        0
    }

    closed spec fn search_inv(&self, st: MiiSearchState) -> bool {
        st.incr.wf() && st.incr.w == self.w
    }

    fn to_search_state(&self) -> (r: MiiSearchState) {
        MiiSearchState { incr: MiiIncr::new(self) }
    }

    fn find_chunk_edge(&self, state: &mut MiiSearchState, data: &[u8]) -> (r: (
        Option<usize>,
        usize,
    )) {
        proof {
            assert(data@.skip(0) =~= data@);
            lemma_first_cut_spec(*self, state.incr.hist@, data@);
            assert(data@.len() == data.len());
        }
        match state.push(data) {
            Some(i) => (Some(i), i),
            None => (None, data.len()),
        }
    }
}

impl ToChunkIncr for Mii {
    type Incr = MiiIncr;

    fn to_chunk_incr(&self) -> (r: MiiIncr)
        ensures
            r.spec_params() == *self,
    {
        MiiIncr::new(self)
    }
}

} // verus!
