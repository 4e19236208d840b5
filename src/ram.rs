//! Rapid Asymmetric Maximum (RAM).
//!
//! The chunk ends at the first byte, past the first `w + 1` bytes, whose value is at least the
//! largest value seen in the chunk so far; `w` is thus also a minimum chunk size. There is no
//! maximum chunk size and no window to keep.
//!
//! R. N. Widodo et al., "A new content-defined chunking algorithm for data deduplication in
//! cloud storage", Future Generation Computer Systems 71 (2017).
use crate::{
    first_cut, lemma_first_cut_found, lemma_first_cut_none, lemma_first_cut_spec,
    lemma_same_rule_first_cut, lemma_take_push, no_cut_within, Chunk, ChunkIncr, CutRule,
    ToChunkIncr,
};
use vstd::prelude::*;

verus! {

/// The largest byte of `s`, or 0 when `s` is empty.
pub open spec fn max_byte(s: Seq<u8>) -> u8
    decreases s.len(),
{
    if s.len() == 0 {
        0
    } else {
        let m = max_byte(s.drop_last());
        if s.last() >= m {
            s.last()
        } else {
            m
        }
    }
}

/// Parameters of RAM.
#[derive(Clone, Copy, Debug, PartialEq, Eq)]
pub struct Ram {
    w: u64,
}

impl Ram {
    pub closed spec fn spec_w(&self) -> u64 {
        self.w
    }

    /// RAM with window size `w`, which is also the minimum chunk size.
    pub fn with_w(w: u64) -> (r: Self)
        ensures
            r.spec_w() == w,
    {
        Self { w }
    }
}

impl CutRule for Ram {
    /// A boundary follows the byte at position `n - 1 > w` of the chunk when it is at least as
    /// large as every byte before it.
    open spec fn cut_at(&self, h: Seq<u8>) -> bool {
        h.len() > 0 && h.len() - 1 > self.spec_w() && h.last() >= max_byte(h.drop_last())
    }

    open spec fn after_cut(&self, h: Seq<u8>) -> Seq<u8> {
        Seq::empty()
    }
}

/// The state of RAM: bytes since the last boundary and their maximum.
pub struct RamState {
    i: u64,
    max_val: u8,
    hist: Ghost<Seq<u8>>,
}

impl RamState {
    pub closed spec fn spec_history(&self) -> Seq<u8> {
        self.hist@
    }

    pub closed spec fn wf(&self) -> bool {
        self.i == self.hist@.len() && self.max_val == max_byte(self.hist@)
    }

    fn fresh() -> (r: Self)
        ensures
            r.wf(),
            r.spec_history() == Seq::<u8>::empty(),
    {
        RamState { i: 0, max_val: 0, hist: Ghost(Seq::empty()) }
    }

    /// Feed `data`; the offset just past the first boundary in it, if any.
    fn push(&mut self, params: &Ram, data: &[u8]) -> (r: Option<usize>)
        requires
            old(self).wf(),
            old(self).spec_history().len() + data@.len() <= u64::MAX,
        ensures
            final(self).wf(),
            match first_cut(*params, old(self).spec_history(), data@) {
                Some(k) => r == Some(k as usize) && final(self).spec_history() == Seq::<
                    u8,
                >::empty(),
                None => r is None && final(self).spec_history() == old(self).spec_history()
                    + data@,
            },
    {
        let ghost h = self.hist@;
        proof {
            assert(h + data@.take(0) =~= h);
            lemma_first_cut_spec(*params, h, data@);
        }
        let mut l: usize = 0;
        while l < data.len()
            invariant
                l <= data.len(),
                h == old(self).hist@,
                h.len() + data@.len() <= u64::MAX,
                self.hist@ == h + data@.take(l as int),
                self.wf(),
                no_cut_within(*params, h, data@, l as int),
            decreases data.len() - l,
        {
            let ghost hc = self.hist@;
            let b = data[l];
            proof {
                lemma_take_push(h, data@, l as int);
                assert(hc.push(b).drop_last() =~= hc);
            }
            if b >= self.max_val {
                // the byte's position in the chunk
                if self.i > params.w {
                    proof {
                        lemma_first_cut_found(*params, h, data@, (l + 1) as nat);
                    }
                    self.i = 0;
                    self.max_val = 0;
                    self.hist = Ghost(Seq::empty());
                    return Some(l + 1);
                }
                self.max_val = b;
            }
            self.i = self.i + 1;
            self.hist = Ghost(hc.push(b));
            l += 1;
        }
        proof {
            assert(data@.take(data.len() as int) =~= data@);
            lemma_first_cut_none(*params, h, data@);
        }
        None
    }
}

impl Chunk for Ram {
    type SearchState = RamState;

    closed spec fn search_history(&self, st: RamState) -> Seq<u8> {
        st.hist@
    }

    closed spec fn search_offset(&self, st: RamState) -> nat {
        0
    }

    open spec fn lookback(&self) -> nat {
        0
    }

    closed spec fn search_inv(&self, st: RamState) -> bool {
        st.wf()
    }

    fn to_search_state(&self) -> (r: RamState) {
        RamState::fresh()
    }

    fn find_chunk_edge(&self, state: &mut RamState, data: &[u8]) -> (r: (Option<usize>, usize)) {
        proof {
            assert(data@.skip(0) =~= data@);
            lemma_first_cut_spec(*self, state.hist@, data@);
            assert(data@.len() == data.len());
        }
        match state.push(self, data) {
            Some(i) => (Some(i), i),
            None => (None, data.len()),
        }
    }
}

/// Incremental form of [`Ram`]; it keeps no window.
pub struct RamIncr {
    params: Ram,
    state: RamState,
}

impl RamIncr {
    pub closed spec fn spec_params(&self) -> Ram {
        self.params
    }
}

impl CutRule for RamIncr {
    open spec fn cut_at(&self, h: Seq<u8>) -> bool {
        self.spec_params().cut_at(h)
    }

    open spec fn after_cut(&self, h: Seq<u8>) -> Seq<u8> {
        Seq::empty()
    }
}

impl ChunkIncr for RamIncr {
    closed spec fn history(&self) -> Seq<u8> {
        self.state.hist@
    }

    closed spec fn inv(&self) -> bool {
        self.state.wf()
    }

    open spec fn footprint(&self) -> nat {
        0
    }

    fn push(&mut self, data: &[u8]) -> (r: Option<usize>) {
        proof {
            lemma_same_rule_first_cut(*self, self.params, self.state.hist@, data@);
        }
        self.state.push(&self.params, data)
    }
}

impl ToChunkIncr for Ram {
    type Incr = RamIncr;

    fn to_chunk_incr(&self) -> (r: RamIncr)
        ensures
            r.spec_params() == *self,
    {
        RamIncr { params: *self, state: RamState::fresh() }
    }
}

} // verus!
