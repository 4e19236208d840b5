//! Gear chunking with a 32-bit fingerprint.
//!
//! Every byte updates the fingerprint as `fp = (fp << 1) + gear[b]` (a shift, not a rotation,
//! with wrapping addition); a boundary follows a byte when `fp & mask == xxx`. Old bytes shift
//! out on their own, so no window is kept.
//!
//! W. Xia et al., "Ddelta: A deduplication-inspired fast delta compression approach",
//! Performance Evaluation 79 (2014).
use crate::{
    first_cut, lemma_first_cut_found, lemma_first_cut_none, lemma_first_cut_spec,
    lemma_same_rule_first_cut, lemma_take_push, no_cut_within, Chunk, ChunkIncr, CutRule,
    ToChunkIncr,
};
use vstd::prelude::*;

verus! {

/// The fingerprint after the chunk prefix `s`.
pub open spec fn gear_fp(gear: Seq<u32>, s: Seq<u8>) -> u32
    decreases s.len(),
{
    if s.len() == 0 {
        0
    } else {
        (gear_fp(gear, s.drop_last()) << 1u32).wrapping_add(gear[s.last() as int])
    }
}

/// `log2` one bits at the top of a 32-bit word.
pub open spec fn spec_msb_mask(log2: u32) -> u32 {
    (((1u32 << log2) - 1) as u32) << ((32 - log2) as u32)
}

/// A mask of the `log2` most significant bits.
pub fn msb_mask(log2: u32) -> (r: u32)
    requires
        0 < log2 < 32,
    ensures
        r == spec_msb_mask(log2),
{
    assert(1u32 << log2 >= 1) by (bit_vector)
        requires
            0 < log2 < 32,
    ;
    ((1u32 << log2) - 1) << (32 - log2)
}

/// Gear chunking with 32-bit fingerprints.
#[derive(Clone, Copy, Debug, PartialEq, Eq)]
pub struct Gear32<'a> {
    /// bits of the fingerprint that decide a boundary
    mask: u32,
    /// value that `fp & mask` must have
    xxx: u32,
    /// maps bytes to 32-bit values
    gear: &'a [u32; 256],
}

impl<'a> Gear32<'a> {
    pub closed spec fn spec_mask(&self) -> u32 {
        self.mask
    }

    pub closed spec fn spec_xxx(&self) -> u32 {
        self.xxx
    }

    pub closed spec fn spec_gear(&self) -> Seq<u32> {
        self.gear@
    }

    /// Chunks of `2^average_size_log2` bytes on average, with the gear table `gear`: a
    /// boundary follows a byte when the top `average_size_log2` bits of the fingerprint are 0.
    pub fn with_average_size_log2(average_size_log2: u32, gear: &'a [u32; 256]) -> (r: Self)
        requires
            0 < average_size_log2 < 32,
        ensures
            r.spec_mask() == spec_msb_mask(average_size_log2),
            r.spec_xxx() == 0,
            r.spec_gear() == gear@,
    {
        Gear32 { mask: msb_mask(average_size_log2), xxx: 0, gear }
    }
}

impl<'a> CutRule for Gear32<'a> {
    open spec fn cut_at(&self, h: Seq<u8>) -> bool {
        h.len() > 0 && gear_fp(self.spec_gear(), h) & self.spec_mask() == self.spec_xxx()
    }

    open spec fn after_cut(&self, h: Seq<u8>) -> Seq<u8> {
        Seq::empty()
    }
}

/// The fingerprint of the current chunk.
pub struct GearState32 {
    fp: u32,
    hist: Ghost<Seq<u8>>,
}

impl GearState32 {
    pub closed spec fn spec_history(&self) -> Seq<u8> {
        self.hist@
    }

    pub closed spec fn wf(&self, gear: Seq<u32>) -> bool {
        self.fp == gear_fp(gear, self.hist@)
    }

    fn fresh() -> (r: Self)
        ensures
            r.fp == 0,
            r.spec_history() == Seq::<u8>::empty(),
    {
        GearState32 { fp: 0, hist: Ghost(Seq::empty()) }
    }

    fn reset(&mut self)
        ensures
            final(self).fp == 0,
            final(self).spec_history() == Seq::<u8>::empty(),
    {
        self.fp = 0;
        self.hist = Ghost(Seq::empty());
    }

    /// Mix in one byte; true when a boundary follows it.
    fn push(&mut self, params: &Gear32<'_>, add: u8) -> (r: bool)
        requires
            old(self).wf(params.gear@),
        ensures
            final(self).wf(params.gear@),
            final(self).spec_history() == old(self).spec_history().push(add),
            r == params.cut_at(final(self).spec_history()),
    {
        let ghost hc = self.hist@;
        proof {
            assert(hc.push(add).drop_last() =~= hc);
        }
        self.fp = (self.fp << 1).wrapping_add(params.gear[add as usize]);
        self.hist = Ghost(hc.push(add));
        self.fp & params.mask == params.xxx
    }

    /// Feed `data`; the offset just past the first boundary in it, if any.
    fn feed(&mut self, params: &Gear32<'_>, data: &[u8]) -> (r: Option<usize>)
        requires
            old(self).wf(params.gear@),
        ensures
            final(self).wf(params.gear@),
            match first_cut(*params, old(self).spec_history(), data@) {
                Some(k) => r == Some(k as usize) && final(self).spec_history() == Seq::<
                    u8,
                >::empty(),
                None => r is None && final(self).spec_history() == old(self).spec_history()
                    + data@,
            },
    {
        let ghost h = self.hist@;
        proof {
            assert(h + data@.take(0) =~= h);
            lemma_first_cut_spec(*params, h, data@);
        }
        let mut i: usize = 0;
        while i < data.len()
            invariant
                i <= data.len(),
                h == old(self).hist@,
                self.hist@ == h + data@.take(i as int),
                self.wf(params.gear@),
                no_cut_within(*params, h, data@, i as int),
            decreases data.len() - i,
        {
            proof {
                lemma_take_push(h, data@, i as int);
            }
            if self.push(params, data[i]) {
                proof {
                    lemma_first_cut_found(*params, h, data@, (i + 1) as nat);
                }
                self.reset();
                return Some(i + 1);
            }
            i += 1;
        }
        proof {
            assert(data@.take(data.len() as int) =~= data@);
            lemma_first_cut_none(*params, h, data@);
        }
        None
    }
}

impl<'a> Chunk for Gear32<'a> {
    type SearchState = GearState32;

    closed spec fn search_history(&self, st: GearState32) -> Seq<u8> {
        st.hist@
    }

    closed spec fn search_offset(&self, st: GearState32) -> nat {
        0
    }

    open spec fn lookback(&self) -> nat {
        0
    }

    closed spec fn search_inv(&self, st: GearState32) -> bool {
        st.wf(self.gear@)
    }

    fn to_search_state(&self) -> (r: GearState32) {
        GearState32::fresh()
    }

    fn find_chunk_edge(&self, state: &mut GearState32, data: &[u8]) -> (r: (
        Option<usize>,
        usize,
    )) {
        proof {
            assert(data@.skip(0) =~= data@);
            lemma_first_cut_spec(*self, state.hist@, data@);
            assert(data@.len() == data.len());
        }
        match state.feed(self, data) {
            Some(i) => (Some(i), i),
            None => (None, data.len()),
        }
    }
}

/// Incremental form of [`Gear32`]; it keeps no window.
pub struct GearIncr32<'a> {
    params: Gear32<'a>,
    state: GearState32,
}

impl<'a> GearIncr32<'a> {
    pub closed spec fn spec_params(&self) -> Gear32<'a> {
        self.params
    }
}

impl<'a> CutRule for GearIncr32<'a> {
    open spec fn cut_at(&self, h: Seq<u8>) -> bool {
        self.spec_params().cut_at(h)
    }

    open spec fn after_cut(&self, h: Seq<u8>) -> Seq<u8> {
        Seq::empty()
    }
}

impl<'a> ChunkIncr for GearIncr32<'a> {
    closed spec fn history(&self) -> Seq<u8> {
        self.state.hist@
    }

    closed spec fn inv(&self) -> bool {
        self.state.wf(self.params.gear@)
    }

    open spec fn footprint(&self) -> nat {
        0
    }

    fn push(&mut self, data: &[u8]) -> (r: Option<usize>) {
        proof {
            lemma_same_rule_first_cut(*self, self.params, self.state.hist@, data@);
        }
        self.state.feed(&self.params, data)
    }
}

impl<'a> ToChunkIncr for Gear32<'a> {
    type Incr = GearIncr32<'a>;

    fn to_chunk_incr(&self) -> (r: GearIncr32<'a>)
        ensures
            r.spec_params() == *self,
    {
        GearIncr32 { params: *self, state: GearState32::fresh() }
    }
}

} // verus!
