//! FastCDC: Gear hashing with a size-dependent mask.
//!
//! Bytes before `min_size` are never hashed. Up to `normal_size` a mask with few bits
//! ([`MASK_S`]) makes a boundary likely; past it a mask with more bits ([`MASK_L`]) makes one
//! rarer, which gathers chunk sizes near `normal_size`. A chunk never grows past `max_size`
//! bytes: when the `max_size`-th byte ends no chunk by the hash, the chunk ends there anyway.
//!
//! FastCDC looks back at no byte, so the incremental form keeps no buffer.
//!
//! Reference: W. Xia et al., "FastCDC: a Fast and Efficient Content-Defined Chunking Approach
//! for Data Deduplication", USENIX ATC 2016.
use crate::{
    first_cut, lemma_first_cut_found, lemma_first_cut_spec, lemma_same_rule_first_cut, lemma_first_cut_none, lemma_take_push, no_cut_within,
    Chunk, ChunkIncr, CutRule, ToChunkIncr,
};
use vstd::prelude::*;

verus! {

/// Mask used before `normal_size`.
pub const MASK_S: u64 = 0x0003590703530000;

/// Mask used from `normal_size` on.
pub const MASK_L: u64 = 0x0000d90003530000;

/// The mask that decides a boundary after the byte at position `g` of a chunk.
pub open spec fn fastcdc_mask(g: int, normal_size: u64) -> u64 {
    if g < normal_size {
        MASK_S
    } else {
        MASK_L
    }
}

/// The fingerprint after the chunk prefix `s`: the Gear update `fp = (fp << 1) + gear[b]`
/// (wrapping) over every byte at position `min_size` or later.
pub open spec fn fastcdc_fp(gear: Seq<u64>, min_size: u64, s: Seq<u8>) -> u64
    decreases s.len(),
{
    if s.len() == 0 {
        0
    } else {
        let p = fastcdc_fp(gear, min_size, s.drop_last());
        if s.len() - 1 >= min_size {
            (p << 1u64).wrapping_add(gear[s.last() as int])
        } else {
            p
        }
    }
}

/// An instance of the FastCDC algorithm.
#[derive(Clone, Copy, Debug, PartialEq, Eq)]
pub struct FastCdc<'a> {
    gear: &'a [u64; 256],
    min_size: u64,
    max_size: u64,
    normal_size: u64,
}

impl<'a> FastCdc<'a> {
    #[verifier::type_invariant]
    spec fn sizes_ok(self) -> bool {
        self.min_size < self.max_size
    }

    pub closed spec fn spec_gear(&self) -> Seq<u64> {
        self.gear@
    }

    pub closed spec fn spec_min_size(&self) -> u64 {
        self.min_size
    }

    pub closed spec fn spec_normal_size(&self) -> u64 {
        self.normal_size
    }

    pub closed spec fn spec_max_size(&self) -> u64 {
        self.max_size
    }

    /// A FastCDC instance with the gear table `gear` and the given chunk sizes.
    pub fn new(gear: &'a [u64; 256], min_size: u64, normal_size: u64, max_size: u64) -> (r: Self)
        requires
            min_size < max_size,
        ensures
            r.spec_gear() == gear@,
            r.spec_min_size() == min_size,
            r.spec_normal_size() == normal_size,
            r.spec_max_size() == max_size,
    {
        FastCdc { gear, min_size, max_size, normal_size }
    }

    /// The paper's sizes with the gear table `gear`: at least 2 KiB, normally 8 KiB, at most
    /// 64 KiB.
    pub fn with_default_sizes(gear: &'a [u64; 256]) -> (r: Self)
        ensures
            r.spec_gear() == gear@,
            r.spec_min_size() == 2 * 1024,
            r.spec_normal_size() == 8 * 1024,
            r.spec_max_size() == 64 * 1024,
    {
        Self::new(gear, 2 * 1024, 8 * 1024, 64 * 1024)
    }
}

impl<'a> CutRule for FastCdc<'a> {
    /// A boundary follows the `n`-th byte of a chunk when `n` is `max_size`, or when that byte
    /// lies at position `min_size` or later and the fingerprint has no bit of the mask set.
    open spec fn cut_at(&self, h: Seq<u8>) -> bool {
        let n = h.len();
        n > 0 && (n == self.spec_max_size() || (n - 1 >= self.spec_min_size() && fastcdc_fp(
            self.spec_gear(),
            self.spec_min_size(),
            h,
        ) & fastcdc_mask(n - 1, self.spec_normal_size()) == 0))
    }

    open spec fn after_cut(&self, h: Seq<u8>) -> Seq<u8> {
        Seq::empty()
    }
}

/// Search state of [`FastCdc`]: the length of the current chunk so far and its fingerprint.
pub struct FastCdcState {
    l: u64,
    fp: u64,
    hist: Ghost<Seq<u8>>,
}

impl FastCdcState {
    /// The state follows the chunk prefix `hist` under `params`.
    pub closed spec fn models(&self, params: FastCdc) -> bool {
        &&& self.l == self.hist@.len()
        &&& self.fp == fastcdc_fp(params.gear@, params.min_size, self.hist@)
    }

    pub closed spec fn spec_history(&self) -> Seq<u8> {
        self.hist@
    }

    fn fresh() -> (r: Self)
        ensures
            r.spec_history() == Seq::<u8>::empty(),
            r.l == 0,
            r.fp == 0,
    {
        FastCdcState { l: 0, fp: 0, hist: Ghost(Seq::empty()) }
    }

    fn reset(&mut self)
        ensures
            final(self).spec_history() == Seq::<u8>::empty(),
            final(self).l == 0,
            final(self).fp == 0,
    {
        self.l = 0;
        self.fp = 0;
        self.hist = Ghost(Seq::empty());
    }

    /// Feed `data`; the offset just past the first boundary in it, if any.
    fn push(&mut self, params: &FastCdc<'_>, data: &[u8]) -> (r: Option<usize>)
        requires
            old(self).models(*params),
            old(self).spec_history().len() + data@.len() <= u64::MAX,
        ensures
            final(self).models(*params),
            match first_cut(*params, old(self).spec_history(), data@) {
                Some(k) => r == Some(k as usize) && final(self).spec_history() == Seq::<
                    u8,
                >::empty(),
                None => r is None && final(self).spec_history() == old(self).spec_history()
                    + data@,
            },
    {
        proof {
            use_type_invariant(params);
        }
        let ghost h = self.hist@;
        let mut i: usize = 0;
        while i < data.len()
            invariant
                i <= data.len(),
                h == old(self).hist@,
                h.len() + data@.len() <= u64::MAX,
                params.min_size < params.max_size,
                self.hist@ == h + data@.take(i as int),
                self.models(*params),
                no_cut_within(*params, h, data@, i as int),
            decreases data.len() - i,
        {
            proof {
                lemma_take_push(h, data@, i as int);
            }
            let g = self.l;
            if g >= params.min_size {
                let v = data[i];
                self.fp = (self.fp << 1).wrapping_add(params.gear[v as usize]);
                let mask = if g < params.normal_size {
                    MASK_S
                } else {
                    MASK_L
                };
                if self.fp & mask == 0 || g + 1 == params.max_size {
                    proof {
                        lemma_first_cut_found(*params, h, data@, (i + 1) as nat);
                    }
                    self.reset();
                    return Some(i + 1);
                }
            }
            self.l = g + 1;
            self.hist = Ghost(h + data@.take(i + 1));
            i += 1;
        }
        proof {
            assert(data@.take(data.len() as int) =~= data@);
            lemma_first_cut_none(*params, h, data@);
        }
        None
    }
}

impl<'a> Chunk for FastCdc<'a> {
    type SearchState = FastCdcState;

    closed spec fn search_history(&self, st: FastCdcState) -> Seq<u8> {
        st.hist@
    }

    closed spec fn search_offset(&self, st: FastCdcState) -> nat {
        0
    }

    open spec fn lookback(&self) -> nat {
        0
    }

    closed spec fn search_inv(&self, st: FastCdcState) -> bool {
        st.models(*self)
    }

    fn to_search_state(&self) -> (r: FastCdcState) {
        FastCdcState::fresh()
    }

    fn find_chunk_edge(&self, state: &mut FastCdcState, data: &[u8]) -> (r: (Option<usize>, usize)) {
        assert(data@.skip(0) =~= data@);
        proof {
            lemma_first_cut_spec(*self, state.hist@, data@);
            assert(data@.len() == data.len());
        }
        let r = state.push(self, data);
        match r {
            Some(i) => (Some(i), i),
            None => (None, data.len()),
        }
    }
}

/// Incremental form of [`FastCdc`]; it keeps no window.
pub struct FastCdcIncr<'a> {
    params: FastCdc<'a>,
    state: FastCdcState,
}

impl<'a> FastCdcIncr<'a> {
    pub closed spec fn spec_params(&self) -> FastCdc<'a> {
        self.params
    }
}

impl<'a> CutRule for FastCdcIncr<'a> {
    open spec fn cut_at(&self, h: Seq<u8>) -> bool {
        self.spec_params().cut_at(h)
    }

    open spec fn after_cut(&self, h: Seq<u8>) -> Seq<u8> {
        Seq::empty()
    }
}

impl<'a> ChunkIncr for FastCdcIncr<'a> {
    closed spec fn history(&self) -> Seq<u8> {
        self.state.hist@
    }

    closed spec fn inv(&self) -> bool {
        self.state.models(self.params)
    }

    open spec fn footprint(&self) -> nat {
        0
    }

    fn push(&mut self, data: &[u8]) -> (r: Option<usize>) {
        proof {
            lemma_same_rule_first_cut(*self, self.params, self.state.hist@, data@);
        }
        self.state.push(&self.params, data)
    }
}

impl<'a> ToChunkIncr for FastCdc<'a> {
    type Incr = FastCdcIncr<'a>;

    fn to_chunk_incr(&self) -> (r: FastCdcIncr<'a>)
        ensures
            r.spec_params() == *self,
    {
        FastCdcIncr { params: *self, state: FastCdcState::fresh() }
    }
}

} // verus!
