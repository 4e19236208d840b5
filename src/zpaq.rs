//! The chunking of the zpaq archiver (also used by go's `dedup`).
//!
//! An order-1 predictive hash: a table remembers, for every byte value, the byte that last
//! followed it. The hash grows by one multiplier when the current byte matches that prediction
//! and by another when it does not. A boundary follows a byte when the hash is below
//! `max_hash` and the chunk has reached its minimum size, or when the chunk has reached its
//! maximum size. The hash needs no look-back, so the incremental form keeps no window.
//!
//! zpaq derives the size range from an average-size exponent ("fragment"); go's dedup derives
//! the exponent from a maximum size. Both parameterizations are offered as constructors.
use crate::range::{spec_exceeds_max, spec_under_min, Bound, RangeExt};
use crate::zstd::{high_bit, lemma_high_bit_lt, pow2_nat};
use crate::{
    first_cut, lemma_first_cut_found, lemma_first_cut_none, lemma_first_cut_spec,
    lemma_same_rule_first_cut, lemma_take_push, no_cut_within, Chunk, ChunkIncr, CutRule,
    ToChunkIncr,
};
use vstd::prelude::*;

verus! {

/// Multiplier when a byte matches its prediction.
pub const MULT_PREDICTED: u32 = 314159265;

/// Multiplier when it does not.
pub const MULT_UNPREDICTED: u32 = 271828182;

/// `(hash, last byte, predicted byte for each byte value)`
pub type ZpaqView = (u32, u8, Seq<u8>);

/// The state before any byte.
pub open spec fn zpaq_init() -> ZpaqView {
    (0u32, 0u8, Seq::new(256, |i: int| 0u8))
}

/// Feed the byte `c`.
#[verifier::opaque]
pub open spec fn zpaq_feed(st: ZpaqView, c: u8) -> ZpaqView {
    let mult = if c == st.2[st.1 as int] {
        MULT_PREDICTED
    } else {
        MULT_UNPREDICTED
    };
    (
        st.0.wrapping_add(c as u32).wrapping_add(1).wrapping_mul(mult),
        c,
        st.2.update(st.1 as int, c),
    )
}

/// The state after the chunk prefix `s`.
pub open spec fn zpaq_state(s: Seq<u8>) -> ZpaqView
    decreases s.len(),
{
    if s.len() == 0 {
        zpaq_init()
    } else {
        zpaq_feed(zpaq_state(s.drop_last()), s.last())
    }
}

/// The largest chunk that an unbounded end makes zpaq guess from the range's start.
pub open spec fn range_max_guess(range: (Bound<u64>, Bound<u64>)) -> Option<int> {
    match range.1 {
        Bound::Included(i) => Some(i as int),
        Bound::Excluded(i) => Some(i - 1),
        Bound::Unbounded => match range.0 {
            Bound::Included(i) => Some(64 * i),
            Bound::Excluded(i) => Some(64 * (i + 1)),
            Bound::Unbounded => None,
        },
    }
}

/// The average-size exponent that go's dedup derives from a maximum size: `log2(max / 4096)`,
/// rounded down (0 below 8192).
pub open spec fn fragment_from_max(max: u64) -> nat {
    high_bit((max / 4096) as nat)
}

/// The exponent derived from a range: from its largest size, or 6 when neither end is bounded.
pub open spec fn fragment_from_range(range: (Bound<u64>, Bound<u64>)) -> nat {
    match range_max_guess(range) {
        Some(v) => high_bit((v / 4096) as nat),
        None => 6,
    }
}

/// The range can be turned into an exponent without overflow.
pub open spec fn range_guess_ok(range: (Bound<u64>, Bound<u64>)) -> bool {
    match range_max_guess(range) {
        Some(v) => 0 <= v <= u64::MAX,
        None => true,
    }
}

/// zpaq's splitter.
#[derive(Clone, Copy, Debug, PartialEq, Eq)]
pub struct Zpaq {
    range: (Bound<u64>, Bound<u64>),
    max_hash: u32,
}

impl Zpaq {
    pub closed spec fn spec_range(&self) -> (Bound<u64>, Bound<u64>) {
        self.range
    }

    pub closed spec fn spec_max_hash(&self) -> u32 {
        self.max_hash
    }

    /// go's dedup: `log2(max / 4096)`, rounded down.
    fn fragment_ave_from_max(max: u64) -> (r: u8)
        ensures
            r == fragment_from_max(max),
    {
        let x0: u64 = max / 4096;
        let mut x: u64 = x0;
        let mut bits: u8 = 0;
        proof {
            lemma_high_bit_le(x0 as nat);
        }
        while x > 1
            invariant
                x <= x0,
                x0 == max / 4096,
                bits + high_bit(x as nat) == high_bit(x0 as nat),
                high_bit(x0 as nat) <= 64,
            decreases x,
        {
            x = x / 2;
            bits = bits + 1;
        }
        bits
    }

    fn fragment_ave_from_range(range: (Bound<u64>, Bound<u64>)) -> (r: u8)
        requires
            range_guess_ok(range),
        ensures
            r == fragment_from_range(range),
    {
        let v: u64 = match range.1 {
            Bound::Included(i) => i,
            Bound::Excluded(i) => i - 1,
            Bound::Unbounded => {
                // guess from the start
                match range.0 {
                    Bound::Included(i) => 64 * i,
                    Bound::Excluded(i) => 64 * (i + 1),
                    Bound::Unbounded => {
                        return 6;
                    },
                }
            },
        };
        Self::fragment_ave_from_max(v)
    }

    /// zpaq's sizes for an exponent: `[64 << f, 8128 << f)`.
    fn range_from_fragment_ave(fragment_ave: u8) -> (r: (Bound<u64>, Bound<u64>))
        requires
            fragment_ave <= 22,
        ensures
            r == (Bound::Included(64u64 << fragment_ave), Bound::Excluded(8128u64 << fragment_ave)),
    {
        (Bound::Included(64u64 << fragment_ave), Bound::Excluded(8128u64 << fragment_ave))
    }

    /// go's dedup: `[max / 64, max)`.
    fn range_from_max(max: u64) -> (r: (Bound<u64>, Bound<u64>))
        ensures
            r == (Bound::Included(max / 64), Bound::Excluded(max)),
    {
        (Bound::Included(max / 64), Bound::Excluded(max))
    }

    fn max_hash_from_fragment_ave(fragment_ave: u8) -> (r: u32)
        requires
            fragment_ave <= 22,
        ensures
            r == 1u32 << (22 - fragment_ave) as u32,
    {
        1u32 << (22 - fragment_ave) as u32
    }

    /// Sizes from `range`, average-size exponent derived from its largest size as go's dedup
    /// does.
    pub fn with_range(range: (Bound<u64>, Bound<u64>)) -> (r: Self)
        requires
            range_guess_ok(range),
            fragment_from_range(range) <= 22,
        ensures
            r.spec_range() == range,
            r.spec_max_hash() == 1u32 << (22 - fragment_from_range(range)) as u32,
    {
        let f = Self::fragment_ave_from_range(range);
        Self::with_average_and_range(f, range)
    }

    /// zpaq's defaults for its `-fragment` argument: chunks of `2^f` KiB on average.
    pub fn with_average_size_pow_2(average_size_pow_2: u8) -> (r: Self)
        requires
            average_size_pow_2 <= 22,
        ensures
            r.spec_range() == (Bound::Included(64u64 << average_size_pow_2), Bound::Excluded(
                8128u64 << average_size_pow_2,
            )),
            r.spec_max_hash() == 1u32 << (22 - average_size_pow_2) as u32,
    {
        let r = Self::range_from_fragment_ave(average_size_pow_2);
        Self::with_average_and_range(average_size_pow_2, r)
    }

    /// go's dedup defaults for a maximum chunk size.
    pub fn with_max_size(max: u64) -> (r: Self)
        requires
            fragment_from_max(max) <= 22,
        ensures
            r.spec_range() == (Bound::Included(max / 64), Bound::Excluded(max)),
            r.spec_max_hash() == 1u32 << (22 - fragment_from_max(max)) as u32,
    {
        Self::with_average_and_range(Self::fragment_ave_from_max(max), Self::range_from_max(max))
    }

    /// Every parameter given.
    pub fn with_average_and_range(average_size_pow_2: u8, range: (Bound<u64>, Bound<u64>)) -> (r:
        Self)
        requires
            average_size_pow_2 <= 22,
        ensures
            r.spec_range() == range,
            r.spec_max_hash() == 1u32 << (22 - average_size_pow_2) as u32,
    {
        Zpaq {
            range: range.into_tuple(),
            max_hash: Self::max_hash_from_fragment_ave(average_size_pow_2),
        }
    }

    /// zpaq's default exponent 6: 64 KiB on average, between 4 KiB and 508 KiB.
    pub fn default() -> (r: Self)
        ensures
            r.spec_range() == (Bound::Included(4096u64), Bound::Excluded(520192u64)),
            r.spec_max_hash() == 65536,
    {
        assert(64u64 << 6u8 == 4096u64) by (bit_vector);
        assert(8128u64 << 6u8 == 520192u64) by (bit_vector);
        assert(1u32 << 16u32 == 65536u32) by (bit_vector);
        Self::with_average_size_pow_2(6)
    }

    /// Whether a chunk ends after its `index`-th byte, whose hash is `hash`.
    fn split_here(&self, hash: u32, index: u64) -> (r: bool)
        ensures
            r == ((hash < self.max_hash && !spec_under_min(self.range.0, index as int))
                || spec_exceeds_max(self.range.1, index as int)),
    {
        (hash < self.max_hash && !self.range.under_min(&index)) || self.range.exceeds_max(&index)
    }
}

proof fn lemma_high_bit_le(x: nat)
    requires
        x <= u64::MAX,
    ensures
        high_bit(x) <= 64,
{
    assert(pow2_nat(64) == 0x1_0000_0000_0000_0000) by {
        reveal_with_fuel(pow2_nat, 65);
    }
    lemma_high_bit_lt(x, 64);
}

impl CutRule for Zpaq {
    /// A boundary follows the `n`-th byte of a chunk when the hash is below `max_hash` and `n`
    /// is not below the range, or when `n` is past the range.
    open spec fn cut_at(&self, h: Seq<u8>) -> bool {
        h.len() > 0 && ((zpaq_state(h).0 < self.spec_max_hash() && !spec_under_min(
            self.spec_range().0,
            h.len() as int,
        )) || spec_exceeds_max(self.spec_range().1, h.len() as int))
    }

    open spec fn after_cut(&self, h: Seq<u8>) -> Seq<u8> {
        Seq::empty()
    }
}

/// The rolling hash component of the zpaq splitter.
#[derive(Clone, Copy, Debug, PartialEq, Eq)]
pub struct ZpaqHash {
    hash: u32,
    last_byte: u8,
    predicted_byte: [u8; 256],
}

impl ZpaqHash {
    pub closed spec fn view_state(&self) -> ZpaqView {
        (self.hash, self.last_byte, self.predicted_byte@)
    }

    /// The state before any byte.
    pub fn new() -> (r: Self)
        ensures
            r.view_state() == zpaq_init(),
    {
        let r = ZpaqHash { hash: 0, last_byte: 0, predicted_byte: [0u8; 256] };
        assert(r.predicted_byte@ =~= Seq::new(256, |i: int| 0u8));
        r
    }

    /// Feed the byte `c` and return the new hash.
    pub fn feed(&mut self, c: u8) -> (r: u32)
        ensures
            final(self).view_state() == zpaq_feed(old(self).view_state(), c),
            r == final(self).view_state().0,
    {
        reveal(zpaq_feed);
        let mult: u32 = if c == self.predicted_byte[self.last_byte as usize] {
            MULT_PREDICTED
        } else {
            MULT_UNPREDICTED
        };
        self.hash = self.hash.wrapping_add(c as u32).wrapping_add(1).wrapping_mul(mult);
        self.predicted_byte[self.last_byte as usize] = c;
        self.last_byte = c;
        self.hash
    }
}

/// Search state of [`Zpaq`].
pub struct ZpaqSearchState {
    state: ZpaqHash,
    idx: u64,
    hist: Ghost<Seq<u8>>,
}

impl ZpaqSearchState {
    pub closed spec fn wf(&self) -> bool {
        self.state.view_state() == zpaq_state(self.hist@) && self.idx == self.hist@.len()
    }

    fn fresh() -> (r: Self)
        ensures
            r.wf(),
            r.hist@ == Seq::<u8>::empty(),
    {
        ZpaqSearchState { state: ZpaqHash::new(), idx: 0, hist: Ghost(Seq::empty()) }
    }

    /// Feed one byte; the hash and the chunk length after it.
    fn feed(&mut self, v: u8) -> (r: u32)
        requires
            old(self).wf(),
            old(self).hist@.len() < u64::MAX,
        ensures
            final(self).wf(),
            final(self).hist@ == old(self).hist@.push(v),
            r == zpaq_state(final(self).hist@).0,
    {
        let ghost hc = self.hist@;
        proof {
            assert(hc.push(v).drop_last() =~= hc);
        }
        self.idx = self.idx + 1;
        self.hist = Ghost(hc.push(v));
        self.state.feed(v)
    }

    /// Feed `data`; the offset just past the first boundary in it, if any.
    fn feed_all(&mut self, params: &Zpaq, data: &[u8]) -> (r: Option<usize>)
        requires
            old(self).wf(),
            old(self).hist@.len() + data@.len() <= u64::MAX,
        ensures
            final(self).wf(),
            match first_cut(*params, old(self).hist@, data@) {
                Some(k) => r == Some(k as usize) && final(self).hist@ == Seq::<u8>::empty(),
                None => r is None && final(self).hist@ == old(self).hist@ + data@,
            },
    {
        let ghost h = self.hist@;
        proof {
            assert(h + data@.take(0) =~= h);
            lemma_first_cut_spec(*params, h, data@);
        }
        let mut i: usize = 0;
        while i < data.len()
            invariant
                i <= data.len(),
                h == old(self).hist@,
                h.len() + data@.len() <= u64::MAX,
                self.hist@ == h + data@.take(i as int),
                self.wf(),
                no_cut_within(*params, h, data@, i as int),
            decreases data.len() - i,
        {
            proof {
                lemma_take_push(h, data@, i as int);
            }
            let hash = self.feed(data[i]);
            if params.split_here(hash, self.idx) {
                proof {
                    lemma_first_cut_found(*params, h, data@, (i + 1) as nat);
                }
                *self = Self::fresh();
                return Some(i + 1);
            }
            i += 1;
        }
        proof {
            assert(data@.take(data.len() as int) =~= data@);
            lemma_first_cut_none(*params, h, data@);
        }
        None
    }
}

impl Chunk for Zpaq {
    type SearchState = ZpaqSearchState;

    closed spec fn search_history(&self, st: ZpaqSearchState) -> Seq<u8> {
        st.hist@
    }

    closed spec fn search_offset(&self, st: ZpaqSearchState) -> nat {
        0
    }

    open spec fn lookback(&self) -> nat {
        0
    }

    closed spec fn search_inv(&self, st: ZpaqSearchState) -> bool {
        st.wf()
    }

    fn to_search_state(&self) -> (r: ZpaqSearchState) {
        ZpaqSearchState::fresh()
    }

    fn find_chunk_edge(&self, state: &mut ZpaqSearchState, data: &[u8]) -> (r: (
        Option<usize>,
        usize,
    )) {
        proof {
            assert(data@.skip(0) =~= data@);
            lemma_first_cut_spec(*self, state.hist@, data@);
            assert(data@.len() == data.len());
        }
        match state.feed_all(self, data) {
            Some(i) => (Some(i), i),
            None => (None, data.len()),
        }
    }
}

/// Incremental form of [`Zpaq`].
pub struct ZpaqIncr {
    params: Zpaq,
    state: ZpaqSearchState,
}

impl ZpaqIncr {
    pub closed spec fn spec_params(&self) -> Zpaq {
        self.params
    }

    fn reset(&mut self)
        ensures
            final(self).state.wf(),
            final(self).params == old(self).params,
            final(self).state.hist@ == Seq::<u8>::empty(),
    {
        self.state = ZpaqSearchState::fresh();
    }
}

impl CutRule for ZpaqIncr {
    open spec fn cut_at(&self, h: Seq<u8>) -> bool {
        self.spec_params().cut_at(h)
    }

    open spec fn after_cut(&self, h: Seq<u8>) -> Seq<u8> {
        Seq::empty()
    }
}

impl ChunkIncr for ZpaqIncr {
    closed spec fn history(&self) -> Seq<u8> {
        self.state.hist@
    }

    closed spec fn inv(&self) -> bool {
        self.state.wf()
    }

    open spec fn footprint(&self) -> nat {
        0
    }

    fn push(&mut self, data: &[u8]) -> (r: Option<usize>) {
        proof {
            lemma_same_rule_first_cut(*self, self.params, self.state.hist@, data@);
        }
        let r = self.state.feed_all(&self.params, data);
        if r.is_some() {
            self.reset();
        }
        r
    }
}

impl ToChunkIncr for Zpaq {
    type Incr = ZpaqIncr;

    fn to_chunk_incr(&self) -> (r: ZpaqIncr)
        ensures
            r.spec_params() == *self,
    {
        ZpaqIncr { params: *self, state: ZpaqSearchState::fresh() }
    }
}

} // verus!
