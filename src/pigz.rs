//! The `--rsyncable` mode of pigz: a shift/xor hash over the low bits of recent bytes.
//!
//! The hash needs no window of past bytes (each byte's bits shift out of the mask on their
//! own), so the incremental form keeps no buffer.
use crate::{
    first_cut, lemma_first_cut_found, lemma_first_cut_none, lemma_take_push, no_cut_within,
    Chunk, ChunkIncr, CutRule, ToChunkIncr,
};
use vstd::prelude::*;

verus! {

/// The pigz hash after the bytes `s`, starting from `hit`.
pub open spec fn pigz_hash(mask: u32, hit: u32, s: Seq<u8>) -> u32
    decreases s.len(),
{
    if s.len() == 0 {
        hit
    } else {
        ((pigz_hash(mask, hit, s.drop_last()) << 1u32) ^ (s.last() as u32)) & mask
    }
}

/// Running the hash over `x + y` is running it over `y` from where `x` left it.
pub proof fn lemma_pigz_hash_append(mask: u32, a: u32, x: Seq<u8>, y: Seq<u8>)
    ensures
        pigz_hash(mask, a, x + y) == pigz_hash(mask, pigz_hash(mask, a, x), y),
    decreases y.len(),
{
    if y.len() == 0 {
        assert(x + y =~= x);
    } else {
        assert((x + y).drop_last() =~= x + y.drop_last());
        lemma_pigz_hash_append(mask, a, x, y.drop_last());
    }
}

/// Two runs over the same bytes from different starts differ by their starts shifted left by
/// one bit per byte.
proof fn lemma_pigz_hash_diff(bits: u32, a: u32, b: u32, s: Seq<u8>)
    requires
        bits < 32,
        1 <= s.len() <= bits,
    ensures
        pigz_hash(((1u32 << bits) - 1) as u32, a, s) ^ pigz_hash(((1u32 << bits) - 1) as u32, b, s)
            == ((a ^ b) << (s.len() as u32)) & (((1u32 << bits) - 1) as u32),
    decreases s.len(),
{
    let m = ((1u32 << bits) - 1) as u32;
    let v = s.last() as u32;
    let p = s.drop_last();
    let x = pigz_hash(m, a, p);
    let y = pigz_hash(m, b, p);
    assert((((x << 1u32) ^ v) & m) ^ (((y << 1u32) ^ v) & m) == ((x ^ y) << 1u32) & m)
        by (bit_vector);
    if s.len() > 1 {
        lemma_pigz_hash_diff(bits, a, b, p);
        let n = p.len() as u32;
        let z = a ^ b;
        assert((((z << n) & m) << 1u32) & m == (z << ((n + 1) as u32)) & m) by (bit_vector)
            requires
                m == ((1u32 << bits) - 1) as u32,
                bits < 32,
                n + 1 <= bits,
        ;
    }
}

/// Once `max(bits, 1)` bytes have passed, the hash no longer depends on where it started.
pub proof fn lemma_pigz_hash_forgets(bits: u32, a: u32, b: u32, s: Seq<u8>)
    requires
        bits < 32,
        s.len() >= bits,
        s.len() >= 1,
    ensures
        pigz_hash(((1u32 << bits) - 1) as u32, a, s) == pigz_hash(((1u32 << bits) - 1) as u32, b, s),
    decreases s.len(),
{
    let m = ((1u32 << bits) - 1) as u32;
    let p = s.drop_last();
    let v = s.last() as u32;
    let x = pigz_hash(m, a, p);
    let y = pigz_hash(m, b, p);
    if s.len() > bits && p.len() >= 1 {
        lemma_pigz_hash_forgets(bits, a, b, p);
    } else if bits == 0 {
        assert(((x << 1u32) ^ v) & m == 0) by (bit_vector)
            requires
                m == ((1u32 << bits) - 1) as u32,
                bits == 0,
        ;
        assert(((y << 1u32) ^ v) & m == 0) by (bit_vector)
            requires
                m == ((1u32 << bits) - 1) as u32,
                bits == 0,
        ;
    } else {
        lemma_pigz_hash_diff(bits, a, b, s);
        let z = a ^ b;
        let hx = pigz_hash(m, a, s);
        let hy = pigz_hash(m, b, s);
        assert((z << bits) & m == 0) by (bit_vector)
            requires
                m == ((1u32 << bits) - 1) as u32,
                bits < 32,
        ;
        assert(hx ^ hy == 0 ==> hx == hy) by (bit_vector);
    }
}

/// Parameters of pigz's rsyncable splitting.
#[derive(Clone, Copy, Debug, PartialEq, Eq)]
pub struct PigzRsyncable {
    bits: u8,
    /// `bits` low bits set
    mask: u32,
    /// `mask >> 1`
    hit: u32,
}

impl PigzRsyncable {
    pub closed spec fn spec_bits(&self) -> u8 {
        self.bits
    }

    pub closed spec fn spec_mask(&self) -> u32 {
        self.mask
    }

    pub closed spec fn spec_hit(&self) -> u32 {
        self.hit
    }

    /// Splitting on a hash of `bits` bits.
    pub fn with_bits(bits: u8) -> (r: PigzRsyncable)
        requires
            bits < 32,
        ensures
            r.spec_bits() == bits,
            r.spec_mask() == ((1u32 << bits) - 1) as u32,
            r.spec_hit() == r.spec_mask() >> 1u32,
    {
        let one: u32 = 1;
        let top: u32 = one << bits;
        assert(top > 0) by (bit_vector)
            requires
                top == 1u32 << bits,
                bits < 32,
        ;
        let mask = top - 1;
        let hit = mask >> 1;
        PigzRsyncable { bits, mask, hit }
    }

    /// pigz's default: 12 bits.
    pub fn default() -> (r: PigzRsyncable)
        ensures
            r.spec_bits() == 12,
            r.spec_mask() == 0xfff,
            r.spec_hit() == 0x7ff,
    {
        let r = Self::with_bits(12);
        assert(((1u32 << 12u8) - 1) as u32 == 0xfff) by (bit_vector);
        assert(0xfffu32 >> 1u32 == 0x7ff) by (bit_vector);
        r
    }
}

impl CutRule for PigzRsyncable {
    open spec fn cut_at(&self, h: Seq<u8>) -> bool {
        h.len() > 0 && pigz_hash(self.spec_mask(), self.spec_hit(), h) == self.spec_hit()
    }

    open spec fn after_cut(&self, h: Seq<u8>) -> Seq<u8> {
        Seq::empty()
    }
}

#[derive(Clone, Copy, Debug)]
struct PigzRsyncableState {
    hash: u32,
}

impl PigzRsyncableState {
    fn fresh(params: &PigzRsyncable) -> (r: Self)
        ensures
            r.hash == params.hit,
    {
        PigzRsyncableState { hash: params.hit }
    }

    /// Mix in one byte; true when a boundary follows it.
    fn add(&mut self, params: &PigzRsyncable, v: u8) -> (r: bool)
        ensures
            final(self).hash == ((old(self).hash << 1u32) ^ (v as u32)) & params.mask,
            r == (final(self).hash == params.hit),
    {
        self.hash = ((self.hash << 1) ^ (v as u32)) & params.mask;
        self.hash == params.hit
    }
}

/// Intermediate state for [`PigzRsyncable::find_chunk_edge`].
pub struct PigzRsyncableSearchState {
    state: PigzRsyncableState,
    hist: Ghost<Seq<u8>>,
}

impl Chunk for PigzRsyncable {
    type SearchState = PigzRsyncableSearchState;

    closed spec fn search_history(&self, st: PigzRsyncableSearchState) -> Seq<u8> {
        st.hist@
    }

    closed spec fn search_offset(&self, st: PigzRsyncableSearchState) -> nat {
        0
    }

    open spec fn lookback(&self) -> nat {
        0
    }

    closed spec fn search_inv(&self, st: PigzRsyncableSearchState) -> bool {
        st.state.hash == pigz_hash(self.mask, self.hit, st.hist@)
    }

    fn to_search_state(&self) -> (r: PigzRsyncableSearchState) {
        PigzRsyncableSearchState { state: PigzRsyncableState::fresh(self), hist: Ghost(Seq::empty()) }
    }

    fn find_chunk_edge(&self, state: &mut PigzRsyncableSearchState, data: &[u8]) -> (r: (
        Option<usize>,
        usize,
    )) {
        let ghost h = state.hist@;
        assert(data@.skip(0) =~= data@);
        let mut i: usize = 0;
        while i < data.len()
            invariant
                i <= data.len(),
                h == old(state).hist@,
                state.hist@ == h + data@.take(i as int),
                state.state.hash == pigz_hash(self.mask, self.hit, state.hist@),
                no_cut_within(*self, h, data@, i as int),
            decreases data.len() - i,
        {
            let v = data[i];
            proof {
                lemma_take_push(h, data@, i as int);
            }
            let hit = state.state.add(self, v);
            state.hist = Ghost(h + data@.take(i + 1));
            if hit {
                proof {
                    assert(data@.skip(0) =~= data@);
                    lemma_first_cut_found(*self, h, data@, (i + 1) as nat);
                }
                *state = self.to_search_state();
                return (Some(i + 1), i + 1);
            }
            i += 1;
        }
        proof {
            assert(data@.take(data.len() as int) =~= data@);
            lemma_first_cut_none(*self, h, data@);
        }
        (None, data.len())
    }
}

/// Incremental form of [`PigzRsyncable`]; it keeps no window.
pub struct PigzRsyncableIncr {
    params: PigzRsyncable,
    state: PigzRsyncableState,
    hist: Ghost<Seq<u8>>,
}

impl CutRule for PigzRsyncableIncr {
    open spec fn cut_at(&self, h: Seq<u8>) -> bool {
        self.spec_params().cut_at(h)
    }

    open spec fn after_cut(&self, h: Seq<u8>) -> Seq<u8> {
        Seq::empty()
    }
}

impl PigzRsyncableIncr {
    pub closed spec fn spec_params(&self) -> PigzRsyncable {
        self.params
    }
}

impl ChunkIncr for PigzRsyncableIncr {
    closed spec fn history(&self) -> Seq<u8> {
        self.hist@
    }

    closed spec fn inv(&self) -> bool {
        self.state.hash == pigz_hash(self.params.mask, self.params.hit, self.hist@)
    }

    open spec fn footprint(&self) -> nat {
        0
    }

    fn push(&mut self, data: &[u8]) -> (r: Option<usize>) {
        let ghost h = self.hist@;
        let mut i: usize = 0;
        while i < data.len()
            invariant
                i <= data.len(),
                h == old(self).hist@,
                self.params == old(self).params,
                self.hist@ == h + data@.take(i as int),
                self.state.hash == pigz_hash(self.params.mask, self.params.hit, self.hist@),
                no_cut_within(*old(self), h, data@, i as int),
            decreases data.len() - i,
        {
            let v = data[i];
            proof {
                lemma_take_push(h, data@, i as int);
            }
            let hit = self.state.add(&self.params, v);
            self.hist = Ghost(h + data@.take(i + 1));
            if hit {
                proof {
                    lemma_first_cut_found(*old(self), h, data@, (i + 1) as nat);
                }
                self.state = PigzRsyncableState::fresh(&self.params);
                self.hist = Ghost(Seq::empty());
                return Some(i + 1);
            }
            i += 1;
        }
        proof {
            assert(data@.take(data.len() as int) =~= data@);
            lemma_first_cut_none(*old(self), h, data@);
        }
        None
    }
}

impl ToChunkIncr for PigzRsyncable {
    type Incr = PigzRsyncableIncr;

    fn to_chunk_incr(&self) -> (r: PigzRsyncableIncr)
        ensures
            r.spec_params() == *self,
    {
        PigzRsyncableIncr {
            params: *self,
            state: PigzRsyncableState::fresh(self),
            hist: Ghost(Seq::empty()),
        }
    }
}

} // verus!
