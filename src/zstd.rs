//! The chunking of zstd's `--rsyncable` mode.
//!
//! A polynomial rolling hash over the last [`RSYNC_LENGTH`] bytes; a boundary follows a byte
//! when the hash has every bit of `hit_mask` set. Unlike the other algorithms here, the hash is
//! not reset at a boundary: the history is the whole stream.
use crate::{
    first_cut, lemma_first_cut_found, lemma_first_cut_none, lemma_first_cut_spec,
    lemma_same_rule_first_cut, lemma_take_push, no_cut_within, Chunk, ChunkIncr, CutRule,
    ToChunkIncr,
};
use crate::circ::{ends_with, lemma_ends_with_push, lemma_ends_with_start, lemma_window_push, last_n, Buf};
use vstd::prelude::*;

verus! {

/// The window of the rolling hash, in bytes.
pub const RSYNC_LENGTH: usize = 32;

/// The multiplier of the rolling hash.
pub const PRIME_8_BYTES: u64 = 0xCF1BBCDCB7A56463;

/// Added to every byte before it enters the hash.
pub const ROLL_HASH_CHAR_OFFSET: u64 = 10;

/// `p` to the power `e`, wrapping.
pub open spec fn wrapping_pow(p: u64, e: nat) -> u64
    decreases e,
{
    if e == 0 {
        1
    } else {
        wrapping_pow(p, (e - 1) as nat).wrapping_mul(p)
    }
}

/// The position of the highest set bit of `x` (0 for 0 and 1).
pub open spec fn high_bit(x: nat) -> nat
    decreases x,
{
    if x <= 1 {
        0
    } else {
        1 + high_bit(x / 2)
    }
}

/// `ZSTD_rollingHash_append` of one byte.
#[verifier::opaque]
pub open spec fn zstd_append(hash: u64, b: u8) -> u64 {
    hash.wrapping_mul(PRIME_8_BYTES).wrapping_add((b as u64 + ROLL_HASH_CHAR_OFFSET) as u64)
}

/// `ZSTD_rollingHash_rotate`: drop `to_remove`, which entered the hash `RSYNC_LENGTH` bytes
/// ago, and append `to_add`.
#[verifier::opaque]
pub open spec fn zstd_rotate(hash: u64, to_remove: u8, to_add: u8, prime_power: u64) -> u64 {
    hash.wrapping_sub(((to_remove as u64 + ROLL_HASH_CHAR_OFFSET) as u64).wrapping_mul(prime_power))
        .wrapping_mul(PRIME_8_BYTES).wrapping_add((to_add as u64 + ROLL_HASH_CHAR_OFFSET) as u64)
}

/// The rolling hash after the stream `s`: the first bytes are appended, every later byte
/// rotates out the byte `RSYNC_LENGTH` positions before it.
pub open spec fn zstd_hash(prime_power: u64, s: Seq<u8>) -> u64
    decreases s.len(),
{
    if s.len() == 0 {
        0
    } else if s.len() <= RSYNC_LENGTH {
        zstd_append(zstd_hash(prime_power, s.drop_last()), s.last())
    } else {
        zstd_rotate(
            zstd_hash(prime_power, s.drop_last()),
            s[s.len() - 1 - RSYNC_LENGTH],
            s.last(),
            prime_power,
        )
    }
}

/// Parameters of zstd's rsyncable chunking.
#[derive(Clone, Copy, Debug, PartialEq, Eq)]
pub struct Zstd {
    hit_mask: u64,
    prime_power: u64,
}

impl Zstd {
    pub closed spec fn spec_hit_mask(&self) -> u64 {
        self.hit_mask
    }

    pub closed spec fn spec_prime_power(&self) -> u64 {
        self.prime_power
    }

    /// Aim at sections of `target_section_size` bytes on average, as zstd does for its jobs:
    /// the hash must match `log2(target_section_size >> 20) + 20` low bits.
    pub fn with_target_section_size(target_section_size: u64) -> (r: Zstd)
        requires
            1 <= target_section_size >> 20u64 <= u32::MAX,
        ensures
            r.spec_hit_mask() == (1u64 << ((high_bit((target_section_size >> 20u64) as nat)
                + 20) as u64)) - 1,
            r.spec_prime_power() == wrapping_pow(PRIME_8_BYTES, (RSYNC_LENGTH - 1) as nat),
    {
        let job_size_mb: u64 = target_section_size >> 20;
        proof {
            lemma_high_bit_bound(job_size_mb as nat);
        }
        let mut x: u64 = job_size_mb;
        let mut bits: u64 = 0;
        while x > 1
            invariant
                1 <= x <= job_size_mb <= u32::MAX,
                bits + high_bit(x as nat) == high_bit(job_size_mb as nat),
                high_bit(job_size_mb as nat) <= 31,
            decreases x,
        {
            x = x / 2;
            bits = bits + 1;
        }
        let rsync_bits: u64 = bits + 20;
        assert(1u64 << rsync_bits >= 1) by (bit_vector)
            requires
                rsync_bits <= 52,
        ;
        let hit_mask = (1u64 << rsync_bits) - 1;
        let mut prime_power: u64 = 1;
        let mut e: usize = 0;
        while e < RSYNC_LENGTH - 1
            invariant
                e <= RSYNC_LENGTH - 1,
                prime_power == wrapping_pow(PRIME_8_BYTES, e as nat),
            decreases RSYNC_LENGTH - 1 - e,
        {
            prime_power = prime_power.wrapping_mul(PRIME_8_BYTES);
            e += 1;
        }
        Zstd { hit_mask, prime_power }
    }

    /// zstd's default: sections of 8 MiB.
    pub fn default() -> (r: Zstd)
        ensures
            r.spec_hit_mask() == 0x7f_ffff,
            r.spec_prime_power() == wrapping_pow(PRIME_8_BYTES, (RSYNC_LENGTH - 1) as nat),
    {
        assert((8u64 << 20u64) >> 20u64 == 8) by (bit_vector);
        let r = Self::with_target_section_size(8 << 20);
        assert(high_bit(8) == 3) by {
            reveal_with_fuel(high_bit, 4);
        }
        assert((1u64 << 23u64) - 1 == 0x7f_ffff) by (bit_vector);
        r
    }

    /// The mask that the hash must match.
    pub fn hit_mask(&self) -> (r: u64)
        ensures
            r == self.spec_hit_mask(),
    {
        self.hit_mask
    }

    /// `PRIME_8_BYTES` to the power `RSYNC_LENGTH - 1`, which drops a byte from the hash.
    pub fn prime_power(&self) -> (r: u64)
        ensures
            r == self.spec_prime_power(),
    {
        self.prime_power
    }
}

/// `2` to the power `e`.
pub open spec fn pow2_nat(e: nat) -> nat
    decreases e,
{
    if e == 0 {
        1
    } else {
        2 * pow2_nat((e - 1) as nat)
    }
}

proof fn lemma_pow2_double(e: nat)
    ensures
        pow2_nat(e + 1) == 2 * pow2_nat(e),
        pow2_nat(e) >= 1,
    decreases e,
{
    if e > 0 {
        lemma_pow2_double((e - 1) as nat);
    }
}

/// A job size that fits in 32 bits has its highest bit below 32.
pub proof fn lemma_high_bit_bound(x: nat)
    requires
        1 <= x <= u32::MAX,
    ensures
        high_bit(x) <= 31,
{
    assert(pow2_nat(32) == 0x1_0000_0000) by {
        reveal_with_fuel(pow2_nat, 33);
    }
    lemma_high_bit_lt(x, 32);
}

/// A number below `2^k` has its highest bit below `k`.
pub proof fn lemma_high_bit_lt(x: nat, k: nat)
    requires
        1 <= k,
        x < pow2_nat(k),
    ensures
        high_bit(x) < k,
    decreases k,
{
    if x > 1 {
        lemma_pow2_double((k - 1) as nat);
        if k == 1 {
            assert(pow2_nat(1) == 2) by {
                reveal_with_fuel(pow2_nat, 2);
            }
        } else {
            lemma_high_bit_lt(x / 2, (k - 1) as nat);
        }
    }
}

impl CutRule for Zstd {
    /// A boundary follows a byte once the window is full and the hash, which covers the last
    /// `RSYNC_LENGTH` bytes, has every bit of `hit_mask` set.
    open spec fn cut_at(&self, h: Seq<u8>) -> bool {
        h.len() > RSYNC_LENGTH && zstd_hash(self.spec_prime_power(), h) & self.spec_hit_mask()
            == self.spec_hit_mask()
    }

    /// The hash carries on across a boundary.
    open spec fn after_cut(&self, h: Seq<u8>) -> Seq<u8> {
        h
    }
}

struct ZstdState {
    hash: u64,
}

impl ZstdState {
    fn append(&mut self, b: u8)
        ensures
            final(self).hash == zstd_append(old(self).hash, b),
    {
        reveal(zstd_append);
        self.hash = self.hash.wrapping_mul(PRIME_8_BYTES).wrapping_add(
            b as u64 + ROLL_HASH_CHAR_OFFSET,
        );
    }

    fn rotate(&mut self, to_remove: u8, to_add: u8, prime_power: u64)
        ensures
            final(self).hash == zstd_rotate(old(self).hash, to_remove, to_add, prime_power),
    {
        reveal(zstd_rotate);
        self.hash = self.hash.wrapping_sub(
            (to_remove as u64 + ROLL_HASH_CHAR_OFFSET).wrapping_mul(prime_power),
        ).wrapping_mul(PRIME_8_BYTES).wrapping_add(to_add as u64 + ROLL_HASH_CHAR_OFFSET);
    }

    fn at_split(&self, params: &Zstd) -> (r: bool)
        ensures
            r == (self.hash & params.hit_mask == params.hit_mask),
    {
        self.hash & params.hit_mask == params.hit_mask
    }
}

/// Search state of [`Zstd`]: the hash of the whole stream so far.
pub struct ZstdSearchState {
    state: ZstdState,
    offset: usize,
    hist: Ghost<Seq<u8>>,
}

impl ZstdSearchState {
    fn append(&mut self, b: u8)
        ensures
            final(self).state.hash == zstd_append(old(self).state.hash, b),
            final(self).offset == old(self).offset,
            final(self).hist == old(self).hist,
    {
        self.state.append(b);
    }

    fn rotate(&mut self, to_remove: u8, to_add: u8, prime_power: u64)
        ensures
            final(self).state.hash == zstd_rotate(
                old(self).state.hash,
                to_remove,
                to_add,
                prime_power,
            ),
            final(self).offset == old(self).offset,
            final(self).hist == old(self).hist,
    {
        self.state.rotate(to_remove, to_add, prime_power);
    }

    fn at_split(&self, params: &Zstd) -> (r: bool)
        ensures
            r == (self.state.hash & params.hit_mask == params.hit_mask),
    {
        self.state.at_split(params)
    }
}

/// The hash after one more byte.
proof fn lemma_zstd_hash_push(pp: u64, hc: Seq<u8>, v: u8)
    ensures
        zstd_hash(pp, hc.push(v)) == if hc.len() + 1 <= RSYNC_LENGTH {
            zstd_append(zstd_hash(pp, hc), v)
        } else {
            zstd_rotate(zstd_hash(pp, hc), hc[hc.len() - RSYNC_LENGTH], v, pp)
        },
{
    assert(hc.push(v).drop_last() =~= hc);
}

impl Chunk for Zstd {
    type SearchState = ZstdSearchState;

    closed spec fn search_history(&self, st: ZstdSearchState) -> Seq<u8> {
        st.hist@
    }

    closed spec fn search_offset(&self, st: ZstdSearchState) -> nat {
        st.offset as nat
    }

    open spec fn lookback(&self) -> nat {
        RSYNC_LENGTH as nat
    }

    closed spec fn search_inv(&self, st: ZstdSearchState) -> bool {
        st.state.hash == zstd_hash(self.prime_power, st.hist@)
    }

    fn to_search_state(&self) -> (r: ZstdSearchState) {
        ZstdSearchState { state: ZstdState { hash: 0 }, offset: 0, hist: Ghost(Seq::empty()) }
    }

    fn find_chunk_edge(&self, state: &mut ZstdSearchState, data: &[u8]) -> (r: (
        Option<usize>,
        usize,
    )) {
        let ghost h = state.hist@;
        let o = state.offset;
        let ghost fresh = data@.skip(o as int);
        proof {
            lemma_ends_with_start(h, data@, o as int);
            assert(h + fresh.take(0) =~= h);
            lemma_first_cut_spec(*self, h, fresh);
        }
        let mut i: usize = o;
        while i < data.len()
            invariant
                o <= i <= data.len(),
                h == old(state).hist@,
                o == old(state).offset,
                o == if h.len() < RSYNC_LENGTH {
                    h.len()
                } else {
                    RSYNC_LENGTH as nat
                },
                fresh == data@.skip(o as int),
                state.hist@ == h + fresh.take(i - o),
                state.state.hash == zstd_hash(self.prime_power, state.hist@),
                ends_with(state.hist@, data@, i as int),
                no_cut_within(*self, h, fresh, i - o),
            decreases data.len() - i,
        {
            let ghost hc = state.hist@;
            let v = data[i];
            proof {
                lemma_take_push(h, fresh, i - o);
                assert(fresh[i - o] == data@[i as int]);
                lemma_ends_with_push(hc, data@, i as int, RSYNC_LENGTH as int);
                lemma_zstd_hash_push(self.prime_power, hc, v);
            }
            if i < RSYNC_LENGTH {
                state.append(v);
            } else {
                let to_remove = data[i - RSYNC_LENGTH];
                state.rotate(to_remove, v, self.prime_power);
            }
            state.hist = Ghost(hc.push(v));
            i += 1;
            assert(state.hist@.len() > RSYNC_LENGTH <==> i > RSYNC_LENGTH);
            if i > RSYNC_LENGTH && state.at_split(self) {
                proof {
                    lemma_first_cut_found(*self, h, fresh, (i - o) as nat);
                    let nh = state.hist@;
                    assert forall|j: int| 0 <= j < RSYNC_LENGTH implies #[trigger] data@[(i
                        - RSYNC_LENGTH) + j] == nh[nh.len() - RSYNC_LENGTH + j] by {
                        assert(nh[nh.len() - i + (i - RSYNC_LENGTH + j)] == data@[i - RSYNC_LENGTH
                            + j]);
                    }
                }
                state.offset = RSYNC_LENGTH;
                return (Some(i), i - RSYNC_LENGTH);
            }
        }
        proof {
            assert(fresh.take(fresh.len() as int) =~= fresh);
            lemma_first_cut_none(*self, h, fresh);
        }
        let keep: usize = if data.len() < RSYNC_LENGTH {
            data.len()
        } else {
            RSYNC_LENGTH
        };
        state.offset = keep;
        (None, data.len() - keep)
    }
}

/// Incremental form of [`Zstd`]. It keeps the last `RSYNC_LENGTH` bytes to drop them from the
/// hash.
pub struct ZstdIncr {
    params: Zstd,
    state: ZstdState,
    window: Buf<u8>,
    hist: Ghost<Seq<u8>>,
}

impl ZstdIncr {
    pub closed spec fn spec_params(&self) -> Zstd {
        self.params
    }
}

impl CutRule for ZstdIncr {
    open spec fn cut_at(&self, h: Seq<u8>) -> bool {
        self.spec_params().cut_at(h)
    }

    open spec fn after_cut(&self, h: Seq<u8>) -> Seq<u8> {
        h
    }
}

impl ChunkIncr for ZstdIncr {
    closed spec fn history(&self) -> Seq<u8> {
        self.hist@
    }

    closed spec fn inv(&self) -> bool {
        &&& self.state.hash == zstd_hash(self.params.prime_power, self.hist@)
        &&& self.window.wf()
        &&& self.window.spec_limit() == RSYNC_LENGTH
        &&& self.window@ == last_n(self.hist@, RSYNC_LENGTH as nat)
    }

    open spec fn footprint(&self) -> nat {
        RSYNC_LENGTH as nat
    }

    fn push(&mut self, data: &[u8]) -> (r: Option<usize>) {
        let ghost h = self.hist@;
        proof {
            assert(h + data@.take(0) =~= h);
        }
        let mut i: usize = 0;
        while i < data.len()
            invariant
                i <= data.len(),
                h == old(self).hist@,
                self.params == old(self).params,
                self.hist@ == h + data@.take(i as int),
                self.inv(),
                no_cut_within(self.params, h, data@, i as int),
            decreases data.len() - i,
        {
            proof {
                lemma_take_push(h, data@, i as int);
            }
            if self.roll_byte(data[i]) {
                proof {
                    lemma_first_cut_found(self.params, h, data@, (i + 1) as nat);
                    lemma_same_rule_first_cut(*old(self), self.params, h, data@);
                }
                return Some(i + 1);
            }
            i += 1;
        }
        proof {
            assert(data@.take(data.len() as int) =~= data@);
            lemma_first_cut_none(self.params, h, data@);
            lemma_same_rule_first_cut(*old(self), self.params, h, data@);
        }
        None
    }
}

impl ZstdIncr {
    /// Roll one byte into the hash; true when a boundary follows it.
    fn roll_byte(&mut self, v: u8) -> (r: bool)
        requires
            old(self).inv(),
        ensures
            final(self).inv(),
            final(self).params == old(self).params,
            final(self).hist@ == old(self).hist@.push(v),
            r == old(self).params.cut_at(final(self).hist@),
    {
        let ghost hc = self.hist@;
        proof {
            lemma_window_push(self.window@, hc, RSYNC_LENGTH as nat, v);
            lemma_zstd_hash_push(self.params.prime_power, hc, v);
        }
        // a byte leaves the window once it is full: only then may a boundary follow
        let rotated = match self.window.push(v) {
            None => {
                self.state.append(v);
                false
            },
            Some(to_remove) => {
                self.state.rotate(to_remove, v, self.params.prime_power);
                true
            },
        };
        self.hist = Ghost(hc.push(v));
        rotated && self.state.at_split(&self.params)
    }
}

impl ToChunkIncr for Zstd {
    type Incr = ZstdIncr;

    fn to_chunk_incr(&self) -> (r: ZstdIncr)
        ensures
            r.spec_params() == *self,
    {
        ZstdIncr {
            params: *self,
            state: ZstdState { hash: 0 },
            window: Buf::new(RSYNC_LENGTH),
            hist: Ghost(Seq::empty()),
        }
    }
}

} // verus!
