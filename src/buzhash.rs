//! BuzHash, the cyclic polynomial hash.
//!
//! `H = s^(k-1)(h(c_1)) ^ s^(k-2)(h(c_2)) ^ ... ^ h(c_k)` over the last `k` bytes, where `s` is a
//! one-bit left rotation and `h` maps a byte to 32 bits. Each new byte rotates the hash by one
//! and mixes in `h(c)`; the byte that leaves the window is taken out again by mixing in
//! `h(c_old)` rotated by `k mod 8`, which cancels its contribution when `h` works at byte
//! granularity. A boundary follows a byte when `hash & mask == mask`, or when the chunk has
//! grown past `max_chunk_size` bytes.
//!
//! Used, with various splitting rules, by Borg, Attic and attic-labs/noms.
use crate::circ::{
    ends_with, last_n, lemma_ends_with_push, lemma_ends_with_start, lemma_window_push, Buf,
};
use crate::{
    first_cut, lemma_first_cut_found, lemma_first_cut_none, lemma_first_cut_spec,
    lemma_same_rule_first_cut, lemma_take_push, no_cut_within, Chunk, ChunkIncr, CutRule,
    ToChunkIncr,
};
use vstd::prelude::*;

verus! {

/// `x` rotated left by `r` bits.
pub open spec fn rotl(x: u32, r: u32) -> u32 {
    if r == 0 {
        x
    } else {
        (x << r) | (x >> ((32 - r) as u32))
    }
}

/// `x.rotate_left(r)` for `r < 32`.
pub fn rotate_left(x: u32, r: u32) -> (out: u32)
    requires
        r < 32,
    ensures
        out == rotl(x, r),
{
    if r == 0 {
        x
    } else {
        (x << r) | (x >> (32 - r))
    }
}

/// The map from a byte to 32 bits inside the hash.
pub trait BuzHashHash {
    spec fn hash_spec(&self, data: u8) -> u32;

    fn hash(&self, data: u8) -> (r: u32)
        ensures
            r == self.hash_spec(data),
    ;
}

/// Look the byte up in a borrowed table.
#[derive(Clone, Copy)]
pub struct BuzHashTableHash<'a> {
    table: &'a [u32; 256],
}

impl<'a> BuzHashTableHash<'a> {
    pub closed spec fn spec_table(&self) -> Seq<u32> {
        self.table@
    }

    pub fn from(table: &'a [u32; 256]) -> (r: Self)
        ensures
            r.spec_table() == table@,
    {
        Self { table }
    }
}

impl<'a> BuzHashHash for BuzHashTableHash<'a> {
    open spec fn hash_spec(&self, data: u8) -> u32 {
        self.spec_table()[data as int]
    }

    fn hash(&self, data: u8) -> (r: u32) {
        self.table[data as usize]
    }
}

/// Look the byte up in an owned table.
#[derive(Clone)]
pub struct BuzHashTableBufHash {
    table: Box<[u32; 256]>,
}

impl BuzHashTableBufHash {
    pub closed spec fn spec_table(&self) -> Seq<u32> {
        self.table@
    }

    pub fn from(table: Box<[u32; 256]>) -> (r: Self)
        ensures
            r.spec_table() == table@,
    {
        Self { table }
    }
}

impl BuzHashHash for BuzHashTableBufHash {
    open spec fn hash_spec(&self, data: u8) -> u32 {
        self.spec_table()[data as int]
    }

    fn hash(&self, data: u8) -> (r: u32) {
        self.table[data as usize]
    }
}

/// Look up the byte xor a salt, which gives distinct hash families from one table (noms
/// does this).
#[derive(Clone, Copy)]
pub struct BuzHashTableByteSaltHash<'a> {
    table: &'a [u32; 256],
    salt: u8,
}

impl<'a> BuzHashTableByteSaltHash<'a> {
    pub closed spec fn spec_table(&self) -> Seq<u32> {
        self.table@
    }

    pub closed spec fn spec_salt(&self) -> u8 {
        self.salt
    }

    pub fn from(salt: u8, table: &'a [u32; 256]) -> (r: Self)
        ensures
            r.spec_table() == table@,
            r.spec_salt() == salt,
    {
        Self { table, salt }
    }
}

impl<'a> BuzHashHash for BuzHashTableByteSaltHash<'a> {
    open spec fn hash_spec(&self, data: u8) -> u32 {
        self.spec_table()[(data ^ self.spec_salt()) as int]
    }

    fn hash(&self, data: u8) -> (r: u32) {
        self.table[(data ^ self.salt) as usize]
    }
}

/// The hash after the chunk prefix `s`, with window `k`.
pub open spec fn buz_hash<H: BuzHashHash>(hf: H, k: usize, s: Seq<u8>) -> u32
    decreases s.len(),
{
    if s.len() == 0 {
        0
    } else {
        let p = rotl(buz_hash(hf, k, s.drop_last()), 1);
        let n = s.len() - 1;
        if n >= k {
            p ^ rotl(hf.hash_spec(s[n - k]), (k % 8) as u32) ^ hf.hash_spec(s.last())
        } else {
            p ^ hf.hash_spec(s.last())
        }
    }
}

/// An instance of BuzHash: window `k`, byte hash `h`, boundary `mask` and maximum chunk size.
pub struct BuzHash<H: BuzHashHash> {
    /// bytes in the window
    k: usize,
    /// the byte hash
    h: H,
    /// bits that must all be set at a boundary
    mask: u32,
    /// a chunk never grows past this many bytes
    max_chunk_size: u64,
}

impl<H: BuzHashHash> BuzHash<H> {
    #[verifier::type_invariant]
    spec fn window_ok(self) -> bool {
        self.k > 0
    }

    pub closed spec fn spec_k(&self) -> usize {
        self.k
    }

    pub closed spec fn spec_hasher(&self) -> H {
        self.h
    }

    pub closed spec fn spec_mask(&self) -> u32 {
        self.mask
    }

    pub closed spec fn spec_max_chunk_size(&self) -> u64 {
        self.max_chunk_size
    }

    /// BuzHash over the last `capacity` bytes, with byte hash `hash`; a boundary follows a
    /// byte when the hash has every bit of `mask` set, or when the chunk grows past
    /// `max_chunk_size` bytes.
    pub fn new(capacity: usize, mask: u32, hash: H, max_chunk_size: u64) -> (r: Self)
        requires
            capacity > 0,
        ensures
            r.spec_k() == capacity,
            r.spec_hasher() == hash,
            r.spec_mask() == mask,
            r.spec_max_chunk_size() == max_chunk_size,
    {
        BuzHash { k: capacity, h: hash, mask, max_chunk_size }
    }
}

impl<H: BuzHashHash + Copy> Clone for BuzHash<H> {
    fn clone(&self) -> (r: Self)
        ensures
            r == *self,
    {
        *self
    }
}

impl<H: BuzHashHash + Copy> Copy for BuzHash<H> {

}

impl<'a> BuzHash<BuzHashTableByteSaltHash<'a>> {
    /// The parameters of attic-labs/noms: a window of 67 bytes, a 12-bit mask, chunks of at
    /// most 16 MiB, and the salted byte table `table` (noms uses silvasur/buzhash's table).
    pub fn new_nom(salt: u8, table: &'a [u32; 256]) -> (r: Self)
        ensures
            r.spec_k() == 67,
            r.spec_mask() == 0xfff,
            r.spec_max_chunk_size() == 0x100_0000,
            r.spec_hasher().spec_table() == table@,
            r.spec_hasher().spec_salt() == salt,
    {
        BuzHash::new(67, 0xfff, BuzHashTableByteSaltHash::from(salt, table), 0x100_0000)
    }
}

impl<H: BuzHashHash> CutRule for BuzHash<H> {
    open spec fn cut_at(&self, h: Seq<u8>) -> bool {
        h.len() > 0 && (buz_hash(self.spec_hasher(), self.spec_k(), h) & self.spec_mask()
            == self.spec_mask() || h.len() > self.spec_max_chunk_size())
    }

    open spec fn after_cut(&self, h: Seq<u8>) -> Seq<u8> {
        Seq::empty()
    }
}

/// The hash value.
#[derive(Clone, Copy)]
struct BuzHashState {
    h: u32,
}

impl BuzHashState {
    fn reset(&mut self)
        ensures
            final(self).h == 0,
    {
        self.h = 0;
    }

    /// Mix in `v` while the window is still filling.
    fn add<H: BuzHashHash>(&mut self, params: &BuzHash<H>, v: u8)
        ensures
            final(self).h == rotl(old(self).h, 1) ^ params.h.hash_spec(v),
    {
        self.h = rotate_left(self.h, 1) ^ params.h.hash(v);
    }

    /// Mix in `add_v` and take out `remove_v`, which leaves the window.
    fn add_overflow<H: BuzHashHash>(&mut self, params: &BuzHash<H>, add_v: u8, remove_v: u8)
        ensures
            final(self).h == rotl(old(self).h, 1) ^ rotl(
                params.h.hash_spec(remove_v),
                (params.k % 8) as u32,
            ) ^ params.h.hash_spec(add_v),
    {
        let h = rotate_left(self.h, 1);
        let drop = rotate_left(params.h.hash(remove_v), (params.k % 8) as u32);
        self.h = h ^ drop ^ params.h.hash(add_v);
    }

    /// Mix in `data[i]`, taking out `data[i - k]` once `i >= k`.
    fn add_buf<H: BuzHashHash>(&mut self, data: &[u8], params: &BuzHash<H>, i: usize)
        requires
            i < data.len(),
        ensures
            i >= params.k ==> final(self).h == rotl(old(self).h, 1) ^ rotl(
                params.h.hash_spec(data@[i - params.k]),
                (params.k % 8) as u32,
            ) ^ params.h.hash_spec(data@[i as int]),
            i < params.k ==> final(self).h == rotl(old(self).h, 1) ^ params.h.hash_spec(
                data@[i as int],
            ),
    {
        if i >= params.k {
            let drop = data[i - params.k];
            self.add_overflow(params, data[i], drop);
        } else {
            self.add(params, data[i]);
        }
    }
}

/// Search state of [`BuzHash`].
pub struct BuzHashSearchState {
    offset: usize,
    state: BuzHashState,
    /// bytes in the current chunk
    count: u64,
    hist: Ghost<Seq<u8>>,
}

impl BuzHashSearchState {
    fn reset(&mut self)
        ensures
            final(self).offset == 0,
            final(self).state.h == 0,
            final(self).count == 0,
            final(self).hist@ == Seq::<u8>::empty(),
    {
        self.offset = 0;
        self.count = 0;
        self.state.reset();
        self.hist = Ghost(Seq::empty());
    }
}

impl<H: BuzHashHash> Chunk for BuzHash<H> {
    type SearchState = BuzHashSearchState;

    closed spec fn search_history(&self, st: BuzHashSearchState) -> Seq<u8> {
        st.hist@
    }

    closed spec fn search_offset(&self, st: BuzHashSearchState) -> nat {
        st.offset as nat
    }

    open spec fn lookback(&self) -> nat {
        self.spec_k() as nat
    }

    closed spec fn search_inv(&self, st: BuzHashSearchState) -> bool {
        &&& st.state.h == buz_hash(self.h, self.k, st.hist@)
        &&& st.count == st.hist@.len()
        &&& self.k > 0
    }

    fn to_search_state(&self) -> (r: BuzHashSearchState) {
        proof {
            use_type_invariant(self);
        }
        BuzHashSearchState {
            offset: 0,
            state: BuzHashState { h: 0 },
            count: 0,
            hist: Ghost(Seq::empty()),
        }
    }

    fn find_chunk_edge(&self, state: &mut BuzHashSearchState, data: &[u8]) -> (r: (
        Option<usize>,
        usize,
    )) {
        let ghost h = state.hist@;
        let o = state.offset;
        let k = self.k;
        let ghost fresh = data@.skip(o as int);
        proof {
            lemma_ends_with_start(h, data@, o as int);
            assert(h + fresh.take(0) =~= h);
            lemma_first_cut_spec(*self, h, fresh);
        }
        let mut i: usize = o;
        while i < data.len()
            invariant
                o <= i <= data.len(),
                k == self.k,
                k > 0,
                h == old(state).hist@,
                o == old(state).offset,
                h.len() + data@.len() <= u64::MAX,
                o == if h.len() < k {
                    h.len()
                } else {
                    k as nat
                },
                fresh == data@.skip(o as int),
                state.hist@ == h + fresh.take(i - o),
                state.state.h == buz_hash(self.h, k, state.hist@),
                state.count == state.hist@.len(),
                ends_with(state.hist@, data@, i as int),
                no_cut_within(*self, h, fresh, i - o),
            decreases data.len() - i,
        {
            let ghost hc = state.hist@;
            proof {
                lemma_take_push(h, fresh, i - o);
                assert(fresh[i - o] == data@[i as int]);
                lemma_ends_with_push(hc, data@, i as int, k as int);
                assert(hc.push(data@[i as int]).drop_last() =~= hc);
                assert(i >= k <==> hc.len() >= k);
            }
            state.state.add_buf(data, self, i);
            state.count = state.count + 1;
            state.hist = Ghost(hc.push(data@[i as int]));
            if (state.state.h & self.mask) == self.mask || state.count > self.max_chunk_size {
                proof {
                    lemma_first_cut_found(*self, h, fresh, (i + 1 - o) as nat);
                }
                state.reset();
                return (Some(i + 1), i + 1);
            }
            i += 1;
        }
        proof {
            assert(fresh.take(fresh.len() as int) =~= fresh);
            lemma_first_cut_none(*self, h, fresh);
        }
        // keep the last `k` bytes, discard the rest
        let discard_ct = data.len().saturating_sub(k);
        state.offset = data.len() - discard_ct;
        (None, discard_ct)
    }
}

/// Incremental form of [`BuzHash`], which keeps its window of `k` bytes internally.
///
/// Every byte passes through that window; [`BuzHash::find_chunk_edge`] reads the caller's
/// slice instead and is faster where it can be used.
pub struct BuzHashIncr<H: BuzHashHash> {
    params: BuzHash<H>,
    state: BuzHashState,
    buf: Buf<u8>,
    /// bytes in the current chunk
    input_idx: u64,
    hist: Ghost<Seq<u8>>,
}

impl<H: BuzHashHash> BuzHashIncr<H> {
    pub closed spec fn spec_params(&self) -> BuzHash<H> {
        self.params
    }

    pub closed spec fn spec_history(&self) -> Seq<u8> {
        self.hist@
    }

    pub closed spec fn wf(&self) -> bool {
        &&& self.state.h == buz_hash(self.params.h, self.params.k, self.hist@)
        &&& self.input_idx == self.hist@.len()
        &&& self.buf.wf()
        &&& self.params.k > 0
        &&& self.buf.spec_limit() == self.params.k
        &&& self.buf@ == last_n(self.hist@, self.params.k as nat)
    }

    /// A fresh incremental chunker for `params`.
    pub fn from(params: BuzHash<H>) -> (r: Self)
        ensures
            r.wf(),
            r.spec_params() == params,
            r.spec_history() == Seq::<u8>::empty(),
    {
        proof {
            use_type_invariant(&params);
        }
        let buf = Buf::new(params.k);
        BuzHashIncr {
            params,
            state: BuzHashState { h: 0 },
            buf,
            input_idx: 0,
            hist: Ghost(Seq::empty()),
        }
    }

    fn reset(&mut self)
        requires
            old(self).wf(),
        ensures
            final(self).wf(),
            final(self).params == old(self).params,
            final(self).hist@ == Seq::<u8>::empty(),
    {
        self.buf.clear();
        self.input_idx = 0;
        self.state.reset();
        self.hist = Ghost(Seq::empty());
    }

    /// Roll one byte in.
    fn push_byte(&mut self, val: u8)
        requires
            old(self).wf(),
            old(self).hist@.len() < u64::MAX,
        ensures
            final(self).wf(),
            final(self).params == old(self).params,
            final(self).hist@ == old(self).hist@.push(val),
    {
        let ghost hc = self.hist@;
        proof {
            lemma_window_push(self.buf@, hc, self.params.k as nat, val);
            assert(hc.push(val).drop_last() =~= hc);
        }
        match self.buf.push(val) {
            Some(o) => self.state.add_overflow(&self.params, val, o),
            None => self.state.add(&self.params, val),
        }
        self.input_idx = self.input_idx + 1;
        self.hist = Ghost(hc.push(val));
    }
}

impl<H: BuzHashHash> CutRule for BuzHashIncr<H> {
    open spec fn cut_at(&self, h: Seq<u8>) -> bool {
        self.spec_params().cut_at(h)
    }

    open spec fn after_cut(&self, h: Seq<u8>) -> Seq<u8> {
        Seq::empty()
    }
}

impl<H: BuzHashHash> ChunkIncr for BuzHashIncr<H> {
    closed spec fn history(&self) -> Seq<u8> {
        self.hist@
    }

    closed spec fn inv(&self) -> bool {
        self.wf()
    }

    open spec fn footprint(&self) -> nat {
        self.spec_params().spec_k() as nat
    }

    /// Return the index in `data` just past the byte whose hash matched.
    fn push(&mut self, data: &[u8]) -> (r: Option<usize>) {
        let ghost h = self.hist@;
        let ghost p = self.params;
        proof {
            assert(h + data@.take(0) =~= h);
        }
        let mut i: usize = 0;
        while i < data.len()
            invariant
                i <= data.len(),
                h == old(self).hist@,
                h.len() + data@.len() <= u64::MAX,
                p == old(self).params,
                self.params == p,
                self.hist@ == h + data@.take(i as int),
                self.wf(),
                no_cut_within(p, h, data@, i as int),
            decreases data.len() - i,
        {
            proof {
                lemma_take_push(h, data@, i as int);
            }
            self.push_byte(data[i]);
            if (self.state.h & self.params.mask) == self.params.mask || self.input_idx
                > self.params.max_chunk_size {
                proof {
                    lemma_first_cut_found(p, h, data@, (i + 1) as nat);
                    lemma_same_rule_first_cut(*old(self), p, h, data@);
                }
                self.reset();
                return Some(i + 1);
            }
            i += 1;
        }
        proof {
            assert(data@.take(data.len() as int) =~= data@);
            lemma_first_cut_none(p, h, data@);
            lemma_same_rule_first_cut(*old(self), p, h, data@);
        }
        None
    }
}

impl<H: BuzHashHash + Copy> ToChunkIncr for BuzHash<H> {
    type Incr = BuzHashIncr<H>;

    fn to_chunk_incr(&self) -> (r: BuzHashIncr<H>)
        ensures
            r.spec_params() == *self,
    {
        BuzHashIncr::from(*self)
    }
}

} // verus!
