//! The rolling checksum that bup splits on.
//!
//! Two accumulators: `s1`, the sum of the last `window_len` bytes, and `s2`, the sum of the
//! running sums, both with [`ROLLSUM_CHAR_OFFSET`] added to every byte and kept modulo 2^32. The
//! accumulators start as if `window_len` bytes of value zero had already been rolled in (bup's
//! choice; librsync starts from zero sums). A boundary follows a byte when the low
//! [`BLOBBITS`] bits of the digest are all set; the boundary is the index after that byte.
use crate::circ::{
    ends_with, last_n, lemma_ends_with_push, lemma_ends_with_start, lemma_window_push, Buf,
};
use crate::{
    first_cut, lemma_first_cut_found, lemma_first_cut_none, lemma_first_cut_spec,
    lemma_same_rule_first_cut, lemma_take_push, no_cut_within, Chunk, ChunkIncr, CutRule,
    ToChunkIncr,
};
use vstd::prelude::*;

verus! {

/// The digest bits that must all be set at a boundary.
pub const BLOBBITS: u32 = 13;

/// `1 << BLOBBITS`
pub const BLOBSIZE: u32 = 8192;

/// bup's window, in bytes.
pub const WINDOW_SIZE: usize = 64;

/// Added to every byte before it enters the sums.
pub const ROLLSUM_CHAR_OFFSET: u32 = 31;

/// The accumulators `(s1, s2)` before any byte.
pub open spec fn bup_init(window_len: usize) -> (u32, u32) {
    let ws = #[verifier::truncate] (window_len as u32);
    (
        ws.wrapping_mul(ROLLSUM_CHAR_OFFSET),
        ws.wrapping_mul((ws.wrapping_sub(1))).wrapping_mul(ROLLSUM_CHAR_OFFSET),
    )
}

/// Roll `add` in and `drop`, the byte `window_len` positions back, out.
#[verifier::opaque]
pub open spec fn bup_add(st: (u32, u32), window_len: usize, drop: u8, add: u8) -> (u32, u32) {
    let ws = #[verifier::truncate] (window_len as u32);
    let s1 = st.0.wrapping_add(add as u32).wrapping_sub(drop as u32);
    let s2 = st.1.wrapping_add(s1).wrapping_sub(
        ws.wrapping_mul(((drop as u32) + ROLLSUM_CHAR_OFFSET) as u32),
    );
    (s1, s2)
}

/// The accumulators after the chunk prefix `s`; a byte that leaves the window before
/// `window_len` bytes have come in is a zero.
pub open spec fn bup_state(window_len: usize, s: Seq<u8>) -> (u32, u32)
    decreases s.len(),
{
    if s.len() == 0 {
        bup_init(window_len)
    } else {
        let n = s.len() - 1;
        let drop = if n >= window_len {
            s[n - window_len]
        } else {
            0u8
        };
        bup_add(bup_state(window_len, s.drop_last()), window_len, drop, s.last())
    }
}

/// `(s1 << 16) | (s2 & 0xffff)`
pub open spec fn bup_digest(st: (u32, u32)) -> u32 {
    (st.0 << 16u32) | (st.1 & 0xffffu32)
}

/// The low `BLOBBITS` bits of the digest are all set.
pub open spec fn bup_at_split(st: (u32, u32)) -> bool {
    bup_digest(st) & ((BLOBSIZE - 1) as u32) == ((BLOBSIZE - 1) as u32)
}

/// bup's rolling-sum splitter with a window of `window_len` bytes.
#[derive(Clone, Copy, Debug, PartialEq, Eq)]
pub struct RollSum {
    window_len: usize,
}

impl RollSum {
    #[verifier::type_invariant]
    spec fn window_ok(self) -> bool {
        self.window_len > 0
    }

    pub closed spec fn spec_window_len(&self) -> usize {
        self.window_len
    }

    /// A splitter whose sums cover the last `window_len` bytes.
    pub fn with_window(window_len: usize) -> (r: Self)
        requires
            window_len > 0,
        ensures
            r.spec_window_len() == window_len,
    {
        Self { window_len }
    }

    /// bup's window of 64 bytes.
    pub fn default() -> (r: Self)
        ensures
            r.spec_window_len() == WINDOW_SIZE,
    {
        Self::with_window(WINDOW_SIZE)
    }
}

impl CutRule for RollSum {
    open spec fn cut_at(&self, h: Seq<u8>) -> bool {
        h.len() > 0 && bup_at_split(bup_state(self.spec_window_len(), h))
    }

    open spec fn after_cut(&self, h: Seq<u8>) -> Seq<u8> {
        Seq::empty()
    }
}

/// The two accumulators.
#[derive(Clone, Copy, Debug, PartialEq, Eq)]
pub struct RollSumState {
    s1: u32,
    s2: u32,
}

impl RollSumState {
    pub closed spec fn view_pair(&self) -> (u32, u32) {
        (self.s1, self.s2)
    }

    fn init(window_len: usize) -> (r: Self)
        ensures
            r.view_pair() == bup_init(window_len),
    {
        #[verifier::truncate]
        let ws = window_len as u32;
        RollSumState {
            s1: ws.wrapping_mul(ROLLSUM_CHAR_OFFSET),
            s2: ws.wrapping_mul(ws.wrapping_sub(1)).wrapping_mul(ROLLSUM_CHAR_OFFSET),
        }
    }

    fn reset(&mut self, params: &RollSum)
        ensures
            final(self).view_pair() == bup_init(params.window_len),
    {
        *self = Self::init(params.window_len);
    }

    fn add(&mut self, window_len: usize, drop: u8, add: u8)
        ensures
            final(self).view_pair() == bup_add(old(self).view_pair(), window_len, drop, add),
    {
        reveal(bup_add);
        #[verifier::truncate]
        let ws = window_len as u32;
        self.s1 = self.s1.wrapping_add(add as u32).wrapping_sub(drop as u32);
        self.s2 = self.s2.wrapping_add(self.s1).wrapping_sub(
            ws.wrapping_mul(drop as u32 + ROLLSUM_CHAR_OFFSET),
        );
    }

    fn digest(&self) -> (r: u32)
        ensures
            r == bup_digest(self.view_pair()),
    {
        (self.s1 << 16) | (self.s2 & 0xffff)
    }

    fn at_split(&self) -> (r: bool)
        ensures
            r == bup_at_split(self.view_pair()),
    {
        (self.digest() & (BLOBSIZE - 1)) == (BLOBSIZE - 1)
    }
}

/// Search state of [`RollSum`].
pub struct RollSumSearchState {
    state: RollSumState,
    offset: usize,
    hist: Ghost<Seq<u8>>,
}

impl RollSumSearchState {
    fn reset(&mut self, params: &RollSum)
        ensures
            final(self).state.view_pair() == bup_init(params.window_len),
            final(self).offset == 0,
            final(self).hist@ == Seq::<u8>::empty(),
    {
        self.offset = 0;
        self.state.reset(params);
        self.hist = Ghost(Seq::empty());
    }
}

impl Chunk for RollSum {
    type SearchState = RollSumSearchState;

    closed spec fn search_history(&self, st: RollSumSearchState) -> Seq<u8> {
        st.hist@
    }

    closed spec fn search_offset(&self, st: RollSumSearchState) -> nat {
        st.offset as nat
    }

    open spec fn lookback(&self) -> nat {
        self.spec_window_len() as nat
    }

    closed spec fn search_inv(&self, st: RollSumSearchState) -> bool {
        &&& st.state.view_pair() == bup_state(self.window_len, st.hist@)
        &&& self.window_len > 0
    }

    fn to_search_state(&self) -> (r: RollSumSearchState) {
        proof {
            use_type_invariant(self);
        }
        RollSumSearchState {
            state: RollSumState::init(self.window_len),
            offset: 0,
            hist: Ghost(Seq::empty()),
        }
    }

    fn find_chunk_edge(&self, state: &mut RollSumSearchState, data: &[u8]) -> (r: (
        Option<usize>,
        usize,
    )) {
        let ghost h = state.hist@;
        let o = state.offset;
        let w = self.window_len;
        let ghost fresh = data@.skip(o as int);
        proof {
            lemma_ends_with_start(h, data@, o as int);
            assert(h + fresh.take(0) =~= h);
            lemma_first_cut_spec(*self, h, fresh);
        }
        let mut i: usize = o;
        while i < data.len()
            invariant
                o <= i <= data.len(),
                w == self.window_len,
                w > 0,
                h == old(state).hist@,
                o == old(state).offset,
                o == if h.len() < w {
                    h.len()
                } else {
                    w as nat
                },
                fresh == data@.skip(o as int),
                state.hist@ == h + fresh.take(i - o),
                state.state.view_pair() == bup_state(w, state.hist@),
                ends_with(state.hist@, data@, i as int),
                no_cut_within(*self, h, fresh, i - o),
            decreases data.len() - i,
        {
            let ghost hc = state.hist@;
            let a = data[i];
            proof {
                lemma_take_push(h, fresh, i - o);
                assert(fresh[i - o] == data@[i as int]);
                lemma_ends_with_push(hc, data@, i as int, w as int);
                assert(hc.push(a).drop_last() =~= hc);
                assert(i >= w <==> hc.len() >= w);
            }
            let d = if i >= w {
                data[i - w]
            } else {
                0
            };
            state.state.add(w, d, a);
            state.hist = Ghost(hc.push(a));
            if state.state.at_split() {
                proof {
                    lemma_first_cut_found(*self, h, fresh, (i + 1 - o) as nat);
                }
                state.reset(self);
                return (Some(i + 1), i + 1);
            }
            i += 1;
        }
        proof {
            assert(fresh.take(fresh.len() as int) =~= fresh);
            lemma_first_cut_none(*self, h, fresh);
        }
        // keep the last `window_len` bytes, discard the rest
        let discard_ct = data.len().saturating_sub(w);
        state.offset = data.len() - discard_ct;
        (None, discard_ct)
    }
}

/// Incremental form of [`RollSum`].
///
/// Bup's sums need the byte that leaves the window, so every input byte passes through an
/// internal circular buffer of `window_len` bytes; [`RollSum::find_chunk_edge`] reads the
/// caller's slice instead and is faster where it can be used.
pub struct RollSumIncr {
    state: RollSumState,
    window: Buf<u8>,
    window_len: usize,
    hist: Ghost<Seq<u8>>,
}

impl RollSumIncr {
    pub closed spec fn spec_params(&self) -> RollSum {
        RollSum { window_len: self.window_len }
    }

    pub closed spec fn spec_history(&self) -> Seq<u8> {
        self.hist@
    }

    /// The state follows its history.
    pub closed spec fn wf(&self) -> bool {
        &&& self.state.view_pair() == bup_state(self.window_len, self.hist@)
        &&& self.window.wf()
        &&& self.window_len > 0
        &&& self.window.spec_limit() == self.window_len
        &&& self.window@ == last_n(self.hist@, self.window_len as nat)
    }

    /// A fresh incremental splitter for `params`.
    pub fn new(params: &RollSum) -> (r: Self)
        requires
            params.spec_window_len() > 0,
        ensures
            r.wf(),
            r.spec_params() == *params,
            r.spec_history() == Seq::<u8>::empty(),
    {
        RollSumIncr {
            state: RollSumState::init(params.window_len),
            window: Buf::new(params.window_len),
            window_len: params.window_len,
            hist: Ghost(Seq::empty()),
        }
    }

    /// An incremental splitter with bup's window of 64 bytes.
    pub fn default() -> (r: Self)
        ensures
            r.wf(),
            r.spec_params().spec_window_len() == WINDOW_SIZE,
            r.spec_history() == Seq::<u8>::empty(),
    {
        Self::new(&RollSum::default())
    }

    /// The digest of the bytes rolled in since the last reset.
    pub fn digest(&self) -> (r: u32)
        requires
            self.wf(),
        ensures
            r == bup_digest(bup_state(self.spec_params().spec_window_len(), self.spec_history())),
    {
        self.state.digest()
    }

    /// Roll one byte in; no boundary is checked and nothing is reset.
    pub fn roll_byte(&mut self, ch: u8)
        requires
            old(self).wf(),
        ensures
            final(self).wf(),
            final(self).spec_params() == old(self).spec_params(),
            final(self).spec_history() == old(self).spec_history().push(ch),
    {
        let ghost hc = self.hist@;
        proof {
            lemma_window_push(self.window@, hc, self.window_len as nat, ch);
            assert(hc.push(ch).drop_last() =~= hc);
        }
        let w = match self.window.push(ch) {
            Some(w) => w,
            None => 0,
        };
        self.state.add(self.window_len, w, ch);
        self.hist = Ghost(hc.push(ch));
    }

    /// Whether the digest marks a boundary.
    pub fn at_split(&self) -> (r: bool)
        requires
            self.wf(),
        ensures
            r == bup_at_split(bup_state(self.spec_params().spec_window_len(), self.spec_history())),
    {
        self.state.at_split()
    }

    fn reset(&mut self)
        requires
            old(self).wf(),
        ensures
            final(self).wf(),
            final(self).spec_params() == old(self).spec_params(),
            final(self).spec_history() == Seq::<u8>::empty(),
    {
        self.state = RollSumState::init(self.window_len);
        self.window.clear();
        self.hist = Ghost(Seq::empty());
    }
}

impl CutRule for RollSumIncr {
    open spec fn cut_at(&self, h: Seq<u8>) -> bool {
        self.spec_params().cut_at(h)
    }

    open spec fn after_cut(&self, h: Seq<u8>) -> Seq<u8> {
        Seq::empty()
    }
}

impl ChunkIncr for RollSumIncr {
    closed spec fn history(&self) -> Seq<u8> {
        self.hist@
    }

    closed spec fn inv(&self) -> bool {
        self.wf()
    }

    open spec fn footprint(&self) -> nat {
        self.spec_params().spec_window_len() as nat
    }

    fn push(&mut self, data: &[u8]) -> (r: Option<usize>) {
        let ghost h = self.hist@;
        let ghost p = self.spec_params();
        proof {
            assert(h + data@.take(0) =~= h);
        }
        let mut i: usize = 0;
        while i < data.len()
            invariant
                i <= data.len(),
                h == old(self).hist@,
                p == old(self).spec_params(),
                self.spec_params() == p,
                self.hist@ == h + data@.take(i as int),
                self.wf(),
                no_cut_within(p, h, data@, i as int),
            decreases data.len() - i,
        {
            proof {
                lemma_take_push(h, data@, i as int);
            }
            self.roll_byte(data[i]);
            if self.at_split() {
                proof {
                    lemma_first_cut_found(p, h, data@, (i + 1) as nat);
                    lemma_same_rule_first_cut(*old(self), p, h, data@);
                }
                self.reset();
                return Some(i + 1);
            }
            i += 1;
        }
        proof {
            assert(data@.take(data.len() as int) =~= data@);
            lemma_first_cut_none(p, h, data@);
            lemma_same_rule_first_cut(*old(self), p, h, data@);
        }
        None
    }
}

impl ToChunkIncr for RollSum {
    type Incr = RollSumIncr;

    fn to_chunk_incr(&self) -> (r: RollSumIncr)
        ensures
            r.spec_params() == *self,
    {
        proof {
            use_type_invariant(self);
        }
        RollSumIncr::new(self)
    }
}

} // verus!
