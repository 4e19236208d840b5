//! The `--rsyncable` mode of the widely distributed gzip patch (also used by rsyncrypto).
//!
//! The sum of the last `window_len` bytes; a boundary follows a byte when that sum is a
//! multiple of `modulus`. The usual parameters are a window of 8192 bytes and a modulus of
//! 4096. There is no minimum and no maximum chunk size.
use crate::circ::{
    ends_with, last_n, lemma_ends_with_push, lemma_ends_with_start, lemma_window_push, Buf,
};
use crate::rsyncable::{gzip_sum, lemma_gzip_sum_push, HashState};
use crate::{
    first_cut, lemma_first_cut_found, lemma_first_cut_none, lemma_first_cut_spec,
    lemma_same_rule_first_cut, lemma_take_push, no_cut_within, Chunk, ChunkIncr, CutRule,
    ToChunkIncr,
};
use vstd::prelude::*;

verus! {

/// Parameters of gzip's rsyncable splitting.
#[derive(Clone, Copy, Debug, PartialEq, Eq)]
pub struct GzipRsyncable {
    window_len: usize,
    modulus: u64,
}

impl GzipRsyncable {
    #[verifier::type_invariant]
    spec fn params_ok(self) -> bool {
        self.window_len > 0 && self.modulus > 0
    }

    pub closed spec fn spec_window_len(&self) -> usize {
        self.window_len
    }

    pub closed spec fn spec_modulus(&self) -> u64 {
        self.modulus
    }

    /// Sums over `window` bytes, split where the sum is a multiple of `modulus`.
    pub fn with_window_and_modulus(window: usize, modulus: u64) -> (r: GzipRsyncable)
        requires
            window > 0,
            modulus > 0,
        ensures
            r.spec_window_len() == window,
            r.spec_modulus() == modulus,
    {
        Self { window_len: window, modulus }
    }

    /// gzip's parameters: a window of 8192 bytes, modulus 4096.
    pub fn default() -> (r: GzipRsyncable)
        ensures
            r.spec_window_len() == 8192,
            r.spec_modulus() == 4096,
    {
        Self::with_window_and_modulus(8192, 4096)
    }
}

impl CutRule for GzipRsyncable {
    open spec fn cut_at(&self, h: Seq<u8>) -> bool {
        h.len() > 0 && gzip_sum(self.spec_window_len(), h) % self.spec_modulus() == 0
    }

    open spec fn after_cut(&self, h: Seq<u8>) -> Seq<u8> {
        Seq::empty()
    }
}

/// Search state of [`GzipRsyncable`].
pub struct GzipRsyncableSearchState {
    offset: usize,
    state: HashState,
    hist: Ghost<Seq<u8>>,
}

impl GzipRsyncableSearchState {
    fn reset(&mut self)
        ensures
            final(self).offset == 0,
            final(self).state.spec_accum() == 0,
            final(self).hist@ == Seq::<u8>::empty(),
    {
        self.offset = 0;
        self.state.reset();
        self.hist = Ghost(Seq::empty());
    }
}

impl Chunk for GzipRsyncable {
    type SearchState = GzipRsyncableSearchState;

    closed spec fn search_history(&self, st: GzipRsyncableSearchState) -> Seq<u8> {
        st.hist@
    }

    closed spec fn search_offset(&self, st: GzipRsyncableSearchState) -> nat {
        st.offset as nat
    }

    open spec fn lookback(&self) -> nat {
        self.spec_window_len() as nat
    }

    closed spec fn search_inv(&self, st: GzipRsyncableSearchState) -> bool {
        &&& st.state.spec_accum() == gzip_sum(self.window_len, st.hist@)
        &&& self.window_len > 0
        &&& self.modulus > 0
    }

    fn to_search_state(&self) -> (r: GzipRsyncableSearchState) {
        proof {
            use_type_invariant(self);
        }
        GzipRsyncableSearchState { offset: 0, state: HashState::new(), hist: Ghost(Seq::empty()) }
    }

    fn find_chunk_edge(&self, state: &mut GzipRsyncableSearchState, data: &[u8]) -> (r: (
        Option<usize>,
        usize,
    )) {
        let ghost h = state.hist@;
        let o = state.offset;
        let w = self.window_len;
        let ghost fresh = data@.skip(o as int);
        proof {
            lemma_ends_with_start(h, data@, o as int);
            assert(h + fresh.take(0) =~= h);
            lemma_first_cut_spec(*self, h, fresh);
        }
        let mut i: usize = o;
        while i < data.len()
            invariant
                o <= i <= data.len(),
                w == self.window_len,
                w > 0,
                self.modulus > 0,
                h == old(state).hist@,
                o == old(state).offset,
                o == if h.len() < w {
                    h.len()
                } else {
                    w as nat
                },
                fresh == data@.skip(o as int),
                state.hist@ == h + fresh.take(i - o),
                state.state.spec_accum() == gzip_sum(w, state.hist@),
                ends_with(state.hist@, data@, i as int),
                no_cut_within(*self, h, fresh, i - o),
            decreases data.len() - i,
        {
            let ghost hc = state.hist@;
            let v = data[i];
            proof {
                lemma_take_push(h, fresh, i - o);
                assert(fresh[i - o] == data@[i as int]);
                lemma_ends_with_push(hc, data@, i as int, w as int);
                lemma_gzip_sum_push(w, hc, v);
                assert(i >= w <==> hc.len() >= w);
            }
            let drop: Option<u8> = if i >= w {
                Some(data[i - w])
            } else {
                None
            };
            let hit = state.state.roll(drop, v, self.modulus);
            state.hist = Ghost(hc.push(v));
            if hit {
                proof {
                    lemma_first_cut_found(*self, h, fresh, (i + 1 - o) as nat);
                }
                state.reset();
                return (Some(i + 1), i + 1);
            }
            i += 1;
        }
        proof {
            assert(fresh.take(fresh.len() as int) =~= fresh);
            lemma_first_cut_none(*self, h, fresh);
        }
        // keep the last `window_len` bytes, discard the rest
        let discard_ct = data.len().saturating_sub(w);
        state.offset = data.len() - discard_ct;
        (None, discard_ct)
    }
}

/// Incremental form of [`GzipRsyncable`].
///
/// The sum needs the byte that leaves the window, so every byte passes through an internal
/// circular buffer of `window_len` bytes; [`GzipRsyncable::find_chunk_edge`] reads the
/// caller's slice instead and is faster where it can be used.
pub struct GzipRsyncableIncr {
    params: GzipRsyncable,
    accum: HashState,
    window: Buf<u8>,
    hist: Ghost<Seq<u8>>,
}

impl GzipRsyncableIncr {
    pub closed spec fn spec_params(&self) -> GzipRsyncable {
        self.params
    }

    pub closed spec fn spec_history(&self) -> Seq<u8> {
        self.hist@
    }

    pub closed spec fn wf(&self) -> bool {
        &&& self.accum.spec_accum() == gzip_sum(self.params.window_len, self.hist@)
        &&& self.params.window_len > 0
        &&& self.params.modulus > 0
        &&& self.window.wf()
        &&& self.window.spec_limit() == self.params.window_len
        &&& self.window@ == last_n(self.hist@, self.params.window_len as nat)
    }

    /// A fresh incremental chunker for `params`.
    pub fn from(params: GzipRsyncable) -> (r: Self)
        ensures
            r.wf(),
            r.spec_params() == params,
            r.spec_history() == Seq::<u8>::empty(),
    {
        proof {
            use_type_invariant(&params);
        }
        let window = Buf::new(params.window_len);
        GzipRsyncableIncr { params, accum: HashState::new(), window, hist: Ghost(Seq::empty()) }
    }

    fn reset(&mut self)
        requires
            old(self).wf(),
        ensures
            final(self).wf(),
            final(self).params == old(self).params,
            final(self).hist@ == Seq::<u8>::empty(),
    {
        self.window.clear();
        self.accum.reset();
        self.hist = Ghost(Seq::empty());
    }
}

impl CutRule for GzipRsyncableIncr {
    open spec fn cut_at(&self, h: Seq<u8>) -> bool {
        self.spec_params().cut_at(h)
    }

    open spec fn after_cut(&self, h: Seq<u8>) -> Seq<u8> {
        Seq::empty()
    }
}

impl ChunkIncr for GzipRsyncableIncr {
    closed spec fn history(&self) -> Seq<u8> {
        self.hist@
    }

    closed spec fn inv(&self) -> bool {
        self.wf()
    }

    open spec fn footprint(&self) -> nat {
        self.spec_params().spec_window_len() as nat
    }

    fn push(&mut self, data: &[u8]) -> (r: Option<usize>) {
        let ghost h = self.hist@;
        let ghost p = self.params;
        proof {
            assert(h + data@.take(0) =~= h);
        }
        let mut i: usize = 0;
        while i < data.len()
            invariant
                i <= data.len(),
                h == old(self).hist@,
                p == old(self).params,
                self.params == p,
                self.hist@ == h + data@.take(i as int),
                self.wf(),
                no_cut_within(p, h, data@, i as int),
            decreases data.len() - i,
        {
            let ghost hc = self.hist@;
            let v = data[i];
            proof {
                lemma_take_push(h, data@, i as int);
                lemma_window_push(self.window@, hc, self.params.window_len as nat, v);
                lemma_gzip_sum_push(self.params.window_len, hc, v);
            }
            let drop = self.window.push(v);
            let hit = self.accum.roll(drop, v, self.params.modulus);
            self.hist = Ghost(hc.push(v));
            if hit {
                proof {
                    lemma_first_cut_found(p, h, data@, (i + 1) as nat);
                    lemma_same_rule_first_cut(*old(self), p, h, data@);
                }
                self.reset();
                return Some(i + 1);
            }
            i += 1;
        }
        proof {
            assert(data@.take(data.len() as int) =~= data@);
            lemma_first_cut_none(p, h, data@);
            lemma_same_rule_first_cut(*old(self), p, h, data@);
        }
        None
    }
}

impl ToChunkIncr for GzipRsyncable {
    type Incr = GzipRsyncableIncr;

    fn to_chunk_incr(&self) -> (r: GzipRsyncableIncr)
        ensures
            r.spec_params() == *self,
    {
        GzipRsyncableIncr::from(*self)
    }
}

} // verus!
