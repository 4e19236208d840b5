//! The window-sum splitter of rsync's rolling checksum family, in its one-shot form.
//!
//! Used by the gzip rsyncable patch and by rsyncrypto to cut content into blocks before a
//! filter (compression, encryption), so that the filtered output still transfers well with
//! rsync. [`crate::gzip`] offers the same rule through the resumable and incremental
//! interfaces; this module holds the accumulator they share.
//!
//! A. Tridgell, "Efficient Algorithms for Sorting and Synchronization", PhD thesis, 1999.
use crate::{
    first_cut, lemma_first_cut_found, lemma_first_cut_none, lemma_first_cut_spec, lemma_take_push,
    no_cut_within, CutRule,
};
use vstd::slice::{slice_subrange, slice_to_vec};
use crate::circ::{last_n, lemma_window_push};
use vstd::arithmetic::div_mod::{
    lemma_add_mod_noop, lemma_fundamental_div_mod, lemma_mod_add_multiples_vanish,
    lemma_mod_multiples_vanish, lemma_mod_sub_multiples_vanish, lemma_mod_twice, lemma_small_mod,
};
use vstd::prelude::*;

verus! {

/// The sum, modulo 2^64, of the last `window_len` bytes of the chunk prefix `s`.
pub open spec fn gzip_sum(window_len: usize, s: Seq<u8>) -> u64
    decreases s.len(),
{
    if s.len() == 0 {
        0
    } else {
        let n = s.len() - 1;
        let p = gzip_sum(window_len, s.drop_last());
        let kept = if n >= window_len {
            p.wrapping_sub(s[n - window_len] as u64)
        } else {
            p
        };
        kept.wrapping_add(s.last() as u64)
    }
}

/// The sum after one more byte.
pub proof fn lemma_gzip_sum_push(window_len: usize, hc: Seq<u8>, v: u8)
    requires
        window_len > 0,
    ensures
        gzip_sum(window_len, hc.push(v)) == if hc.len() >= window_len {
            gzip_sum(window_len, hc).wrapping_sub(hc[hc.len() - window_len] as u64).wrapping_add(
                v as u64,
            )
        } else {
            gzip_sum(window_len, hc).wrapping_add(v as u64)
        },
{
    assert(hc.push(v).drop_last() =~= hc);
}

/// The sum of the bytes of `q`.
pub open spec fn byte_sum(q: Seq<u8>) -> int
    decreases q.len(),
{
    if q.len() == 0 {
        0
    } else {
        byte_sum(q.drop_last()) + q.last()
    }
}

/// Dropping the first byte takes it out of the sum.
proof fn lemma_byte_sum_skip1(q: Seq<u8>)
    requires
        q.len() >= 1,
    ensures
        byte_sum(q.skip(1)) == byte_sum(q) - q[0],
    decreases q.len(),
{
    if q.len() > 1 {
        lemma_byte_sum_skip1(q.drop_last());
        assert(q.skip(1).drop_last() =~= q.drop_last().skip(1));
    } else {
        assert(q.skip(1) =~= Seq::<u8>::empty());
        assert(q.drop_last() =~= Seq::<u8>::empty());
    }
}

/// `2^64`
pub open spec fn two64() -> int {
    0x1_0000_0000_0000_0000
}

/// `wrapping_add` and `wrapping_sub` of a `u64` are the exact result modulo `2^64`.
proof fn lemma_wrapping_mod(g: u64, d: u8, v: u8)
    ensures
        g.wrapping_add(v as u64) as int == (g + v) % two64(),
        g.wrapping_sub(d as u64) as int == (g - d) % two64(),
{
    let m = two64();
    if g + v < m {
        lemma_small_mod((g + v) as nat, m as nat);
    } else {
        lemma_mod_sub_multiples_vanish(g + v, m);
        lemma_small_mod((g + v - m) as nat, m as nat);
    }
    if g - d >= 0 {
        lemma_small_mod((g - d) as nat, m as nat);
    } else {
        lemma_mod_add_multiples_vanish(g - d, m);
        lemma_small_mod((g - d + m) as nat, m as nat);
    }
}

/// The rolling sum is the sum of the last `window_len` bytes, modulo `2^64`: it depends on
/// nothing older.
pub proof fn lemma_gzip_sum_is_window_sum(window_len: usize, s: Seq<u8>)
    requires
        window_len > 0,
    ensures
        gzip_sum(window_len, s) as int == byte_sum(last_n(s, window_len as nat)) % two64(),
    decreases s.len(),
{
    let m = two64();
    if s.len() == 0 {
        lemma_small_mod(0, m as nat);
    } else {
        let p = s.drop_last();
        let v = s.last();
        assert(p.push(v) =~= s);
        lemma_gzip_sum_is_window_sum(window_len, p);
        lemma_gzip_sum_push(window_len, p, v);
        lemma_window_push(last_n(p, window_len as nat), p, window_len as nat, v);
        let q = last_n(p, window_len as nat);
        let big_s = byte_sum(q);
        let g = gzip_sum(window_len, p);
        assert(q.push(v).drop_last() =~= q);
        if p.len() < window_len {
            lemma_wrapping_mod(g, 0, v);
            assert(byte_sum(q.push(v)) == big_s + v);
            lemma_add_mod_noop(big_s, v as int, m);
            lemma_small_mod(v as nat, m as nat);
            lemma_mod_twice(big_s, m);
        } else {
            let d = p[p.len() - window_len];
            lemma_wrapping_mod(g, d, v);
            let gd = g.wrapping_sub(d as u64);
            lemma_wrapping_mod(gd, 0, v);
            lemma_byte_sum_skip1(q);
            assert(q.skip(1).push(v).drop_last() =~= q.skip(1));
            assert(byte_sum(q.skip(1).push(v)) == big_s - d + v);
            // ((S mod m) - d + v) mod m == (S - d + v) mod m
            lemma_fundamental_div_mod(big_s, m);
            lemma_mod_multiples_vanish(-(big_s / m), big_s - d + v, m);
            assert(m * (-(big_s / m)) + (big_s - d + v) == big_s % m - d + v) by (nonlinear_arith)
                requires
                    big_s == m * (big_s / m) + big_s % m,
            ;
            lemma_add_mod_noop(g - d, v as int, m);
            lemma_small_mod(v as nat, m as nat);
            lemma_mod_twice(g - d, m);
        }
    }
}

/// Once `window_len` bytes have come in, the decision on what follows depends on the last
/// `window_len` of them alone: a chunker that has seen a long history decides as one that has
/// only seen its last window.
pub proof fn lemma_gzip_window_only(window_len: usize, h: Seq<u8>, t: Seq<u8>)
    requires
        window_len > 0,
        h.len() >= window_len,
    ensures
        gzip_sum(window_len, h + t) == gzip_sum(window_len, h.skip(h.len() - window_len) + t),
{
    let w = window_len as nat;
    let h2 = h.skip(h.len() - window_len);
    lemma_gzip_sum_is_window_sum(window_len, h + t);
    lemma_gzip_sum_is_window_sum(window_len, h2 + t);
    assert(last_n(h + t, w) =~= last_n(h2 + t, w));
}

/// The running window sum.
pub struct HashState {
    accum: u64,
}

impl HashState {
    pub closed spec fn spec_accum(&self) -> u64 {
        self.accum
    }

    /// A zero sum.
    pub fn new() -> (r: Self)
        ensures
            r.spec_accum() == 0,
    {
        HashState { accum: 0 }
    }

    pub fn reset(&mut self)
        ensures
            final(self).spec_accum() == 0,
    {
        self.accum = 0;
    }

    /// Take out `drop`, if a byte leaves the window, add `v`; true when the sum is then a
    /// multiple of `modulus`.
    pub fn roll(&mut self, drop: Option<u8>, v: u8, modulus: u64) -> (r: bool)
        requires
            modulus > 0,
        ensures
            final(self).spec_accum() == match drop {
                Some(d) => old(self).spec_accum().wrapping_sub(d as u64).wrapping_add(v as u64),
                None => old(self).spec_accum().wrapping_add(v as u64),
            },
            r == (final(self).spec_accum() % modulus == 0),
    {
        if let Some(d) = drop {
            self.accum = self.accum.wrapping_sub(d as u64);
        }
        self.accum = self.accum.wrapping_add(v as u64);
        self.accum % modulus == 0
    }

    /// Add `data[i]` (which is `v`), taking out `data[i - window_len]` once `i >= window_len`;
    /// true when the sum is then a multiple of `base`'s modulus.
    pub fn add(&mut self, data: &[u8], base: &Rsyncable, i: usize, v: u8) -> (r: bool)
        requires
            i < data.len(),
        ensures
            final(self).spec_accum() == if i >= base.spec_window_len() {
                old(self).spec_accum().wrapping_sub(
                    data@[i - base.spec_window_len()] as u64,
                ).wrapping_add(v as u64)
            } else {
                old(self).spec_accum().wrapping_add(v as u64)
            },
            r == (final(self).spec_accum() % base.spec_modulus() == 0),
    {
        proof {
            use_type_invariant(base);
        }
        let drop = if i >= base.window_len {
            Some(data[i - base.window_len])
        } else {
            None
        };
        self.roll(drop, v, base.modulus)
    }
}

/// Window-sum splitting parameters.
#[derive(Clone, Copy, Debug)]
pub struct Rsyncable {
    window_len: usize,
    modulus: u64,
}

impl Rsyncable {
    #[verifier::type_invariant]
    spec fn params_ok(self) -> bool {
        self.window_len > 0 && self.modulus > 0
    }

    pub closed spec fn spec_window_len(&self) -> usize {
        self.window_len
    }

    pub closed spec fn spec_modulus(&self) -> u64 {
        self.modulus
    }

    /// Sums over `window` bytes, split where the sum is a multiple of `modulus`.
    pub fn with_window_and_modulus(window: usize, modulus: u64) -> (r: Rsyncable)
        requires
            window > 0,
            modulus > 0,
        ensures
            r.spec_window_len() == window,
            r.spec_modulus() == modulus,
    {
        Rsyncable { window_len: window, modulus }
    }

    /// The usual parameters: a window of 8192 bytes, modulus 4096.
    pub fn default() -> (r: Self)
        ensures
            r.spec_window_len() == 8192,
            r.spec_modulus() == 4096,
    {
        Self::with_window_and_modulus(8192, 4096)
    }

    /// The length of the first chunk of `data`, or 0 when no boundary falls in `data`.
    pub fn find_chunk_edge(&self, data: &[u8]) -> (r: usize)
        ensures
            r == match first_cut(*self, Seq::<u8>::empty(), data@) {
                Some(k) => k as int,
                None => 0,
            },
    {
        proof {
            use_type_invariant(self);
        }
        let ghost h = Seq::<u8>::empty();
        let mut hs = HashState::new();
        let mut i: usize = 0;
        proof {
            assert(h + data@.take(0) =~= h);
        }
        while i < data.len()
            invariant
                i <= data.len(),
                h == Seq::<u8>::empty(),
                self.window_len > 0,
                hs.spec_accum() == gzip_sum(self.window_len, data@.take(i as int)),
                no_cut_within(*self, h, data@, i as int),
            decreases data.len() - i,
        {
            proof {
                lemma_take_push(h, data@, i as int);
                assert(h + data@.take(i as int) =~= data@.take(i as int));
                assert(h + data@.take(i + 1) =~= data@.take(i + 1));
                lemma_gzip_sum_push(self.window_len, data@.take(i as int), data@[i as int]);
            }
            if hs.add(data, self, i, data[i]) {
                proof {
                    lemma_first_cut_found(*self, h, data@, (i + 1) as nat);
                }
                return i + 1;
            }
            i += 1;
        }
        proof {
            assert(data@.take(data.len() as int) =~= data@);
            lemma_first_cut_none(*self, h, data@);
        }
        0
    }
}

impl Rsyncable {
    /// The first chunk of `data` as a new vector: up to the first boundary, or all of `data`
    /// when no boundary falls in it; `None` when `data` is empty.
    pub fn next_iter(&self, data: &[u8]) -> (r: Option<Vec<u8>>)
        ensures
            data@.len() == 0 ==> r is None,
            data@.len() > 0 ==> (r is Some && r->0@ == match first_cut(
                *self,
                Seq::<u8>::empty(),
                data@,
            ) {
                Some(k) => data@.take(k as int),
                None => data@,
            }),
    {
        proof {
            lemma_first_cut_spec(*self, Seq::<u8>::empty(), data@);
        }
        let l = self.find_chunk_edge(data);
        let n = if l == 0 {
            data.len()
        } else {
            l
        };
        if n == 0 {
            None
        } else {
            let v = slice_to_vec(slice_subrange(data, 0, n));
            proof {
                assert(data@.take(data@.len() as int) =~= data@);
            }
            Some(v)
        }
    }
}

impl CutRule for Rsyncable {
    open spec fn cut_at(&self, h: Seq<u8>) -> bool {
        h.len() > 0 && gzip_sum(self.spec_window_len(), h) % self.spec_modulus() == 0
    }

    open spec fn after_cut(&self, h: Seq<u8>) -> Seq<u8> {
        Seq::empty()
    }
}

} // verus!
