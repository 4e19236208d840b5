//! Properties that hold of every algorithm, stated over the boundary model of the crate root.
use crate::circ::last_n;
use crate::fastcdc::FastCdc;
use crate::gzip::GzipRsyncable;
use crate::pigz::{lemma_pigz_hash_append, lemma_pigz_hash_forgets, pigz_hash, PigzRsyncable};
use crate::rsyncable::lemma_gzip_window_only;
use crate::ram::Ram;
use crate::range::{spec_exceeds_max, spec_under_min};
use crate::zpaq::Zpaq;
use crate::zstd::{Zstd, RSYNC_LENGTH};
use crate::{
    cuts, first_cut, history_after, scan_from, lemma_first_cut_found, lemma_first_cut_none,
    lemma_first_cut_spec, lemma_same_rule_first_cut, no_cut_within, same_rule, shift, CutRule,
};
use vstd::prelude::*;

verus! {

proof fn lemma_shift_append(x: Seq<nat>, y: Seq<nat>, d: nat)
    ensures
        shift(x + y, d) == shift(x, d) + shift(y, d),
{
    assert(shift(x + y, d) =~= shift(x, d) + shift(y, d));
}

proof fn lemma_shift_shift(x: Seq<nat>, d1: nat, d2: nat)
    ensures
        shift(shift(x, d1), d2) == shift(x, d1 + d2),
{
    assert(shift(shift(x, d1), d2) =~= shift(x, d1 + d2));
}

/// A boundary found in `a` is the first one in `a + b` too.
proof fn lemma_first_cut_prefix<R: CutRule>(r: R, h: Seq<u8>, a: Seq<u8>, b: Seq<u8>, k: nat)
    requires
        first_cut(r, h, a) == Some(k),
    ensures
        first_cut(r, h, a + b) == Some(k),
        0 < k <= a.len(),
{
    lemma_first_cut_spec(r, h, a);
    assert((a + b).take(k as int) =~= a.take(k as int));
    assert forall|j: int| 1 <= j <= k - 1 implies !#[trigger] r.cut_at(h + (a + b).take(j)) by {
        assert((a + b).take(j) =~= a.take(j));
    }
    lemma_first_cut_found(r, h, a + b, k);
}

/// When `a` holds no boundary, the first boundary of `a + b` is that of `b` after `h + a`.
proof fn lemma_first_cut_after_none<R: CutRule>(r: R, h: Seq<u8>, a: Seq<u8>, b: Seq<u8>)
    requires
        first_cut(r, h, a) == None::<nat>,
    ensures
        first_cut(r, h, a + b) == match first_cut(r, h + a, b) {
            Some(j) => Some(a.len() + j),
            None => None::<nat>,
        },
{
    lemma_first_cut_spec(r, h, a);
    lemma_first_cut_spec(r, h + a, b);
    assert forall|i: int| 1 <= i <= a.len() implies !#[trigger] r.cut_at(h + (a + b).take(i)) by {
        assert((a + b).take(i) =~= a.take(i));
    }
    assert forall|i: int| 0 <= i <= b.len() implies h + (a + b).take(a.len() + i) == (h + a)
        + b.take(i) by {
        assert(h + (a + b).take(a.len() + i) =~= (h + a) + b.take(i));
    }
    match first_cut(r, h + a, b) {
        Some(j) => {
            assert forall|i: int| 1 <= i <= a.len() + j - 1 implies !#[trigger] r.cut_at(
                h + (a + b).take(i),
            ) by {
                if i > a.len() {
                    assert(h + (a + b).take(a.len() + (i - a.len())) == (h + a) + b.take(
                        i - a.len(),
                    ));
                }
            }
            assert(h + (a + b).take(a.len() + j as int) == (h + a) + b.take(j as int));
            lemma_first_cut_found(r, h, a + b, a.len() + j);
        },
        None => {
            assert forall|i: int| 1 <= i <= (a + b).len() implies !#[trigger] r.cut_at(
                h + (a + b).take(i),
            ) by {
                if i > a.len() {
                    assert(h + (a + b).take(a.len() + (i - a.len())) == (h + a) + b.take(
                        i - a.len(),
                    ));
                }
            }
            lemma_first_cut_none(r, h, a + b);
        },
    }
}

/// Feeding `a` and then `b` finds the same boundaries as feeding `a + b` at once: those of `a`,
/// then those of `b` (from the history `a` leaves) moved on by `a.len()`; and it leaves the
/// same history. By induction, every way of cutting the input into calls, down to one byte per
/// call, finds the same boundaries as a single call.
pub proof fn lemma_feed_split<R: CutRule>(r: R, h: Seq<u8>, a: Seq<u8>, b: Seq<u8>)
    ensures
        cuts(r, h, a + b) == cuts(r, h, a) + shift(cuts(r, history_after(r, h, a), b), a.len()),
        history_after(r, h, a + b) == history_after(r, history_after(r, h, a), b),
    decreases a.len(),
{
    match first_cut(r, h, a) {
        Some(k) => {
            lemma_first_cut_prefix(r, h, a, b, k);
            let h2 = r.after_cut(h + a.take(k as int));
            let rest = a.skip(k as int);
            assert((a + b).take(k as int) =~= a.take(k as int));
            assert((a + b).skip(k as int) =~= rest + b);
            lemma_feed_split(r, h2, rest, b);
            let hh = history_after(r, h2, rest);
            let tail = cuts(r, hh, b);
            lemma_shift_append(cuts(r, h2, rest), shift(tail, rest.len()), k);
            lemma_shift_shift(tail, rest.len(), k);
            assert(rest.len() + k == a.len());
            assert(seq![k].add(shift(cuts(r, h2, rest), k) + shift(tail, a.len())) =~= seq![k].add(
                shift(cuts(r, h2, rest), k),
            ) + shift(tail, a.len()));
        },
        None => {
            lemma_first_cut_after_none(r, h, a, b);
            assert(history_after(r, h, a) == h + a);
            assert(cuts(r, h, a) == Seq::<nat>::empty());
            match first_cut(r, h + a, b) {
                Some(j) => {
                    lemma_first_cut_spec(r, h + a, b);
                    let n = a.len() + j;
                    assert(h + (a + b).take(n as int) =~= (h + a) + b.take(j as int));
                    assert((a + b).skip(n as int) =~= b.skip(j as int));
                    let after = r.after_cut((h + a) + b.take(j as int));
                    let tail = cuts(r, after, b.skip(j as int));
                    lemma_shift_shift(tail, j, a.len());
                    lemma_shift_append(seq![j], shift(tail, j), a.len());
                    assert(shift(seq![j], a.len()) =~= seq![n]);
                    assert(Seq::<nat>::empty() + shift(cuts(r, h + a, b), a.len()) =~= shift(
                        cuts(r, h + a, b),
                        a.len(),
                    ));
                },
                None => {
                    assert(Seq::<nat>::empty() + shift(Seq::<nat>::empty(), a.len()) =~= Seq::<
                        nat,
                    >::empty());
                    assert(h + (a + b) =~= (h + a) + b);
                },
            }
        },
    }
}

/// Two chunkers that follow the same rule and share a history find the same boundaries in the
/// same bytes, and are left with the same history: the outcome depends on nothing but the
/// configuration and the bytes. [`crate::ToChunkIncr::to_chunk_incr`] gives an incremental
/// chunker the rule of its configuration, so the incremental and the resumable interface agree.
pub proof fn lemma_same_rule_cuts<R: CutRule, S: CutRule>(a: R, b: S, h: Seq<u8>, s: Seq<u8>)
    requires
        same_rule(a, b),
    ensures
        cuts(a, h, s) == cuts(b, h, s),
        history_after(a, h, s) == history_after(b, h, s),
    decreases s.len(),
{
    lemma_same_rule_first_cut(a, b, h, s);
    lemma_first_cut_spec(a, h, s);
    match first_cut(a, h, s) {
        Some(k) => {
            assert(a.after_cut(h + s.take(k as int)) == b.after_cut(h + s.take(k as int)));
            lemma_same_rule_cuts(a, b, a.after_cut(h + s.take(k as int)), s.skip(k as int));
        },
        None => {},
    }
}

/// An empty input holds no boundary and gives no chunk.
pub proof fn lemma_empty_input<R: CutRule>(r: R, h: Seq<u8>)
    ensures
        first_cut(r, h, Seq::<u8>::empty()) == None::<nat>,
        cuts(r, h, Seq::<u8>::empty()) == Seq::<nat>::empty(),
        history_after(r, h, Seq::<u8>::empty()) == h,
{
    lemma_first_cut_none(r, h, Seq::<u8>::empty());
    assert(h + Seq::<u8>::empty() =~= h);
}

/// A chunk of FastCDC never ends within its first `min_size` bytes.
pub proof fn lemma_fastcdc_short_input(c: FastCdc, s: Seq<u8>)
    requires
        c.spec_min_size() < c.spec_max_size(),
        s.len() <= c.spec_min_size(),
    ensures
        first_cut(c, Seq::<u8>::empty(), s) == None::<nat>,
        cuts(c, Seq::<u8>::empty(), s) == Seq::<nat>::empty(),
{
    assert forall|j: int| 1 <= j <= s.len() implies !#[trigger] c.cut_at(
        Seq::<u8>::empty() + s.take(j),
    ) by {
        assert((Seq::<u8>::empty() + s.take(j)).len() == j);
    }
    lemma_first_cut_none(c, Seq::<u8>::empty(), s);
}

/// A chunk of RAM never ends within its first `w + 1` bytes.
pub proof fn lemma_ram_short_input(c: Ram, s: Seq<u8>)
    requires
        s.len() <= c.spec_w() + 1,
    ensures
        first_cut(c, Seq::<u8>::empty(), s) == None::<nat>,
        cuts(c, Seq::<u8>::empty(), s) == Seq::<nat>::empty(),
{
    assert forall|j: int| 1 <= j <= s.len() implies !#[trigger] c.cut_at(
        Seq::<u8>::empty() + s.take(j),
    ) by {
        assert((Seq::<u8>::empty() + s.take(j)).len() == j);
    }
    lemma_first_cut_none(c, Seq::<u8>::empty(), s);
}

/// A chunk of zpaq never ends below the minimum of its size range (unless that minimum lies
/// past the maximum).
pub proof fn lemma_zpaq_short_input(c: Zpaq, s: Seq<u8>)
    requires
        spec_under_min(c.spec_range().0, s.len() as int),
        !spec_exceeds_max(c.spec_range().1, s.len() as int),
    ensures
        first_cut(c, Seq::<u8>::empty(), s) == None::<nat>,
        cuts(c, Seq::<u8>::empty(), s) == Seq::<nat>::empty(),
{
    assert forall|j: int| 1 <= j <= s.len() implies !#[trigger] c.cut_at(
        Seq::<u8>::empty() + s.take(j),
    ) by {
        assert((Seq::<u8>::empty() + s.take(j)).len() == j);
    }
    lemma_first_cut_none(c, Seq::<u8>::empty(), s);
}

/// No boundary falls within the first `RSYNC_LENGTH` bytes of a zstd stream.
pub proof fn lemma_zstd_short_input(c: Zstd, s: Seq<u8>)
    requires
        s.len() <= RSYNC_LENGTH,
    ensures
        first_cut(c, Seq::<u8>::empty(), s) == None::<nat>,
        cuts(c, Seq::<u8>::empty(), s) == Seq::<nat>::empty(),
{
    assert forall|j: int| 1 <= j <= s.len() implies !#[trigger] c.cut_at(
        Seq::<u8>::empty() + s.take(j),
    ) by {
        assert((Seq::<u8>::empty() + s.take(j)).len() == j);
    }
    lemma_first_cut_none(c, Seq::<u8>::empty(), s);
}

/// The state of the gzip rsyncable chunker is bounded by its window: after a history of at
/// least `window_len` bytes, every later decision is the one a chunker that had seen only the
/// last `window_len` bytes of that history would make.
pub proof fn lemma_gzip_bounded_state(c: GzipRsyncable, h: Seq<u8>, t: Seq<u8>)
    requires
        c.spec_window_len() > 0,
        h.len() >= c.spec_window_len(),
    ensures
        c.cut_at(h + t) == c.cut_at(h.skip(h.len() - c.spec_window_len()) + t),
{
    lemma_gzip_window_only(c.spec_window_len(), h, t);
}

proof fn lemma_scan_same_decisions<R: CutRule>(
    r: R,
    h1: Seq<u8>,
    h2: Seq<u8>,
    s: Seq<u8>,
    j: nat,
)
    requires
        forall|i: int| 0 <= i <= s.len() ==> #[trigger] r.cut_at(h1 + s.take(i)) == r.cut_at(
            h2 + s.take(i),
        ),
    ensures
        scan_from(r, h1, s, j) == scan_from(r, h2, s, j),
    decreases s.len() - j,
{
    if j < s.len() {
        assert(r.cut_at(h1 + s.take(j + 1 as int)) == r.cut_at(h2 + s.take(j + 1 as int)));
        lemma_scan_same_decisions(r, h1, h2, s, j + 1);
    }
}

/// Local edits stay local: two gzip rsyncable chunkers whose histories end with the same
/// `window_len` bytes find the same boundaries in whatever follows, however the earlier bytes
/// differ. An insertion, deletion or change thus moves no boundary once a window of unchanged
/// bytes has passed inside a chunk.
pub proof fn lemma_gzip_resync(c: GzipRsyncable, h1: Seq<u8>, h2: Seq<u8>, t: Seq<u8>)
    requires
        c.spec_window_len() > 0,
        h1.len() >= c.spec_window_len(),
        h2.len() >= c.spec_window_len(),
        h1.skip(h1.len() - c.spec_window_len()) == h2.skip(h2.len() - c.spec_window_len()),
    ensures
        first_cut(c, h1, t) == first_cut(c, h2, t),
        cuts(c, h1, t) == cuts(c, h2, t),
{
    let w = c.spec_window_len();
    assert forall|i: int| 0 <= i <= t.len() implies #[trigger] c.cut_at(h1 + t.take(i))
        == c.cut_at(h2 + t.take(i)) by {
        lemma_gzip_window_only(w, h1, t.take(i));
        lemma_gzip_window_only(w, h2, t.take(i));
    }
    lemma_scan_same_decisions(c, h1, h2, t, 0);
}

/// The state of the pigz rsyncable chunker is bounded too: after a history of at least `bits`
/// bytes, every later decision is the one a chunker that had seen only the last `bits` bytes
/// of that history would make.
pub proof fn lemma_pigz_bounded_state(c: PigzRsyncable, h: Seq<u8>, t: Seq<u8>)
    requires
        c.spec_bits() < 32,
        c.spec_mask() == ((1u32 << c.spec_bits()) - 1) as u32,
        h.len() >= c.spec_bits(),
        t.len() > 0,
    ensures
        c.cut_at(h + t) == c.cut_at(h.skip(h.len() - c.spec_bits()) + t),
{
    let bits = c.spec_bits() as u32;
    let m = c.spec_mask();
    let k = h.len() - c.spec_bits();
    let head = h.take(k);
    let tail = h.skip(k) + t;
    assert(h + t =~= head + tail);
    lemma_pigz_hash_append(m, c.spec_hit(), head, tail);
    lemma_pigz_hash_forgets(bits, pigz_hash(m, c.spec_hit(), head), c.spec_hit(), tail);
}

/// The window that a windowed incremental chunker keeps, `last_n(history, w)`, never holds
/// more than `w` bytes, however long the stream.
pub proof fn lemma_window_bounded(h: Seq<u8>, w: nat)
    ensures
        last_n(h, w).len() <= w,
        h.len() >= w ==> last_n(h, w).len() == w,
{
}

} // verus!
