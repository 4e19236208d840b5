//! Content defined chunking: functions that scan a byte stream and pick split points from the
//! bytes themselves, so that a local edit of the stream moves only the nearby boundaries.
//!
//! Every algorithm is described by a [`CutRule`]: a predicate `cut_at(h)` telling whether a
//! boundary follows the last byte of the history `h`, and `after_cut(h)`, the history the search
//! continues from after such a boundary (empty for the algorithms that reset at a boundary).
//! The two calling conventions are stated against the same rule:
//!
//! - [`Chunk::find_chunk_edge`] searches caller-owned slices and reports how many leading bytes
//!   the caller may drop before the next call;
//! - [`ChunkIncr::push`] owns its state and accepts buffers of any size, one at a time.
//!
//! Both return the first boundary that [`first_cut`] gives, so they agree with each other and
//! with themselves under every way of splitting the input (see [`laws`]).
use vstd::prelude::*;
use vstd::slice::slice_subrange;

pub mod bup;
pub mod buzhash;
pub mod circ;
pub mod fastcdc;
pub mod gear;
pub mod gzip;
pub mod laws;
pub mod mii;
pub mod pigz;
pub mod ram;
pub mod range;
pub mod rsyncable;
pub mod window;
pub mod zpaq;
pub mod zstd;

verus! {

/// The boundary rule of an algorithm with fixed parameters.
pub trait CutRule {
    /// Whether a chunk boundary follows the last byte of the history `h`.
    spec fn cut_at(&self, h: Seq<u8>) -> bool;

    /// The history that the search continues from after a boundary at the end of `h`.
    spec fn after_cut(&self, h: Seq<u8>) -> Seq<u8>;
}

/// The first boundary at or after position `j` of `s`, when `s` follows the history `h`: the
/// length of the prefix of `s` that ends there.
pub open spec fn scan_from<R: CutRule>(r: R, h: Seq<u8>, s: Seq<u8>, j: nat) -> Option<nat>
    decreases s.len() - j,
{
    if j >= s.len() {
        None
    } else if r.cut_at(h + s.take(j + 1 as int)) {
        Some(j + 1)
    } else {
        scan_from(r, h, s, j + 1)
    }
}

/// The first boundary in `s` when `s` follows the history `h`, as the length of the prefix of
/// `s` that completes the chunk; `None` when no boundary falls inside `s`.
pub open spec fn first_cut<R: CutRule>(r: R, h: Seq<u8>, s: Seq<u8>) -> Option<nat> {
    scan_from(r, h, s, 0)
}

/// No boundary follows any of the first `n` bytes of `s` (after `h`).
pub open spec fn no_cut_within<R: CutRule>(r: R, h: Seq<u8>, s: Seq<u8>, n: int) -> bool {
    forall|j: int| 1 <= j <= n ==> !#[trigger] r.cut_at(h + s.take(j))
}

/// The history after `s` has been fed to a chunker whose history was `h`.
pub open spec fn history_after<R: CutRule>(r: R, h: Seq<u8>, s: Seq<u8>) -> Seq<u8>
    decreases s.len(),
{
    match first_cut(r, h, s) {
        Some(k) => if 0 < k <= s.len() {
            history_after(r, r.after_cut(h + s.take(k as int)), s.skip(k as int))
        } else {
            h + s
        },
        None => h + s,
    }
}

/// Every offset of `c` moved on by `d`.
pub open spec fn shift(c: Seq<nat>, d: nat) -> Seq<nat> {
    c.map_values(|x: nat| x + d)
}

/// The boundaries that a chunker whose history is `h` finds in `s`, each as an offset into `s`
/// just past the last byte of a chunk.
pub open spec fn cuts<R: CutRule>(r: R, h: Seq<u8>, s: Seq<u8>) -> Seq<nat>
    decreases s.len(),
{
    match first_cut(r, h, s) {
        Some(k) => if 0 < k <= s.len() {
            seq![k].add(shift(cuts(r, r.after_cut(h + s.take(k as int)), s.skip(k as int)), k))
        } else {
            Seq::empty()
        },
        None => Seq::empty(),
    }
}

/// Two values follow the same boundary rule.
pub open spec fn same_rule<R: CutRule, S: CutRule>(a: R, b: S) -> bool {
    &&& forall|h: Seq<u8>| #[trigger] a.cut_at(h) == b.cut_at(h)
    &&& forall|h: Seq<u8>| #[trigger] a.after_cut(h) == b.after_cut(h)
}

pub proof fn lemma_scan_from_found<R: CutRule>(r: R, h: Seq<u8>, s: Seq<u8>, j: nat, k: nat)
    requires
        j < k <= s.len(),
        r.cut_at(h + s.take(k as int)),
        forall|i: int| j < i < k ==> !#[trigger] r.cut_at(h + s.take(i)),
    ensures
        scan_from(r, h, s, j) == Some(k),
    decreases k - j,
{
    if j + 1 < k {
        assert(!r.cut_at(h + s.take(j + 1 as int)));
        lemma_scan_from_found(r, h, s, j + 1, k);
    }
}

pub proof fn lemma_scan_from_none<R: CutRule>(r: R, h: Seq<u8>, s: Seq<u8>, j: nat)
    requires
        forall|i: int| j < i <= s.len() ==> !#[trigger] r.cut_at(h + s.take(i)),
    ensures
        scan_from(r, h, s, j) == None::<nat>,
    decreases s.len() - j,
{
    if j < s.len() {
        assert(!r.cut_at(h + s.take(j + 1 as int)));
        lemma_scan_from_none(r, h, s, j + 1);
    }
}

pub proof fn lemma_scan_from_spec<R: CutRule>(r: R, h: Seq<u8>, s: Seq<u8>, j: nat)
    ensures
        match scan_from(r, h, s, j) {
            Some(k) => j < k <= s.len() && r.cut_at(h + s.take(k as int)) && forall|i: int|
                j < i < k ==> !#[trigger] r.cut_at(h + s.take(i)),
            None => forall|i: int| j < i <= s.len() ==> !#[trigger] r.cut_at(h + s.take(i)),
        },
    decreases s.len() - j,
{
    if j < s.len() {
        lemma_scan_from_spec(r, h, s, j + 1);
    }
}

/// `first_cut` is `Some(k)` exactly when a boundary follows the `k`-th byte and none follows an
/// earlier one.
pub proof fn lemma_first_cut_found<R: CutRule>(r: R, h: Seq<u8>, s: Seq<u8>, k: nat)
    requires
        0 < k <= s.len(),
        r.cut_at(h + s.take(k as int)),
        no_cut_within(r, h, s, k - 1),
    ensures
        first_cut(r, h, s) == Some(k),
{
    lemma_scan_from_found(r, h, s, 0, k);
}

/// `first_cut` is `None` exactly when no boundary follows any byte of `s`.
pub proof fn lemma_first_cut_none<R: CutRule>(r: R, h: Seq<u8>, s: Seq<u8>)
    requires
        no_cut_within(r, h, s, s.len() as int),
    ensures
        first_cut(r, h, s) == None::<nat>,
{
    lemma_scan_from_none(r, h, s, 0);
}

/// What `first_cut` says of the positions up to it.
pub proof fn lemma_first_cut_spec<R: CutRule>(r: R, h: Seq<u8>, s: Seq<u8>)
    ensures
        match first_cut(r, h, s) {
            Some(k) => 0 < k <= s.len() && r.cut_at(h + s.take(k as int)) && no_cut_within(
                r,
                h,
                s,
                k - 1,
            ),
            None => no_cut_within(r, h, s, s.len() as int),
        },
{
    lemma_scan_from_spec(r, h, s, 0);
}

/// Values that follow the same rule find the same boundaries.
pub proof fn lemma_same_rule_scan<R: CutRule, S: CutRule>(
    a: R,
    b: S,
    h: Seq<u8>,
    s: Seq<u8>,
    j: nat,
)
    requires
        same_rule(a, b),
    ensures
        scan_from(a, h, s, j) == scan_from(b, h, s, j),
    decreases s.len() - j,
{
    if j < s.len() {
        assert(a.cut_at(h + s.take(j + 1 as int)) == b.cut_at(h + s.take(j + 1 as int)));
        lemma_same_rule_scan(a, b, h, s, j + 1);
    }
}

/// Values that follow the same rule find the same first boundary.
pub proof fn lemma_same_rule_first_cut<R: CutRule, S: CutRule>(
    a: R,
    b: S,
    h: Seq<u8>,
    s: Seq<u8>,
)
    requires
        same_rule(a, b),
    ensures
        first_cut(a, h, s) == first_cut(b, h, s),
{
    lemma_same_rule_scan(a, b, h, s, 0);
}

/// Appending one more byte of `s` to `h + s.take(i)`.
pub proof fn lemma_take_push(h: Seq<u8>, s: Seq<u8>, i: int)
    requires
        0 <= i < s.len(),
    ensures
        h + s.take(i + 1) == (h + s.take(i)).push(s[i]),
        (h + s.take(i + 1)).drop_last() == h + s.take(i),
        (h + s.take(i + 1)).last() == s[i],
        (h + s.take(i + 1)).len() == h.len() + i + 1,
{
    assert(h + s.take(i + 1) =~= (h + s.take(i)).push(s[i]));
    assert((h + s.take(i + 1)).drop_last() =~= h + s.take(i));
}

/// Accept incremental input and report where the chunks end.
///
/// All the data pushed into one value belongs to one source. To chunk another source, start
/// from a fresh value.
pub trait ChunkIncr: CutRule + Sized {
    /// The bytes on which the next boundary decision depends.
    spec fn history(&self) -> Seq<u8>;

    /// The state is well formed.
    spec fn inv(&self) -> bool;

    /// Bytes of input that the state keeps; fixed when the chunker is made.
    spec fn footprint(&self) -> nat;

    /// Feed `data` and return the offset in `data` just past the end of the first chunk that
    /// ends inside it, or `None` when `data` ends no chunk.
    ///
    /// After `Some(k)`, the bytes `data[k..]` have not been examined: push them again to find
    /// the next boundary.
    fn push(&mut self, data: &[u8]) -> (r: Option<usize>)
        requires
            old(self).inv(),
            old(self).history().len() + data.len() <= u64::MAX,
        ensures
            final(self).inv(),
            same_rule(*final(self), *old(self)),
            final(self).footprint() == old(self).footprint(),
            match first_cut(*old(self), old(self).history(), data@) {
                Some(k) => r == Some(k as usize) && final(self).history() == old(self).after_cut(
                    old(self).history() + data@.take(k as int),
                ),
                None => r is None && final(self).history() == old(self).history() + data@,
            },
    ;
}

/// Yields the complete chunks of a slice.
pub struct IterSlicesStrict<'a, C: ChunkIncr> {
    rem: &'a [u8],
    chunker: C,
}

impl<'a, C: ChunkIncr> IterSlicesStrict<'a, C> {
    pub closed spec fn spec_rem(&self) -> Seq<u8> {
        self.rem@
    }

    /// Chunk `data` into complete chunks only; the remainder stays in the iterator (see
    /// [`IterSlicesStrict::take_rem`]). Meant for a fresh chunker.
    pub fn new(chunker: C, data: &'a [u8]) -> (r: Self)
        ensures
            r.spec_chunker() == chunker,
            r.spec_rem() == data@,
    {
        IterSlicesStrict { rem: data, chunker }
    }

    pub closed spec fn spec_chunker(&self) -> C {
        self.chunker
    }

    /// Take the bytes not yet returned, leaving an empty slice.
    pub fn take_rem(&mut self) -> (r: &'a [u8])
        ensures
            r@ == old(self).spec_rem(),
            final(self).spec_rem() == Seq::<u8>::empty(),
            final(self).spec_chunker() == old(self).spec_chunker(),
    {
        let l = self.rem;
        self.rem = slice_subrange(l, 0, 0);
        proof {
            assert(self.rem@ =~= Seq::<u8>::empty());
        }
        l
    }

    /// The chunker and the bytes not yet returned.
    pub fn into_parts(self) -> (r: (C, &'a [u8]))
        ensures
            r.0 == self.spec_chunker(),
            r.1@ == self.spec_rem(),
    {
        (self.chunker, self.rem)
    }

    /// The next complete chunk; `None` when the rest ends no chunk (it stays, fed to the
    /// chunker, in the iterator).
    pub fn next(&mut self) -> (r: Option<&'a [u8]>)
        requires
            old(self).spec_chunker().inv(),
            old(self).spec_chunker().history().len() + old(self).spec_rem().len() <= u64::MAX,
        ensures
            final(self).spec_chunker().inv(),
            same_rule(final(self).spec_chunker(), old(self).spec_chunker()),
            ({
                let c = old(self).spec_chunker();
                let rem = old(self).spec_rem();
                match first_cut(c, c.history(), rem) {
                    Some(k) => r matches Some(v) && v@ == rem.take(k as int) && final(self).spec_rem() == rem.skip(k as int) && final(self).spec_chunker().history()
                        == c.after_cut(c.history() + rem.take(k as int)),
                    None => r is None && final(self).spec_rem() == rem && final(self).spec_chunker().history() == c.history() + rem,
                }
            }),
    {
        proof {
            lemma_first_cut_spec(self.chunker, self.chunker.history(), self.rem@);
        }
        match self.chunker.push(self.rem) {
            None => None,
            Some(l) => {
                let v = slice_subrange(self.rem, 0, l);
                self.rem = slice_subrange(self.rem, l, self.rem.len());
                proof {
                    assert(v@ =~= old(self).rem@.take(l as int));
                    assert(self.rem@ =~= old(self).rem@.skip(l as int));
                }
                Some(v)
            },
        }
    }
}

/// Yields the chunks of a slice and then its remainder.
pub struct IterSlices<'a, C: ChunkIncr> {
    rem: &'a [u8],
    chunker: C,
}

impl<'a, C: ChunkIncr> IterSlices<'a, C> {
    pub closed spec fn spec_rem(&self) -> Seq<u8> {
        self.rem@
    }

    /// Chunk `data` into slices; the last one holds the remainder that ends no chunk, if
    /// any.
    pub fn new(chunker: C, data: &'a [u8]) -> (r: Self)
        ensures
            r.spec_chunker() == chunker,
            r.spec_rem() == data@,
    {
        IterSlices { rem: data, chunker }
    }

    pub closed spec fn spec_chunker(&self) -> C {
        self.chunker
    }

    /// The chunker and the bytes not yet returned.
    pub fn into_parts(self) -> (r: (C, &'a [u8]))
        ensures
            r.0 == self.spec_chunker(),
            r.1@ == self.spec_rem(),
    {
        (self.chunker, self.rem)
    }

    /// The next chunk; once no boundary is left, the remainder; then `None`.
    pub fn next(&mut self) -> (r: Option<&'a [u8]>)
        requires
            old(self).spec_chunker().inv(),
            old(self).spec_chunker().history().len() + old(self).spec_rem().len() <= u64::MAX,
        ensures
            final(self).spec_chunker().inv(),
            same_rule(final(self).spec_chunker(), old(self).spec_chunker()),
            ({
                let c = old(self).spec_chunker();
                let rem = old(self).spec_rem();
                if rem.len() == 0 {
                    r is None && final(self).spec_rem() == rem && final(self).spec_chunker()
                        == c
                } else {
                    match first_cut(c, c.history(), rem) {
                        Some(k) => r matches Some(v) && v@ == rem.take(k as int) && final(self).spec_rem() == rem.skip(k as int) && final(self).spec_chunker().history() == c.after_cut(
                            c.history() + rem.take(k as int),
                        ),
                        None => r matches Some(v) && v@ == rem && final(self).spec_rem()
                            == Seq::<u8>::empty() && final(self).spec_chunker().history()
                            == c.history() + rem,
                    }
                }
            }),
    {
        if self.rem.len() == 0 {
            return None;
        }
        proof {
            lemma_first_cut_spec(self.chunker, self.chunker.history(), self.rem@);
        }
        match self.chunker.push(self.rem) {
            None => {
                let v = self.rem;
                self.rem = slice_subrange(v, 0, 0);
                proof {
                    assert(self.rem@ =~= Seq::<u8>::empty());
                }
                Some(v)
            },
            Some(l) => {
                let v = slice_subrange(self.rem, 0, l);
                self.rem = slice_subrange(self.rem, l, self.rem.len());
                proof {
                    assert(v@ =~= old(self).rem@.take(l as int));
                    assert(self.rem@ =~= old(self).rem@.skip(l as int));
                }
                Some(v)
            },
        }
    }
}

/// An algorithm that finds chunk boundaries in caller-owned slices.
pub trait Chunk: CutRule + Sized {
    /// State that lets a search resume without examining bytes twice.
    type SearchState;

    /// The history recorded in a search state.
    spec fn search_history(&self, st: Self::SearchState) -> Seq<u8>;

    /// How many leading bytes of the next `data` the search has examined already.
    spec fn search_offset(&self, st: Self::SearchState) -> nat;

    /// How many trailing bytes of the history the search needs to see again.
    spec fn lookback(&self) -> nat;

    /// The search state is well formed.
    spec fn search_inv(&self, st: Self::SearchState) -> bool;

    /// A state for the start of a new source.
    fn to_search_state(&self) -> (r: Self::SearchState)
        ensures
            self.search_inv(r),
            self.search_history(r) == Seq::<u8>::empty(),
            self.search_offset(r) == 0,
    ;

    /// Find the end of the current chunk in `data`.
    ///
    /// Returns the offset just past the chunk's end, if it lies in `data`, and how many leading
    /// bytes of `data` the caller may drop: the next call takes `data` without them, extended
    /// by any new bytes.
    fn find_chunk_edge(&self, state: &mut Self::SearchState, data: &[u8]) -> (r: (
        Option<usize>,
        usize,
    ))
        requires
            ({
                // the state is ready for `data`: its first `o` bytes are the last bytes of the
                // history, the ones that the search still looks back to
                let h = self.search_history(*old(state));
                let o = self.search_offset(*old(state));
                &&& self.search_inv(*old(state))
                &&& o == if h.len() < self.lookback() {
                    h.len()
                } else {
                    self.lookback()
                }
                &&& o <= data.len()
                &&& forall|j: int| 0 <= j < o ==> #[trigger] data@[j] == h[h.len() - o + j]
            }),
            self.search_history(*old(state)).len() + data.len() <= u64::MAX,
        ensures
            ({
                let h = self.search_history(*old(state));
                let o = self.search_offset(*old(state));
                let fresh = data@.skip(o as int);
                let nh = self.search_history(*final(state));
                let no = self.search_offset(*final(state));
                &&& self.search_inv(*final(state))
                &&& no == if nh.len() < self.lookback() {
                    nh.len()
                } else {
                    self.lookback()
                }
                &&& r.1 + no <= data.len()
                &&& forall|j: int| 0 <= j < no ==> #[trigger] data@[r.1 + j] == nh[nh.len() - no + j]
                &&& match first_cut(*self, h, fresh) {
                    Some(k) => r.0 == Some((k + o) as usize) && nh == self.after_cut(
                        h + fresh.take(k as int),
                    ) && r.1 + no == k + o,
                    None => r.0 is None && nh == h + fresh && r.1 + no == data.len(),
                }
            }),
    ;
}

/// Implemented by algorithms that provide a [`ChunkIncr`] interface.
pub trait ToChunkIncr: CutRule + Sized {
    type Incr: ChunkIncr;

    /// A fresh incremental chunker that follows this rule.
    fn to_chunk_incr(&self) -> (r: Self::Incr)
        ensures
            r.inv(),
            r.history() == Seq::<u8>::empty(),
            same_rule(r, *self),
    ;
}

} // verus!
