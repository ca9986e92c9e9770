//! The mathematical model of the composed address space: prefix sums of
//! segment lengths, the flattened byte sequence of an ordered segment list,
//! and the lemmas that relate a single segment's bytes to the flat view.

use vstd::prelude::*;

use crate::VBuffer;

verus! {

/// `s` with `d` laid over it starting at `at`; bytes outside `[at, at + d.len())`
/// keep their old values.  The length never changes.
pub open spec fn overwrite(s: Seq<u8>, at: int, d: Seq<u8>) -> Seq<u8> {
    Seq::new(s.len(), |i: int| if at <= i < at + d.len() { d[i - at] } else { s[i] })
}

/// Sum of the byte lengths of the first `i` segments.
pub open spec fn prefix_len<T: VBuffer>(s: Seq<T>, i: int) -> int
    decreases i,
{
    if i <= 0 {
        0
    } else {
        prefix_len(s, i - 1) + s[i - 1].bytes().len()
    }
}

/// Sum of the byte lengths of all segments.
pub open spec fn total_len<T: VBuffer>(s: Seq<T>) -> int {
    prefix_len(s, s.len() as int)
}

/// Concatenation of the bytes of segments `i, i+1, ...` in order.
pub open spec fn flat_from<T: VBuffer>(s: Seq<T>, i: int) -> Seq<u8>
    decreases s.len() - i,
{
    if 0 <= i < s.len() {
        s[i].bytes() + flat_from(s, i + 1)
    } else {
        Seq::empty()
    }
}

/// The whole segment list seen as one flat byte sequence.
pub open spec fn flat_of<T: VBuffer>(s: Seq<T>) -> Seq<u8> {
    flat_from(s, 0)
}

/// Prefix sums never decrease.
pub proof fn lemma_prefix_len_mono<T: VBuffer>(s: Seq<T>, i: int, j: int)
    requires
        i <= j,
    ensures
        prefix_len(s, i) <= prefix_len(s, j),
    decreases j - i,
{
    if i < j {
        lemma_prefix_len_mono(s, i, j - 1);
    }
}

/// Two segment lists that agree on the byte lengths of their first `i`
/// elements have the same `i`-th prefix sum.
pub proof fn lemma_prefix_len_congruent<T: VBuffer>(s1: Seq<T>, s2: Seq<T>, i: int)
    requires
        forall|j: int| 0 <= j < i ==> (#[trigger] s1[j].bytes()).len() == s2[j].bytes().len(),
    ensures
        prefix_len(s1, i) == prefix_len(s2, i),
    decreases i,
{
    if i > 0 {
        lemma_prefix_len_congruent(s1, s2, i - 1);
    }
}

/// The flat view of the segments from `j` on holds exactly the bytes that the
/// prefix sums promise.
pub proof fn lemma_flat_from_len<T: VBuffer>(s: Seq<T>, j: int)
    requires
        0 <= j <= s.len(),
    ensures
        flat_from(s, j).len() == total_len(s) - prefix_len(s, j),
    decreases s.len() - j,
{
    if j < s.len() {
        lemma_flat_from_len(s, j + 1);
    }
}

/// The whole flat view is as long as the segment lengths sum up to.
pub proof fn lemma_flat_len<T: VBuffer>(s: Seq<T>)
    ensures
        flat_of(s).len() == total_len(s),
{
    lemma_flat_from_len(s, 0);
}

/// A byte of the flat view that falls in segment `i`'s range is that
/// segment's byte.
pub proof fn lemma_flat_from_index<T: VBuffer>(s: Seq<T>, j: int, i: int, k: int)
    requires
        0 <= j <= i < s.len(),
        prefix_len(s, i) <= k < prefix_len(s, i) + s[i].bytes().len(),
    ensures
        flat_from(s, j)[k - prefix_len(s, j)] == s[i].bytes()[k - prefix_len(s, i)],
    decreases i - j,
{
    lemma_flat_from_len(s, j);
    lemma_prefix_len_mono(s, j, i);
    lemma_prefix_len_mono(s, i + 1, s.len() as int);
    if j < i {
        lemma_prefix_len_mono(s, j + 1, i);
        lemma_flat_from_index(s, j + 1, i, k);
    }
}

/// A byte of the flat view that falls in segment `i`'s range is that
/// segment's byte.
pub proof fn lemma_flat_index<T: VBuffer>(s: Seq<T>, i: int, k: int)
    requires
        0 <= i < s.len(),
        prefix_len(s, i) <= k < prefix_len(s, i) + s[i].bytes().len(),
    ensures
        0 <= k < flat_of(s).len(),
        flat_of(s)[k] == s[i].bytes()[k - prefix_len(s, i)],
{
    lemma_flat_len(s);
    lemma_prefix_len_mono(s, 0, i);
    lemma_prefix_len_mono(s, i + 1, s.len() as int);
    lemma_flat_from_index(s, 0, i, k);
}

/// Position `k` of the global space falls inside segment `j`'s range.
pub open spec fn in_seg_range<T: VBuffer>(s: Seq<T>, j: int, k: int) -> bool {
    prefix_len(s, j) <= k < prefix_len(s, j) + s[j].bytes().len()
}

/// Every position below a prefix sum falls in the range of some earlier
/// segment.
pub proof fn lemma_prefix_covers<T: VBuffer>(s: Seq<T>, i: int, k: int)
    requires
        0 <= i <= s.len(),
        0 <= k < prefix_len(s, i),
    ensures
        exists|j: int| 0 <= j < i && #[trigger] in_seg_range(s, j, k),
    decreases i,
{
    if k < prefix_len(s, i - 1) {
        lemma_prefix_covers(s, i - 1, k);
        let j0 = choose|j: int| 0 <= j < i - 1 && #[trigger] in_seg_range(s, j, k);
        assert(in_seg_range(s, j0, k));
    } else {
        assert(in_seg_range(s, i - 1, k));
    }
}

/// Segment ranges do not overlap: a position falls in the range of at most
/// one segment.
pub proof fn lemma_range_unique<T: VBuffer>(s: Seq<T>, k: int, j1: int, j2: int)
    requires
        0 <= j1 < s.len(),
        0 <= j2 < s.len(),
        in_seg_range(s, j1, k),
        in_seg_range(s, j2, k),
    ensures
        j1 == j2,
{
    if j1 < j2 {
        lemma_prefix_len_mono(s, j1 + 1, j2);
    } else if j2 < j1 {
        lemma_prefix_len_mono(s, j2 + 1, j1);
    }
}

/// Segment lists with pointwise equal bytes have the same flat view.
pub proof fn lemma_flat_from_congruent<T: VBuffer>(s1: Seq<T>, s2: Seq<T>, j: int)
    requires
        s1.len() == s2.len(),
        0 <= j,
        forall|i: int| 0 <= i < s1.len() ==> #[trigger] s1[i].bytes() == s2[i].bytes(),
    ensures
        flat_from(s1, j) == flat_from(s2, j),
    decreases s1.len() - j,
{
    if j < s1.len() {
        lemma_flat_from_congruent(s1, s2, j + 1);
    }
}

/// Segment lists with pointwise equal bytes have the same flat view.
pub proof fn lemma_flat_congruent<T: VBuffer>(s1: Seq<T>, s2: Seq<T>)
    requires
        s1.len() == s2.len(),
        forall|i: int| 0 <= i < s1.len() ==> #[trigger] s1[i].bytes() == s2[i].bytes(),
    ensures
        flat_of(s1) == flat_of(s2),
        total_len(s1) == total_len(s2),
{
    lemma_flat_from_congruent(s1, s2, 0);
    lemma_prefix_len_congruent(s1, s2, s1.len() as int);
}

/// A slice of the flat view that stays inside segment `i` is a slice of that
/// segment's bytes.
pub proof fn lemma_flat_localize<T: VBuffer>(s: Seq<T>, i: int, a: int, b: int)
    requires
        0 <= i < s.len(),
        0 <= a <= b <= s[i].bytes().len(),
    ensures
        flat_of(s).subrange(prefix_len(s, i) + a, prefix_len(s, i) + b) == s[i].bytes().subrange(
            a,
            b,
        ),
{
    lemma_flat_len(s);
    lemma_prefix_len_mono(s, 0, i);
    lemma_prefix_len_mono(s, i + 1, s.len() as int);
    let p = prefix_len(s, i);
    assert forall|k: int| a <= k < b implies flat_of(s)[p + k] == s[i].bytes()[k] by {
        lemma_flat_index(s, i, p + k);
    }
    assert(flat_of(s).subrange(p + a, p + b) =~= s[i].bytes().subrange(a, b));
}

/// Overwriting the bytes of one segment overwrites the same bytes of the
/// flat view, at that segment's place in the global space.
pub proof fn lemma_flat_update<T: VBuffer>(s: Seq<T>, i: int, seg: T, at: int, d: Seq<u8>)
    requires
        0 <= i < s.len(),
        0 <= at,
        at + d.len() <= s[i].bytes().len(),
        seg.bytes() == overwrite(s[i].bytes(), at, d),
    ensures
        total_len(s.update(i, seg)) == total_len(s),
        forall|j: int| 0 <= j <= s.len() ==> #[trigger] prefix_len(s.update(i, seg), j)
            == prefix_len(s, j),
        flat_of(s.update(i, seg)) == overwrite(flat_of(s), prefix_len(s, i) + at, d),
{
    let s2 = s.update(i, seg);
    assert(seg.bytes().len() == s[i].bytes().len());
    assert forall|j: int| 0 <= j <= s.len() implies #[trigger] prefix_len(s2, j) == prefix_len(
        s,
        j,
    ) by {
        lemma_prefix_len_congruent(s2, s, j);
    }
    lemma_flat_len(s);
    lemma_flat_len(s2);
    let p = prefix_len(s, i);
    assert forall|k: int| 0 <= k < flat_of(s).len() implies flat_of(s2)[k] == overwrite(
        flat_of(s),
        p + at,
        d,
    )[k] by {
        lemma_prefix_covers(s, s.len() as int, k);
        let j = choose|j: int| 0 <= j < s.len() && #[trigger] in_seg_range(s, j, k);
        lemma_flat_index(s, j, k);
        lemma_flat_index(s2, j, k);
        if j != i && p + at <= k < p + at + d.len() {
            // the overwritten run lies wholly inside segment i's range
            lemma_range_unique(s, k, j, i);
        }
    }
    assert(flat_of(s2) =~= overwrite(flat_of(s), p + at, d));
}

/// Laying two runs of bytes next to each other is one longer run.
pub proof fn lemma_overwrite_compose(f: Seq<u8>, at: int, d1: Seq<u8>, d2: Seq<u8>)
    requires
        0 <= at,
        at + d1.len() + d2.len() <= f.len(),
    ensures
        overwrite(overwrite(f, at, d1), at + d1.len(), d2) == overwrite(f, at, d1 + d2),
{
    assert(overwrite(overwrite(f, at, d1), at + d1.len(), d2) =~= overwrite(f, at, d1 + d2));
}

} // verus!
