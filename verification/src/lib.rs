//! A virtual block-device engine: independent backing-memory segments are
//! stitched into one flat logical address space, and block I/O commands are
//! split across segment boundaries and dispatched to the segment that owns
//! each byte.

pub mod local;
pub mod model;
pub mod opencl;
pub mod parse;
pub mod ublk;

use vstd::prelude::*;

use crate::model::{
    flat_of, lemma_flat_congruent, lemma_flat_len, lemma_flat_localize, lemma_flat_update,
    lemma_overwrite_compose, lemma_prefix_covers, lemma_prefix_len_congruent,
    lemma_prefix_len_mono, lemma_range_unique, overwrite, prefix_len, total_len,
};

verus! {

/// The kernel's error number for a failed transfer; a request that cannot be
/// served completes with the negation of this code.
pub const EIO: i32 = 5;

/// How a single segment access fails: the start offset lies outside the
/// segment, or the span starts inside it but would run past its end.
#[derive(Clone, Copy, Debug, PartialEq, Eq, Structural)]
pub enum VError {
    OutOfBuffer,
    PastEnd,
}

/// A segment with base offset `base` and `size` bytes holds the global
/// offset `offset`.
pub open spec fn seg_contains(base: u64, size: nat, offset: u64) -> bool {
    base <= offset < base + size
}

/// The span `[offset, offset + len)` lies wholly inside a segment with base
/// offset `base` and `size` bytes.
pub open spec fn seg_span_ok(base: u64, size: nat, offset: u64, len: int) -> bool {
    &&& seg_contains(base, size, offset)
    &&& offset - base + len <= size
}

/// How a segment with base offset `base` and `size` bytes answers an access
/// of `len` bytes starting at the global offset `offset`.
pub open spec fn seg_access_result(base: u64, size: nat, offset: u64, len: int) -> Result<
    (),
    VError,
> {
    if !seg_contains(base, size, offset) {
        Err(VError::OutOfBuffer)
    } else if offset - base + len > size {
        Err(VError::PastEnd)
    } else {
        Ok(())
    }
}

/// One contiguous backing memory region, addressed by offsets of the global
/// address space it was placed in.
pub trait VBuffer: Sized {
    /// The bytes the segment stores.
    spec fn bytes(&self) -> Seq<u8>;

    /// The segment's base offset in the global address space.
    spec fn base(&self) -> u64;

    /// Well-formedness of the segment.
    spec fn inv(&self) -> bool;

    /// Read the span `[offset, offset + len)` of the segment into
    /// `data[from .. from + len]`.  The bounds are re-checked here,
    /// independently of what `remaining` reported.
    fn read(&self, offset: u64, data: &mut Vec<u8>, from: usize, len: usize) -> (r: Result<
        (),
        VError,
    >)
        requires
            self.inv(),
            from + len <= old(data).len(),
        ensures
            final(data)@.len() == old(data)@.len(),
            r == seg_access_result(self.base(), self.bytes().len(), offset, len as int),
            seg_span_ok(self.base(), self.bytes().len(), offset, len as int) ==> final(data)@
                == overwrite(
                old(data)@,
                from as int,
                self.bytes().subrange(offset - self.base(), offset - self.base() + len),
            ),
            !seg_span_ok(self.base(), self.bytes().len(), offset, len as int) ==> final(data)@
                == old(data)@,
    ;

    /// Write `data[from .. from + len]` over the span `[offset, offset + len)`
    /// of the segment.  A span that does not fit changes nothing.
    fn write(&mut self, offset: u64, data: &Vec<u8>, from: usize, len: usize) -> (r: Result<
        (),
        VError,
    >)
        requires
            old(self).inv(),
            from + len <= data.len(),
        ensures
            final(self).inv(),
            final(self).base() == old(self).base(),
            final(self).bytes().len() == old(self).bytes().len(),
            r == seg_access_result(
                old(self).base(),
                old(self).bytes().len(),
                offset,
                len as int,
            ),
            seg_span_ok(old(self).base(), old(self).bytes().len(), offset, len as int)
                ==> final(self).bytes() == overwrite(
                old(self).bytes(),
                offset - old(self).base(),
                data@.subrange(from as int, from as int + len),
            ),
            !seg_span_ok(old(self).base(), old(self).bytes().len(), offset, len as int)
                ==> *final(self) == *old(self),
    ;

    /// `Some(n)` if the segment holds `offset`, where `n` counts the bytes
    /// from `offset` to the segment's end; `None` otherwise.
    fn remaining(&self, offset: u64) -> (r: Option<usize>)
        requires
            self.inv(),
            self.base() + self.bytes().len() <= u64::MAX,
            self.bytes().len() <= usize::MAX,
        ensures
            r == (if seg_contains(self.base(), self.bytes().len(), offset) {
                Some((self.base() + self.bytes().len() - offset) as usize)
            } else {
                None::<usize>
            }),
    ;

    /// Set the segment's base offset in the global address space; called once
    /// per segment, during composition.
    fn offset(&mut self, offset: u64)
        requires
            old(self).inv(),
        ensures
            final(self).inv(),
            final(self).base() == offset,
            final(self).bytes() == old(self).bytes(),
    ;

    /// The segment's length in bytes.
    fn size(&self) -> (r: usize)
        requires
            self.inv(),
        ensures
            r == self.bytes().len(),
    ;
}

/// An ordered, immutable collection of segments, exposed as one flat logical
/// address space `[0, total_size)`.  Reads and writes are split across
/// segment boundaries by a linear scan.
pub struct VMemory<T> {
    vrams: Vec<T>,
    size: u64,
}

impl<T: VBuffer> VMemory<T> {
    /// The ordered segment list.
    pub closed spec fn segs(self) -> Seq<T> {
        self.vrams@
    }

    /// The size of the flat address space in bytes.
    pub closed spec fn size_spec(self) -> u64 {
        self.size
    }

    /// The whole address space seen as one byte sequence.
    pub open spec fn flat(self) -> Seq<u8> {
        flat_of(self.segs())
    }

    /// Well-formedness: segment bases are exactly the running prefix sums of
    /// the segment lengths — no gaps, no overlaps — and the recorded size is
    /// their total.
    pub open spec fn wf(self) -> bool {
        &&& forall|i: int| 0 <= i < self.segs().len() ==> (#[trigger] self.segs()[i]).inv()
        &&& forall|i: int| 0 <= i < self.segs().len() ==> (#[trigger] self.segs()[i]).base()
            == prefix_len(self.segs(), i)
        &&& forall|i: int| 0 <= i < self.segs().len() ==> (#[trigger] self.segs()[i]).bytes().len()
            <= usize::MAX
        &&& self.size_spec() == total_len(self.segs())
    }

    /// Compose the given segments into one flat address space: each segment's
    /// base is assigned from the running sum of the sizes before it.
    pub fn new(vrams: Vec<T>) -> (m: Self)
        requires
            forall|i: int| 0 <= i < vrams@.len() ==> (#[trigger] vrams@[i]).inv(),
            forall|i: int| 0 <= i < vrams@.len() ==> (#[trigger] vrams@[i]).bytes().len()
                <= usize::MAX,
            total_len(vrams@) <= u64::MAX,
        ensures
            m.wf(),
            m.segs().len() == vrams@.len(),
            forall|i: int| 0 <= i < vrams@.len() ==> (#[trigger] m.segs()[i]).bytes()
                == vrams@[i].bytes(),
            m.size_spec() == total_len(vrams@),
            m.flat() == flat_of(vrams@),
    {
        let ghost orig = vrams@;
        let mut input = vrams;
        let mut out: Vec<T> = Vec::new();
        let mut size: u64 = 0;
        while input.len() > 0
            invariant
                out@.len() + input@.len() == orig.len(),
                forall|i: int| 0 <= i < input@.len() ==> #[trigger] input@[i] == orig[out@.len()
                    + i],
                forall|i: int| 0 <= i < orig.len() ==> (#[trigger] orig[i]).inv(),
                forall|i: int| 0 <= i < orig.len() ==> (#[trigger] orig[i]).bytes().len()
                    <= usize::MAX,
                forall|i: int| 0 <= i < out@.len() ==> (#[trigger] out@[i]).inv(),
                forall|i: int| 0 <= i < out@.len() ==> (#[trigger] out@[i]).bytes()
                    == orig[i].bytes(),
                forall|i: int| 0 <= i < out@.len() ==> (#[trigger] out@[i]).base() == prefix_len(
                    orig,
                    i,
                ),
                size == prefix_len(orig, out@.len() as int),
                total_len(orig) <= u64::MAX,
            decreases input@.len(),
        {
            let ghost k = out@.len() as int;
            let mut seg = input.remove(0);
            let s = seg.size();
            proof {
                assert(seg == orig[k]);
                lemma_prefix_len_mono(orig, k + 1, orig.len() as int);
            }
            seg.offset(size);
            size = size + s as u64;
            out.push(seg);
        }
        proof {
            assert(out@.len() == orig.len());
            assert forall|i: int| 0 <= i < out@.len() implies #[trigger] prefix_len(out@, i)
                == prefix_len(orig, i) by {
                lemma_prefix_len_congruent(out@, orig, i);
            }
            lemma_prefix_len_congruent(out@, orig, orig.len() as int);
            lemma_flat_congruent(out@, orig);
        }
        VMemory { vrams: out, size }
    }

    /// Read `length` bytes starting at the global offset `offset` into
    /// `data[0 .. length]`, scanning the segments in order and splitting the
    /// request at segment boundaries.  A request that runs past the end of
    /// the address space fails whole: the result is `-EIO` and `data` is
    /// untouched.  The successful result is the number of bytes read.
    pub fn read(&self, offset: u64, length: usize, data: &mut Vec<u8>) -> (r: i32)
        requires
            self.wf(),
            length <= old(data).len(),
            length as int <= i32::MAX as int,
        ensures
            final(data)@.len() == old(data)@.len(),
            offset as int + length as int <= self.flat().len() ==> r == length as i32
                && final(data)@ == overwrite(
                old(data)@,
                0,
                self.flat().subrange(offset as int, offset as int + length as int),
            ),
            offset as int + length as int > self.flat().len() ==> r == -EIO
                && final(data)@ == old(data)@,
    {
        let ghost d0 = data@;
        proof {
            lemma_flat_len(self.segs());
        }
        if offset > self.size || (length as u64) > self.size - offset {
            return -EIO;
        }
        proof {
            assert(overwrite(d0, 0, self.flat().subrange(offset as int, offset as int)) =~= d0);
        }
        let n = self.vrams.len();
        let mut local_offset: usize = 0;
        let mut global_offset: u64 = offset;
        let mut global_remaining: usize = length;
        let mut i: usize = 0;
        while global_remaining > 0
            invariant
                self.wf(),
                n == self.segs().len(),
                i <= n,
                local_offset + global_remaining == length,
                global_offset as int == offset as int + local_offset as int,
                offset as int + length as int <= total_len(self.segs()),
                length <= d0.len(),
                data@.len() == d0.len(),
                global_remaining > 0 ==> prefix_len(self.segs(), i as int) <= global_offset as int,
                data@ == overwrite(
                    d0,
                    0,
                    self.flat().subrange(offset as int, offset as int + local_offset as int),
                ),
            decreases self.segs().len() - i,
        {
            let ghost segs = self.segs();
            proof {
                lemma_flat_len(segs);
                if i >= segs.len() {
                    lemma_prefix_len_mono(segs, segs.len() as int, i as int);
                    assert(false);
                }
                lemma_prefix_len_mono(segs, i as int + 1, segs.len() as int);
            }
            let seg = &self.vrams[i];
            match seg.remaining(global_offset) {
                None => {
                    i = i + 1;
                }
                Some(rem) => {
                    let chunk = if global_remaining < rem {
                        global_remaining
                    } else {
                        rem
                    };
                    let ghost before = data@;
                    let res = seg.read(global_offset, data, local_offset, chunk);
                    if res.is_err() {
                        proof {
                            assert(false);
                        }
                        return -EIO;
                    }
                    proof {
                        let a = global_offset as int - seg.base() as int;
                        lemma_flat_localize(segs, i as int, a, a + chunk as int);
                        let run_a = self.flat().subrange(
                            offset as int,
                            offset as int + local_offset as int,
                        );
                        let run_b = self.flat().subrange(
                            global_offset as int,
                            global_offset as int + chunk as int,
                        );
                        lemma_overwrite_compose(d0, 0, run_a, run_b);
                        assert(self.flat().subrange(
                            offset as int,
                            offset as int + local_offset as int + chunk as int,
                        ) =~= run_a + run_b);
                    }
                    global_remaining = global_remaining - chunk;
                    local_offset = local_offset + chunk;
                    global_offset = global_offset + chunk as u64;
                    i = i + 1;
                }
            }
        }
        length as i32
    }

    /// Write `data[0 .. length]` at the global offset `offset`, scanning the
    /// segments in order and splitting the request at segment boundaries.  A
    /// request that runs past the end of the address space fails whole: the
    /// result is `-EIO` and no byte anywhere is changed.  The successful
    /// result is the number of bytes written.
    pub fn write(&mut self, offset: u64, length: usize, data: &Vec<u8>) -> (r: i32)
        requires
            old(self).wf(),
            length <= data.len(),
            length as int <= i32::MAX as int,
        ensures
            final(self).wf(),
            final(self).size_spec() == old(self).size_spec(),
            final(self).segs().len() == old(self).segs().len(),
            forall|j: int| 0 <= j < old(self).segs().len()
                ==> (#[trigger] final(self).segs()[j]).base() == old(self).segs()[j].base()
                && final(self).segs()[j].bytes().len() == old(self).segs()[j].bytes().len(),
            offset as int + length as int <= old(self).flat().len() ==> r == length as i32
                && final(self).flat() == overwrite(
                old(self).flat(),
                offset as int,
                data@.subrange(0, length as int),
            ),
            offset as int + length as int > old(self).flat().len() ==> r == -EIO
                && *final(self) == *old(self),
    {
        let ghost s0 = self.segs();
        let ghost f0 = self.flat();
        proof {
            lemma_flat_len(s0);
        }
        if offset > self.size || (length as u64) > self.size - offset {
            return -EIO;
        }
        proof {
            assert(overwrite(f0, offset as int, data@.subrange(0, 0)) =~= f0);
        }
        let n = self.vrams.len();
        let mut local_offset: usize = 0;
        let mut global_offset: u64 = offset;
        let mut global_remaining: usize = length;
        let mut i: usize = 0;
        while global_remaining > 0
            invariant
                self.wf(),
                n == self.segs().len(),
                s0.len() == self.segs().len(),
                self.size_spec() == total_len(s0),
                forall|j: int| 0 <= j < s0.len() ==> (#[trigger] self.segs()[j]).base()
                    == s0[j].base() && self.segs()[j].bytes().len() == s0[j].bytes().len(),
                i <= n,
                local_offset + global_remaining == length,
                global_offset as int == offset as int + local_offset as int,
                offset as int + length as int <= total_len(s0),
                length <= data.len(),
                global_remaining > 0 ==> prefix_len(self.segs(), i as int) <= global_offset as int,
                flat_of(self.segs()) == overwrite(
                    f0,
                    offset as int,
                    data@.subrange(0, local_offset as int),
                ),
            decreases n - i,
        {
            let ghost cur = self.segs();
            proof {
                lemma_flat_len(cur);
                lemma_prefix_len_congruent(cur, s0, cur.len() as int);
                if i >= n {
                    lemma_prefix_len_mono(cur, cur.len() as int, i as int);
                    assert(false);
                }
                lemma_prefix_len_mono(cur, i as int + 1, cur.len() as int);
            }
            let seg_ref = &self.vrams[i];
            match seg_ref.remaining(global_offset) {
                None => {
                    i = i + 1;
                }
                Some(rem) => {
                    let chunk = if global_remaining < rem {
                        global_remaining
                    } else {
                        rem
                    };
                    let mut seg = self.vrams.remove(i);
                    let res = seg.write(global_offset, data, local_offset, chunk);
                    self.vrams.insert(i, seg);
                    if res.is_err() {
                        proof {
                            assert(false);
                        }
                        return -EIO;
                    }
                    proof {
                        let a = global_offset as int - cur[i as int].base() as int;
                        let run_b = data@.subrange(
                            local_offset as int,
                            local_offset as int + chunk as int,
                        );
                        assert(self.segs() =~= cur.update(i as int, seg));
                        lemma_flat_update(cur, i as int, seg, a, run_b);
                        let run_a = data@.subrange(0, local_offset as int);
                        lemma_overwrite_compose(f0, offset as int, run_a, run_b);
                        assert(data@.subrange(0, local_offset as int + chunk as int) =~= run_a
                            + run_b);
                        assert forall|j: int| 0 <= j <= s0.len() implies #[trigger] prefix_len(
                            self.segs(),
                            j,
                        ) == prefix_len(cur, j) by {
                            lemma_prefix_len_congruent(self.segs(), cur, j);
                        }
                    }
                    global_remaining = global_remaining - chunk;
                    local_offset = local_offset + chunk;
                    global_offset = global_offset + chunk as u64;
                    i = i + 1;
                }
            }
        }
        length as i32
    }

    /// The size of the flat address space in bytes.
    pub fn size(&self) -> (r: u64)
        requires
            self.wf(),
        ensures
            r == self.size_spec(),
            r == self.flat().len(),
    {
        proof {
            lemma_flat_len(self.segs());
        }
        self.size
    }

    /// How many segments the address space is composed of.
    pub fn blocks(&self) -> (r: usize)
        ensures
            r == self.segs().len(),
    {
        self.vrams.len()
    }
}

/// Each offset below the total size of a well-formed memory falls in exactly
/// one segment, and that segment's remaining count — the bytes from the
/// offset to the segment's end, as `remaining` reports it — equals the
/// segment's length minus the offset's distance from the segment's base.
pub proof fn lemma_segment_membership<T: VBuffer>(m: VMemory<T>, offset: u64)
    requires
        m.wf(),
        offset < m.size_spec(),
    ensures
        exists|i: int|
            0 <= i < m.segs().len() && #[trigger] seg_contains(
                m.segs()[i].base(),
                m.segs()[i].bytes().len(),
                offset,
            ),
        forall|i: int, j: int|
            0 <= i < m.segs().len() && 0 <= j < m.segs().len() && #[trigger] seg_contains(
                m.segs()[i].base(),
                m.segs()[i].bytes().len(),
                offset,
            ) && #[trigger] seg_contains(
                m.segs()[j].base(),
                m.segs()[j].bytes().len(),
                offset,
            ) ==> i == j,
        forall|i: int|
            0 <= i < m.segs().len() && #[trigger] seg_contains(
                m.segs()[i].base(),
                m.segs()[i].bytes().len(),
                offset,
            ) ==> m.segs()[i].base() + m.segs()[i].bytes().len() - offset
                == m.segs()[i].bytes().len() - (offset - m.segs()[i].base()),
{
    let s = m.segs();
    lemma_prefix_covers(s, s.len() as int, offset as int);
    let j0 = choose|j: int| 0 <= j < s.len() && #[trigger] model::in_seg_range(s, j, offset as int);
    assert(seg_contains(s[j0].base(), s[j0].bytes().len(), offset));
    assert forall|i: int, j: int|
        0 <= i < s.len() && 0 <= j < s.len() && #[trigger] seg_contains(
            s[i].base(),
            s[i].bytes().len(),
            offset,
        ) && #[trigger] seg_contains(s[j].base(), s[j].bytes().len(), offset) implies i == j by {
        lemma_range_unique(s, offset as int, i, j);
    }
}

/// Round trip: after the bytes `d` are written at offset `at` of a flat
/// space `f`, reading back `[at, at + d.len())` yields exactly `d`, and
/// every byte outside that range keeps its old value.
pub proof fn lemma_round_trip(f: Seq<u8>, at: int, d: Seq<u8>)
    requires
        0 <= at,
        at + d.len() <= f.len(),
    ensures
        overwrite(f, at, d).subrange(at, at + d.len()) == d,
        forall|k: int|
            0 <= k < f.len() && !(at <= k < at + d.len()) ==> #[trigger] overwrite(f, at, d)[k]
                == f[k],
{
    assert(overwrite(f, at, d).subrange(at, at + d.len()) =~= d);
}

/// Writes to disjoint ranges of the flat space are independent: applied in
/// either order they leave the same bytes.  (This is the sequential content
/// of running such writers concurrently; that the writers also do not block
/// each other is a property of the locks around the segments, which live
/// outside this library.)
pub proof fn lemma_disjoint_writes_commute(f: Seq<u8>, a1: int, d1: Seq<u8>, a2: int, d2: Seq<u8>)
    requires
        0 <= a1,
        a1 + d1.len() <= f.len(),
        0 <= a2,
        a2 + d2.len() <= f.len(),
        a1 + d1.len() <= a2 || a2 + d2.len() <= a1,
    ensures
        overwrite(overwrite(f, a1, d1), a2, d2) == overwrite(overwrite(f, a2, d2), a1, d1),
{
    assert(overwrite(overwrite(f, a1, d1), a2, d2) =~= overwrite(overwrite(f, a2, d2), a1, d1));
}

} // verus!
