//! Segments backed by ordinary host memory.

use vstd::prelude::*;

use crate::model::overwrite;
use crate::{seg_access_result, seg_contains, seg_span_ok, VBuffer, VError};

verus! {

/// A segment backed by host memory, held as a plain byte vector.
pub struct LOBuffer {
    buffer: Vec<u8>,
    offset: u64,
    size: usize,
}

impl LOBuffer {
    /// Create a zero-filled host memory buffer of `size` bytes.
    pub fn new(size: usize) -> (r: Result<Self, VError>)
        ensures
            r is Ok,
            r matches Ok(b) ==> b.inv() && b.base() == 0 && b.bytes() == Seq::new(
                size as nat,
                |i: int| 0u8,
            ),
    {
        let buffer = vec![0u8; size];
        proof {
            assert(buffer@ =~= Seq::new(size as nat, |i: int| 0u8));
        }
        Ok(LOBuffer { buffer, offset: 0, size })
    }

    /// Carve `count` equally sized host segments out of `total` bytes: each
    /// holds `total / count` bytes, zero-filled.  A remainder of the division
    /// is not backed by any segment.
    pub fn allocate(total: u64, count: usize) -> (r: Result<Vec<LOBuffer>, VError>)
        requires
            1 <= count,
            total as int / count as int <= usize::MAX as int,
        ensures
            r is Ok,
            r matches Ok(v) ==> v@.len() == count && forall|i: int|
                0 <= i < v@.len() ==> (#[trigger] v@[i]).inv() && v@[i].bytes() == Seq::new(
                    (total as int / count as int) as nat,
                    |j: int| 0u8,
                ),
    {
        let each = (total / count as u64) as usize;
        let mut out: Vec<LOBuffer> = Vec::new();
        let mut k: usize = 0;
        while k < count
            invariant
                k <= count,
                out@.len() == k,
                each as int == total as int / count as int,
                forall|i: int|
                    0 <= i < out@.len() ==> (#[trigger] out@[i]).inv() && out@[i].bytes()
                        == Seq::new(each as nat, |j: int| 0u8),
            decreases count - k,
        {
            match LOBuffer::new(each) {
                Ok(b) => {
                    out.push(b);
                }
                Err(e) => {
                    proof {
                        assert(false);
                    }
                    return Err(e);
                }
            }
            k = k + 1;
        }
        Ok(out)
    }

    /// Does the global offset fall inside this buffer's range?
    pub fn within(&self, offset: u64) -> (b: bool)
        requires
            self.inv(),
        ensures
            b == seg_contains(self.base(), self.bytes().len(), offset),
    {
        offset >= self.offset && offset - self.offset < self.size as u64
    }
}

impl VBuffer for LOBuffer {
    closed spec fn bytes(&self) -> Seq<u8> {
        self.buffer@
    }

    closed spec fn base(&self) -> u64 {
        self.offset
    }

    closed spec fn inv(&self) -> bool {
        self.buffer@.len() == self.size
    }

    fn read(&self, offset: u64, data: &mut Vec<u8>, from: usize, len: usize) -> Result<
        (),
        VError,
    > {
        let ghost d0 = data@;
        if !(offset >= self.offset && offset - self.offset < self.size as u64) {
            return Err(VError::OutOfBuffer);
        }
        let local_offset = (offset - self.offset) as usize;
        if len > self.size - local_offset {
            return Err(VError::PastEnd);
        }
        proof {
            assert(data@ =~= overwrite(
                d0,
                from as int,
                self.buffer@.subrange(local_offset as int, local_offset as int),
            ));
        }
        let dlen = data.len();
        let mut k: usize = 0;
        while k < len
            invariant
                k <= len,
                self.inv(),
                local_offset + len <= self.size,
                from + len <= dlen,
                data@.len() == d0.len(),
                d0.len() == dlen,
                data@ == overwrite(
                    d0,
                    from as int,
                    self.buffer@.subrange(local_offset as int, local_offset as int + k as int),
                ),
            decreases len - k,
        {
            let b = self.buffer[local_offset + k];
            data[from + k] = b;
            proof {
                assert(data@ =~= overwrite(
                    d0,
                    from as int,
                    self.buffer@.subrange(
                        local_offset as int,
                        local_offset as int + k as int + 1,
                    ),
                ));
            }
            k = k + 1;
        }
        Ok(())
    }

    fn write(&mut self, offset: u64, data: &Vec<u8>, from: usize, len: usize) -> Result<
        (),
        VError,
    > {
        let ghost b0 = self.buffer@;
        let ghost base0 = self.offset;
        let ghost size0 = self.size;
        if !(offset >= self.offset && offset - self.offset < self.size as u64) {
            return Err(VError::OutOfBuffer);
        }
        let local_offset = (offset - self.offset) as usize;
        if len > self.size - local_offset {
            return Err(VError::PastEnd);
        }
        proof {
            assert(self.buffer@ =~= overwrite(
                b0,
                local_offset as int,
                data@.subrange(from as int, from as int),
            ));
        }
        let dlen = data.len();
        let mut k: usize = 0;
        while k < len
            invariant
                k <= len,
                self.offset == base0,
                self.size == size0,
                self.buffer@.len() == b0.len(),
                b0.len() == size0,
                local_offset + len <= size0,
                from + len <= dlen,
                data@.len() == dlen,
                self.buffer@ == overwrite(
                    b0,
                    local_offset as int,
                    data@.subrange(from as int, from as int + k as int),
                ),
            decreases len - k,
        {
            let b = data[from + k];
            self.buffer[local_offset + k] = b;
            proof {
                assert(self.buffer@ =~= overwrite(
                    b0,
                    local_offset as int,
                    data@.subrange(from as int, from as int + k as int + 1),
                ));
            }
            k = k + 1;
        }
        Ok(())
    }

    fn remaining(&self, offset: u64) -> Option<usize> {
        if self.within(offset) {
            Some(((self.size as u64) - (offset - self.offset)) as usize)
        } else {
            None
        }
    }

    fn offset(&mut self, offset: u64) {
        self.offset = offset;
    }

    fn size(&self) -> usize {
        self.size
    }
}

} // verus!
