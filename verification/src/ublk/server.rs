//! The block I/O command protocol: dispatch of one kernel command against
//! the composed address space, the per-tag task state machine, and the
//! parameters a device is registered with.

use vstd::prelude::*;

use crate::model::overwrite;
use crate::{VBuffer, VMemory};

verus! {

/// Block I/O opcodes of the kernel's ublk command descriptor.
pub const UBLK_IO_OP_READ: u32 = 0;

/// Block I/O opcodes of the kernel's ublk command descriptor.
pub const UBLK_IO_OP_WRITE: u32 = 1;

/// Block I/O opcodes of the kernel's ublk command descriptor.
pub const UBLK_IO_OP_FLUSH: u32 = 2;

/// Block I/O opcodes of the kernel's ublk command descriptor.
pub const UBLK_IO_OP_DISCARD: u32 = 3;

/// The completion code with which the kernel answers a fetch when the queue
/// is being torn down: the negated error number for a missing device.
pub const UBLK_IO_RES_ABORT: i32 = -19;

/// The kernel's error number for an invalid argument; an unknown opcode
/// completes with the negation of this code.
pub const EINVAL: i32 = 22;

/// One kernel block I/O command, as its ring descriptor carries it: the
/// opcode lives in the low byte of `op_flags`, and the range is given in
/// 512-byte sectors.
pub struct IoDesc {
    pub op_flags: u32,
    pub nr_sectors: u32,
    pub start_sector: u64,
}

/// The byte offset a command addresses, clipped to the device size.
pub open spec fn clipped_offset(limit: u64, start_sector: u64) -> int {
    if start_sector * 512 < limit {
        start_sector * 512
    } else {
        limit as int
    }
}

/// The byte count a command addresses, clipped so that the span ends at the
/// device size.
pub open spec fn clipped_length(limit: u64, start_sector: u64, nr_sectors: u32) -> int {
    let off = clipped_offset(limit, start_sector);
    if off + nr_sectors * 512 >= limit {
        limit - off
    } else {
        nr_sectors * 512
    }
}

/// The completion code of one command: `0` for a span clipped to nothing,
/// the clipped byte count for the four supported opcodes, and the negated
/// invalid-argument error number for any other opcode.  (A well-formed
/// memory serves every clipped span, so no `-EIO` case remains here.)
pub open spec fn io_cmd_result<T: VBuffer>(m: VMemory<T>, iod: IoDesc) -> int {
    let len = clipped_length(m.size_spec(), iod.start_sector, iod.nr_sectors);
    let op = iod.op_flags & 0xff;
    if len == 0 {
        0
    } else if op == UBLK_IO_OP_READ || op == UBLK_IO_OP_WRITE || op == UBLK_IO_OP_FLUSH || op
        == UBLK_IO_OP_DISCARD {
        len
    } else {
        -(EINVAL as int)
    }
}

/// What one dispatched command does to the memory `m0 -> m1` and to the
/// task's I/O buffer `b0 -> b1`: a read fills the front of the buffer from
/// the clipped span and moves no byte of the memory; a write lays the front
/// of the buffer over the clipped span; flush and discard are advisory and
/// move nothing; so does an unknown opcode or an empty span.
pub open spec fn io_cmd_effects<T: VBuffer>(
    m0: VMemory<T>,
    m1: VMemory<T>,
    b0: Seq<u8>,
    b1: Seq<u8>,
    iod: IoDesc,
) -> bool {
    let limit = m0.size_spec();
    let off = clipped_offset(limit, iod.start_sector);
    let len = clipped_length(limit, iod.start_sector, iod.nr_sectors);
    let op = iod.op_flags & 0xff;
    &&& (op == UBLK_IO_OP_READ && len > 0 ==> b1 == overwrite(
        b0,
        0,
        m0.flat().subrange(off, off + len),
    ) && m1 == m0)
    &&& (op == UBLK_IO_OP_WRITE && len > 0 ==> m1.flat() == overwrite(
        m0.flat(),
        off,
        b0.subrange(0, len),
    ) && b1 == b0)
    &&& (!(op == UBLK_IO_OP_READ || op == UBLK_IO_OP_WRITE) || len == 0 ==> m1 == m0 && b1 == b0)
}

/// Dispatch one kernel command against the memory: clip the addressed span
/// to the device size, serve reads and writes through the composed address
/// space with the task's I/O buffer, answer flush and discard as advisory
/// no-ops, and refuse unknown opcodes.
pub fn handle_io_cmd<T: VBuffer>(vrams: &mut VMemory<T>, iod: &IoDesc, buf: &mut Vec<u8>) -> (r:
    i32)
    requires
        old(vrams).wf(),
        iod.nr_sectors as int * 512 <= old(buf).len(),
        old(buf).len() as int <= i32::MAX as int,
    ensures
        final(vrams).wf(),
        final(vrams).size_spec() == old(vrams).size_spec(),
        final(vrams).segs().len() == old(vrams).segs().len(),
        final(buf)@.len() == old(buf)@.len(),
        r as int == io_cmd_result(*old(vrams), *iod),
        io_cmd_effects(*old(vrams), *final(vrams), old(buf)@, final(buf)@, *iod),
{
    let limit = vrams.size();
    let offset: u64 = if iod.start_sector <= limit / 512 {
        let x = iod.start_sector * 512;
        if x < limit {
            x
        } else {
            limit
        }
    } else {
        proof {
            assert(iod.start_sector * 512 >= (limit / 512 + 1) * 512 > limit) by (nonlinear_arith)
                requires
                    iod.start_sector > limit / 512,
            ;
        }
        limit
    };
    let len0: u64 = (iod.nr_sectors as u64) * 512;
    let length64: u64 = if len0 >= limit - offset {
        limit - offset
    } else {
        len0
    };
    let length = length64 as usize;
    if length == 0 {
        return 0;
    }
    let op = iod.op_flags & 0xff;
    if op == UBLK_IO_OP_READ {
        vrams.read(offset, length, buf)
    } else if op == UBLK_IO_OP_WRITE {
        vrams.write(offset, length, buf)
    } else if op == UBLK_IO_OP_FLUSH || op == UBLK_IO_OP_DISCARD {
        length as i32
    } else {
        -EINVAL
    }
}

/// The state of one IO Task, the cooperative task that owns one in-flight
/// request slot (tag): it is fetching — suspended until the kernel delivers
/// the next command for its tag — or it has reached its terminal state.
#[derive(Clone, Copy, Debug, PartialEq, Eq, Structural)]
pub enum TaskState {
    Fetching,
    Aborted,
}

/// An aborted task never fetches again.
pub open spec fn may_fetch(s: TaskState) -> bool {
    s is Fetching
}

/// The task state after the kernel answers a fetch with the completion code
/// `res`: the abort code ends the task; anything else carries a command and
/// the task keeps fetching.
pub open spec fn task_next(s: TaskState, res: i32) -> TaskState {
    if s is Aborted || res == UBLK_IO_RES_ABORT {
        TaskState::Aborted
    } else {
        TaskState::Fetching
    }
}

/// Decide a task's next state from the completion code its fetch returned.
pub fn on_ring_completion(s: TaskState, res: i32) -> (next: TaskState)
    ensures
        next == task_next(s, res),
{
    match s {
        TaskState::Aborted => TaskState::Aborted,
        TaskState::Fetching => {
            if res == UBLK_IO_RES_ABORT {
                TaskState::Aborted
            } else {
                TaskState::Fetching
            }
        },
    }
}

/// An abort completion is terminal: whatever state the task was in, after it
/// the task may not fetch, and an aborted task stays aborted under every
/// later completion.
pub proof fn lemma_abort_terminal(s: TaskState, res: i32)
    ensures
        task_next(s, UBLK_IO_RES_ABORT) == TaskState::Aborted,
        !may_fetch(task_next(s, UBLK_IO_RES_ABORT)),
        task_next(TaskState::Aborted, res) == TaskState::Aborted,
{
}

/// One cycle of an IO Task, from the completion code its fetch returned: on
/// the abort code the task ends, touches nothing, and commits nothing; on
/// any other code it dispatches the fetched command and hands back the
/// completion code to commit alongside the next fetch.
pub fn io_task_step<T: VBuffer>(
    vrams: &mut VMemory<T>,
    fetch_res: i32,
    iod: &IoDesc,
    buf: &mut Vec<u8>,
) -> (commit: Option<i32>)
    requires
        old(vrams).wf(),
        iod.nr_sectors as int * 512 <= old(buf).len(),
        old(buf).len() as int <= i32::MAX as int,
    ensures
        final(vrams).wf(),
        final(vrams).size_spec() == old(vrams).size_spec(),
        final(buf)@.len() == old(buf)@.len(),
        commit is None <==> fetch_res == UBLK_IO_RES_ABORT,
        fetch_res == UBLK_IO_RES_ABORT ==> *final(vrams) == *old(vrams) && final(buf)@ == old(
            buf,
        )@,
        fetch_res != UBLK_IO_RES_ABORT ==> (commit matches Some(r) && r as int == io_cmd_result(
            *old(vrams),
            *iod,
        )) && io_cmd_effects(*old(vrams), *final(vrams), old(buf)@, final(buf)@, *iod),
{
    if fetch_res == UBLK_IO_RES_ABORT {
        None
    } else {
        Some(handle_io_cmd(vrams, iod, buf))
    }
}

/// The I/O buffer size each queue registers: one megabyte per tag.
pub const DEFAULT_IO_BUF_BYTES: usize = 1024 * 1024;

/// The parameters a virtual block device is registered with, with the
/// segment count exported as introspection metadata.
pub struct Device {
    pub total_size: u64,
    pub queue_count: u16,
    pub queue_depth: u16,
    pub max_io_buf_bytes: usize,
    pub segment_count: usize,
}

/// Compute the registration parameters of a device over the composed
/// memory: its size is the flat address space's, it runs one queue per
/// available processor but no fewer than two, and it exports the segment
/// count as metadata.
pub fn device_params<T: VBuffer>(vrams: &VMemory<T>, cpus: usize, queue_depth: u16) -> (d: Device)
    requires
        vrams.wf(),
    ensures
        d.total_size == vrams.size_spec(),
        d.segment_count == vrams.segs().len(),
        d.queue_depth == queue_depth,
        d.max_io_buf_bytes == DEFAULT_IO_BUF_BYTES,
        d.queue_count as int == (if cpus < 2 {
            2
        } else if cpus > u16::MAX as usize {
            u16::MAX as int
        } else {
            cpus as int
        }),
{
    let queue_count: u16 = if cpus < 2 {
        2
    } else if cpus > u16::MAX as usize {
        u16::MAX
    } else {
        cpus as u16
    };
    Device {
        total_size: vrams.size(),
        queue_count,
        queue_depth,
        max_io_buf_bytes: DEFAULT_IO_BUF_BYTES,
        segment_count: vrams.blocks(),
    }
}

} // verus!
