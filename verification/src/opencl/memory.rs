//! Configuration for segments backed by accelerator memory.  The allocation
//! itself — platform and device selection, buffer creation, data transfer —
//! is device I/O and lives with the backing-store provider, outside this
//! library.

use vstd::prelude::*;

verus! {

/// Configuration for an accelerator memory buffer.
#[derive(Debug, Clone, Copy)]
pub struct VRamBufferConfig {
    /// Size of the buffer in bytes.
    pub size: usize,
    /// Device index to use (0 for the first device).
    pub device_index: usize,
    /// Platform index (defaults to 0).
    pub platform_index: usize,
    /// Read and write through memory mapping.
    pub mmap: bool,
}

impl Default for VRamBufferConfig {
    /// Two gigabytes on the first device of the first platform, transferred
    /// without memory mapping.
    fn default() -> (c: Self)
        ensures
            c.size == 2048 * 1024 * 1024,
            c.device_index == 0,
            c.platform_index == 0,
            !c.mmap,
    {
        VRamBufferConfig { size: 2048 * 1024 * 1024, device_index: 0, platform_index: 0, mmap: false }
    }
}

} // verus!
