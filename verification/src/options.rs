//! Memtable presets.

use vstd::prelude::*;

verus! {

pub const SMALL_16MB: usize = 16 * 1024 * 1024;

pub const MEDIUM_32MB: usize = 32 * 1024 * 1024;

pub const DEFAULT_64MB: usize = 64 * 1024 * 1024;

pub const LARGE_128MB: usize = 128 * 1024 * 1024;

const SMALL_BLOCK: usize = 2 * 1024 * 1024;

const MEDIUM_BLOCK: usize = 4 * 1024 * 1024;

const DEFAULT_BLOCK: usize = 4 * 1024 * 1024;

const LARGE_BLOCK: usize = 8 * 1024 * 1024;

/// How a memtable's arena takes memory: in blocks of `block_size` bytes, up to
/// `cap` bytes.
#[derive(Debug, Clone, Copy, PartialEq, Eq, Structural)]
pub struct ArenaPolicy {
    pub block_size: usize,
    pub cap: usize,
}

/// The sizes that a write buffer comes in.
#[derive(Debug, Clone, Copy, PartialEq, Eq, Structural)]
pub enum WriteBufferSize {
    Small,
    Medium,
    Default,
    Large,
}

/// How many mebibytes a write buffer of this size holds.
pub open spec fn buffer_mebibytes(size: WriteBufferSize) -> int {
    match size {
        WriteBufferSize::Small => 16,
        WriteBufferSize::Medium => 32,
        WriteBufferSize::Default => 64,
        WriteBufferSize::Large => 128,
    }
}

/// How many mebibytes a block of its arena holds.
pub open spec fn block_mebibytes(size: WriteBufferSize) -> int {
    match size {
        WriteBufferSize::Small => 2,
        WriteBufferSize::Medium | WriteBufferSize::Default => 4,
        WriteBufferSize::Large => 8,
    }
}

impl WriteBufferSize {
    /// The size in bytes.
    pub fn as_bytes(self) -> (bytes: usize)
        ensures
            bytes == buffer_mebibytes(self) * 1024 * 1024,
            self is Small ==> bytes == 0x100_0000,
            self is Medium ==> bytes == 0x200_0000,
            self is Default ==> bytes == 0x400_0000,
            self is Large ==> bytes == 0x800_0000,
    {
        match self {
            Self::Small => SMALL_16MB,
            Self::Medium => MEDIUM_32MB,
            Self::Default => DEFAULT_64MB,
            Self::Large => LARGE_128MB,
        }
    }

    /// The policy of an arena that backs a buffer of this size.
    pub fn arena_policy(self) -> (policy: ArenaPolicy)
        ensures
            policy.block_size == block_mebibytes(self) * 1024 * 1024,
            policy.cap == buffer_mebibytes(self) * 1024 * 1024,
            self is Small ==> policy == (ArenaPolicy { block_size: 0x20_0000, cap: 0x100_0000 }),
            self is Medium ==> policy == (ArenaPolicy { block_size: 0x40_0000, cap: 0x200_0000 }),
            self is Default ==> policy == (ArenaPolicy { block_size: 0x40_0000, cap: 0x400_0000 }),
            self is Large ==> policy == (ArenaPolicy { block_size: 0x80_0000, cap: 0x800_0000 }),
    {
        match self {
            Self::Small => ArenaPolicy { block_size: SMALL_BLOCK, cap: SMALL_16MB },
            Self::Medium => ArenaPolicy { block_size: MEDIUM_BLOCK, cap: MEDIUM_32MB },
            Self::Default => ArenaPolicy { block_size: DEFAULT_BLOCK, cap: DEFAULT_64MB },
            Self::Large => ArenaPolicy { block_size: LARGE_BLOCK, cap: LARGE_128MB },
        }
    }
}

/// A larger preset holds twice as much, and a buffer is a whole number of its arena's
/// blocks, at least eight of them.
pub proof fn law_buffers_are_whole_blocks(size: WriteBufferSize)
    ensures
        buffer_mebibytes(WriteBufferSize::Medium) == 2 * buffer_mebibytes(WriteBufferSize::Small),
        buffer_mebibytes(WriteBufferSize::Default) == 2 * buffer_mebibytes(WriteBufferSize::Medium),
        buffer_mebibytes(WriteBufferSize::Large) == 2 * buffer_mebibytes(WriteBufferSize::Default),
        block_mebibytes(size) > 0,
        buffer_mebibytes(size) % block_mebibytes(size) == 0,
        buffer_mebibytes(size) >= 8 * block_mebibytes(size),
{
}

} // verus!
