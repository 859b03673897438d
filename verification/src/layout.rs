//! On-disk layout of a data file and address translation.
//!
//! Zones for TigerBeetle's default production configuration: superblock at
//! 0 (4 copies of 24,576 B), WAL headers at 98,304 (1,024 slots of 256 B),
//! WAL prepares at 360,448 (1,024 slots of 1 MiB), client replies, grid
//! padding, and the grid at 1,141,374,976 (blocks of 512 KiB).

use vstd::prelude::*;

verus! {

/// Configuration describing the on-disk layout of a TigerBeetle data file.
///
/// [`Default`] matches TigerBeetle's default production cluster
/// configuration; clusters started with custom sizes need a custom value.
#[derive(Debug, Clone)]
pub struct TBConfig {
    /// Size of each grid block in bytes. Default: 524,288 (512 KiB).
    pub block_size: u64,
    /// Size of each superblock copy (header + padding) in bytes. Default: 24,576.
    pub superblock_copy_size: u64,
    /// Number of redundant superblock copies. Default: 4.
    pub superblock_copies: u64,
    /// Byte offset of the grid zone within the data file. Default: 1,141,374,976.
    pub grid_zone_start: u64,
    /// Number of WAL journal slots. Default: 1,024.
    pub journal_slot_count: u64,
    /// Maximum message size (header + body) in bytes. Default: 1,048,576.
    pub message_size_max: u64,
}

/// Size in bytes of one WAL header slot.
pub const WAL_HEADER_SIZE: u64 = 256;

impl Default for TBConfig {
    fn default() -> (c: Self)
        ensures
            c.block_size == 524_288,
            c.superblock_copy_size == 24_576,
            c.superblock_copies == 4,
            c.grid_zone_start == 1_141_374_976,
            c.journal_slot_count == 1_024,
            c.message_size_max == 1_048_576,
    {
        TBConfig {
            block_size: 512 * 1024,
            superblock_copy_size: 24_576,
            superblock_copies: 4,
            grid_zone_start: 1_141_374_976,
            journal_slot_count: 1_024,
            message_size_max: 1_048_576,
        }
    }
}

impl TBConfig {
    /// Byte offset of the 1-indexed grid block `address` (address 0 is the
    /// null sentinel).
    pub open spec fn spec_block_offset(&self, address: u64) -> int {
        self.grid_zone_start + (address - 1) * self.block_size
    }

    /// Byte offset of the WAL headers zone.
    pub open spec fn spec_wal_headers_start(&self) -> int {
        self.superblock_copies * self.superblock_copy_size
    }

    /// Byte offset of the WAL prepares zone.
    pub open spec fn spec_wal_prepares_start(&self) -> int {
        self.spec_wal_headers_start() + self.journal_slot_count * WAL_HEADER_SIZE
    }

    /// Convert a 1-indexed block address to its byte offset within the data file.
    pub fn block_offset(&self, address: u64) -> (off: u64)
        requires
            address > 0,
            self.spec_block_offset(address) <= u64::MAX,
        ensures
            off == self.spec_block_offset(address),
    {
        self.grid_zone_start + (address - 1) * self.block_size
    }

    /// Byte offset of superblock copy `n` (0-indexed) within the data file.
    pub fn superblock_copy_offset(&self, n: u64) -> (off: u64)
        requires
            n < self.superblock_copies,
            n * self.superblock_copy_size <= u64::MAX,
        ensures
            off == n * self.superblock_copy_size,
    {
        n * self.superblock_copy_size
    }

    /// Byte offset of the WAL headers zone (256-byte header per slot).
    pub fn wal_headers_start(&self) -> (off: u64)
        requires
            self.spec_wal_headers_start() <= u64::MAX,
        ensures
            off == self.spec_wal_headers_start(),
    {
        self.superblock_copies * self.superblock_copy_size
    }

    /// Byte offset of the WAL prepares zone (one full message per slot).
    pub fn wal_prepares_start(&self) -> (off: u64)
        requires
            self.spec_wal_prepares_start() <= u64::MAX,
        ensures
            off == self.spec_wal_prepares_start(),
    {
        proof {
            assert(self.spec_wal_headers_start() <= self.spec_wal_prepares_start()) by (nonlinear_arith)
                requires
                    self.journal_slot_count >= 0,
                    self.spec_wal_prepares_start() == self.spec_wal_headers_start()
                        + self.journal_slot_count * 256,
            ;
        }
        self.wal_headers_start() + self.journal_slot_count * WAL_HEADER_SIZE
    }
}

} // verus!
