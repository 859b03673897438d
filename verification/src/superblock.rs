//! Superblock parsing.
//!
//! A data file holds several redundant superblock copies; the reader takes
//! the one with the highest non-zero `sequence`. Fields of the header:
//! `sequence` (u64) at 40, checkpoint `op` (u64) at 320,
//! `manifest_newest_address` (u64) at 656, `manifest_block_count` (u32) at 704.

use vstd::prelude::*;
use vstd::string::StringExecFns;
use crate::bytes::{le_field, read_u32, read_u64};
use crate::error::ReaderError;
use crate::layout::TBConfig;

verus! {

/// Offset of `sequence`.
pub const OFF_SEQUENCE: usize = 40;
/// Offset of `manifest_newest_address`.
pub const OFF_MANIFEST_NEWEST_ADDRESS: usize = 656;
/// Offset of `manifest_block_count`.
pub const OFF_MANIFEST_BLOCK_COUNT: usize = 704;
/// Offset of the checkpoint's `op`.
pub const OFF_CHECKPOINT_OP: usize = 320;
/// Size of the superblock header (default production configuration).
pub const SUPERBLOCK_HEADER_SIZE: usize = 8_192;
/// Number of header bytes the parser needs.
pub const SUPERBLOCK_FIELDS_END: usize = 708;

/// Information taken from the best superblock copy.
#[derive(Debug, Clone, Copy)]
pub struct SuperblockInfo {
    /// Superblock sequence number; a value > 0 confirms the cluster has started.
    pub sequence: u64,
    /// Grid address of the newest manifest log block (the chain's head).
    pub manifest_newest_address: u64,
    /// Total number of manifest log blocks in the chain.
    pub manifest_block_count: u32,
    /// The `op` of the last committed checkpoint (0 if never checkpointed).
    pub checkpoint_op: u64,
}

/// The fields that the superblock copy `b` holds.
pub open spec fn spec_superblock_info(b: Seq<u8>) -> SuperblockInfo {
    SuperblockInfo {
        sequence: le_field(b, 40, 8) as u64,
        manifest_newest_address: le_field(b, 656, 8) as u64,
        manifest_block_count: le_field(b, 704, 4) as u32,
        checkpoint_op: le_field(b, 320, 8) as u64,
    }
}

/// The copy with the highest non-zero sequence (the earliest among equals),
/// or `None` when every copy has sequence 0.
pub open spec fn best_superblock(copies: Seq<Seq<u8>>) -> Option<SuperblockInfo>
    decreases copies.len(),
{
    if copies.len() == 0 {
        None
    } else {
        let prev = best_superblock(copies.drop_last());
        let info = spec_superblock_info(copies.last());
        if info.sequence == 0 {
            prev
        } else {
            match prev {
                Some(p) => if info.sequence > p.sequence {
                    Some(info)
                } else {
                    prev
                },
                None => Some(info),
            }
        }
    }
}

/// Text of the error when no copy is valid.
pub const NO_SUPERBLOCK: &'static str = "all 4 superblock copies have sequence=0; the file may be unformatted or corrupted";

impl SuperblockInfo {
    /// Parse the fields of one superblock copy.
    pub fn from_header(b: &[u8]) -> (info: SuperblockInfo)
        requires
            b@.len() >= SUPERBLOCK_FIELDS_END,
        ensures
            info == spec_superblock_info(b@),
    {
        SuperblockInfo {
            sequence: read_u64(b, OFF_SEQUENCE),
            manifest_newest_address: read_u64(b, OFF_MANIFEST_NEWEST_ADDRESS),
            manifest_block_count: read_u32(b, OFF_MANIFEST_BLOCK_COUNT),
            checkpoint_op: read_u64(b, OFF_CHECKPOINT_OP),
        }
    }
}

/// Number of bytes to read from each superblock copy.
pub fn superblock_read_size(config: &TBConfig) -> (n: usize)
    ensures
        n == (if config.superblock_copy_size < SUPERBLOCK_HEADER_SIZE {
            config.superblock_copy_size as int
        } else {
            SUPERBLOCK_HEADER_SIZE as int
        }),
{
    if config.superblock_copy_size < SUPERBLOCK_HEADER_SIZE as u64 {
        config.superblock_copy_size as usize
    } else {
        SUPERBLOCK_HEADER_SIZE
    }
}

/// The superblock views of the copies.
pub open spec fn views_of(copies: Seq<Vec<u8>>) -> Seq<Seq<u8>> {
    copies.map_values(|c: Vec<u8>| c@)
}

/// Elect the copy with the highest non-zero `sequence`.
pub fn select_superblock(copies: &Vec<Vec<u8>>) -> (r: Result<SuperblockInfo, ReaderError>)
    requires
        forall|i: int| 0 <= i < copies@.len() ==> #[trigger] copies@[i]@.len() >= SUPERBLOCK_FIELDS_END,
    ensures
        match (r, best_superblock(views_of(copies@))) {
            (Ok(info), Some(best)) => info == best,
            (Err(ReaderError::InvalidSuperblock(m)), None) => m@ == NO_SUPERBLOCK@,
            _ => false,
        },
{
    let n = copies.len();
    let mut best: Option<SuperblockInfo> = None;
    let mut best_sequence: u64 = 0;
    for i in 0..n
        invariant
            n == copies@.len(),
            forall|i: int| 0 <= i < copies@.len() ==> #[trigger] copies@[i]@.len() >= SUPERBLOCK_FIELDS_END,
            best == best_superblock(views_of(copies@).take(i as int)),
            best_sequence == (match best { Some(b) => b.sequence, None => 0 }),
    {
        proof {
            assert(views_of(copies@).take(i + 1).drop_last() =~= views_of(copies@).take(i as int));
            assert(views_of(copies@).take(i + 1).last() == copies@[i as int]@);
        }
        let info = SuperblockInfo::from_header(copies[i].as_slice());
        if info.sequence != 0 && info.sequence > best_sequence {
            best_sequence = info.sequence;
            best = Some(info);
        }
    }
    assert(views_of(copies@).take(n as int) =~= views_of(copies@));
    match best {
        Some(b) => Ok(b),
        None => Err(ReaderError::InvalidSuperblock(String::from_str(NO_SUPERBLOCK))),
    }
}

/// The elected copy has the highest sequence of all copies and is one of
/// them with a non-zero sequence; there is none exactly when every copy has
/// sequence 0.
pub proof fn law_superblock_highest_sequence(copies: Seq<Seq<u8>>)
    ensures
        best_superblock(copies) is None <==> forall|i: int|
            0 <= i < copies.len() ==> #[trigger] spec_superblock_info(copies[i]).sequence == 0,
        best_superblock(copies) matches Some(b) ==> {
            &&& b.sequence > 0
            &&& exists|i: int| 0 <= i < copies.len() && #[trigger] spec_superblock_info(copies[i]) == b
            &&& forall|i: int|
                0 <= i < copies.len() ==> #[trigger] spec_superblock_info(copies[i]).sequence <= b.sequence
        },
    decreases copies.len(),
{
    if copies.len() > 0 {
        let d = copies.drop_last();
        law_superblock_highest_sequence(d);
        assert forall|i: int| 0 <= i < d.len() implies #[trigger] d[i] == copies[i] by {}
        let last = copies.len() - 1;
        assert(copies.last() == copies[last]);
        match best_superblock(d) {
            Some(p) => {
                let i = choose|i: int| 0 <= i < d.len() && #[trigger] spec_superblock_info(d[i]) == p;
                assert(spec_superblock_info(copies[i]) == p);
            },
            None => {},
        }
        if best_superblock(copies) is None {
            assert forall|i: int| 0 <= i < copies.len() implies #[trigger] spec_superblock_info(copies[i]).sequence
                == 0 by {
                if i < last {
                    assert(spec_superblock_info(d[i]).sequence == 0);
                }
            }
        }
        if forall|i: int| 0 <= i < copies.len() ==> #[trigger] spec_superblock_info(copies[i]).sequence == 0 {
            assert forall|i: int| 0 <= i < d.len() implies #[trigger] spec_superblock_info(d[i]).sequence == 0 by {
                assert(spec_superblock_info(copies[i]).sequence == 0);
            }
            assert(spec_superblock_info(copies[last]).sequence == 0);
        }
        if best_superblock(copies) is Some {
            let b = best_superblock(copies)->0;
            assert forall|i: int| 0 <= i < copies.len() implies #[trigger] spec_superblock_info(copies[i]).sequence
                <= b.sequence by {
                let info = spec_superblock_info(copies[last]);
                match best_superblock(d) {
                    Some(p) => {
                        assert(p.sequence <= b.sequence);
                        if i < last {
                            assert(spec_superblock_info(d[i]).sequence <= p.sequence);
                        } else {
                            assert(info.sequence == 0 || info.sequence <= b.sequence);
                        }
                    },
                    None => {
                        if i < last {
                            assert(spec_superblock_info(d[i]).sequence == 0);
                        } else {
                            assert(b == info);
                        }
                    },
                }
            }
        }
    }
}


/// Among copies that share the highest sequence the earliest wins: the
/// elected copy is one whose predecessors all have a lower sequence.
pub proof fn law_superblock_earliest_among_equals(copies: Seq<Seq<u8>>)
    ensures
        best_superblock(copies) matches Some(b) ==> exists|i: int|
            #![trigger copies[i]]
            0 <= i < copies.len() && spec_superblock_info(copies[i]) == b && forall|j: int|
                0 <= j < i ==> #[trigger] spec_superblock_info(copies[j]).sequence < b.sequence,
    decreases copies.len(),
{
    if copies.len() > 0 {
        let d = copies.drop_last();
        let last = copies.len() - 1;
        law_superblock_earliest_among_equals(d);
        law_superblock_highest_sequence(d);
        assert forall|i: int| 0 <= i < d.len() implies #[trigger] d[i] == copies[i] by {}
        assert(copies.last() == copies[last]);
        let info = spec_superblock_info(copies[last]);
        if best_superblock(copies) is Some {
            let b = best_superblock(copies)->0;
            if best_superblock(d) == Some(b) {
                let i = choose|i: int|
                    #![trigger d[i]]
                    0 <= i < d.len() && spec_superblock_info(d[i]) == b && forall|j: int|
                        0 <= j < i ==> #[trigger] spec_superblock_info(d[j]).sequence < b.sequence;
                assert(copies[i] == d[i]);
                assert forall|j: int| 0 <= j < i implies #[trigger] spec_superblock_info(copies[j]).sequence
                    < b.sequence by {
                    assert(copies[j] == d[j]);
                }
            } else {
                assert(b == info);
                assert forall|j: int| 0 <= j < last implies #[trigger] spec_superblock_info(copies[j]).sequence
                    < b.sequence by {
                    assert(copies[j] == d[j]);
                    assert(spec_superblock_info(d[j]).sequence <= 0 || best_superblock(d) is Some);
                }
                assert(copies[last] == copies[last]);
            }
        }
    }
}

} // verus!
