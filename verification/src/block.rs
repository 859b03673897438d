//! Grid block header parsing.
//!
//! Every grid block starts with a 256-byte header: `size` (u32) at 96,
//! `command` (u8) at 114 which must be 20 (`block`), `metadata_bytes` at 128
//! (96 bytes, block-type specific), `address` (u64) at 224 and `block_type`
//! (u8) at 240 (3 = manifest, 4 = index, 5 = value).

use vstd::prelude::*;
use vstd::string::StringExecFns;
use crate::bytes::{le_field, read_u32, read_u64};
use crate::error::ReaderError;
use crate::text::{decimal, push_decimal};

verus! {

/// Size of the block header in bytes.
pub const HEADER_SIZE: usize = 256;
/// `Command` value for grid blocks.
pub const COMMAND_BLOCK: u8 = 20;
/// `BlockType` of manifest log blocks.
pub const BLOCK_TYPE_MANIFEST: u8 = 3;
/// `BlockType` of LSM index blocks.
pub const BLOCK_TYPE_INDEX: u8 = 4;
/// `BlockType` of LSM value blocks (they hold the records).
pub const BLOCK_TYPE_VALUE: u8 = 5;
/// Offset of `size` in the header.
pub const OFF_SIZE: usize = 96;
/// Offset of `command` in the header.
pub const OFF_COMMAND: usize = 114;
/// Offset of `metadata_bytes` in the header.
pub const OFF_METADATA: usize = 128;
/// Offset of `address` in the header.
pub const OFF_ADDRESS: usize = 224;
/// Offset of `block_type` in the header.
pub const OFF_BLOCK_TYPE: usize = 240;

/// Key fields of a grid block header.
#[derive(Debug, Clone, Copy)]
pub struct BlockHeader {
    /// Total bytes used by the block (header + body, without padding).
    pub size: u32,
    /// Block type: 3 = manifest, 4 = index, 5 = value.
    pub block_type: u8,
}

/// The header that `b` carries, or the description of why it is invalid.
pub open spec fn spec_block_header(b: Seq<u8>) -> Result<BlockHeader, Seq<char>> {
    if b.len() < 256 {
        Err("block too short: "@ + decimal(b.len()) + " < 256"@)
    } else if b[114] != 20 {
        Err("expected command=block(20), got "@ + decimal(b[114] as nat))
    } else if le_field(b, 96, 4) < 256 {
        Err("block header.size="@ + decimal(le_field(b, 96, 4)) + " < HEADER_SIZE=256"@)
    } else if le_field(b, 96, 4) > b.len() {
        Err("block header.size="@ + decimal(le_field(b, 96, 4)) + " > buffer len "@ + decimal(
            b.len(),
        ))
    } else if le_field(b, 224, 8) == 0 {
        Err("block address is 0 (null sentinel)"@)
    } else {
        Ok(BlockHeader { size: le_field(b, 96, 4) as u32, block_type: b[240] })
    }
}

impl BlockHeader {
    /// Parse and lightly validate the header in the first 256 bytes of `block`.
    pub fn parse(block: &[u8]) -> (r: Result<BlockHeader, ReaderError>)
        ensures
            match (r, spec_block_header(block@)) {
                (Ok(h), Ok(sh)) => h == sh,
                (Err(ReaderError::InvalidBlock(m)), Err(sm)) => m@ == sm,
                _ => false,
            },
            r matches Ok(h) ==> 256 <= h.size <= block@.len(),
    {
        let len = block.len();
        if len < HEADER_SIZE {
            let mut m = String::from_str("block too short: ");
            push_decimal(&mut m, len as u128);
            m.append(" < 256");
            return Err(ReaderError::InvalidBlock(m));
        }
        let command = block[OFF_COMMAND];
        if command != COMMAND_BLOCK {
            let mut m = String::from_str("expected command=block(20), got ");
            push_decimal(&mut m, command as u128);
            return Err(ReaderError::InvalidBlock(m));
        }
        let size = read_u32(block, OFF_SIZE);
        if (size as usize) < HEADER_SIZE {
            let mut m = String::from_str("block header.size=");
            push_decimal(&mut m, size as u128);
            m.append(" < HEADER_SIZE=256");
            return Err(ReaderError::InvalidBlock(m));
        }
        if (size as usize) > len {
            let mut m = String::from_str("block header.size=");
            push_decimal(&mut m, size as u128);
            m.append(" > buffer len ");
            push_decimal(&mut m, len as u128);
            return Err(ReaderError::InvalidBlock(m));
        }
        let address = read_u64(block, OFF_ADDRESS);
        if address == 0 {
            return Err(ReaderError::InvalidBlock(String::from_str("block address is 0 (null sentinel)")));
        }
        Ok(BlockHeader { size, block_type: block[OFF_BLOCK_TYPE] })
    }

    /// Number of bytes of body data (`size` minus the 256-byte header, or 0).
    pub fn body_size(&self) -> (n: usize)
        ensures
            n == (if self.size >= 256 { self.size - 256 } else { 0 }),
    {
        (self.size as usize).saturating_sub(HEADER_SIZE)
    }
}

} // verus!
