//! LSM index and value blocks, record slots, and the decisions of a
//! streaming walk over checkpointed records.
//!
//! Index block metadata (at header offset 128): `value_block_count` (u32)
//! at +0, `value_block_count_max` (u32) at +4, `key_size` (u32) at +8. The
//! value block addresses (u64 each) follow the checksum section
//! (`32 * value_block_count_max` bytes) and two key sections
//! (`key_size * value_block_count_max` bytes each) after the header.
//! Value blocks hold 128-byte records after the header.

use vstd::prelude::*;
use vstd::string::StringExecFns;
use vstd::slice::slice_subrange;
use std::collections::VecDeque;
use crate::block::{BlockHeader, BLOCK_TYPE_INDEX, BLOCK_TYPE_VALUE, HEADER_SIZE, spec_block_header};
use crate::bytes::{le_field, read_u32, read_u64};
use crate::error::ReaderError;
use crate::text::{decimal, push_decimal};
use crate::types::{TBObject, RECORD_SIZE};

verus! {

/// Absolute offset of `value_block_count` in an index block.
pub const META_OFF_VALUE_BLOCK_COUNT: usize = 128;
/// Absolute offset of `value_block_count_max` in an index block.
pub const META_OFF_VALUE_BLOCK_COUNT_MAX: usize = 132;
/// Absolute offset of `key_size` in an index block.
pub const META_OFF_KEY_SIZE: usize = 136;

/// `value_block_count` of an index block.
pub open spec fn value_count_of(b: Seq<u8>) -> nat {
    le_field(b, 128, 4)
}

/// `value_block_count_max` of an index block.
pub open spec fn value_count_max_of(b: Seq<u8>) -> nat {
    le_field(b, 132, 4)
}

/// `key_size` of an index block.
pub open spec fn key_size_of(b: Seq<u8>) -> nat {
    le_field(b, 136, 4)
}

/// Offset of the value block addresses in an index block.
pub open spec fn address_section_offset(b: Seq<u8>) -> int {
    (256 + 32 * value_count_max_of(b) + 2 * (value_count_max_of(b) * key_size_of(b))) as int
}

/// The non-zero addresses among the first `k` address slots at `off`.
pub open spec fn nonzero_addresses(b: Seq<u8>, off: int, k: nat) -> Seq<u64>
    decreases k,
{
    if k == 0 {
        Seq::empty()
    } else {
        let prev = nonzero_addresses(b, off, (k - 1) as nat);
        let a = le_field(b, off + 8 * (k - 1), 8) as u64;
        if a != 0 {
            prev.push(a)
        } else {
            prev
        }
    }
}

/// The value block addresses an index block lists, or why it is invalid.
pub open spec fn spec_index_block(b: Seq<u8>, address: u64) -> Result<Seq<u64>, Seq<char>> {
    match spec_block_header(b) {
        Err(m) => Err(m),
        Ok(h) => if h.block_type != 4 {
            Err("expected index block at address "@ + decimal(address as nat) + ", got block_type="@
                + decimal(h.block_type as nat))
        } else if value_count_of(b) > value_count_max_of(b) {
            Err("index block "@ + decimal(address as nat) + ": value_count="@ + decimal(
                value_count_of(b),
            ) + " exceeds value_count_max="@ + decimal(value_count_max_of(b)))
        } else if 32 * value_count_max_of(b) > usize::MAX {
            Err("index block: checksum section overflow"@)
        } else if value_count_max_of(b) * key_size_of(b) > usize::MAX {
            Err("index block: keys section overflow"@)
        } else if address_section_offset(b) + 8 * value_count_of(b) > usize::MAX {
            Err("index block: address section end overflow"@)
        } else if address_section_offset(b) + 8 * value_count_of(b) > b.len() {
            Err("index block "@ + decimal(address as nat) + ": address section end ("@ + decimal(
                (address_section_offset(b) + 8 * value_count_of(b)) as nat,
            ) + ") exceeds block size ("@ + decimal(b.len()) + ")"@)
        } else {
            Ok(nonzero_addresses(b, address_section_offset(b), value_count_of(b)))
        }
    }
}

/// Whether adding up the sections before the addresses of `b` stays in
/// `usize` once each section does.
pub open spec fn index_sections_fit(b: Seq<u8>) -> bool {
    b.len() >= 256 && 32 * value_count_max_of(b) <= usize::MAX
        && value_count_max_of(b) * key_size_of(b) <= usize::MAX
        ==> address_section_offset(b) <= usize::MAX
}

/// Validate an index block read at `address` and list its non-zero value
/// block addresses.
pub fn parse_index_block(block: &[u8], address: u64) -> (r: Result<Vec<u64>, ReaderError>)
    requires
        index_sections_fit(block@),
    ensures
        match (r, spec_index_block(block@, address)) {
            (Ok(v), Ok(sv)) => v@ == sv,
            (Err(ReaderError::InvalidBlock(m)), Err(sm)) => m@ == sm,
            _ => false,
        },
{
    let header = match BlockHeader::parse(block) {
        Ok(h) => h,
        Err(e) => return Err(e),
    };
    if header.block_type != BLOCK_TYPE_INDEX {
        let mut m = String::from_str("expected index block at address ");
        push_decimal(&mut m, address as u128);
        m.append(", got block_type=");
        push_decimal(&mut m, header.block_type as u128);
        return Err(ReaderError::InvalidBlock(m));
    }
    let value_count = read_u32(block, META_OFF_VALUE_BLOCK_COUNT) as usize;
    let value_count_max = read_u32(block, META_OFF_VALUE_BLOCK_COUNT_MAX) as usize;
    let key_size = read_u32(block, META_OFF_KEY_SIZE) as usize;
    if value_count > value_count_max {
        let mut m = String::from_str("index block ");
        push_decimal(&mut m, address as u128);
        m.append(": value_count=");
        push_decimal(&mut m, value_count as u128);
        m.append(" exceeds value_count_max=");
        push_decimal(&mut m, value_count_max as u128);
        return Err(ReaderError::InvalidBlock(m));
    }
    let checksum_section = match value_count_max.checked_mul(32) {
        Some(c) => c,
        None => {
            return Err(ReaderError::InvalidBlock(String::from_str("index block: checksum section overflow")));
        },
    };
    let keys_section = match value_count_max.checked_mul(key_size) {
        Some(k) => k,
        None => {
            return Err(ReaderError::InvalidBlock(String::from_str("index block: keys section overflow")));
        },
    };
    let addr_section_offset = HEADER_SIZE + checksum_section + keys_section + keys_section;
    let addr_section_end = match addr_section_offset.checked_add(value_count * 8) {
        Some(e) => e,
        None => {
            return Err(ReaderError::InvalidBlock(String::from_str("index block: address section end overflow")));
        },
    };
    if addr_section_end > block.len() {
        let mut m = String::from_str("index block ");
        push_decimal(&mut m, address as u128);
        m.append(": address section end (");
        push_decimal(&mut m, addr_section_end as u128);
        m.append(") exceeds block size (");
        push_decimal(&mut m, block.len() as u128);
        m.append(")");
        return Err(ReaderError::InvalidBlock(m));
    }
    let mut addrs: Vec<u64> = Vec::new();
    let len = block.len();
    for i in 0..value_count
        invariant
            len == block@.len(),
            addr_section_offset + 8 * value_count <= block@.len(),
            addr_section_offset == address_section_offset(block@),
            addrs@ == nonzero_addresses(block@, addr_section_offset as int, i as nat),
    {
        let a = read_u64(block, addr_section_offset + i * 8);
        if a != 0 {
            addrs.push(a);
        }
    }
    Ok(addrs)
}

/// The records of the `k` slots of 128 bytes starting at `start` in `b`,
/// padding slots dropped.
pub open spec fn slot_records<T: TBObject>(b: Seq<u8>, start: int, k: nat) -> Seq<T>
    decreases k,
{
    if k == 0 {
        Seq::empty()
    } else {
        let prev = slot_records::<T>(b, start, (k - 1) as nat);
        let r = T::spec_from_bytes(b.subrange(start + 128 * (k - 1), start + 128 * k));
        if r.spec_is_padding() {
            prev
        } else {
            prev.push(r)
        }
    }
}

/// Decode the non-padding records of `count` slots starting at `start`.
pub fn decode_records<T: TBObject>(b: &[u8], start: usize, count: usize) -> (out: VecDeque<T>)
    requires
        start + 128 * count <= b@.len(),
    ensures
        out@ == slot_records::<T>(b@, start as int, count as nat),
{
    let mut out: VecDeque<T> = VecDeque::new();
    let len = b.len();
    for i in 0..count
        invariant
            len == b@.len(),
            start + 128 * count <= b@.len(),
            out@ == slot_records::<T>(b@, start as int, i as nat),
    {
        let off = start + i * RECORD_SIZE;
        let slot = slice_subrange(b, off, off + RECORD_SIZE);
        let record = T::decode(slot);
        if !record.is_padding() {
            out.push_back(record);
        }
    }
    out
}

/// Number of records a value block holds, or why it is invalid.
pub open spec fn spec_value_block(b: Seq<u8>, address: u64) -> Result<nat, Seq<char>> {
    match spec_block_header(b) {
        Err(m) => Err(m),
        Ok(h) => if h.block_type != 5 {
            Err("expected value block at address "@ + decimal(address as nat) + ", got block_type="@
                + decimal(h.block_type as nat))
        } else {
            Ok(((h.size - 256) / 128) as nat)
        },
    }
}

/// Validate a value block read at `address` and return its record count
/// (`(header.size - 256) / 128`).
pub fn parse_value_block(block: &[u8], address: u64) -> (r: Result<usize, ReaderError>)
    ensures
        match (r, spec_value_block(block@, address)) {
            (Ok(n), Ok(sn)) => n == sn && 256 + 128 * n <= block@.len(),
            (Err(ReaderError::InvalidBlock(m)), Err(sm)) => m@ == sm,
            _ => false,
        },
{
    let header = match BlockHeader::parse(block) {
        Ok(h) => h,
        Err(e) => return Err(e),
    };
    if header.block_type != BLOCK_TYPE_VALUE {
        let mut m = String::from_str("expected value block at address ");
        push_decimal(&mut m, address as u128);
        m.append(", got block_type=");
        push_decimal(&mut m, header.block_type as u128);
        return Err(ReaderError::InvalidBlock(m));
    }
    let n = header.body_size() / RECORD_SIZE;
    proof {
        let sz = header.size as int;
        assert(128 * ((sz - 256) / 128) <= sz - 256) by (nonlinear_arith)
            requires
                sz >= 256,
        ;
    }
    Ok(n)
}


/// What a streaming walk over LSM records needs next.
pub enum LsmStep<T> {
    /// The next record.
    Record(T),
    /// Read the index block at this address and hand it to
    /// [`LsmCursor::on_index_block`].
    ReadIndexBlock(u64),
    /// Read the value block at this address and hand it to
    /// [`LsmCursor::on_value_block`].
    ReadValueBlock(u64),
    /// No more records.
    Done,
}

/// The decision state of a streaming walk over the records of a set of LSM
/// tables: index blocks in the given order, value blocks in listed order,
/// records in slot order with padding slots skipped. After the first error
/// the walk yields nothing more.
pub struct LsmCursor<T> {
    index_addrs: Vec<u64>,
    index_pos: usize,
    value_addrs: Vec<u64>,
    value_pos: usize,
    records: VecDeque<T>,
    done: bool,
}

/// What a walk over LSM records holds, as its steps see it.
pub struct LsmWalk<T> {
    /// Index block addresses of the walk.
    pub index_blocks: Seq<u64>,
    /// Number of index blocks handed out.
    pub index_position: int,
    /// Value block addresses of the current index block.
    pub value_blocks: Seq<u64>,
    /// Number of those value blocks handed out.
    pub value_position: int,
    /// Records of the current value block not yet yielded.
    pub pending: Seq<T>,
    /// Whether the walk stopped after an error.
    pub stopped: bool,
}

/// The step a walk in `w` takes next, and the walk after it.
pub open spec fn lsm_next<T>(w: LsmWalk<T>) -> (LsmStep<T>, LsmWalk<T>) {
    if w.stopped {
        (LsmStep::Done, w)
    } else if w.pending.len() > 0 {
        (LsmStep::Record(w.pending[0]), LsmWalk { pending: w.pending.drop_first(), ..w })
    } else if w.value_position < w.value_blocks.len() {
        (
            LsmStep::ReadValueBlock(w.value_blocks[w.value_position]),
            LsmWalk { value_position: w.value_position + 1, ..w },
        )
    } else if w.index_position < w.index_blocks.len() {
        (
            LsmStep::ReadIndexBlock(w.index_blocks[w.index_position]),
            LsmWalk { index_position: w.index_position + 1, ..w },
        )
    } else {
        (LsmStep::Done, w)
    }
}

/// The walk after taking in the index block `block` read at `address`.
pub open spec fn lsm_on_index<T>(w: LsmWalk<T>, block: Seq<u8>, address: u64) -> LsmWalk<T> {
    match spec_index_block(block, address) {
        Ok(v) => LsmWalk { value_blocks: v, value_position: 0, pending: Seq::empty(), ..w },
        Err(_) => LsmWalk { stopped: true, ..w },
    }
}

/// The walk after taking in the value block `block` read at `address`.
pub open spec fn lsm_on_value<T: TBObject>(w: LsmWalk<T>, block: Seq<u8>, address: u64) -> LsmWalk<T> {
    match spec_value_block(block, address) {
        Ok(n) => LsmWalk { pending: slot_records::<T>(block, 256, n), ..w },
        Err(_) => LsmWalk { stopped: true, ..w },
    }
}

/// What a walk's driver hands it.
pub enum LsmInput {
    /// Ask for the next step.
    Next,
    /// An index block and the address it was read at.
    IndexBlock(Seq<u8>, u64),
    /// A value block and the address it was read at.
    ValueBlock(Seq<u8>, u64),
    /// A read failed: stop.
    Stop,
}

/// The steps a walk in `w` takes over the inputs `ins` (one per `Next`),
/// and the walk after them.
pub open spec fn lsm_run<T: TBObject>(w: LsmWalk<T>, ins: Seq<LsmInput>) -> (Seq<LsmStep<T>>, LsmWalk<T>)
    decreases ins.len(),
{
    if ins.len() == 0 {
        (Seq::empty(), w)
    } else {
        let (steps, v) = lsm_run(w, ins.drop_last());
        match ins.last() {
            LsmInput::Next => (steps.push(lsm_next(v).0), lsm_next(v).1),
            LsmInput::IndexBlock(b, a) => (steps, lsm_on_index(v, b, a)),
            LsmInput::ValueBlock(b, a) => (steps, lsm_on_value(v, b, a)),
            LsmInput::Stop => (steps, LsmWalk { stopped: true, ..v }),
        }
    }
}

/// The addresses of the index blocks that `steps` ask for, in order.
pub open spec fn index_reads<T>(steps: Seq<LsmStep<T>>) -> Seq<u64>
    decreases steps.len(),
{
    if steps.len() == 0 {
        Seq::empty()
    } else {
        match steps.last() {
            LsmStep::ReadIndexBlock(a) => index_reads(steps.drop_last()).push(a),
            _ => index_reads(steps.drop_last()),
        }
    }
}

/// Whether none of `rs` is a padding or sentinel slot.
pub open spec fn no_padding<T: TBObject>(rs: Seq<T>) -> bool {
    forall|i: int| 0 <= i < rs.len() ==> !(#[trigger] rs[i]).spec_is_padding()
}

/// Whether every record step of `steps` is a real record.
pub open spec fn records_real<T: TBObject>(steps: Seq<LsmStep<T>>) -> bool {
    forall|i: int| 0 <= i < steps.len() ==> (#[trigger] steps[i] matches LsmStep::Record(x) ==> !x.spec_is_padding())
}

impl<T: TBObject> LsmCursor<T> {
    /// Index block addresses of the walk.
    pub closed spec fn index_blocks(&self) -> Seq<u64> {
        self.index_addrs@
    }

    /// Number of index blocks already handed out.
    pub closed spec fn index_position(&self) -> int {
        self.index_pos as int
    }

    /// Value block addresses of the current index block.
    pub closed spec fn value_blocks(&self) -> Seq<u64> {
        self.value_addrs@
    }

    /// Number of value blocks of the current index block already handed out.
    pub closed spec fn value_position(&self) -> int {
        self.value_pos as int
    }

    /// Records of the current value block not yet yielded.
    pub closed spec fn pending_records(&self) -> Seq<T> {
        self.records@
    }

    /// Whether the walk has stopped after an error.
    pub closed spec fn stopped(&self) -> bool {
        self.done
    }

    /// The walk as its steps see it.
    pub open spec fn walk(&self) -> LsmWalk<T> {
        LsmWalk {
            index_blocks: self.index_blocks(),
            index_position: self.index_position(),
            value_blocks: self.value_blocks(),
            value_position: self.value_position(),
            pending: self.pending_records(),
            stopped: self.stopped(),
        }
    }

    /// The state's invariant.
    pub closed spec fn wf(&self) -> bool {
        &&& self.index_pos <= self.index_addrs@.len()
        &&& self.value_pos <= self.value_addrs@.len()
    }

    /// Start a walk over the tables whose index blocks are `index_addrs`.
    pub fn new(index_addrs: Vec<u64>) -> (c: LsmCursor<T>)
        ensures
            c.wf(),
            c.index_blocks() == index_addrs@,
            c.index_position() == 0,
            c.value_blocks() == Seq::<u64>::empty(),
            c.value_position() == 0,
            c.pending_records() == Seq::<T>::empty(),
            !c.stopped(),
    {
        LsmCursor {
            index_addrs,
            index_pos: 0,
            value_addrs: Vec::new(),
            value_pos: 0,
            records: VecDeque::new(),
            done: false,
        }
    }

    /// The next step of the walk: a pending record, else the next value
    /// block of the current index block, else the next index block, else
    /// the end.
    pub fn next_step(&mut self) -> (step: LsmStep<T>)
        requires
            old(self).wf(),
        ensures
            final(self).wf(),
            final(self).index_blocks() == old(self).index_blocks(),
            final(self).value_blocks() == old(self).value_blocks(),
            final(self).stopped() == old(self).stopped(),
            (step, final(self).walk()) == lsm_next(old(self).walk()),
            if old(self).stopped() {
                &&& step is Done
                &&& final(self).pending_records() == old(self).pending_records()
                &&& final(self).index_position() == old(self).index_position()
                &&& final(self).value_position() == old(self).value_position()
            } else if old(self).pending_records().len() > 0 {
                &&& step == LsmStep::Record(old(self).pending_records()[0])
                &&& final(self).pending_records() == old(self).pending_records().drop_first()
                &&& final(self).index_position() == old(self).index_position()
                &&& final(self).value_position() == old(self).value_position()
            } else if old(self).value_position() < old(self).value_blocks().len() {
                &&& step == LsmStep::<T>::ReadValueBlock(old(self).value_blocks()[old(self).value_position()])
                &&& final(self).pending_records() == old(self).pending_records()
                &&& final(self).index_position() == old(self).index_position()
                &&& final(self).value_position() == old(self).value_position() + 1
            } else if old(self).index_position() < old(self).index_blocks().len() {
                &&& step == LsmStep::<T>::ReadIndexBlock(old(self).index_blocks()[old(self).index_position()])
                &&& final(self).pending_records() == old(self).pending_records()
                &&& final(self).index_position() == old(self).index_position() + 1
                &&& final(self).value_position() == old(self).value_position()
            } else {
                &&& step is Done
                &&& final(self).pending_records() == old(self).pending_records()
                &&& final(self).index_position() == old(self).index_position()
                &&& final(self).value_position() == old(self).value_position()
            },
    {
        if self.done {
            return LsmStep::Done;
        }
        match self.records.pop_front() {
            Some(r) => {
                assert(self.records@ =~= old(self).records@.drop_first());
                return LsmStep::Record(r);
            },
            None => {},
        }
        if self.value_pos < self.value_addrs.len() {
            let a = self.value_addrs[self.value_pos];
            self.value_pos = self.value_pos + 1;
            return LsmStep::ReadValueBlock(a);
        }
        if self.index_pos < self.index_addrs.len() {
            let a = self.index_addrs[self.index_pos];
            self.index_pos = self.index_pos + 1;
            return LsmStep::ReadIndexBlock(a);
        }
        LsmStep::Done
    }

    /// Take in the index block read at `address`: its value blocks become
    /// the ones to walk next. An invalid block stops the walk.
    pub fn on_index_block(&mut self, block: &[u8], address: u64) -> (r: Result<(), ReaderError>)
        requires
            old(self).wf(),
            index_sections_fit(block@),
        ensures
            final(self).wf(),
            final(self).index_blocks() == old(self).index_blocks(),
            final(self).index_position() == old(self).index_position(),
            final(self).walk() == lsm_on_index(old(self).walk(), block@, address),
            match spec_index_block(block@, address) {
                Ok(v) => {
                    &&& r is Ok
                    &&& final(self).value_blocks() == v
                    &&& final(self).value_position() == 0
                    &&& final(self).pending_records() == Seq::<T>::empty()
                    &&& final(self).stopped() == old(self).stopped()
                },
                Err(m) => {
                    &&& r matches Err(ReaderError::InvalidBlock(e)) && e@ == m
                    &&& final(self).stopped()
                    &&& final(self).value_blocks() == old(self).value_blocks()
                    &&& final(self).value_position() == old(self).value_position()
                    &&& final(self).pending_records() == old(self).pending_records()
                },
            },
    {
        match parse_index_block(block, address) {
            Ok(v) => {
                self.value_addrs = v;
                self.value_pos = 0;
                self.records = VecDeque::new();
                Ok(())
            },
            Err(e) => {
                self.done = true;
                Err(e)
            },
        }
    }

    /// Take in the value block read at `address`: its records become the
    /// pending ones. An invalid block stops the walk.
    pub fn on_value_block(&mut self, block: &[u8], address: u64) -> (r: Result<(), ReaderError>)
        requires
            old(self).wf(),
        ensures
            final(self).wf(),
            final(self).index_blocks() == old(self).index_blocks(),
            final(self).index_position() == old(self).index_position(),
            final(self).value_blocks() == old(self).value_blocks(),
            final(self).value_position() == old(self).value_position(),
            final(self).walk() == lsm_on_value(old(self).walk(), block@, address),
            match spec_value_block(block@, address) {
                Ok(n) => {
                    &&& r is Ok
                    &&& final(self).pending_records() == slot_records::<T>(block@, 256, n)
                    &&& final(self).stopped() == old(self).stopped()
                },
                Err(m) => {
                    &&& r matches Err(ReaderError::InvalidBlock(e)) && e@ == m
                    &&& final(self).stopped()
                    &&& final(self).pending_records() == old(self).pending_records()
                },
            },
    {
        match parse_value_block(block, address) {
            Ok(n) => {
                self.records = decode_records(block, HEADER_SIZE, n);
                Ok(())
            },
            Err(e) => {
                self.done = true;
                Err(e)
            },
        }
    }

    /// Stop the walk (after a read failed).
    pub fn stop(&mut self)
        requires
            old(self).wf(),
        ensures
            final(self).wf(),
            final(self).stopped(),
            final(self).walk() == (LsmWalk { stopped: true, ..old(self).walk() }),
            final(self).index_blocks() == old(self).index_blocks(),
            final(self).index_position() == old(self).index_position(),
            final(self).value_blocks() == old(self).value_blocks(),
            final(self).value_position() == old(self).value_position(),
            final(self).pending_records() == old(self).pending_records(),
    {
        self.done = true;
    }
}


pub proof fn lemma_slot_records_real<T: TBObject>(b: Seq<u8>, start: int, k: nat)
    ensures
        no_padding(slot_records::<T>(b, start, k)),
    decreases k,
{
    if k > 0 {
        lemma_slot_records_real::<T>(b, start, (k - 1) as nat);
        let prev = slot_records::<T>(b, start, (k - 1) as nat);
        let r = T::spec_from_bytes(b.subrange(start + 128 * (k - 1), start + 128 * k));
        if !r.spec_is_padding() {
            assert forall|i: int| 0 <= i < prev.push(r).len() implies !(#[trigger] prev.push(r)[i]).spec_is_padding() by {
                if i < prev.len() {
                    assert(prev.push(r)[i] == prev[i]);
                }
            }
        }
    }
}

/// Once a walk over LSM records has stopped after an error, it yields
/// nothing more, whatever it is handed.
pub proof fn law_lsm_stopped_yields_nothing<T: TBObject>(w: LsmWalk<T>, ins: Seq<LsmInput>)
    requires
        w.stopped,
    ensures
        lsm_run(w, ins).1.stopped,
        forall|i: int| 0 <= i < lsm_run(w, ins).0.len() ==> #[trigger] lsm_run(w, ins).0[i] is Done,
    decreases ins.len(),
{
    if ins.len() > 0 {
        law_lsm_stopped_yields_nothing(w, ins.drop_last());
    }
}

/// A walk over LSM records yields real records only: padding and
/// sentinel slots are skipped.
pub proof fn law_lsm_skips_padding<T: TBObject>(w: LsmWalk<T>, ins: Seq<LsmInput>)
    requires
        no_padding(w.pending),
    ensures
        records_real(lsm_run(w, ins).0),
        no_padding(lsm_run(w, ins).1.pending),
    decreases ins.len(),
{
    if ins.len() > 0 {
        law_lsm_skips_padding(w, ins.drop_last());
        let (steps, v) = lsm_run(w, ins.drop_last());
        match ins.last() {
            LsmInput::Next => {
                let st = lsm_next(v).0;
                assert forall|i: int| 0 <= i < steps.push(st).len() implies (#[trigger] steps.push(st)[i] matches LsmStep::Record(x) ==> !x.spec_is_padding()) by {
                    if i < steps.len() {
                        assert(steps.push(st)[i] == steps[i]);
                    }
                }
                assert forall|i: int| 0 <= i < lsm_next(v).1.pending.len() implies !(#[trigger] lsm_next(v).1.pending[i]).spec_is_padding() by {
                    if v.pending.len() > 0 && !v.stopped {
                        assert(lsm_next(v).1.pending[i] == v.pending[i + 1]);
                    }
                }
            },
            LsmInput::ValueBlock(b, a) => {
                match spec_value_block(b, a) {
                    Ok(n) => lemma_slot_records_real::<T>(b, 256, n),
                    Err(_) => {},
                }
            },
            _ => {},
        }
    }
}

/// A walk over LSM records asks for its index blocks in the given order,
/// each once, from where it stands; and it ends (without an error) only
/// after it has asked for every one of them.
pub proof fn law_lsm_index_blocks_in_order<T: TBObject>(w: LsmWalk<T>, ins: Seq<LsmInput>)
    requires
        0 <= w.index_position <= w.index_blocks.len(),
    ensures
        lsm_run(w, ins).1.index_blocks == w.index_blocks,
        w.index_position <= lsm_run(w, ins).1.index_position <= w.index_blocks.len(),
        index_reads(lsm_run(w, ins).0) == w.index_blocks.subrange(
            w.index_position,
            lsm_run(w, ins).1.index_position,
        ),
        forall|v: LsmWalk<T>|
            #[trigger] lsm_next(v).0 is Done && !v.stopped ==> v.index_position >= v.index_blocks.len(),
    decreases ins.len(),
{
    if ins.len() > 0 {
        law_lsm_index_blocks_in_order(w, ins.drop_last());
        let (steps, v) = lsm_run(w, ins.drop_last());
        match ins.last() {
            LsmInput::Next => {
                let st = lsm_next(v).0;
                assert(steps.push(st).drop_last() =~= steps);
                if st is ReadIndexBlock {
                    assert(w.index_blocks.subrange(w.index_position, v.index_position + 1) =~= w.index_blocks.subrange(
                        w.index_position,
                        v.index_position,
                    ).push(w.index_blocks[v.index_position]));
                }
            },
            _ => {},
        }
    }
}


/// The record that the 128-byte slot `i` after `start` of `b` decodes to.
pub open spec fn slot_record<T: TBObject>(b: Seq<u8>, start: int, i: int) -> T {
    T::spec_from_bytes(b.subrange(start + 128 * i, start + 128 * i + 128))
}

/// The records of the `k` slots after `start` of `b`, every slot decoded.
pub open spec fn block_slots<T: TBObject>(b: Seq<u8>, start: int, k: nat) -> Seq<T> {
    Seq::new(k, |i: int| slot_record::<T>(b, start, i))
}

/// Whether a record is a real one: neither padding nor the sentinel.
pub open spec fn is_real<T: TBObject>() -> spec_fn(T) -> bool {
    |r: T| !r.spec_is_padding()
}

/// Decoding `k` slots gives every slot's record, in slot order, but for
/// padding and sentinel slots; when no slot is padding, exactly the `k`
/// slots' records.
pub proof fn law_slot_records_are_the_slots<T: TBObject>(b: Seq<u8>, start: int, k: nat)
    ensures
        slot_records::<T>(b, start, k) == block_slots::<T>(b, start, k).filter(is_real::<T>()),
        (forall|i: int| 0 <= i < k ==> !(#[trigger] slot_record::<T>(b, start, i)).spec_is_padding()) ==> {
            &&& slot_records::<T>(b, start, k).len() == k
            &&& forall|i: int|
                0 <= i < k ==> #[trigger] slot_records::<T>(b, start, k)[i] == slot_record::<T>(b, start, i)
        },
    decreases k,
{
    let all = block_slots::<T>(b, start, k);
    reveal(Seq::filter);
    if k > 0 {
        law_slot_records_are_the_slots::<T>(b, start, (k - 1) as nat);
        let prev = block_slots::<T>(b, start, (k - 1) as nat);
        assert(all.drop_last() =~= prev);
        assert(all.last() == slot_record::<T>(b, start, k - 1));
        assert(start + 128 * (k - 1) + 128 == start + 128 * k);
        let f = is_real::<T>();
        let r = T::spec_from_bytes(b.subrange(start + 128 * (k - 1), start + 128 * k));
        assert(r == all.last());
        assert(f(r) == !r.spec_is_padding());
        assert(all.filter(f) == if f(all.last()) {
            all.drop_last().filter(f).push(all.last())
        } else {
            all.drop_last().filter(f)
        });
        assert(slot_records::<T>(b, start, k) == all.filter(f));
        if forall|i: int| 0 <= i < k ==> !(#[trigger] slot_record::<T>(b, start, i)).spec_is_padding() {
            assert(!slot_record::<T>(b, start, k - 1).spec_is_padding());
            assert forall|i: int| 0 <= i < k - 1 implies !(#[trigger] slot_record::<T>(b, start, i)).spec_is_padding() by {}
            let p = slot_records::<T>(b, start, (k - 1) as nat);
            assert(slot_records::<T>(b, start, k) == p.push(slot_record::<T>(b, start, k - 1)));
            assert forall|i: int| 0 <= i < k implies #[trigger] slot_records::<T>(b, start, k)[i] == slot_record::<T>(b, start, i) by {
                if i < k - 1 {
                    assert(p[i] == slot_record::<T>(b, start, i));
                }
            }
        }
    } else {
        assert(all =~= Seq::<T>::empty());
    }
}

/// A valid value block hands the walk the records of its
/// `(header.size - 256) / 128` slots, in slot order, padding and sentinel
/// slots skipped: when none of its slots is padding, exactly that many
/// records, each its slot decoded.
pub proof fn law_value_block_records<T: TBObject>(w: LsmWalk<T>, b: Seq<u8>, address: u64)
    requires
        spec_block_header(b) matches Ok(h) && h.block_type == 5,
    ensures
        ({
            let n = ((spec_block_header(b)->Ok_0.size - 256) / 128) as nat;
            let p = lsm_on_value(w, b, address).pending;
            &&& p == block_slots::<T>(b, 256, n).filter(is_real::<T>())
            &&& (forall|i: int| 0 <= i < n ==> !(#[trigger] slot_record::<T>(b, 256, i)).spec_is_padding()) ==> p.len()
                == n && forall|i: int| 0 <= i < n ==> #[trigger] p[i] == slot_record::<T>(b, 256, i)
        }),
{
    let n = ((spec_block_header(b)->Ok_0.size - 256) / 128) as nat;
    assert(spec_value_block(b, address) == Ok::<nat, Seq<char>>(n));
    law_slot_records_are_the_slots::<T>(b, 256, n);
}
} // verus!
