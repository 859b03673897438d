//! Manifest log traversal.
//!
//! The manifest log is a linked list of grid blocks (type 3) walked newest
//! to oldest through `previous_manifest_block_address`. Each block lists
//! table events (insert, update, remove). Walking newest-first, the first
//! event seen for a table address is its latest: the table is live when
//! that event is an insert or an update; later (older) events for the same
//! address are skipped.
//!
//! Manifest block metadata (at header offset 128): previous block address
//! (u64) at +32, entry count (u32) at +40. Entries are 128-byte table rows
//! following the 256-byte header.
//!
//! [`ManifestScan`] holds the decisions of the walk; its caller reads each
//! block it asks for and hands the bytes back.

use vstd::prelude::*;
use vstd::string::StringExecFns;
use vstd::slice::slice_subrange;
use std::collections::HashMap;
use crate::block::{BlockHeader, BLOCK_TYPE_MANIFEST, HEADER_SIZE, spec_block_header};
use crate::bytes::{le_field, read_u32, read_u64};
use crate::error::ReaderError;
use crate::superblock::SuperblockInfo;
use crate::text::{decimal, push_decimal};
use crate::types::{spec_table_info_from_bytes, ManifestEvent, TableInfo};

verus! {

/// LSM tree ID of the Account objects tree (keyed by `timestamp`).
pub const ACCOUNT_OBJECTS_TREE_ID: u16 = 7;
/// LSM tree ID of the Transfer objects tree (keyed by `timestamp`).
pub const TRANSFER_OBJECTS_TREE_ID: u16 = 18;
/// Size of one table row in a manifest block.
pub const TABLE_INFO_SIZE: usize = 128;
/// Absolute offset of `previous_manifest_block_address`.
pub const META_OFF_PREV_ADDRESS: usize = 160;
/// Absolute offset of `entry_count`.
pub const META_OFF_ENTRY_COUNT: usize = 168;

/// The `(address, live)` entry that a table row contributes when the walk
/// is restricted to `tree` (`None`: every tree).
pub open spec fn row_entry(row: Seq<u8>, tree: Option<u16>) -> Option<(u64, bool)> {
    match spec_table_info_from_bytes(row) {
        Some(t) => if tree is None || tree == Some(t.tree_id) {
            Some((t.address, t.event != ManifestEvent::Remove))
        } else {
            None
        },
        None => None,
    }
}

/// The `k`-th table row of a manifest block.
pub open spec fn manifest_row(b: Seq<u8>, k: int) -> Seq<u8> {
    b.subrange(256 + 128 * k, 256 + 128 * k + 128)
}

/// The entries of the first `k` rows of the manifest block `b`, in order.
pub open spec fn block_entries(b: Seq<u8>, k: nat, tree: Option<u16>) -> Seq<(u64, bool)>
    decreases k,
{
    if k == 0 {
        Seq::empty()
    } else {
        let prev = block_entries(b, (k - 1) as nat, tree);
        match row_entry(manifest_row(b, k - 1), tree) {
            Some(e) => prev.push(e),
            None => prev,
        }
    }
}

/// Record `es` in order: an address seen for the first time is marked with
/// its liveness, and a live one is appended to `live`; addresses already
/// seen are left as they are.
pub open spec fn apply_entries(seen: Map<u64, bool>, live: Seq<u64>, es: Seq<(u64, bool)>) -> (
    Map<u64, bool>,
    Seq<u64>,
)
    decreases es.len(),
{
    if es.len() == 0 {
        (seen, live)
    } else {
        let (s, l) = apply_entries(seen, live, es.drop_last());
        let e = es.last();
        if s.contains_key(e.0) {
            (s, l)
        } else {
            (s.insert(e.0, e.1), if e.1 {
                l.push(e.0)
            } else {
                l
            })
        }
    }
}

/// The decision state of one manifest walk.
pub struct ManifestScan {
    tree_id: Option<u16>,
    block_count: u32,
    block_size: usize,
    next_address: u64,
    blocks_visited: u64,
    seen: HashMap<u64, bool>,
    live: Vec<u64>,
}

impl ManifestScan {
    /// Restricting tree, or `None` for all trees.
    pub closed spec fn tree(&self) -> Option<u16> {
        self.tree_id
    }

    /// Number of manifest blocks the superblock declares.
    pub closed spec fn declared_blocks(&self) -> u32 {
        self.block_count
    }

    /// Size of a grid block.
    pub closed spec fn grid_block_size(&self) -> usize {
        self.block_size
    }

    /// Address of the next block to read (0 when the walk is over).
    pub closed spec fn pending(&self) -> u64 {
        self.next_address
    }

    /// Number of blocks handed out so far.
    pub closed spec fn visited(&self) -> u64 {
        self.blocks_visited
    }

    /// The first event seen for each table address: live or not.
    pub closed spec fn seen_map(&self) -> Map<u64, bool> {
        self.seen@
    }

    /// Live table addresses in the order they were first seen.
    pub closed spec fn live_seq(&self) -> Seq<u64> {
        self.live@
    }

    /// The state's invariant.
    pub closed spec fn wf(&self) -> bool {
        &&& self.blocks_visited <= self.block_count as u64 + 2
        &&& self.next_address != 0 ==> self.blocks_visited <= self.block_count as u64 + 1
        &&& self.block_size >= 256
        &&& forall|a: u64| #[trigger] self.live@.contains(a) <==> (self.seen@.contains_key(a) && self.seen@[a])
        &&& self.live@.no_duplicates()
    }

    /// Start a walk for `info`'s manifest chain, keeping the tables of
    /// `tree_id` (`None`: all trees). A chain with a zero head or a zero
    /// block count is empty.
    pub fn new(info: &SuperblockInfo, tree_id: Option<u16>, block_size: u64) -> (s: ManifestScan)
        requires
            256 <= block_size <= usize::MAX,
        ensures
            s.wf(),
            s.tree() == tree_id,
            s.declared_blocks() == info.manifest_block_count,
            s.grid_block_size() == block_size,
            s.pending() == (if info.manifest_newest_address == 0 || info.manifest_block_count == 0 {
                0
            } else {
                info.manifest_newest_address
            }),
            s.visited() == 0,
            s.seen_map() == Map::<u64, bool>::empty(),
            s.live_seq() == Seq::<u64>::empty(),
    {
        let start = if info.manifest_newest_address == 0 || info.manifest_block_count == 0 {
            0
        } else {
            info.manifest_newest_address
        };
        ManifestScan {
            tree_id,
            block_count: info.manifest_block_count,
            block_size: block_size as usize,
            next_address: start,
            blocks_visited: 0,
            seen: HashMap::new(),
            live: Vec::new(),
        }
    }

    /// The address of the next manifest block to read, `None` when the walk
    /// is over, or an error (which ends the walk) when the chain is longer
    /// than the declared block count allows (a loop).
    pub fn next_read(&mut self) -> (r: Result<Option<u64>, ReaderError>)
        requires
            old(self).wf(),
        ensures
            final(self).wf(),
            final(self).tree() == old(self).tree(),
            final(self).declared_blocks() == old(self).declared_blocks(),
            final(self).grid_block_size() == old(self).grid_block_size(),
            final(self).seen_map() == old(self).seen_map(),
            final(self).live_seq() == old(self).live_seq(),
            old(self).pending() == 0 ==> r == Ok::<Option<u64>, ReaderError>(None) && *final(self)
                == *old(self),
            old(self).pending() != 0 ==> final(self).visited() == old(self).visited() + 1 && (
            if final(self).visited() > old(self).declared_blocks() + 1 {
                &&& r matches Err(ReaderError::InvalidBlock(m)) && m@
                    == "manifest chain longer than manifest_block_count="@ + decimal(
                    old(self).declared_blocks() as nat,
                ) + " (possible loop)"@
                &&& final(self).pending() == 0
            } else {
                &&& r == Ok::<Option<u64>, ReaderError>(Some(old(self).pending()))
                &&& final(self).pending() == old(self).pending()
            }),
    {
        if self.next_address == 0 {
            return Ok(None);
        }
        self.blocks_visited = self.blocks_visited + 1;
        if self.blocks_visited > self.block_count as u64 + 1 {
            self.next_address = 0;
            let mut m = String::from_str("manifest chain longer than manifest_block_count=");
            push_decimal(&mut m, self.block_count as u128);
            m.append(" (possible loop)");
            return Err(ReaderError::InvalidBlock(m));
        }
        Ok(Some(self.next_address))
    }

    /// Process the manifest block read at the pending address: validate it,
    /// record its table events for the walk's tree, and move to the
    /// previous block. An invalid block is an error and ends the walk.
    pub fn consume_block(&mut self, block: &[u8]) -> (r: Result<(), ReaderError>)
        requires
            old(self).wf(),
            old(self).pending() != 0,
            block@.len() == old(self).grid_block_size(),
        ensures
            final(self).wf(),
            final(self).tree() == old(self).tree(),
            final(self).declared_blocks() == old(self).declared_blocks(),
            final(self).grid_block_size() == old(self).grid_block_size(),
            final(self).visited() == old(self).visited(),
            match spec_block_header(block@) {
                Err(m) => {
                    &&& r matches Err(ReaderError::InvalidBlock(e)) && e@ == m
                    &&& final(self).pending() == 0
                    &&& final(self).seen_map() == old(self).seen_map()
                    &&& final(self).live_seq() == old(self).live_seq()
                },
                Ok(h) => if h.block_type != 3 {
                    &&& r matches Err(ReaderError::InvalidBlock(e)) && e@
                        == "expected manifest block at address "@ + decimal(old(self).pending() as nat)
                        + ", got block_type="@ + decimal(h.block_type as nat)
                    &&& final(self).pending() == 0
                    &&& final(self).seen_map() == old(self).seen_map()
                    &&& final(self).live_seq() == old(self).live_seq()
                } else if le_field(block@, 168, 4) > (block@.len() - 256) / 128 {
                    &&& r matches Err(ReaderError::InvalidBlock(e)) && e@ == "manifest block at "@
                        + decimal(old(self).pending() as nat) + ": entry_count="@ + decimal(
                        le_field(block@, 168, 4),
                    ) + " exceeds block capacity "@ + decimal(((block@.len() - 256) / 128) as nat)
                    &&& final(self).pending() == 0
                    &&& final(self).seen_map() == old(self).seen_map()
                    &&& final(self).live_seq() == old(self).live_seq()
                } else {
                    &&& r is Ok
                    &&& final(self).pending() == le_field(block@, 160, 8)
                    &&& (final(self).seen_map(), final(self).live_seq()) == apply_entries(
                        old(self).seen_map(),
                        old(self).live_seq(),
                        block_entries(block@, le_field(block@, 168, 4), old(self).tree()),
                    )
                },
            },
    {
        broadcast use vstd::std_specs::hash::group_hash_axioms;

        let address = self.next_address;
        let header = match BlockHeader::parse(block) {
            Ok(h) => h,
            Err(e) => {
                self.next_address = 0;
                return Err(e);
            },
        };
        if header.block_type != BLOCK_TYPE_MANIFEST {
            self.next_address = 0;
            let mut m = String::from_str("expected manifest block at address ");
            push_decimal(&mut m, address as u128);
            m.append(", got block_type=");
            push_decimal(&mut m, header.block_type as u128);
            return Err(ReaderError::InvalidBlock(m));
        }
        let prev_address = read_u64(block, META_OFF_PREV_ADDRESS);
        let entry_count = read_u32(block, META_OFF_ENTRY_COUNT) as usize;
        let max_entries = (self.block_size - HEADER_SIZE) / TABLE_INFO_SIZE;
        if entry_count > max_entries {
            self.next_address = 0;
            let mut m = String::from_str("manifest block at ");
            push_decimal(&mut m, address as u128);
            m.append(": entry_count=");
            push_decimal(&mut m, entry_count as u128);
            m.append(" exceeds block capacity ");
            push_decimal(&mut m, max_entries as u128);
            return Err(ReaderError::InvalidBlock(m));
        }
        let ghost seen0 = self.seen@;
        let ghost live0 = self.live@;
        let ghost before = *self;
        let tree = self.tree_id;
        for i in 0..entry_count
            invariant
                entry_count <= max_entries,
                max_entries == (block@.len() - 256) / 128,
                block@.len() >= 256,
                tree == self.tree_id,
                self.tree_id == before.tree_id,
                self.block_count == before.block_count,
                self.block_size == before.block_size,
                self.blocks_visited == before.blocks_visited,
                self.next_address == before.next_address,
                block@.len() == self.block_size,
                (self.seen@, self.live@) == apply_entries(
                    seen0,
                    live0,
                    block_entries(block@, i as nat, tree),
                ),
                forall|a: u64| #[trigger] self.live@.contains(a) <==> (self.seen@.contains_key(a) && self.seen@[a]),
                self.live@.no_duplicates(),
        {
            proof {
                assert(i * 128 + 128 <= block@.len() - 256) by (nonlinear_arith)
                    requires
                        i < entry_count,
                        entry_count <= max_entries,
                        max_entries == (block@.len() - 256) / 128,
                        block@.len() >= 256,
                ;
            }
            let off = HEADER_SIZE + i * TABLE_INFO_SIZE;
            let row = slice_subrange(block, off, off + TABLE_INFO_SIZE);
            assert(row@ == manifest_row(block@, i as int));
            let info = TableInfo::from_bytes(row);
            let entry: Option<(u64, bool)> = match info {
                Some(t) => {
                    let matches_tree = match tree {
                        Some(id) => t.tree_id == id,
                        None => true,
                    };
                    if matches_tree {
                        let is_live = match t.event {
                            ManifestEvent::Remove => false,
                            _ => true,
                        };
                        Some((t.address, is_live))
                    } else {
                        None
                    }
                },
                None => None,
            };
            assert(entry == row_entry(manifest_row(block@, i as int), tree));
            let ghost es = block_entries(block@, i as nat, tree);
            proof {
                if entry is Some {
                    assert(es.push(entry->0).drop_last() =~= es);
                }
            }
            match entry {
                Some((a, is_live)) => {
                    let ghost seen_b = self.seen@;
                    let ghost live_b = self.live@;
                    if !self.seen.contains_key(&a) {
                        assert(!live_b.contains(a));
                        self.seen.insert(a, is_live);
                        if is_live {
                            self.live.push(a);
                        }
                        proof {
                            assert forall|x: u64| #[trigger] self.live@.contains(x) <==> (
                            self.seen@.contains_key(x) && self.seen@[x]) by {
                                if x == a {
                                    if is_live {
                                        assert(self.live@[self.live@.len() - 1] == a);
                                    }
                                } else {
                                    if is_live {
                                        assert(self.live@ == live_b.push(a));
                                        if live_b.contains(x) {
                                            let j = choose|j: int| 0 <= j < live_b.len() && live_b[j] == x;
                                            assert(self.live@[j] == x);
                                        }
                                        if self.live@.contains(x) {
                                            let j = choose|j: int| 0 <= j < self.live@.len() && self.live@[j] == x;
                                            assert(j < live_b.len());
                                            assert(live_b[j] == x);
                                        }
                                    }
                                }
                            }
                        }
                    }
                },
                None => {},
            }
        }
        self.next_address = prev_address;
        Ok(())
    }

    /// Live table addresses found so far, in the order first seen.
    pub fn live_addresses(&self) -> (v: Vec<u64>)
        ensures
            v@ == self.live_seq(),
    {
        let n = self.live.len();
        let mut v: Vec<u64> = Vec::new();
        for i in 0..n
            invariant
                n == self.live@.len(),
                v@ =~= self.live@.take(i as int),
        {
            v.push(self.live[i]);
        }
        assert(self.live@.take(n as int) =~= self.live@);
        v
    }

    /// Number of live tables found so far.
    pub fn live_count(&self) -> (n: u64)
        ensures
            n == self.live_seq().len(),
    {
        self.live.len() as u64
    }
}

/// Whether the first entry of `es` for address `a` marks it live.
pub open spec fn first_entry_live(es: Seq<(u64, bool)>, a: u64) -> bool {
    exists|i: int|
        0 <= i < es.len() && es[i].0 == a && es[i].1 && forall|j: int|
            0 <= j < i ==> #[trigger] es[j].0 != a
}

/// Walking table events newest first, a table is live exactly when the
/// first (newest) event seen for its address marks it live, and each live
/// table is listed once.
pub proof fn law_manifest_first_event_wins(es: Seq<(u64, bool)>)
    ensures
        ({
            let (seen, live) = apply_entries(Map::empty(), Seq::empty(), es);
            &&& forall|a: u64| #[trigger] live.contains(a) <==> first_entry_live(es, a)
            &&& live.no_duplicates()
            &&& forall|a: u64| #[trigger] seen.contains_key(a) <==> exists|i: int|
                0 <= i < es.len() && es[i].0 == a
        }),
    decreases es.len(),
{
    if es.len() > 0 {
        let d = es.drop_last();
        let e = es.last();
        assert(es =~= d.push(e));
        law_manifest_first_event_wins(d);
        let (s0, l0) = apply_entries(Map::empty(), Seq::empty(), d);
        let (seen, live) = apply_entries(Map::empty(), Seq::empty(), es);
        assert forall|a: u64| #[trigger] seen.contains_key(a) <==> exists|i: int|
            0 <= i < es.len() && es[i].0 == a by {
            if s0.contains_key(a) {
                let i = choose|i: int| 0 <= i < d.len() && d[i].0 == a;
                assert(es[i] == d[i]);
            }
            if exists|i: int| 0 <= i < es.len() && es[i].0 == a {
                let i = choose|i: int| 0 <= i < es.len() && es[i].0 == a;
                if i < d.len() {
                    assert(d[i] == es[i]);
                }
            }
        }
        assert forall|a: u64| #[trigger] live.contains(a) <==> first_entry_live(es, a) by {
            lemma_first_entry_extend(d, e, a);
            if s0.contains_key(e.0) {
                assert(live == l0);
                if a == e.0 {
                    assert(exists|k: int| 0 <= k < d.len() && d[k].0 == a);
                }
            } else {
                if a == e.0 {
                    assert forall|k: int| 0 <= k < d.len() implies #[trigger] d[k].0 != a by {
                        if d[k].0 == a {
                            assert(exists|i: int| 0 <= i < d.len() && d[i].0 == a);
                        }
                    }
                    if first_entry_live(d, a) {
                        let i = choose|i: int|
                            0 <= i < d.len() && d[i].0 == a && d[i].1 && forall|j: int|
                                0 <= j < i ==> #[trigger] d[j].0 != a;
                        assert(d[i].0 != a);
                    }
                    if e.1 {
                        assert(live == l0.push(e.0));
                        assert(live[l0.len() as int] == a);
                    } else {
                        assert(live == l0);
                    }
                } else if e.1 {
                    assert(live == l0.push(e.0));
                    if live.contains(a) {
                        let x = choose|x: int| 0 <= x < live.len() && live[x] == a;
                        assert(x < l0.len());
                        assert(l0[x] == a);
                    }
                    if l0.contains(a) {
                        let x = choose|x: int| 0 <= x < l0.len() && l0[x] == a;
                        assert(live[x] == a);
                    }
                } else {
                    assert(live == l0);
                }
            }
        }
        if !s0.contains_key(e.0) && e.1 {
            assert(!l0.contains(e.0)) by {
                if l0.contains(e.0) {
                    let i = choose|i: int|
                        0 <= i < d.len() && d[i].0 == e.0 && d[i].1 && forall|j: int|
                            0 <= j < i ==> #[trigger] d[j].0 != e.0;
                    assert(exists|k: int| 0 <= k < d.len() && d[k].0 == e.0);
                }
            }
            assert forall|x: int, y: int|
                0 <= x < live.len() && 0 <= y < live.len() && x != y implies live[x] != live[y] by {
                if x == l0.len() {
                    assert(live[y] == l0[y]);
                    assert(l0.contains(l0[y]));
                } else if y == l0.len() {
                    assert(live[x] == l0[x]);
                    assert(l0.contains(l0[x]));
                } else {
                    assert(live[x] == l0[x] && live[y] == l0[y]);
                }
            }
        }
    }
}

/// How `first_entry_live` changes when one entry is appended.
proof fn lemma_first_entry_extend(d: Seq<(u64, bool)>, e: (u64, bool), a: u64)
    ensures
        first_entry_live(d, a) ==> first_entry_live(d.push(e), a),
        a != e.0 ==> (first_entry_live(d.push(e), a) <==> first_entry_live(d, a)),
        (exists|k: int| 0 <= k < d.len() && d[k].0 == a) ==> (first_entry_live(d.push(e), a)
            <==> first_entry_live(d, a)),
        (forall|k: int| 0 <= k < d.len() ==> #[trigger] d[k].0 != a) && e.0 == a ==> (
        first_entry_live(d.push(e), a) <==> e.1),
{
    let es = d.push(e);
    if first_entry_live(d, a) {
        let i = choose|i: int|
            0 <= i < d.len() && d[i].0 == a && d[i].1 && forall|j: int| 0 <= j < i ==> #[trigger] d[j].0 != a;
        assert(es[i] == d[i]);
        assert forall|j: int| 0 <= j < i implies #[trigger] es[j].0 != a by {
            assert(es[j] == d[j]);
        }
    }
    if first_entry_live(es, a) {
        let i = choose|i: int|
            0 <= i < es.len() && es[i].0 == a && es[i].1 && forall|j: int| 0 <= j < i ==> #[trigger] es[j].0 != a;
        if i < d.len() {
            assert(d[i] == es[i]);
            assert forall|j: int| 0 <= j < i implies #[trigger] d[j].0 != a by {
                assert(es[j] == d[j]);
            }
        } else {
            assert(es[i] == e);
            if exists|k: int| 0 <= k < d.len() && d[k].0 == a {
                let k = choose|k: int| 0 <= k < d.len() && d[k].0 == a;
                assert(es[k] == d[k]);
            }
        }
    }
    if (forall|k: int| 0 <= k < d.len() ==> #[trigger] d[k].0 != a) && e.0 == a && e.1 {
        let i = d.len() as int;
        assert(es[i] == e);
        assert forall|j: int| 0 <= j < i implies #[trigger] es[j].0 != a by {
            assert(es[j] == d[j]);
        }
    }
}

/// The entries of the manifest block `b` that the walk records for `tree`:
/// those of its first `entry_count` rows.
pub open spec fn walk_block_entries(b: Seq<u8>, tree: Option<u16>) -> Seq<(u64, bool)> {
    block_entries(b, le_field(b, 168, 4), tree)
}

/// The entries of the manifest blocks `blocks`, read newest first, in the
/// order the walk records them.
pub open spec fn walk_entries(blocks: Seq<Seq<u8>>, tree: Option<u16>) -> Seq<(u64, bool)>
    decreases blocks.len(),
{
    if blocks.len() == 0 {
        Seq::empty()
    } else {
        walk_entries(blocks.drop_last(), tree) + walk_block_entries(blocks.last(), tree)
    }
}

/// The `(seen, live)` state of a walk that started empty and consumed the
/// manifest blocks `blocks` in turn (each step as `consume_block` states).
pub open spec fn walk_state(blocks: Seq<Seq<u8>>, tree: Option<u16>) -> (Map<u64, bool>, Seq<u64>)
    decreases blocks.len(),
{
    if blocks.len() == 0 {
        (Map::empty(), Seq::empty())
    } else {
        let (s, l) = walk_state(blocks.drop_last(), tree);
        apply_entries(s, l, walk_block_entries(blocks.last(), tree))
    }
}

/// Recording two entry lists one after the other records their
/// concatenation.
proof fn lemma_apply_concat(seen: Map<u64, bool>, live: Seq<u64>, e1: Seq<(u64, bool)>, e2: Seq<(u64, bool)>)
    ensures
        apply_entries(seen, live, e1 + e2) == apply_entries(
            apply_entries(seen, live, e1).0,
            apply_entries(seen, live, e1).1,
            e2,
        ),
    decreases e2.len(),
{
    if e2.len() == 0 {
        assert(e1 + e2 =~= e1);
    } else {
        assert((e1 + e2).drop_last() =~= e1 + e2.drop_last());
        assert((e1 + e2).last() == e2.last());
        lemma_apply_concat(seen, live, e1, e2.drop_last());
    }
}

/// Over a whole manifest walk, block after block, a table is live exactly
/// when the newest event for its address (the first met, newest block
/// first) is an insert or an update; each live table is listed once, and a
/// table is recorded as seen exactly when some event names it.
pub proof fn law_manifest_walk_newest_event_wins(blocks: Seq<Seq<u8>>, tree: Option<u16>)
    ensures
        walk_state(blocks, tree) == apply_entries(Map::empty(), Seq::empty(), walk_entries(blocks, tree)),
        forall|a: u64|
            #[trigger] walk_state(blocks, tree).1.contains(a) <==> first_entry_live(
                walk_entries(blocks, tree),
                a,
            ),
        walk_state(blocks, tree).1.no_duplicates(),
        forall|a: u64|
            #[trigger] walk_state(blocks, tree).0.contains_key(a) <==> exists|i: int|
                0 <= i < walk_entries(blocks, tree).len() && walk_entries(blocks, tree)[i].0 == a,
    decreases blocks.len(),
{
    if blocks.len() > 0 {
        law_manifest_walk_newest_event_wins(blocks.drop_last(), tree);
        lemma_apply_concat(
            Map::empty(),
            Seq::empty(),
            walk_entries(blocks.drop_last(), tree),
            walk_block_entries(blocks.last(), tree),
        );
    }
    law_manifest_first_event_wins(walk_entries(blocks, tree));
}

/// The entry a table event contributes when the walk is restricted to
/// `tree` (`None`: every tree).
pub open spec fn table_entry(t: TableInfo, tree: Option<u16>) -> Option<(u64, bool)> {
    if tree is None || tree == Some(t.tree_id) {
        Some((t.address, t.event != ManifestEvent::Remove))
    } else {
        None
    }
}

/// The entries that the table events `ts` contribute for `tree`, in order.
pub open spec fn table_entries(ts: Seq<TableInfo>, tree: Option<u16>) -> Seq<(u64, bool)>
    decreases ts.len(),
{
    if ts.len() == 0 {
        Seq::empty()
    } else {
        let prev = table_entries(ts.drop_last(), tree);
        match table_entry(ts.last(), tree) {
            Some(e) => prev.push(e),
            None => prev,
        }
    }
}

/// The table events of the first `k` rows of the manifest block `b`.
pub open spec fn block_tables(b: Seq<u8>, k: nat) -> Seq<TableInfo>
    decreases k,
{
    if k == 0 {
        Seq::empty()
    } else {
        let prev = block_tables(b, (k - 1) as nat);
        match spec_table_info_from_bytes(manifest_row(b, k - 1)) {
            Some(t) => prev.push(t),
            None => prev,
        }
    }
}

/// The table events of the manifest blocks `blocks`, newest first.
pub open spec fn walk_tables(blocks: Seq<Seq<u8>>) -> Seq<TableInfo>
    decreases blocks.len(),
{
    if blocks.len() == 0 {
        Seq::empty()
    } else {
        walk_tables(blocks.drop_last()) + block_tables(blocks.last(), le_field(blocks.last(), 168, 4))
    }
}

/// Whether some event of `ts` names the table `a` of tree `t`.
pub open spec fn names_table(ts: Seq<TableInfo>, a: u64, t: u16) -> bool {
    exists|i: int| 0 <= i < ts.len() && ts[i].address == a && ts[i].tree_id == t
}

/// Whether no table address of `ts` appears under two trees.
pub open spec fn one_tree_per_table(ts: Seq<TableInfo>) -> bool {
    forall|i: int, j: int|
        0 <= i < ts.len() && 0 <= j < ts.len() && #[trigger] ts[i].address == #[trigger] ts[j].address
            ==> ts[i].tree_id == ts[j].tree_id
}

proof fn lemma_block_tables(b: Seq<u8>, k: nat, tree: Option<u16>)
    ensures
        block_entries(b, k, tree) == table_entries(block_tables(b, k), tree),
    decreases k,
{
    if k > 0 {
        lemma_block_tables(b, (k - 1) as nat, tree);
        let ts = block_tables(b, (k - 1) as nat);
        match spec_table_info_from_bytes(manifest_row(b, k - 1)) {
            Some(t) => {
                assert(ts.push(t).drop_last() =~= ts);
            },
            None => {},
        }
    }
}

proof fn lemma_table_entries_concat(x: Seq<TableInfo>, y: Seq<TableInfo>, tree: Option<u16>)
    ensures
        table_entries(x + y, tree) == table_entries(x, tree) + table_entries(y, tree),
    decreases y.len(),
{
    if y.len() == 0 {
        assert(x + y =~= x);
        assert(table_entries(x, tree) + table_entries(y, tree) =~= table_entries(x, tree));
    } else {
        assert((x + y).drop_last() =~= x + y.drop_last());
        assert((x + y).last() == y.last());
        lemma_table_entries_concat(x, y.drop_last(), tree);
        let p = table_entries(x, tree);
        let q = table_entries(y.drop_last(), tree);
        match table_entry(y.last(), tree) {
            Some(e) => {
                assert((p + q).push(e) =~= p + q.push(e));
            },
            None => {},
        }
    }
}

/// A walk's entries are those of its table events.
proof fn lemma_walk_tables(blocks: Seq<Seq<u8>>, tree: Option<u16>)
    ensures
        walk_entries(blocks, tree) == table_entries(walk_tables(blocks), tree),
    decreases blocks.len(),
{
    if blocks.len() > 0 {
        lemma_walk_tables(blocks.drop_last(), tree);
        let b = blocks.last();
        lemma_block_tables(b, le_field(b, 168, 4), tree);
        lemma_table_entries_concat(walk_tables(blocks.drop_last()), block_tables(b, le_field(b, 168, 4)), tree);
    }
}

/// An address has an entry for `tree` exactly when some event of that tree
/// (any tree for `None`) names it.
proof fn lemma_entry_named(ts: Seq<TableInfo>, tree: Option<u16>, a: u64)
    ensures
        (exists|k: int| 0 <= k < table_entries(ts, tree).len() && table_entries(ts, tree)[k].0 == a)
            <==> exists|i: int|
            0 <= i < ts.len() && ts[i].address == a && (tree is None || tree == Some(ts[i].tree_id)),
    decreases ts.len(),
{
    if ts.len() > 0 {
        let d = ts.drop_last();
        let x = ts.last();
        lemma_entry_named(d, tree, a);
        let p = table_entries(d, tree);
        let q = table_entries(ts, tree);
        assert(x == ts[ts.len() - 1]);
        if exists|k: int| 0 <= k < q.len() && q[k].0 == a {
            let k = choose|k: int| 0 <= k < q.len() && q[k].0 == a;
            if k < p.len() {
                assert(q[k] == p[k]);
                let i = choose|i: int|
                    0 <= i < d.len() && d[i].address == a && (tree is None || tree == Some(d[i].tree_id));
                assert(ts[i] == d[i]);
            }
        }
        if exists|i: int|
            0 <= i < ts.len() && ts[i].address == a && (tree is None || tree == Some(ts[i].tree_id)) {
            let i = choose|i: int|
                0 <= i < ts.len() && ts[i].address == a && (tree is None || tree == Some(ts[i].tree_id));
            if i < d.len() {
                assert(d[i] == ts[i]);
                let k = choose|k: int| 0 <= k < p.len() && p[k].0 == a;
                assert(q[k] == p[k]);
            } else {
                assert(q[p.len() as int].0 == a);
            }
        }
    }
}

proof fn lemma_live_named(es: Seq<(u64, bool)>, a: u64)
    ensures
        first_entry_live(es, a) ==> exists|k: int| 0 <= k < es.len() && es[k].0 == a,
{
}

/// When no table appears under two trees, the newest event of a table
/// among all trees' events is its newest among its own tree's.
proof fn lemma_first_live_by_tree(ts: Seq<TableInfo>, a: u64, t: u16)
    requires
        one_tree_per_table(ts),
    ensures
        first_entry_live(table_entries(ts, None), a) && names_table(ts, a, t) <==> first_entry_live(
            table_entries(ts, Some(t)),
            a,
        ),
    decreases ts.len(),
{
    if ts.len() > 0 {
        let d = ts.drop_last();
        let x = ts.last();
        assert(x == ts[ts.len() - 1]);
        assert(one_tree_per_table(d)) by {
            assert forall|i: int, j: int|
                0 <= i < d.len() && 0 <= j < d.len() && #[trigger] d[i].address == #[trigger] d[j].address
                    implies d[i].tree_id == d[j].tree_id by {
                assert(ts[i] == d[i] && ts[j] == d[j]);
            }
        }
        lemma_first_live_by_tree(d, a, t);
        let en = table_entries(d, None);
        let et = table_entries(d, Some(t));
        let e = (x.address, x.event != ManifestEvent::Remove);
        assert(table_entries(ts, None) == en.push(e));
        lemma_first_entry_extend(en, e, a);
        lemma_first_entry_extend(et, e, a);
        lemma_entry_named(d, None, a);
        lemma_entry_named(d, Some(t), a);
        lemma_live_named(et, a);
        lemma_live_named(en, a);
        if names_table(d, a, t) {
            let i = choose|i: int| 0 <= i < d.len() && d[i].address == a && d[i].tree_id == t;
            assert(ts[i] == d[i]);
        }
        if names_table(ts, a, t) && a != x.address {
            let i = choose|i: int| 0 <= i < ts.len() && ts[i].address == a && ts[i].tree_id == t;
            assert(d[i] == ts[i]);
        }
        if a == x.address {
            if exists|i: int| 0 <= i < d.len() && d[i].address == a {
                let i = choose|i: int| 0 <= i < d.len() && d[i].address == a;
                assert(ts[i] == d[i]);
                assert(ts[i].address == ts[ts.len() - 1].address);
                if d[i].tree_id == t {
                    if names_table(ts, a, t) {}
                } else {
                    assert(x.tree_id != t);
                    if names_table(ts, a, t) {
                        let j = choose|j: int| 0 <= j < ts.len() && ts[j].address == a && ts[j].tree_id == t;
                        assert(ts[j].address == ts[i].address);
                    }
                    if names_table(d, a, t) {
                        let j = choose|j: int| 0 <= j < d.len() && d[j].address == a && d[j].tree_id == t;
                        assert(ts[j] == d[j]);
                        assert(ts[j].address == ts[i].address);
                    }
                }
            } else {
                if names_table(ts, a, t) {
                    let j = choose|j: int| 0 <= j < ts.len() && ts[j].address == a && ts[j].tree_id == t;
                    if j < d.len() {
                        assert(d[j] == ts[j]);
                    }
                }
            }
        }
    }
}

/// When no table appears under two trees, the tables that a walk over all
/// trees finds live are split by tree among the per-tree walks of the
/// same blocks: a table is live for tree `t` exactly when the all-trees
/// walk finds it live and it belongs to `t`, and each live table belongs
/// to a tree. So the all-trees count is the sum of the per-tree counts and
/// is at least the count of any two trees together.
pub proof fn law_manifest_walk_trees(blocks: Seq<Seq<u8>>, t1: u16, t2: u16)
    requires
        one_tree_per_table(walk_tables(blocks)),
    ensures
        forall|a: u64, t: u16|
            #[trigger] walk_state(blocks, Some(t)).1.contains(a) <==> walk_state(blocks, None).1.contains(a)
                && names_table(walk_tables(blocks), a, t),
        forall|a: u64|
            #[trigger] walk_state(blocks, None).1.contains(a) ==> exists|t: u16|
                names_table(walk_tables(blocks), a, t),
        t1 != t2 ==> walk_state(blocks, Some(t1)).1.len() + walk_state(blocks, Some(t2)).1.len()
            <= walk_state(blocks, None).1.len(),
{
    let ts = walk_tables(blocks);
    law_manifest_walk_newest_event_wins(blocks, None);
    law_manifest_walk_newest_event_wins(blocks, Some(t1));
    law_manifest_walk_newest_event_wins(blocks, Some(t2));
    lemma_walk_tables(blocks, None);
    assert forall|a: u64, t: u16| #[trigger] walk_state(blocks, Some(t)).1.contains(a)
        <==> walk_state(blocks, None).1.contains(a) && names_table(ts, a, t) by {
        law_manifest_walk_newest_event_wins(blocks, Some(t));
        lemma_walk_tables(blocks, Some(t));
        lemma_first_live_by_tree(ts, a, t);
    }
    assert forall|a: u64| #[trigger] walk_state(blocks, None).1.contains(a) implies exists|t: u16|
        names_table(ts, a, t) by {
        lemma_live_named(table_entries(ts, None), a);
        lemma_entry_named(ts, None, a);
        let i = choose|i: int| 0 <= i < ts.len() && ts[i].address == a;
        assert(names_table(ts, a, ts[i].tree_id));
    }
    if t1 != t2 {
        let l1 = walk_state(blocks, Some(t1)).1;
        let l2 = walk_state(blocks, Some(t2)).1;
        let l0 = walk_state(blocks, None).1;
        l1.unique_seq_to_set();
        l2.unique_seq_to_set();
        l0.unique_seq_to_set();
        assert(l1.to_set().disjoint(l2.to_set())) by {
            assert forall|a: u64| l1.to_set().contains(a) implies !l2.to_set().contains(a) by {
                assert(l1.contains(a));
                assert(names_table(ts, a, t1));
                if l2.contains(a) {
                    assert(names_table(ts, a, t2));
                    let i = choose|i: int| 0 <= i < ts.len() && ts[i].address == a && ts[i].tree_id == t1;
                    let j = choose|j: int| 0 <= j < ts.len() && ts[j].address == a && ts[j].tree_id == t2;
                    assert(ts[i].address == ts[j].address);
                }
            }
        }
        vstd::set_lib::lemma_set_disjoint_lens(l1.to_set(), l2.to_set());
        assert((l1.to_set() + l2.to_set()).subset_of(l0.to_set())) by {
            assert forall|a: u64| (l1.to_set() + l2.to_set()).contains(a) implies l0.to_set().contains(a) by {
                if l1.to_set().contains(a) {
                    assert(l1.contains(a));
                } else {
                    assert(l2.contains(a));
                }
                assert(l0.contains(a));
            }
        }
        vstd::set_lib::lemma_len_subset(l1.to_set() + l2.to_set(), l0.to_set());
    }
}
} // verus!
