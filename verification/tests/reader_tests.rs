use tigerbeetle_manager::block::BlockHeader;
use tigerbeetle_manager::bytes::{read_u128, read_u16, read_u32, read_u64};
use tigerbeetle_manager::text::decimal_string;
use tigerbeetle_manager::error::ReaderError;
use tigerbeetle_manager::layout::TBConfig;
use tigerbeetle_manager::lsm::{parse_index_block, parse_value_block, LsmCursor, LsmStep};
use tigerbeetle_manager::manifest::{ManifestScan, ACCOUNT_OBJECTS_TREE_ID};
use tigerbeetle_manager::reader::{empty_when_not_checkpointed, lsm_tables_present, CapacityStats, PageCollector};
use tigerbeetle_manager::superblock::{select_superblock, SuperblockInfo, NO_SUPERBLOCK};
use tigerbeetle_manager::types::{Account, AccountFlags, ManifestEvent, TableInfo, Transfer, TransferFlags};
use tigerbeetle_manager::wal::{WalCursor, WalStep};

fn put(b: &mut [u8], off: usize, v: u128, n: usize) {
    for i in 0..n {
        b[off + i] = ((v >> (8 * i)) & 0xff) as u8;
    }
}

fn account_bytes(id: u128, ledger: u32, timestamp: u64) -> Vec<u8> {
    let mut b = vec![0u8; 128];
    put(&mut b, 0, id, 16);
    put(&mut b, 32, 7, 16);
    put(&mut b, 64, 9, 16);
    put(&mut b, 112, ledger as u128, 4);
    put(&mut b, 116, 3, 2);
    put(&mut b, 118, 0x21, 2);
    put(&mut b, 120, timestamp as u128, 8);
    b
}

fn block(len: usize, size: u32, block_type: u8, address: u64) -> Vec<u8> {
    let mut b = vec![0u8; len];
    put(&mut b, 96, size as u128, 4);
    b[114] = 20;
    put(&mut b, 224, address as u128, 8);
    b[240] = block_type;
    b
}

fn sb_copy(sequence: u64, newest: u64, count: u32, checkpoint: u64) -> Vec<u8> {
    let mut b = vec![0u8; 8192];
    put(&mut b, 40, sequence as u128, 8);
    put(&mut b, 320, checkpoint as u128, 8);
    put(&mut b, 656, newest as u128, 8);
    put(&mut b, 704, count as u128, 4);
    b
}

fn invalid_block_text(r: Result<BlockHeader, ReaderError>) -> String {
    match r {
        Err(ReaderError::InvalidBlock(m)) => m,
        _ => panic!("expected an invalid block"),
    }
}

#[test]
fn account_decodes_little_endian_fields() {
    let b = account_bytes(0x0102_0304, 5, 99);
    let a = Account::from_bytes(&b);
    assert_eq!(a.id, 0x0102_0304);
    assert_eq!(a.debits_posted, 7);
    assert_eq!(a.credits_posted, 9);
    assert_eq!(a.ledger, 5);
    assert_eq!(a.code, 3);
    assert_eq!(a.flags.raw(), 0x21);
    assert!(a.flags.linked());
    assert!(a.flags.closed());
    assert!(!a.flags.history());
    assert_eq!(a.timestamp, 99);
}

#[test]
fn transfer_flags_bits() {
    let f = TransferFlags::from(0x0102);
    assert!(f.pending());
    assert!(f.imported());
    assert!(!f.linked());
    assert!(!f.closing_credit());
    let t = Transfer::from_bytes(&vec![0u8; 128]);
    assert_eq!(t.id, 0);
    assert_eq!(t.flags.raw(), 0);
    assert!(AccountFlags::from(0x0002).debits_must_not_exceed_credits());
    assert!(AccountFlags::from(0x0004).credits_must_not_exceed_debits());
    assert!(AccountFlags::from(0x0010).imported());
}

#[test]
fn block_header_errors_name_the_fault() {
    assert_eq!(invalid_block_text(BlockHeader::parse(&vec![0u8; 10])), "block too short: 10 < 256");
    let mut b = block(512, 300, 5, 1);
    b[114] = 7;
    assert_eq!(invalid_block_text(BlockHeader::parse(&b)), "expected command=block(20), got 7");
    let b = block(512, 100, 5, 1);
    assert_eq!(invalid_block_text(BlockHeader::parse(&b)), "block header.size=100 < HEADER_SIZE=256");
    let b = block(512, 600, 5, 1);
    assert_eq!(invalid_block_text(BlockHeader::parse(&b)), "block header.size=600 > buffer len 512");
    let b = block(512, 300, 5, 0);
    assert_eq!(invalid_block_text(BlockHeader::parse(&b)), "block address is 0 (null sentinel)");
    let h = BlockHeader::parse(&block(512, 300, 5, 1)).ok().unwrap();
    assert_eq!(h.size, 300);
    assert_eq!(h.block_type, 5);
    assert_eq!(h.body_size(), 44);
}

#[test]
fn value_block_counts_whole_records() {
    let b = block(1024, 256 + 3 * 128 + 5, 5, 9);
    assert_eq!(parse_value_block(&b, 9).ok().unwrap(), 3);
    let b = block(1024, 512, 4, 9);
    match parse_value_block(&b, 9) {
        Err(ReaderError::InvalidBlock(m)) => {
            assert_eq!(m, "expected value block at address 9, got block_type=4")
        }
        _ => panic!("expected an invalid block"),
    }
}

fn index_block(addrs: &[u64], max: u32, key_size: u32) -> Vec<u8> {
    let mut b = block(4096, 4096, 4, 2);
    put(&mut b, 128, addrs.len() as u128, 4);
    put(&mut b, 132, max as u128, 4);
    put(&mut b, 136, key_size as u128, 4);
    let off = 256 + 32 * max as usize + 2 * (max * key_size) as usize;
    for (i, a) in addrs.iter().enumerate() {
        put(&mut b, off + 8 * i, *a as u128, 8);
    }
    b
}

#[test]
fn index_block_lists_nonzero_value_blocks() {
    let b = index_block(&[11, 0, 13], 4, 8);
    assert_eq!(parse_index_block(&b, 2).ok().unwrap(), vec![11, 13]);
    let mut b = index_block(&[11], 4, 8);
    put(&mut b, 128, 5, 4);
    match parse_index_block(&b, 2) {
        Err(ReaderError::InvalidBlock(m)) => {
            assert_eq!(m, "index block 2: value_count=5 exceeds value_count_max=4")
        }
        _ => panic!("expected an invalid block"),
    }
    let mut short = index_block(&[], 100, 8);
    put(&mut short, 128, 1, 4);
    short.truncate(1024);
    put(&mut short, 96, 1024, 4);
    match parse_index_block(&short, 2) {
        Err(ReaderError::InvalidBlock(m)) => {
            assert_eq!(m, "index block 2: address section end (5064) exceeds block size (1024)")
        }
        _ => panic!("expected an invalid block"),
    }
}

#[test]
fn superblock_election_takes_highest_sequence() {
    let copies = vec![sb_copy(3, 1, 1, 0), sb_copy(7, 40, 2, 960), sb_copy(0, 0, 0, 0), sb_copy(5, 1, 1, 0)];
    let sb = select_superblock(&copies).ok().unwrap();
    assert_eq!(sb.sequence, 7);
    assert_eq!(sb.manifest_newest_address, 40);
    assert_eq!(sb.manifest_block_count, 2);
    assert_eq!(sb.checkpoint_op, 960);
    let none = vec![sb_copy(0, 0, 0, 0), sb_copy(0, 0, 0, 0)];
    match select_superblock(&none) {
        Err(ReaderError::InvalidSuperblock(m)) => assert_eq!(m, NO_SUPERBLOCK),
        _ => panic!("expected no superblock"),
    }
}

#[test]
fn superblock_election_keeps_the_earliest_of_equal_sequences() {
    let copies = vec![sb_copy(0, 9, 9, 9), sb_copy(5, 11, 1, 0), sb_copy(5, 22, 2, 0), sb_copy(3, 33, 1, 0)];
    let sb = select_superblock(&copies).ok().unwrap();
    assert_eq!(sb.sequence, 5);
    assert_eq!(sb.manifest_newest_address, 11);
    assert_eq!(sb.manifest_block_count, 1);
}

fn manifest_block(address: u64, prev: u64, rows: &[(u64, u16, u8)]) -> Vec<u8> {
    let mut b = block(2048, 256 + 128 * rows.len() as u32, 3, address);
    put(&mut b, 160, prev as u128, 8);
    put(&mut b, 168, rows.len() as u128, 4);
    for (k, (addr, tree, label)) in rows.iter().enumerate() {
        let off = 256 + 128 * k;
        put(&mut b, off + 96, *addr as u128, 8);
        put(&mut b, off + 124, *tree as u128, 2);
        b[off + 126] = *label;
    }
    b
}

#[test]
fn manifest_walk_keeps_tables_whose_newest_event_is_live() {
    let info = SuperblockInfo { sequence: 4, manifest_newest_address: 20, manifest_block_count: 2, checkpoint_op: 0 };
    let mut scan = ManifestScan::new(&info, Some(ACCOUNT_OBJECTS_TREE_ID), 2048);
    // Newest block: table 100 removed, table 101 inserted, a transfer table.
    let newest = manifest_block(20, 10, &[(100, 7, 0xC0), (101, 7, 0x40), (300, 18, 0x40)]);
    // Older block: table 100 and 102 inserted.
    let older = manifest_block(10, 0, &[(100, 7, 0x40), (102, 7, 0x80)]);
    assert_eq!(scan.next_read().ok().unwrap(), Some(20));
    scan.consume_block(&newest).ok().unwrap();
    assert_eq!(scan.next_read().ok().unwrap(), Some(10));
    scan.consume_block(&older).ok().unwrap();
    assert_eq!(scan.next_read().ok().unwrap(), None);
    assert_eq!(scan.live_addresses(), vec![101, 102]);
    assert_eq!(scan.live_count(), 2);
}

fn live_count_of(tree: Option<u16>) -> u64 {
    let info = SuperblockInfo { sequence: 4, manifest_newest_address: 20, manifest_block_count: 2, checkpoint_op: 0 };
    let newest = manifest_block(20, 10, &[(100, 7, 0xC0), (101, 7, 0x40), (300, 18, 0x40)]);
    let older = manifest_block(10, 0, &[(100, 7, 0x40), (102, 7, 0x80), (301, 18, 0x40), (300, 18, 0x40)]);
    let mut scan = ManifestScan::new(&info, tree, 2048);
    while let Some(a) = scan.next_read().ok().unwrap() {
        scan.consume_block(if a == 20 { &newest } else { &older }).ok().unwrap();
    }
    scan.live_count()
}

#[test]
fn manifest_walk_over_all_trees_sums_the_trees() {
    assert_eq!(live_count_of(Some(ACCOUNT_OBJECTS_TREE_ID)), 2);
    assert_eq!(live_count_of(Some(18)), 2);
    assert_eq!(live_count_of(None), 4);
}

#[test]
fn manifest_walk_stops_on_a_loop() {
    let info = SuperblockInfo { sequence: 4, manifest_newest_address: 20, manifest_block_count: 1, checkpoint_op: 0 };
    let mut scan = ManifestScan::new(&info, None, 2048);
    let looping = manifest_block(20, 20, &[]);
    assert_eq!(scan.next_read().ok().unwrap(), Some(20));
    scan.consume_block(&looping).ok().unwrap();
    assert_eq!(scan.next_read().ok().unwrap(), Some(20));
    scan.consume_block(&looping).ok().unwrap();
    match scan.next_read() {
        Err(ReaderError::InvalidBlock(m)) => {
            assert_eq!(m, "manifest chain longer than manifest_block_count=1 (possible loop)")
        }
        _ => panic!("expected a loop error"),
    }
}

#[test]
fn lsm_cursor_walks_index_then_value_blocks() {
    let mut cursor: LsmCursor<Account> = LsmCursor::new(vec![2]);
    match cursor.next_step() {
        LsmStep::ReadIndexBlock(a) => assert_eq!(a, 2),
        _ => panic!("expected an index block read"),
    }
    cursor.on_index_block(&index_block(&[11], 4, 8), 2).ok().unwrap();
    match cursor.next_step() {
        LsmStep::ReadValueBlock(a) => assert_eq!(a, 11),
        _ => panic!("expected a value block read"),
    }
    let mut vb = block(1024, 256 + 3 * 128, 5, 11);
    vb[256..384].copy_from_slice(&account_bytes(1, 1, 10));
    vb[512..640].copy_from_slice(&account_bytes(u128::MAX, 1, 11));
    cursor.on_value_block(&vb, 11).ok().unwrap();
    match cursor.next_step() {
        LsmStep::Record(a) => assert_eq!(a.id, 1),
        _ => panic!("expected a record"),
    }
    assert!(matches!(cursor.next_step(), LsmStep::Done));
}

#[test]
fn lsm_cursor_stops_after_an_invalid_block() {
    let mut cursor: LsmCursor<Account> = LsmCursor::new(vec![2, 3]);
    assert!(matches!(cursor.next_step(), LsmStep::ReadIndexBlock(2)));
    assert!(cursor.on_index_block(&block(1024, 512, 5, 2), 2).is_err());
    assert!(matches!(cursor.next_step(), LsmStep::Done));
}

#[test]
fn wal_cursor_reads_bodies_of_new_prepares() {
    let config = TBConfig {
        block_size: 4096,
        superblock_copy_size: 1024,
        superblock_copies: 2,
        grid_zone_start: 1 << 20,
        journal_slot_count: 2,
        message_size_max: 4096,
    };
    let mut cursor: WalCursor<Account> = WalCursor::new(&config, 5);
    match cursor.next_step() {
        WalStep::ReadHeader(off) => assert_eq!(off, 2048),
        _ => panic!("expected a header read"),
    }
    // Slot 0: create_accounts at op 6 with two records.
    let mut hdr = vec![0u8; 256];
    hdr[252] = 138;
    put(&mut hdr, 224, 6, 8);
    put(&mut hdr, 96, 256 + 256, 4);
    cursor.on_header(&hdr);
    match cursor.next_step() {
        WalStep::ReadBody { offset, len } => {
            assert_eq!(offset, 2048 + 2 * 256 + 256);
            assert_eq!(len, 256);
        }
        _ => panic!("expected a body read"),
    }
    let mut body = account_bytes(42, 1, 1);
    body.extend(account_bytes(0, 0, 0));
    cursor.on_body(&body);
    match cursor.next_step() {
        WalStep::Record(a) => assert_eq!(a.id, 42),
        _ => panic!("expected a record"),
    }
    match cursor.next_step() {
        WalStep::ReadHeader(off) => assert_eq!(off, 2048 + 256),
        _ => panic!("expected a header read"),
    }
    // Slot 1: op at the checkpoint, skipped.
    put(&mut hdr, 224, 5, 8);
    cursor.on_header(&hdr);
    assert!(matches!(cursor.next_step(), WalStep::Done));
}

#[test]
fn wal_scan_stops_at_the_least_matching_slot() {
    let config = TBConfig {
        block_size: 4096,
        superblock_copy_size: 1024,
        superblock_copies: 2,
        grid_zone_start: 1 << 20,
        journal_slot_count: 3,
        message_size_max: 4096,
    };
    let mut cursor: WalCursor<Account> = WalCursor::new(&config, 5);
    let header = |op: u64, size: u32| {
        let mut hdr = vec![0u8; 256];
        hdr[252] = 138;
        put(&mut hdr, 224, op as u128, 8);
        put(&mut hdr, 96, size as u128, 4);
        hdr
    };
    let headers = [header(4, 512), header(7, 640), header(8, 512)];
    let mut slot = 0;
    let read = loop {
        match cursor.next_step() {
            WalStep::ReadHeader(_) => {
                cursor.on_header(&headers[slot]);
                slot += 1;
            }
            WalStep::ReadBody { offset, len } => break Some((offset, len)),
            _ => break None,
        }
    };
    assert_eq!(slot, 2);
    assert_eq!(read, Some((2048 + 3 * 256 + 4096 + 256, 384)));
}

#[test]
fn page_collector_skips_and_takes() {
    let mut c: PageCollector<u32> = PageCollector::new(1, 2);
    let mut n = 0u32;
    while c.wants_more() {
        c.offer(Ok(n));
        n += 1;
    }
    assert_eq!(n, 4);
    assert_eq!(c.finish().ok().unwrap(), vec![2, 3]);
}

#[test]
fn page_collector_reports_an_error_in_its_window() {
    let mut c: PageCollector<u32> = PageCollector::new(0, 3);
    c.offer(Ok(1));
    c.offer(Err(ReaderError::Io(String::from("read failed"))));
    assert!(!c.wants_more());
    match c.finish() {
        Err(ReaderError::Io(m)) => assert_eq!(m, "read failed"),
        _ => panic!("expected the error"),
    }
}

#[test]
fn page_collector_ignores_an_error_it_skips() {
    let mut c: PageCollector<u32> = PageCollector::new(2, 3);
    c.offer(Ok(1));
    c.offer(Err(ReaderError::Io(String::from("read failed"))));
    assert!(!c.wants_more());
    assert_eq!(c.finish().ok().unwrap(), Vec::<u32>::new());
}

#[test]
fn capacity_counts_grid_blocks() {
    let config = TBConfig::default();
    let s = CapacityStats::compute(config.grid_zone_start + 3 * config.block_size + 17, &config, 2);
    assert_eq!(s.grid_blocks_total, 3);
    assert_eq!(s.grid_blocks_used, 2);
    let s = CapacityStats::compute(100, &config, 0);
    assert_eq!(s.grid_blocks_total, 0);
    assert_eq!(s.data_file_size_bytes, 100);
}

#[test]
fn checkpointed_tables_presence() {
    let mut sb = SuperblockInfo { sequence: 0, manifest_newest_address: 0, manifest_block_count: 0, checkpoint_op: 0 };
    assert_eq!(lsm_tables_present(&sb).ok().unwrap(), false);
    sb.sequence = 12;
    let e = lsm_tables_present(&sb);
    assert!(matches!(e, Err(ReaderError::NotCheckpointed { sequence: 12 })));
    assert_eq!(empty_when_not_checkpointed::<Account>(Err(ReaderError::NotCheckpointed { sequence: 12 })).ok().unwrap().len(), 0);
    assert!(empty_when_not_checkpointed::<Account>(Err(ReaderError::Io(String::from("x")))).is_err());
    sb.manifest_block_count = 1;
    assert_eq!(lsm_tables_present(&sb).ok().unwrap(), true);
}

#[test]
fn default_layout_offsets() {
    let c = TBConfig::default();
    assert_eq!(c.block_offset(1), 1_141_374_976);
    assert_eq!(c.block_offset(3), 1_141_374_976 + 2 * 524_288);
    assert_eq!(c.superblock_copy_offset(2), 49_152);
    assert_eq!(c.wal_headers_start(), 98_304);
    assert_eq!(c.wal_prepares_start(), 98_304 + 1024 * 256);
}

#[test]
fn reader_error_descriptions() {
    assert_eq!(ReaderError::Io(String::from("gone")).to_display_string(), "I/O error: gone");
    assert_eq!(ReaderError::InvalidBlock(String::from("x")).to_display_string(), "invalid block: x");
    let s = ReaderError::NotCheckpointed { sequence: 3 }.to_display_string();
    assert!(s.starts_with("no checkpoint yet (superblock sequence=3): the cluster has started"));
}

#[test]
fn page_beyond_the_last_record_is_empty() {
    let mut c: PageCollector<u32> = PageCollector::new(5, 2);
    for n in 0..3u32 {
        assert!(c.wants_more());
        c.offer(Ok(n));
    }
    assert_eq!(c.finish().ok().unwrap(), Vec::<u32>::new());
}

#[test]
fn little_endian_reads() {
    let b: Vec<u8> = (1..=16u8).collect();
    assert_eq!(read_u16(&b, 0), 0x0201);
    assert_eq!(read_u32(&b, 1), 0x0504_0302);
    assert_eq!(read_u64(&b, 8), 0x100f_0e0d_0c0b_0a09);
    assert_eq!(read_u128(&b, 0), u128::from_le_bytes(b.clone().try_into().unwrap()));
}

#[test]
fn table_rows_decode_events() {
    let mut row = vec![0u8; 128];
    put(&mut row, 96, 77, 8);
    put(&mut row, 124, 18, 2);
    row[126] = 0x80 | 0x05;
    let t = TableInfo::from_bytes(&row).unwrap();
    assert_eq!(t.address, 77);
    assert_eq!(t.tree_id, 18);
    assert_eq!(t.event, ManifestEvent::Update);
    row[126] = 0x3f;
    assert!(TableInfo::from_bytes(&row).is_none());
}

#[test]
fn decimal_text() {
    assert_eq!(decimal_string(0), "0");
    assert_eq!(decimal_string(1234567890), "1234567890");
    assert_eq!(decimal_string(u128::MAX), u128::MAX.to_string());
}
