use revolver_extract::scanner::{scan_space, MemoryRegion, RegionInfo, ScanCursor, ScanStep, SyntheticRegion};

fn synthetic(size: usize, committed: bool, bytes: Vec<u8>) -> SyntheticRegion {
    SyntheticRegion { size, committed, bytes }
}

#[test]
fn empty_space_yields_nothing() {
    let out = scan_space(&vec![]);
    assert!(out.is_empty());
}

#[test]
fn no_committed_region_yields_empty_sequence() {
    let space = vec![
        synthetic(4096, false, vec![]),
        synthetic(8192, false, vec![]),
        synthetic(4096, false, vec![]),
    ];
    let out = scan_space(&space);
    assert!(out.is_empty());
}

#[test]
fn committed_regions_are_snapshot_in_address_order() {
    let space = vec![
        synthetic(16, false, vec![]),
        synthetic(8, true, vec![1, 2, 3, 4, 5, 6, 7, 8]),
        synthetic(32, false, vec![]),
        synthetic(4, true, vec![9, 9]),
    ];
    let out = scan_space(&space);
    assert_eq!(out.len(), 2);
    assert_eq!(out[0].base_address, 16);
    assert_eq!(out[0].size, 8);
    assert_eq!(out[0].bytes, vec![1, 2, 3, 4, 5, 6, 7, 8]);
    assert_eq!(out[1].base_address, 56);
    assert_eq!(out[1].size, 4);
    assert_eq!(out[1].bytes, vec![9, 9]);
}

#[test]
fn partial_read_keeps_short_buffer() {
    let space = vec![synthetic(64, true, vec![5, 5, 5])];
    let out = scan_space(&space);
    assert_eq!(out.len(), 1);
    assert_eq!(out[0].size, 64);
    assert_eq!(out[0].bytes, vec![5, 5, 5]);
}

#[test]
fn oversized_buffer_is_cut_to_region_size() {
    let r = MemoryRegion::new(128, 4, vec![1, 2, 3, 4, 5, 6]);
    assert_eq!(r.base_address, 128);
    assert_eq!(r.size, 4);
    assert_eq!(r.bytes, vec![1, 2, 3, 4]);
}

#[test]
fn scanned_space_feeds_the_locator() {
    let mut record = b"..pdfpathuserABCO6NLSIl0801false".to_vec();
    record.extend_from_slice(&[0u8; 16]);
    let size = record.len();
    let space = vec![
        synthetic(4096, false, vec![]),
        synthetic(size, true, record),
    ];
    let regions = scan_space(&space);
    let users = revolver_extract::parser::locate(&regions);
    assert_eq!(users.len(), 1);
    assert_eq!(users[0].username_initials, "AB");
    assert_eq!(users[0].plaintext_pw, "secret");
}

#[test]
fn cursor_finishes_on_failed_query() {
    let mut cursor = ScanCursor::new();
    let step = cursor.on_query(&None);
    assert!(matches!(step, ScanStep::Finished));
    assert!(cursor.done);
}

#[test]
fn cursor_skips_uncommitted_region() {
    let mut cursor = ScanCursor::new();
    let info = RegionInfo { base_address: 0, size: 4096, committed: false };
    let step = cursor.on_query(&Some(info));
    assert!(matches!(step, ScanStep::Skip));
    assert!(!cursor.done);
    assert_eq!(cursor.next_probe_address, 4096);
}

#[test]
fn cursor_reads_committed_region_and_advances() {
    let mut cursor = ScanCursor::new();
    let skip = cursor.on_query(&Some(RegionInfo { base_address: 0, size: 4096, committed: false }));
    assert!(matches!(skip, ScanStep::Skip));
    let step = cursor.on_query(&Some(RegionInfo { base_address: 4096, size: 512, committed: true }));
    match step {
        ScanStep::Read { base_address, size } => {
            assert_eq!(base_address, 4096);
            assert_eq!(size, 512);
        }
        _ => panic!("expected a read step"),
    }
    assert_eq!(cursor.next_probe_address, 4608);
    assert!(!cursor.done);
}

#[test]
fn cursor_zero_sized_region_ends_scan() {
    let mut cursor = ScanCursor::new();
    let step = cursor.on_query(&Some(RegionInfo { base_address: 0, size: 0, committed: true }));
    assert!(matches!(step, ScanStep::Finished));
    assert!(cursor.done);
}

#[test]
fn cursor_region_past_address_space_ends_scan() {
    let mut cursor = ScanCursor::new();
    let first = cursor.on_query(&Some(RegionInfo { base_address: 0, size: usize::MAX, committed: false }));
    assert!(matches!(first, ScanStep::Skip));
    let step = cursor.on_query(&Some(RegionInfo { base_address: usize::MAX, size: 2, committed: true }));
    assert!(matches!(step, ScanStep::Finished));
    assert!(cursor.done);
}
