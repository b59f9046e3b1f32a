use rekordbox_core::page::FileHeader;
use rekordbox_core::page::IndexPageBuilder;
use rekordbox_core::page::PageBuilder;
use rekordbox_core::page::PageType;
use rekordbox_core::page::TablePointer;
use rekordbox_core::page::PAGE_SIZE;
use rekordbox_core::page::ROW_GROUP_SIZE;

#[test]
fn test_page_builder_basic() {
    let mut page = PageBuilder::new(1, PageType::Artists);

    // Write some test data
    let data = b"test row data".to_vec();
    let offset = page.write_row(&data).unwrap();

    assert_eq!(offset, 0);
    assert_eq!(page.row_count(), 1);
}

#[test]
fn test_page_overflow_detection() {
    let page = PageBuilder::new(1, PageType::Artists);

    // Should not overflow for small data
    assert!(!page.would_overflow(100));

    // Should overflow for data larger than page
    assert!(page.would_overflow(PAGE_SIZE));
}

#[test]
fn test_row_index_structure() {
    let mut page = PageBuilder::new(1, PageType::Artists);

    // Add 3 rows
    for i in 0..3 {
        let data = format!("row{}", i);
        page.write_row(&data.as_bytes().to_vec()).unwrap();
    }

    let finalized = page.finalize(0xFFFFFFFF);

    // Row group structure (36 bytes from end):
    // - Bytes 0-31: row_offsets[0..16]
    // - Bytes 32-33: presence_flags
    // - Bytes 34-35: duplicated presence_flags
    let group_start = PAGE_SIZE - ROW_GROUP_SIZE;

    // Check presence flags at byte 32 of the group
    let flags = u16::from_le_bytes([finalized[group_start + 32], finalized[group_start + 33]]);

    // 3 rows = bits 0, 1, 2 set = 0b111 = 7
    assert_eq!(flags, 0x0007);

    // Check row offsets are in reverse order
    // row_offsets[15] = row 0, row_offsets[14] = row 1, row_offsets[13] = row 2
    let offset_0 = u16::from_le_bytes([
        finalized[group_start + 30], // position 15 * 2
        finalized[group_start + 31],
    ]);
    assert_eq!(offset_0, 0); // Row 0 at heap offset 0
}

#[test]
fn test_presence_flags_duplicated() {
    let mut page = PageBuilder::new(3, PageType::Genres);
    for i in 0..5 {
        let data = format!("genre{}", i);
        page.write_row(&data.as_bytes().to_vec()).unwrap();
    }
    let finalized = page.finalize(0xFFFFFFFF);
    let group_start = PAGE_SIZE - ROW_GROUP_SIZE;
    // Five rows: bits 0 through 4 set, and the pair at +34 repeats +32.
    assert_eq!(finalized[group_start + 32], 0b1_1111);
    assert_eq!(finalized[group_start + 33], 0);
    assert_eq!(
        &finalized[group_start + 32..group_start + 34],
        &finalized[group_start + 34..group_start + 36]
    );
    // An empty page still gets one empty row group.
    let empty = PageBuilder::new(4, PageType::Labels).finalize(0xFFFFFFFF);
    assert_eq!(&empty[group_start + 32..group_start + 36], &[0, 0, 0, 0]);
}

#[test]
fn test_data_page_header_fields() {
    let mut page = PageBuilder::new(7, PageType::Artists);
    page.write_row(&vec![1, 2, 3, 4]).unwrap();
    let finalized = page.finalize(9);
    assert_eq!(finalized.len(), PAGE_SIZE);
    assert_eq!(u32::from_le_bytes(finalized[4..8].try_into().unwrap()), 7);
    assert_eq!(u32::from_le_bytes(finalized[8..12].try_into().unwrap()), 9);
    assert_eq!(finalized[0x1B], 0x24);
    // One row: packed counts hold (4 << 11) | 1.
    let packed = finalized[0x18] as u32
        | ((finalized[0x19] as u32) << 8)
        | ((finalized[0x1A] as u32) << 16);
    assert_eq!(packed, (4 << 11) | 1);
    // Track and history pages carry the alternate flag byte.
    let track_page = PageBuilder::new(2, PageType::Tracks).finalize(0xFFFFFFFF);
    assert_eq!(track_page[0x1B], 0x34);
}

#[test]
fn test_index_page_layout() {
    let page = IndexPageBuilder::new(5, PageType::Albums).finalize(6, true, 12);
    assert_eq!(page.len(), PAGE_SIZE);
    assert_eq!(u32::from_le_bytes(page[4..8].try_into().unwrap()), 5);
    assert_eq!(page[0x1B], 0x64);
    // Self-reference and the first data page.
    assert_eq!(u32::from_le_bytes(page[0x28..0x2C].try_into().unwrap()), 5);
    assert_eq!(u32::from_le_bytes(page[0x2C..0x30].try_into().unwrap()), 6);
    // One entry, holding the table's slot count.
    assert_eq!(u16::from_le_bytes(page[0x38..0x3A].try_into().unwrap()), 1);
    assert_eq!(u32::from_le_bytes(page[0x3C..0x40].try_into().unwrap()), 12);

    let empty = IndexPageBuilder::new(5, PageType::Albums).finalize(6, false, 0);
    // An empty table's index slot holds the sentinel.
    assert_eq!(u32::from_le_bytes(empty[0x2C..0x30].try_into().unwrap()), 0x03FF_FFFF);
    assert_eq!(u16::from_le_bytes(empty[0x38..0x3A].try_into().unwrap()), 0);
}

#[test]
fn test_file_header_page() {
    let mut header = FileHeader::new();
    header.add_table(TablePointer::new(PageType::Tracks, 1, 1, 2));
    header.next_unused_page = 3;
    let page = header.to_page();
    assert_eq!(page.len(), PAGE_SIZE);
    assert_eq!(u32::from_le_bytes(page[4..8].try_into().unwrap()), 4096);
    assert_eq!(u32::from_le_bytes(page[8..12].try_into().unwrap()), 1);
    assert_eq!(u32::from_le_bytes(page[12..16].try_into().unwrap()), 3);
    // The pointer: counter, index page, last data page, table type.
    assert_eq!(u32::from_le_bytes(page[0x10..0x14].try_into().unwrap()), 1);
    assert_eq!(u32::from_le_bytes(page[0x14..0x18].try_into().unwrap()), 1);
    assert_eq!(u32::from_le_bytes(page[0x18..0x1C].try_into().unwrap()), 2);
    assert_eq!(u32::from_le_bytes(page[0x1C..0x20].try_into().unwrap()), 0);
}

#[test]
fn test_all_types_in_order() {
    let types = PageType::all_types();
    assert_eq!(types.len(), 20);
    for (i, t) in types.iter().enumerate() {
        assert_eq!(t.type_id(), i as u32);
    }
    assert_eq!(PageType::required_types().len(), 20);
}
