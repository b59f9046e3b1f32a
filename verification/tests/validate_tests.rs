use rekordbox_core::page::FileHeader;
use rekordbox_core::validate::validate_pdb;

const PAGE_SIZE: usize = 4096;

#[test]
fn test_validate_empty() {
    let result = validate_pdb(&[]);
    assert!(!result.valid);
    assert!(result.errors.iter().any(|e| e.contains("too small")));
}

#[test]
fn test_validate_too_small() {
    let data = vec![0u8; 100];
    let result = validate_pdb(&data);
    assert!(!result.valid);
}

#[test]
fn test_validate_misaligned() {
    let data = vec![0u8; PAGE_SIZE + 100];
    let result = validate_pdb(&data);
    assert!(!result.valid);
    assert!(result.errors.iter().any(|e| e.contains("not a multiple")));
}

#[test]
fn test_validate_bad_page_size() {
    let mut data = vec![0u8; PAGE_SIZE];
    // Set page_size to wrong value
    data[4..8].copy_from_slice(&1000u32.to_le_bytes());
    let result = validate_pdb(&data);
    assert!(!result.valid);
    assert!(result.errors.iter().any(|e| e.contains("page_size")));
}

#[test]
fn test_validate_minimal_valid() {
    let header = FileHeader::new();
    let data = header.to_page();
    let result = validate_pdb(&data);

    // Should be valid with just header
    assert!(result.valid, "Errors: {:?}", result.errors);
}

#[test]
fn test_validate_next_unused_out_of_range() {
    let mut header = FileHeader::new();
    header.next_unused_page = 5;
    let data = header.to_page();
    let result = validate_pdb(&data);
    assert!(!result.valid);
    assert!(result.errors.iter().any(|e| e.contains("next_unused_page")));
}

#[test]
fn test_validate_pointer_out_of_range() {
    let mut data = vec![0u8; PAGE_SIZE];
    data[4..8].copy_from_slice(&4096u32.to_le_bytes());
    data[8..12].copy_from_slice(&1u32.to_le_bytes());
    data[12..16].copy_from_slice(&1u32.to_le_bytes());
    // One table pointer whose index page lies past the end of the file.
    data[0x14..0x18].copy_from_slice(&9u32.to_le_bytes());
    let result = validate_pdb(&data);
    assert!(!result.valid);
    assert!(result.errors.iter().any(|e| e.contains("index_page")));
}
