use rekordbox_core::auxiliary::artwork_folder_path;
use rekordbox_core::auxiliary::artwork_full_name;
use rekordbox_core::auxiliary::artwork_thumbnail_name;
use rekordbox_core::auxiliary::device_backup_json;
use rekordbox_core::auxiliary::format_timestamp;
use rekordbox_core::auxiliary::generate_device_backup_info;
use rekordbox_core::auxiliary::generate_devsetting;
use rekordbox_core::auxiliary::generate_djprofile;
use rekordbox_core::auxiliary::DeviceBackupInfo;
use rekordbox_core::fingerprint::cache_key;
use rekordbox_core::fingerprint::fingerprint_of_sample;

#[test]
fn test_devsetting_generation() {
    let data = generate_devsetting();

    assert_eq!(data.len(), 140);

    // Check header
    assert_eq!(u32::from_le_bytes([data[0], data[1], data[2], data[3]]), 96);

    // Check brand
    assert_eq!(&data[4..14], b"PIONEER DJ");

    // Check app
    assert_eq!(&data[0x24..0x2D], b"rekordbox");

    // Check version
    assert_eq!(&data[0x44..0x49], b"6.8.4");

    // Check magic
    assert_eq!(
        u32::from_le_bytes([data[0x68], data[0x69], data[0x6A], data[0x6B]]),
        0x12345678
    );

    // Settings flags and tail marker
    assert_eq!(&data[0x70..0x76], &[1, 1, 1, 1, 1, 1]);
    assert_eq!(u32::from_le_bytes(data[0x88..0x8C].try_into().unwrap()), 0xD016);
}

#[test]
fn test_djprofile_generation() {
    let data = generate_djprofile("Test DJ");

    assert_eq!(data.len(), 160);

    // Check name at offset 0x20
    assert_eq!(&data[0x20..0x27], b"Test DJ");

    // Check null termination
    assert_eq!(data[0x27], 0);
}

#[test]
fn test_djprofile_truncates_long_names() {
    let data = generate_djprofile(&"n".repeat(60));
    assert_eq!(data.len(), 160);
    assert_eq!(&data[0x20..0x3F], "n".repeat(31).as_bytes());
    assert_eq!(data[0x3F], 0);
}

#[test]
fn test_artwork_paths() {
    assert_eq!(artwork_folder_path(1), "PIONEER/Artwork/00001");
    assert_eq!(artwork_folder_path(99), "PIONEER/Artwork/00001");
    assert_eq!(artwork_folder_path(100), "PIONEER/Artwork/00002");
    assert_eq!(artwork_folder_path(250), "PIONEER/Artwork/00003");

    assert_eq!(artwork_thumbnail_name(42), "a42.jpg");
    assert_eq!(artwork_full_name(42), "a42_m.jpg");
}

#[test]
fn test_new_uuid_shape() {
    let uuid = DeviceBackupInfo::new_uuid();
    assert_eq!(uuid.len(), 32);
    assert!(uuid.chars().all(|c| c.is_ascii_hexdigit() && !c.is_ascii_uppercase()));
}

#[test]
fn test_format_timestamp() {
    assert_eq!(format_timestamp(0), "1970/01/01 00:00:00");
    // One day, one hour, one minute and one second in.
    assert_eq!(format_timestamp(86400 + 3661), "1970/01/02 01:01:01");
}

#[test]
fn test_device_backup_json() {
    let info = DeviceBackupInfo {
        uuid: "0123456789abcdef0123456789abcdef".to_string(),
        device_name: "USB-STICK".to_string(),
        filesystem: "FAT32".to_string(),
        backup_pc_name: "studio".to_string(),
    };
    let json = device_backup_json(&info, 7, 0);
    assert!(json.starts_with("{\n  \"uuid\": \"0123456789abcdef0123456789abcdef\""));
    assert!(json.contains("\"device_name\": \"USB-STICK\""));
    assert!(json.contains("\"device_filesystem\": \"FAT32\""));
    assert!(json.contains("\"backup_pc_id\": \"7\""));
    assert!(json.contains("\"backup_pc_name\": \"studio\""));
    assert!(json.contains("\"backup_date\": \"1970/01/01 00:00:00\""));
    assert!(json.contains("\"backup_file_name\": \"rbDevLibBa_7_0123456789abcdef0123456789abcdef.zip\""));
    assert!(json.ends_with("]\n}"));

    // The live variant carries the same fixed fields.
    let live = generate_device_backup_info(&info, 7);
    assert!(live.contains("\"backup_pc_id\": \"7\""));
}

#[test]
fn test_fingerprint_depends_on_size_and_sample() {
    let sample = vec![1u8, 2, 3, 4];
    let a = fingerprint_of_sample(&sample, 4);
    let b = fingerprint_of_sample(&sample, 5);
    let c = fingerprint_of_sample(&vec![1u8, 2, 3, 5], 4);
    assert_ne!(a, b);
    assert_ne!(a, c);
    assert_eq!(a, fingerprint_of_sample(&sample, 4));
}

#[test]
fn test_cache_key_format() {
    assert_eq!(cache_key(0x12345678), "0000000012345678.json");
    assert_eq!(cache_key(u64::MAX), "ffffffffffffffff.json");
}
