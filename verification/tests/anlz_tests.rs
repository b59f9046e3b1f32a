use rekordbox_core::anlz::generate_anlz_full_path;
use rekordbox_core::anlz::generate_anlz_path;
use rekordbox_core::anlz::generate_dat_file;
use rekordbox_core::anlz::generate_ext_file;
use rekordbox_core::anlz::generate_pcob_section;
use rekordbox_core::anlz::generate_ppth_section;
use rekordbox_core::anlz::generate_pqtz_section;
use rekordbox_core::anlz::generate_pwav_section;
use rekordbox_core::anlz::generate_pwv3_section;
use rekordbox_core::track::Beat;
use rekordbox_core::track::BeatGrid;
use rekordbox_core::track::CuePoint;
use rekordbox_core::track::CueType;
use rekordbox_core::track::Waveform;
use rekordbox_core::track::WaveformColorEntry;
use rekordbox_core::track::WaveformColumn;

fn be32(data: &[u8], off: usize) -> u32 {
    u32::from_be_bytes(data[off..off + 4].try_into().unwrap())
}

#[test]
fn test_anlz_path_generation() {
    assert_eq!(generate_anlz_path(1), "PIONEER/USBANLZ/P000/00000001/ANLZ0000.DAT");
    assert_eq!(generate_anlz_path(256), "PIONEER/USBANLZ/P001/00000100/ANLZ0000.DAT");
    assert_eq!(generate_anlz_path(0x1234), "PIONEER/USBANLZ/P018/00001234/ANLZ0000.DAT");
}

#[test]
fn test_anlz_full_path() {
    assert_eq!(
        generate_anlz_full_path("/mnt/usb/", 1),
        "/mnt/usb/PIONEER/USBANLZ/P000/00000001/ANLZ0000.DAT"
    );
}

#[test]
fn test_pqtz_section() {
    let grid = BeatGrid {
        bpm_100: 12800,
        first_beat_ms: 100,
        beats: vec![
            Beat { beat_number: 1, time_ms: 100, tempo_100: 12800 },
            Beat { beat_number: 2, time_ms: 568, tempo_100: 12800 },
        ],
    };

    let section = generate_pqtz_section(&grid);

    // Check tag
    assert_eq!(&section[0..4], b"PQTZ");

    // Check beat count (at offset 20, after header fields)
    let count = be32(&section, 20);
    assert_eq!(count, 2);
}

#[test]
fn test_pwav_section() {
    let columns = vec![
        WaveformColumn { height: 15, whiteness: 3 },
        WaveformColumn { height: 20, whiteness: 5 },
    ];

    let section = generate_pwav_section(&columns);

    // Check tag
    assert_eq!(&section[0..4], b"PWAV");

    // Section should be header (20) + 400 bytes
    let section_len = be32(&section, 8);
    assert_eq!(section_len, 420);
}

#[test]
fn test_ppth_section() {
    let section = generate_ppth_section("/Contents/test.mp3");

    // Check tag
    assert_eq!(&section[0..4], b"PPTH");

    // Path length should be 18 characters
    let path_len = be32(&section, 12);
    assert_eq!(path_len, 18);
}

#[test]
fn test_complete_dat_file() {
    let grid = BeatGrid::constant_tempo(12800, 0, 5000);
    let waveform = Waveform::default();

    let data = generate_dat_file(&grid, &waveform, "/Contents/test.mp3").unwrap();

    // Should start with PMAI
    assert_eq!(&data[0..4], b"PMAI");

    // File should be reasonable size
    assert!(data.len() > 100);
}

#[test]
fn test_pwv3_section() {
    let entries = vec![
        WaveformColorEntry { red: 5, green: 3, blue: 7, height: 20 },
        WaveformColorEntry { red: 2, green: 6, blue: 4, height: 15 },
    ];

    let section = generate_pwv3_section(&entries);

    // Check tag
    assert_eq!(&section[0..4], b"PWV3");

    // Entry count at offset 12 (after tag, header_len, section_len)
    let count = be32(&section, 12);
    assert_eq!(count, 2);

    // Section length = 20 (header) + 2 entries (1 byte each)
    let section_len = be32(&section, 8);
    assert_eq!(section_len, 22);
}

#[test]
fn test_pcob_section() {
    let cues = vec![
        CuePoint {
            hot_cue: 1,
            cue_type: CueType::Cue,
            time_ms: 5000,
            loop_ms: 0,
            comment: None,
            color: None,
        },
        CuePoint {
            hot_cue: 2,
            cue_type: CueType::Loop,
            time_ms: 10000,
            loop_ms: 4000,
            comment: None,
            color: None,
        },
    ];

    let section = generate_pcob_section(&cues);

    // Check tag
    assert_eq!(&section[0..4], b"PCOB");

    // Entry count (at offset 18-19, u16)
    let count = u16::from_be_bytes([section[18], section[19]]);
    assert_eq!(count, 2);

    // First entry: marker, length, hot cue, status, time, loop end.
    assert_eq!(&section[20..24], b"PCP\x01");
    assert_eq!(be32(&section, 28), 1);
    assert_eq!(be32(&section, 32), 0);
    assert_eq!(be32(&section, 36), 5000);
    assert_eq!(be32(&section, 40), 0xFFFF_FFFF);
    // Second entry is a loop, so its status is 4 and its end is set.
    assert_eq!(be32(&section, 56), 4);
    assert_eq!(be32(&section, 64), 14000);
}

#[test]
fn test_ext_file_differs_from_dat() {
    let grid = BeatGrid::constant_tempo(12800, 0, 5000);
    let waveform = Waveform::default();
    let cues: Vec<CuePoint> = Vec::new();

    let dat_data = generate_dat_file(&grid, &waveform, "/Contents/test.mp3").unwrap();
    let ext_data = generate_ext_file(&grid, &waveform, "/Contents/test.mp3", &cues).unwrap();

    // EXT should be larger than DAT (includes PWV3)
    assert!(ext_data.len() > dat_data.len());

    // Both should start with PMAI
    assert_eq!(&dat_data[0..4], b"PMAI");
    assert_eq!(&ext_data[0..4], b"PMAI");
}

#[test]
fn test_ext_file_with_cues() {
    let grid = BeatGrid::constant_tempo(12800, 0, 5000);
    let waveform = Waveform::default();
    let cues = vec![CuePoint {
        hot_cue: 1,
        cue_type: CueType::Cue,
        time_ms: 1000,
        loop_ms: 0,
        comment: None,
        color: None,
    }];

    let ext_data = generate_ext_file(&grid, &waveform, "/Contents/test.mp3", &cues).unwrap();

    // Should contain PCOB section somewhere in the file
    let ext_str = String::from_utf8_lossy(&ext_data);
    assert!(ext_str.contains("PCOB"));
    assert!(ext_str.contains("PCO2"));
}

#[test]
fn test_beat_grid_in_dat_file() {
    // Five seconds of constant 128 BPM from 0 ms: eleven beats in PQTZ.
    let grid = BeatGrid::constant_tempo(12800, 0, 5000);
    let section = generate_pqtz_section(&grid);
    assert_eq!(be32(&section, 20), 11);
    let expected = [0u32, 468, 937, 1406, 1875, 2343, 2812, 3281, 3750, 4218, 4687];
    for (i, want) in expected.iter().enumerate() {
        let entry = 24 + 8 * i;
        let time = be32(&section, entry + 4);
        assert_eq!(time, *want);
    }
    // First beat sits on beat one of its bar.
    assert_eq!(u16::from_be_bytes([section[24], section[25]]), 1);
}

#[test]
fn test_2ex_matches_ext() {
    let grid = BeatGrid::constant_tempo(12800, 0, 5000);
    let waveform = Waveform::default();
    let cues = vec![CuePoint {
        hot_cue: 3,
        cue_type: CueType::Loop,
        time_ms: 1500,
        loop_ms: 800,
        comment: None,
        color: None,
    }];
    let ext = generate_ext_file(&grid, &waveform, "/Contents/t.mp3", &cues).unwrap();
    let two_ex =
        rekordbox_core::anlz::generate_2ex_file(&grid, &waveform, "/Contents/t.mp3", &cues)
            .unwrap();
    assert_eq!(ext, two_ex);
}

/// Walk the sections of an ANLZ file, checking each section's stored
/// length against its real extent, and return how many bytes they cover.
fn walk_sections(data: &[u8]) -> usize {
    assert_eq!(&data[0..4], b"PMAI");
    assert_eq!(be32(data, 8) as usize, data.len());
    let mut pos = 28;
    while pos < data.len() {
        let section_len = be32(data, pos + 8) as usize;
        assert!(section_len >= 12);
        pos += section_len;
    }
    pos
}

#[test]
fn test_anlz_section_framing() {
    let grid = BeatGrid::constant_tempo(12800, 0, 5000);
    let waveform = Waveform::default();
    let cues = vec![
        CuePoint {
            hot_cue: 1,
            cue_type: CueType::Cue,
            time_ms: 1000,
            loop_ms: 0,
            comment: Some("drop".to_string()),
            color: None,
        },
        CuePoint {
            hot_cue: 0,
            cue_type: CueType::Loop,
            time_ms: 2000,
            loop_ms: 500,
            comment: None,
            color: None,
        },
    ];

    let dat = generate_dat_file(&grid, &waveform, "/Contents/test.mp3").unwrap();
    assert_eq!(walk_sections(&dat), dat.len());

    let ext = generate_ext_file(&grid, &waveform, "/Contents/test.mp3", &cues).unwrap();
    assert_eq!(walk_sections(&ext), ext.len());
}
