use rekordbox_core::track::BeatGrid;
use rekordbox_core::track::FileType;
use rekordbox_core::track::HotCueColor;
use rekordbox_core::track::Key;
use rekordbox_core::track::WaveformColorEntry;
use rekordbox_core::track::WaveformColorPreviewColumn;
use rekordbox_core::track::WaveformColumn;

#[test]
fn test_key_camelot() {
    // A minor = 8A (relative minor of C major)
    let am = Key::new(9, false);
    assert_eq!(am.to_camelot(), "8A");

    // C major = 8B
    let c = Key::new(0, true);
    assert_eq!(c.to_camelot(), "8B");

    // C minor = 5A
    let cm = Key::new(0, false);
    assert_eq!(cm.to_camelot(), "5A");
}

#[test]
fn test_key_rekordbox_id() {
    // C minor should be 1
    let cm = Key::new(0, false);
    assert_eq!(cm.to_rekordbox_id(), 1);

    // C major should be 13
    let c = Key::new(0, true);
    assert_eq!(c.to_rekordbox_id(), 13);
}

#[test]
fn test_key_id_roundtrip_all_keys() {
    for pc in 0..12u8 {
        for is_major in [false, true] {
            let k = Key::new(pc, is_major);
            let id = k.to_rekordbox_id();
            assert!(1 <= id && id <= 24);
            assert_eq!(Key::from_rekordbox_id(id), k);
        }
    }
}

#[test]
fn test_key_names() {
    assert_eq!(Key::new(9, false).name(), "Am");
    assert_eq!(Key::new(0, true).name(), "C");
    assert_eq!(Key::new(6, false).name(), "F#m");
    assert_eq!(Key::new(1, true).to_open_key(), "8d");
}

#[test]
fn test_waveform_encoding() {
    let entry = WaveformColorEntry { red: 5, green: 3, blue: 7, height: 20 };
    let bytes = entry.to_bytes();
    let decoded = WaveformColorEntry::from_bytes(bytes);
    assert_eq!(entry.red, decoded.red);
    assert_eq!(entry.green, decoded.green);
    assert_eq!(entry.blue, decoded.blue);
    assert_eq!(entry.height, decoded.height);
}

#[test]
fn test_color_entry_exact_bytes() {
    // (5 << 13) | (3 << 10) | (7 << 7) | (20 << 2) packs to 0xAFD0.
    let entry = WaveformColorEntry { red: 5, green: 3, blue: 7, height: 20 };
    assert_eq!(entry.to_bytes(), [0xAF, 0xD0]);
    assert_eq!(WaveformColorEntry::from_bytes([0xAF, 0xD0]), entry);
}

#[test]
fn test_column_roundtrip() {
    for height in [0u8, 1, 15, 31] {
        for whiteness in [0u8, 3, 7] {
            let c = WaveformColumn { height, whiteness };
            assert_eq!(WaveformColumn::from_byte(c.to_byte()), c);
        }
    }
    assert_eq!(WaveformColumn { height: 15, whiteness: 3 }.to_byte(), (15 << 3) | 3);
}

#[test]
fn test_color_preview_column_roundtrip() {
    let c = WaveformColorPreviewColumn {
        height: 100,
        luminance: 90,
        blue: 80,
        red: 70,
        green: 60,
        blue2: 50,
    };
    assert_eq!(WaveformColorPreviewColumn::from_bytes(c.to_bytes()), c);
}

#[test]
fn test_beat_grid_generation() {
    let grid = BeatGrid::constant_tempo(12800, 100, 10_000);
    assert!(!grid.is_empty());
    // At 128 BPM, one beat every 468.75 ms, so over 20 beats in 10 seconds
    assert!(grid.len() > 20);
    assert_eq!(grid.beats[0].beat_number, 1);
    assert_eq!(grid.beats[0].tempo_100, 12800);
}

#[test]
fn test_beat_grid_five_seconds() {
    // Five seconds of constant 128 BPM starting at 0 ms: eleven beats.
    let grid = BeatGrid::constant_tempo(12800, 0, 5000);
    let times: Vec<u32> = grid.beats.iter().map(|b| b.time_ms).collect();
    assert_eq!(
        times,
        vec![0, 468, 937, 1406, 1875, 2343, 2812, 3281, 3750, 4218, 4687]
    );
    assert_eq!(grid.beats[0].beat_number, 1);
    assert_eq!(grid.beats[1].beat_number, 2);
    assert_eq!(grid.beats[4].beat_number, 1);
}

#[test]
fn test_file_type_from_extension() {
    assert_eq!(FileType::from_extension("mp3"), FileType::Mp3);
    assert_eq!(FileType::from_extension("MP3"), FileType::Mp3);
    assert_eq!(FileType::from_extension("flac"), FileType::Flac);
    assert_eq!(FileType::from_extension("unknown"), FileType::Unknown);
}

#[test]
fn test_default_hot_cue_colors() {
    assert_eq!(
        HotCueColor::default_for_slot(1),
        HotCueColor { palette_index: 0x00, red: 0x28, green: 0xE2, blue: 0x14 }
    );
    assert_eq!(
        HotCueColor::default_for_slot(6),
        HotCueColor { palette_index: 0x2A, red: 0xE6, green: 0x28, blue: 0x28 }
    );
    // Out-of-range slots fall back to the slot-one green.
    assert_eq!(HotCueColor::default_for_slot(0), HotCueColor::default_for_slot(1));
}
