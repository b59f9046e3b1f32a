use rekordbox_core::pdb::PdbBuilder;
use rekordbox_core::track::BeatGrid;
use rekordbox_core::track::FileType;
use rekordbox_core::track::Key;
use rekordbox_core::track::TrackAnalysis;
use rekordbox_core::track::Waveform;
use rekordbox_core::validate::validate_pdb;

const PAGE_SIZE: usize = 4096;

fn make_test_track(id: u32, title: &str, artist: &str) -> TrackAnalysis {
    TrackAnalysis {
        id,
        file_path: format!("Contents/{}.mp3", title),
        title: title.to_string(),
        artist: artist.to_string(),
        album: Some("Test Album".to_string()),
        genre: Some("Electronic".to_string()),
        label: None,
        duration_secs: 180,
        sample_rate: 44100,
        bit_depth: 16,
        bitrate: 320,
        bpm_100: 12800,
        key: Some(Key::new(9, false)), // Am
        beat_grid: BeatGrid::default(),
        waveform: Waveform::default(),
        cue_points: Vec::new(),
        file_size: 5_000_000,
        file_hash: 0x12345678,
        year: Some(2024),
        comment: None,
        track_number: Some(1),
        file_type: FileType::Mp3,
    }
}

fn le32(data: &[u8], off: usize) -> u32 {
    u32::from_le_bytes(data[off..off + 4].try_into().unwrap())
}

fn le16(data: &[u8], off: usize) -> u16 {
    u16::from_le_bytes(data[off..off + 2].try_into().unwrap())
}

/// The index page of table `t`, from its pointer in page zero.
fn index_page_of(data: &[u8], t: usize) -> usize {
    le32(data, 0x10 + 16 * t + 4) as usize
}

/// Rows stored in the packed counts of the page at index `p`.
fn rows_of_page(data: &[u8], p: usize) -> u32 {
    let off = p * PAGE_SIZE + 0x18;
    let packed =
        data[off] as u32 | ((data[off + 1] as u32) << 8) | ((data[off + 2] as u32) << 16);
    (packed >> 13) & 0x7FF
}

#[test]
fn test_pdb_builder_basic() {
    let mut builder = PdbBuilder::new();

    let track = make_test_track(1, "Test Track", "Test Artist");
    builder.add_track(track, "PIONEER/USBANLZ/P000/00000001/ANLZ0000.DAT");

    let data = builder.build().unwrap();

    // Should be at least header + one track page
    assert!(data.len() >= PAGE_SIZE * 2);
    assert_eq!(data.len() % PAGE_SIZE, 0);

    // Check header magic (page size at offset 4)
    let page_size = le32(&data, 4);
    assert_eq!(page_size, PAGE_SIZE as u32);
}

#[test]
fn test_pdb_with_playlists() {
    let mut builder = PdbBuilder::new();

    let track1 = make_test_track(1, "Track 1", "Artist A");
    let track2 = make_test_track(2, "Track 2", "Artist B");

    builder.add_track(track1, "PIONEER/USBANLZ/P000/00000001/ANLZ0000.DAT");
    builder.add_track(track2, "PIONEER/USBANLZ/P000/00000002/ANLZ0000.DAT");

    builder.add_playlist(1, 0, "My Playlist", vec![1, 2]);

    let data = builder.build().unwrap();
    assert!(data.len() >= PAGE_SIZE * 2);

    let result = validate_pdb(&data);
    assert!(result.valid);
    assert_eq!(result.stats.track_count, 2);
    assert_eq!(result.stats.artist_count, 2);
    assert_eq!(result.stats.playlist_count, 1);
    assert_eq!(result.stats.playlist_entry_count, 2);
}

#[test]
fn test_empty_export() {
    // An empty library still yields the full skeleton: the header page,
    // and one index page plus one data page for each of the 20 tables.
    let builder = PdbBuilder::new();
    let data = builder.build().unwrap();

    assert_eq!(data.len(), 41 * PAGE_SIZE);
    assert_eq!(le32(&data, 4), 4096);
    assert_eq!(le32(&data, 8), 20);
    assert_eq!(le32(&data, 12), 41);

    // All 20 table pointers are present, in table order.
    for t in 0..20 {
        assert_eq!(le32(&data, 0x10 + 16 * t + 12), t as u32);
        let ip = le32(&data, 0x10 + 16 * t + 4) as usize;
        assert!(ip >= 1 && ip < 41);
        assert_eq!(data[ip * PAGE_SIZE + 0x1B], 0x64);
    }

    // The color table carries its eight palette rows.
    let colors_data = index_page_of(&data, 6) + 1;
    assert_eq!(rows_of_page(&data, colors_data), 8);

    // The static table at slot 17 carries its 22 rows.
    let uk17_data = index_page_of(&data, 17) + 1;
    assert_eq!(rows_of_page(&data, uk17_data), 22);

    // The validator accepts the file.
    let result = validate_pdb(&data);
    assert!(result.valid, "{:?}", result.errors);
    assert_eq!(result.stats.track_count, 0);
}

#[test]
fn test_every_data_page_records_its_position() {
    let mut builder = PdbBuilder::new();
    builder.add_track(
        make_test_track(1, "Track 1", "Artist A"),
        "PIONEER/USBANLZ/P000/00000001/ANLZ0000.DAT",
    );
    let data = builder.build().unwrap();
    let npages = data.len() / PAGE_SIZE;
    for p in 1..npages {
        assert_eq!(le32(&data, p * PAGE_SIZE + 4) as usize, p);
        let flags = data[p * PAGE_SIZE + 0x1B];
        assert!(flags == 0x24 || flags == 0x34 || flags == 0x64);
    }
}

#[test]
fn test_single_track_row_contents() {
    let mut builder = PdbBuilder::new();
    let mut track = make_test_track(1, "Test", "A");
    track.file_path = "/Contents/Test.mp3".to_string();
    track.album = None;
    track.genre = None;
    builder.add_track(track, "PIONEER/USBANLZ/P000/00000001/ANLZ0000.DAT");
    let data = builder.build().unwrap();

    let result = validate_pdb(&data);
    assert!(result.valid);
    assert_eq!(result.stats.track_count, 1);
    assert_eq!(result.stats.artist_count, 1);
    assert_eq!(result.stats.album_count, 0);
    assert_eq!(result.stats.genre_count, 0);

    // Find the track row: the track table's first data page, row zero.
    let track_page = index_page_of(&data, 0) + 1;
    let page = &data[track_page * PAGE_SIZE..(track_page + 1) * PAGE_SIZE];
    let row_off = le16(page, PAGE_SIZE - 36 + 30) as usize;
    let row = &page[0x28 + row_off..];

    // The track id and the tempo (beats per minute times one hundred).
    assert_eq!(le32(row, 0x48), 1);
    assert_eq!(le32(row, 0x38), 12800);
    assert_eq!(le16(row, 0x54), 180);

    // String slot 14 is the absolute analysis path.
    let ofs_analyze = le16(row, 0x5E + 2 * 14) as usize;
    let expected = b"/PIONEER/USBANLZ/P000/00000001/ANLZ0000.DAT";
    // Short ASCII header, then the path bytes.
    assert_eq!(row[ofs_analyze], (((expected.len() + 1) as u8) << 1) | 1);
    assert_eq!(&row[ofs_analyze + 1..ofs_analyze + 1 + expected.len()], expected);

    // String slot 20 is the file path as given.
    let ofs_path = le16(row, 0x5E + 2 * 20) as usize;
    let path = b"/Contents/Test.mp3";
    assert_eq!(&row[ofs_path + 1..ofs_path + 1 + path.len()], path);
}

#[test]
fn test_non_ascii_title_uses_utf16() {
    let mut builder = PdbBuilder::new();
    let mut track = make_test_track(1, "Test", "A");
    track.title = "日本語タイトル".to_string();
    builder.add_track(track, "PIONEER/USBANLZ/P000/00000001/ANLZ0000.DAT");
    let data = builder.build().unwrap();

    let track_page = index_page_of(&data, 0) + 1;
    let page = &data[track_page * PAGE_SIZE..(track_page + 1) * PAGE_SIZE];
    let row_off = le16(page, PAGE_SIZE - 36 + 30) as usize;
    let row = &page[0x28 + row_off..];

    // String slot 17 is the title; a non-ASCII title takes the UTF-16 form.
    let ofs_title = le16(row, 0x5E + 2 * 17) as usize;
    assert_eq!(row[ofs_title], 0x90);
}

#[test]
fn test_artist_row_near_and_far() {
    // A 126-character name takes the short string form, a 127-character
    // name the long form; both stay within the near row subtype. Only
    // names whose encoding passes 200 bytes take the far subtype.
    for (len, string_flag, subtype) in
        [(126usize, None, 0x0060u16), (127, Some(0x40u8), 0x0060), (197, Some(0x40), 0x0064)]
    {
        let mut builder = PdbBuilder::new();
        let mut track = make_test_track(1, "Test", "A");
        track.artist = "x".repeat(len);
        builder.add_track(track, "PIONEER/USBANLZ/P000/00000001/ANLZ0000.DAT");
        let data = builder.build().unwrap();

        let artist_page = index_page_of(&data, 2) + 1;
        let page = &data[artist_page * PAGE_SIZE..(artist_page + 1) * PAGE_SIZE];
        let row_off = le16(page, PAGE_SIZE - 36 + 30) as usize;
        let row = &page[0x28 + row_off..];
        assert_eq!(le16(row, 0), subtype, "artist name of {} characters", len);
        if let Some(flag) = string_flag {
            let name_at = if subtype == 0x0060 { 10 } else { 12 };
            assert_eq!(row[name_at], flag);
        }
    }
}

#[test]
fn test_build_is_deterministic() {
    let build = || {
        let mut builder = PdbBuilder::new();
        builder.add_track(
            make_test_track(1, "Track 1", "Artist A"),
            "PIONEER/USBANLZ/P000/00000001/ANLZ0000.DAT",
        );
        builder.add_track(
            make_test_track(2, "Track 2", "Artist A"),
            "PIONEER/USBANLZ/P000/00000002/ANLZ0000.DAT",
        );
        builder.add_playlist(1, 0, "Set", vec![2, 1]);
        builder.build().unwrap()
    };
    assert_eq!(build(), build());
}

#[test]
fn test_shared_artist_interned_once() {
    let mut builder = PdbBuilder::new();
    builder.add_track(
        make_test_track(1, "Track 1", "Same Artist"),
        "PIONEER/USBANLZ/P000/00000001/ANLZ0000.DAT",
    );
    builder.add_track(
        make_test_track(2, "Track 2", "Same Artist"),
        "PIONEER/USBANLZ/P000/00000002/ANLZ0000.DAT",
    );
    let data = builder.build().unwrap();
    let result = validate_pdb(&data);
    assert!(result.valid);
    assert_eq!(result.stats.track_count, 2);
    assert_eq!(result.stats.artist_count, 1);
    assert_eq!(result.stats.album_count, 1);
}

#[test]
fn test_page_overflow_error() {
    // A single string too large for an empty page fails the build.
    let mut builder = PdbBuilder::new();
    let mut track = make_test_track(1, "Test", "A");
    track.comment = Some("y".repeat(5000));
    builder.add_track(track, "PIONEER/USBANLZ/P000/00000001/ANLZ0000.DAT");
    let err = builder.build().unwrap_err();
    assert!(matches!(err, rekordbox_core::error::Error::PageOverflow(_)));
}

#[test]
fn test_many_tracks_chain_pages() {
    // Enough tracks to overflow one data page; the chain must terminate.
    let mut builder = PdbBuilder::new();
    for id in 1..=40u32 {
        let t = make_test_track(id, &format!("Track number {}", id), "Artist");
        let path = rekordbox_core::anlz::generate_anlz_path(id);
        builder.add_track(t, &path);
    }
    let data = builder.build().unwrap();
    let result = validate_pdb(&data);
    assert!(result.valid);
    assert_eq!(result.stats.track_count, 40);

    // Walk the track table chain by hand and require the terminator.
    let mut p = (index_page_of(&data, 0) + 1) as u32;
    let npages = (data.len() / PAGE_SIZE) as u32;
    let mut hops = 0;
    loop {
        assert!(p < npages);
        let next = le32(&data, p as usize * PAGE_SIZE + 8);
        hops += 1;
        assert!(hops <= npages);
        if next == 0xFFFF_FFFF {
            break;
        }
        p = next;
    }
    assert!(hops >= 2, "forty tracks should span several pages");
}
