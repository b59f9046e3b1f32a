use rekordbox_core::subsonic::auth_params;
use rekordbox_core::subsonic::build_path_to_playlist_map;
use rekordbox_core::subsonic::Playlist;
use rekordbox_core::subsonic::PlaylistTrack;

fn lookup<'a>(params: &'a [(String, String)], key: &str) -> Option<&'a String> {
    params.iter().find(|(k, _)| k == key).map(|(_, v)| v)
}

#[test]
fn test_auth_params() {
    let params = auth_params("admin", "SECRET-REDACTED");

    assert_eq!(lookup(&params, "u"), Some(&"admin".to_string()));
    assert_eq!(lookup(&params, "v"), Some(&"1.16.0".to_string()));
    assert_eq!(lookup(&params, "c"), Some(&"rekordbox-export".to_string()));
    assert_eq!(lookup(&params, "f"), Some(&"json".to_string()));

    // Token and salt should be present
    assert!(lookup(&params, "t").is_some());
    assert!(lookup(&params, "s").is_some());

    // Salt should be 12 chars
    assert_eq!(lookup(&params, "s").unwrap().len(), 12);

    // Token should be 32 chars (hex digest)
    assert_eq!(lookup(&params, "t").unwrap().len(), 32);
}

fn track(id: &str, title: &str, artist: &str, duration: u32, path: &str) -> PlaylistTrack {
    PlaylistTrack {
        id: id.to_string(),
        title: title.to_string(),
        artist: artist.to_string(),
        album: None,
        duration_secs: duration,
        path: path.to_string(),
    }
}

fn playlist(id: &str, name: &str) -> Playlist {
    Playlist {
        id: id.to_string(),
        name: name.to_string(),
        song_count: 1,
        duration_secs: 300,
        owner: "admin".to_string(),
    }
}

#[test]
fn test_path_to_playlist_map() {
    let playlists = vec![
        (
            playlist("1", "House"),
            vec![track("1", "Track 1", "Artist 1", 300, "Music/House/track1.mp3")],
        ),
        (
            playlist("2", "Techno"),
            vec![track("2", "Track 2", "Artist 2", 360, "Music/Techno/track2.flac")],
        ),
    ];

    let path_map = build_path_to_playlist_map(&playlists);

    let get = |path: &str| {
        path_map
            .iter()
            .rev()
            .find(|(p, _)| p == path)
            .map(|(_, name)| name.clone())
    };
    assert_eq!(get("Music/House/track1.mp3"), Some("House".to_string()));
    assert_eq!(get("Music/Techno/track2.flac"), Some("Techno".to_string()));
}

#[test]
fn test_path_map_normalizes_separators() {
    let playlists = vec![(
        playlist("1", "Mixed"),
        vec![track("9", "T", "A", 10, "Music\\Mixed\\t.mp3")],
    )];
    let path_map = build_path_to_playlist_map(&playlists);
    assert_eq!(path_map.len(), 1);
    assert_eq!(path_map[0].0, "Music/Mixed/t.mp3");
    assert_eq!(path_map[0].1, "Mixed");
}
