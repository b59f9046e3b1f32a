//! The `export.pdb` database writer.
//!
//! The database is little-endian and paged. It always carries twenty
//! tables, each as one index page followed by data pages. The builder
//! interns artists, albums, genres, labels, keys and artworks into
//! dense ids starting at 1 (0 marks an absent reference), lays out the
//! row bytes of every table, packs them into pages, and writes the file
//! header last.

use vstd::prelude::*;

use crate::bytes::concat_bytes;
use crate::bytes::le2;
use crate::bytes::le4;
use crate::bytes::total_len;
use crate::bytes::zeros;
use crate::string::spec_encode_string;
use crate::string::spec_encoded_length;
use crate::string::str_eq;
use crate::track::Key;
use crate::track::TrackAnalysis;
use crate::track::spec_key_from_id;
use crate::track::spec_key_name;

verus! {

/// Row subtype of near (one-byte name offset) artist rows.
pub const SUBTYPE_NEAR: u16 = 0x0060;

/// Row subtype of far (two-byte name offset) artist rows.
pub const SUBTYPE_FAR: u16 = 0x0064;

/// Row subtype of track rows, which always use two-byte offsets.
pub const SUBTYPE_TRACK: u16 = 0x0024;

/// An artwork table row: its id and the image path.
pub struct ArtworkInfo {
    /// Dense artwork id, starting at 1.
    pub id: u32,
    /// Path of the image file on the device.
    pub path: String,
}

/// One playlist (or playlist folder) and its track list.
pub struct PlaylistInfo {
    /// Playlist id.
    pub id: u32,
    /// Parent folder id; 0 is the root.
    pub parent_id: u32,
    /// Display name.
    pub name: String,
    /// True for a folder, which carries no entries.
    pub is_folder: bool,
    /// Position among its siblings.
    pub sort_order: u32,
    /// The member tracks, in playlist order.
    pub track_ids: Vec<u32>,
}

/// One track of the build, with every interned reference resolved.
pub struct TrackEntry {
    /// The track's data.
    pub analysis: TrackAnalysis,
    /// Interned artist id, or 0.
    pub artist_id: u32,
    /// Interned album id, or 0.
    pub album_id: u32,
    /// Interned genre id, or 0.
    pub genre_id: u32,
    /// Interned label id, or 0.
    pub label_id: u32,
    /// Interned key id, or 0.
    pub key_id: u32,
    /// Interned artwork id, or 0.
    pub artwork_id: u32,
    /// The track's analysis file path, relative to the USB root.
    pub analyze_path: String,
}

/// `p` without its leading slashes.
pub open spec fn spec_trim_leading_slashes(p: Seq<char>) -> Seq<char>
    decreases p.len(),
{
    if p.len() > 0 && p[0] == '/' {
        spec_trim_leading_slashes(p.drop_first())
    } else {
        p
    }
}

/// The part of `p` after its last slash: the whole of `p` when it has
/// none, empty when it ends in one.
pub open spec fn spec_after_last_slash(p: Seq<char>) -> Seq<char>
    decreases p.len(),
{
    if p.len() == 0 {
        p
    } else if p.last() == '/' {
        Seq::empty()
    } else {
        spec_after_last_slash(p.drop_last()).push(p.last())
    }
}

/// The release date written for a track: the year followed by
/// `-01-01`, or nothing.
pub open spec fn spec_release_date(year: Option<u16>) -> Seq<char> {
    match year {
        Some(y) => crate::textfmt::spec_dec(y as int) + "-01-01"@,
        None => Seq::empty(),
    }
}

/// The characters of an optional string; absent means empty.
pub open spec fn spec_opt_chars(o: Option<String>) -> Seq<char> {
    match o {
        Some(s) => s@,
        None => Seq::empty(),
    }
}

/// `p` as an absolute path: one leading slash before the trimmed path.
pub open spec fn spec_slashed(p: Seq<char>) -> Seq<char> {
    seq!['/'] + spec_trim_leading_slashes(p)
}

/// `p` with exactly one leading slash.
fn slashed_path(p: &str) -> (r: String)
    ensures
        r@ == spec_slashed(p@),
{
    let len = p.unicode_len();
    let mut k: usize = 0;
    proof {
        assert(p@.subrange(0, len as int) =~= p@);
    }
    while k < len && p.get_char(k) == '/'
        invariant
            k <= len,
            len == p@.len(),
            spec_trim_leading_slashes(p@) == spec_trim_leading_slashes(
                p@.subrange(k as int, len as int),
            ),
        decreases len - k,
    {
        proof {
            assert(p@.subrange(k as int, len as int).drop_first() =~= p@.subrange(
                k as int + 1,
                len as int,
            ));
        }
        k = k + 1;
    }
    let mut r = String::from_str("/");
    let tail = p.substring_char(k, len);
    r.append(tail);
    proof {
        reveal_strlit("/");
        assert(r@ =~= spec_slashed(p@));
    }
    r
}

/// The file name at the end of `p`.
fn filename_of(p: &str) -> (r: String)
    ensures
        r@ == spec_after_last_slash(p@),
{
    let len = p.unicode_len();
    let mut k: usize = len;
    proof {
        assert(p@.subrange(0, len as int) =~= p@);
        assert(spec_after_last_slash(p@) =~= spec_after_last_slash(p@.subrange(0, len as int))
            + p@.subrange(len as int, len as int));
    }
    while k > 0 && p.get_char(k - 1) != '/'
        invariant
            k <= len,
            len == p@.len(),
            spec_after_last_slash(p@) == spec_after_last_slash(p@.subrange(0, k as int))
                + p@.subrange(k as int, len as int),
        decreases k,
    {
        proof {
            assert(p@.subrange(0, k as int).drop_last() =~= p@.subrange(0, k as int - 1));
            assert(p@.subrange(0, k as int).last() == p@[k as int - 1]);
            assert(spec_after_last_slash(p@.subrange(0, k as int - 1)).push(p@[k as int - 1])
                + p@.subrange(k as int, len as int) =~= spec_after_last_slash(
                p@.subrange(0, k as int - 1),
            ) + p@.subrange(k as int - 1, len as int));
        }
        k = k - 1;
    }
    let tail = p.substring_char(k, len);
    let r = String::from_str(tail);
    proof {
        if k > 0 {
            assert(p@.subrange(0, k as int).last() == p@[k as int - 1]);
        }
        assert(r@ =~= spec_after_last_slash(p@));
    }
    r
}

/// The release date string for a year.
fn release_date_string(year: &Option<u16>) -> (r: String)
    ensures
        r@ == spec_release_date(*year),
{
    match year {
        Some(y) => {
            let mut r = crate::textfmt::u32_dec(*y as u32);
            r.append("-01-01");
            r
        },
        None => String::new(),
    }
}

/// A genre row: the id, then the name.
pub open spec fn spec_genre_row(id: u32, name: Seq<char>) -> Seq<u8> {
    le4(id) + spec_encode_string(name)
}

/// A label row: the id, then the name.
pub open spec fn spec_label_row(id: u32, name: Seq<char>) -> Seq<u8> {
    le4(id) + spec_encode_string(name)
}

/// A key row: the id twice over, then the name.
pub open spec fn spec_key_row(id: u32, name: Seq<char>) -> Seq<u8> {
    le4(id) + le4(id) + spec_encode_string(name)
}

/// An artwork row: the id, then the path.
pub open spec fn spec_artwork_row(id: u32, path: Seq<char>) -> Seq<u8> {
    le4(id) + spec_encode_string(path)
}

/// A color row: five zero bytes, the 16-bit id, a zero byte, the name.
pub open spec fn spec_color_row(id: u16, name: Seq<char>) -> Seq<u8> {
    zeros(5) + le2(id) + zeros(1) + spec_encode_string(name)
}

/// An artist row. Names whose encoding stays within 200 bytes use the
/// near form with a one-byte name offset; longer names use the far form
/// with a two-byte offset.
pub open spec fn spec_artist_row(id: u32, name: Seq<char>) -> Seq<u8> {
    if spec_encoded_length(name) <= 200 {
        le2(0x0060) + le2(0) + le4(id) + seq![0x03u8, 10u8] + spec_encode_string(name)
    } else {
        le2(0x0064) + le2(0) + le4(id) + seq![0x03u8, 0u8] + le2(12) + spec_encode_string(name)
    }
}

/// An album row, near or far by the same rule as artist rows.
pub open spec fn spec_album_row(id: u32, artist_id: u32, name: Seq<char>) -> Seq<u8> {
    if spec_encoded_length(name) <= 200 {
        le2(0x0080) + le2(0) + le4(0) + le4(artist_id) + le4(id) + le4(0) + seq![0x03u8, 22u8]
            + spec_encode_string(name)
    } else {
        le2(0x0084) + le2(0) + le4(0) + le4(artist_id) + le4(id) + le4(0) + seq![0x03u8, 0u8] + le2(
            24,
        ) + spec_encode_string(name)
    }
}

/// A playlist tree row: parent, a zero word, sort order, id, the folder
/// flag, then the name.
pub open spec fn spec_playlist_tree_row(p: PlaylistInfo) -> Seq<u8> {
    le4(p.parent_id) + le4(0) + le4(p.sort_order) + le4(p.id) + le4(
        if p.is_folder {
            1u32
        } else {
            0u32
        },
    ) + spec_encode_string(p.name@)
}

/// A playlist entry row: the position in the playlist, the track, the
/// playlist.
pub open spec fn spec_playlist_entry_row(entry_index: u32, track_id: u32, playlist_id: u32) -> Seq<
    u8,
> {
    le4(entry_index) + le4(track_id) + le4(playlist_id)
}

/// Build a genre row.
fn build_genre_row(id: u32, name: &str) -> (r: Vec<u8>)
    requires
        spec_encoded_length(name@) <= 0xFFFF,
    ensures
        r@ == spec_genre_row(id, name@),
{
    let mut r: Vec<u8> = Vec::new();
    crate::bytes::push_u32_le(&mut r, id);
    let enc = crate::string::encode_string(name);
    crate::bytes::push_bytes(&mut r, &enc);
    proof {
        assert(r@ =~= spec_genre_row(id, name@));
    }
    r
}

/// Build a label row.
fn build_label_row(id: u32, name: &str) -> (r: Vec<u8>)
    requires
        spec_encoded_length(name@) <= 0xFFFF,
    ensures
        r@ == spec_label_row(id, name@),
{
    let r = build_genre_row(id, name);
    r
}

/// Build a key row.
fn build_key_row(id: u32, name: &str) -> (r: Vec<u8>)
    requires
        spec_encoded_length(name@) <= 0xFFFF,
    ensures
        r@ == spec_key_row(id, name@),
{
    let mut r: Vec<u8> = Vec::new();
    crate::bytes::push_u32_le(&mut r, id);
    crate::bytes::push_u32_le(&mut r, id);
    let enc = crate::string::encode_string(name);
    crate::bytes::push_bytes(&mut r, &enc);
    proof {
        assert(r@ =~= spec_key_row(id, name@));
    }
    r
}

/// Build an artwork row.
fn build_artwork_row(id: u32, path: &str) -> (r: Vec<u8>)
    requires
        spec_encoded_length(path@) <= 0xFFFF,
    ensures
        r@ == spec_artwork_row(id, path@),
{
    let r = build_genre_row(id, path);
    r
}

/// Build a color row.
fn build_color_row(id: u16, name: &str) -> (r: Vec<u8>)
    requires
        spec_encoded_length(name@) <= 0xFFFF,
    ensures
        r@ == spec_color_row(id, name@),
{
    let mut r: Vec<u8> = Vec::new();
    crate::bytes::push_zeros(&mut r, 5);
    crate::bytes::push_u16_le(&mut r, id);
    r.push(0u8);
    let enc = crate::string::encode_string(name);
    crate::bytes::push_bytes(&mut r, &enc);
    proof {
        assert(zeros(1) =~= seq![0u8]);
        assert(r@ =~= spec_color_row(id, name@));
    }
    r
}

/// Build an artist row, near or far by encoded name length.
fn build_artist_row(id: u32, name: &str) -> (r: Vec<u8>)
    requires
        spec_encoded_length(name@) <= 0xFFFF,
    ensures
        r@ == spec_artist_row(id, name@),
{
    let enc = crate::string::encode_string(name);
    let mut r: Vec<u8> = Vec::new();
    if enc.len() <= 200 {
        crate::bytes::push_u16_le(&mut r, SUBTYPE_NEAR);
        crate::bytes::push_u16_le(&mut r, 0);
        crate::bytes::push_u32_le(&mut r, id);
        r.push(0x03);
        r.push(10);
    } else {
        crate::bytes::push_u16_le(&mut r, SUBTYPE_FAR);
        crate::bytes::push_u16_le(&mut r, 0);
        crate::bytes::push_u32_le(&mut r, id);
        r.push(0x03);
        r.push(0);
        crate::bytes::push_u16_le(&mut r, 12);
    }
    crate::bytes::push_bytes(&mut r, &enc);
    proof {
        assert(r@ =~= spec_artist_row(id, name@));
    }
    r
}

/// Build an album row, near or far by encoded name length.
fn build_album_row(id: u32, artist_id: u32, name: &str) -> (r: Vec<u8>)
    requires
        spec_encoded_length(name@) <= 0xFFFF,
    ensures
        r@ == spec_album_row(id, artist_id, name@),
{
    let enc = crate::string::encode_string(name);
    let mut r: Vec<u8> = Vec::new();
    if enc.len() <= 200 {
        crate::bytes::push_u16_le(&mut r, 0x0080);
    } else {
        crate::bytes::push_u16_le(&mut r, 0x0084);
    }
    crate::bytes::push_u16_le(&mut r, 0);
    crate::bytes::push_u32_le(&mut r, 0);
    crate::bytes::push_u32_le(&mut r, artist_id);
    crate::bytes::push_u32_le(&mut r, id);
    crate::bytes::push_u32_le(&mut r, 0);
    r.push(0x03);
    if enc.len() <= 200 {
        r.push(22);
    } else {
        r.push(0);
        crate::bytes::push_u16_le(&mut r, 24);
    }
    crate::bytes::push_bytes(&mut r, &enc);
    proof {
        assert(r@ =~= spec_album_row(id, artist_id, name@));
    }
    r
}

/// Build a playlist tree row.
fn build_playlist_tree_row(p: &PlaylistInfo) -> (r: Vec<u8>)
    requires
        spec_encoded_length(p.name@) <= 0xFFFF,
    ensures
        r@ == spec_playlist_tree_row(*p),
{
    let mut r: Vec<u8> = Vec::new();
    crate::bytes::push_u32_le(&mut r, p.parent_id);
    crate::bytes::push_u32_le(&mut r, 0);
    crate::bytes::push_u32_le(&mut r, p.sort_order);
    crate::bytes::push_u32_le(&mut r, p.id);
    crate::bytes::push_u32_le(
        &mut r,
        if p.is_folder {
            1
        } else {
            0
        },
    );
    let enc = crate::string::encode_string(p.name.as_str());
    crate::bytes::push_bytes(&mut r, &enc);
    proof {
        assert(r@ =~= spec_playlist_tree_row(*p));
    }
    r
}

/// Build a playlist entry row.
fn build_playlist_entry_row(entry_index: u32, track_id: u32, playlist_id: u32) -> (r: Vec<u8>)
    ensures
        r@ == spec_playlist_entry_row(entry_index, track_id, playlist_id),
{
    let mut r: Vec<u8> = Vec::new();
    crate::bytes::push_u32_le(&mut r, entry_index);
    crate::bytes::push_u32_le(&mut r, track_id);
    crate::bytes::push_u32_le(&mut r, playlist_id);
    proof {
        assert(r@ =~= spec_playlist_entry_row(entry_index, track_id, playlist_id));
    }
    r
}

/// The 21 strings of a track row, by slot: most are empty; slot 11 is
/// the release date, 14 the absolute analysis path, 16 the comment, 17
/// the title, 19 the file name, 20 the file path.
pub open spec fn spec_track_contents(e: TrackEntry) -> Seq<Seq<char>> {
    seq![
        Seq::empty(),
        Seq::empty(),
        Seq::empty(),
        Seq::empty(),
        Seq::empty(),
        Seq::empty(),
        Seq::empty(),
        Seq::empty(),
        Seq::empty(),
        Seq::empty(),
        Seq::empty(),
        spec_release_date(e.analysis.year),
        Seq::empty(),
        Seq::empty(),
        spec_slashed(e.analyze_path@),
        Seq::empty(),
        spec_opt_chars(e.analysis.comment),
        e.analysis.title@,
        Seq::empty(),
        spec_after_last_slash(e.analysis.file_path@),
        e.analysis.file_path@,
    ]
}

/// The encoded forms of a track row's strings.
pub open spec fn spec_track_strs(e: TrackEntry) -> Seq<Seq<u8>> {
    spec_track_contents(e).map_values(|c: Seq<char>| spec_encode_string(c))
}

/// The fixed 0x5E-byte head of a track row.
pub open spec fn spec_track_fixed(e: TrackEntry) -> Seq<u8> {
    le2(0x0024) + le2(0) + le4(0) + le4(e.analysis.sample_rate) + le4(0) + le4(
        (e.analysis.file_size & 0xFFFF_FFFF) as u32,
    ) + le4(0) + le2(0) + le2(0) + le4(e.artwork_id) + le4(e.key_id) + le4(0) + le4(e.label_id)
        + le4(0) + le4(e.analysis.bitrate) + le4(
        match e.analysis.track_number {
            Some(n) => n,
            None => 0,
        },
    ) + le4(e.analysis.bpm_100) + le4(e.genre_id) + le4(e.album_id) + le4(e.artist_id) + le4(
        e.analysis.id,
    ) + le2(1) + le2(0) + le2(
        match e.analysis.year {
            Some(y) => y,
            None => 0,
        },
    ) + le2(e.analysis.bit_depth) + le2(e.analysis.duration_secs) + le2(41) + seq![0u8, 0u8] + le2(
        1,
    ) + le2(3)
}

/// The 21 string offsets of a track row, each relative to the row
/// start: the strings begin right after the 0x88-byte head.
pub open spec fn spec_track_offsets(strs: Seq<Seq<u8>>) -> Seq<u8> {
    concat_bytes(
        Seq::new(21, |i: int| le2((0x88 + total_len(strs.subrange(0, i))) as u16)),
    )
}

/// A complete track row: the fixed head, the offsets, the strings.
pub open spec fn spec_track_row(e: TrackEntry) -> Seq<u8> {
    spec_track_fixed(e) + spec_track_offsets(spec_track_strs(e)) + concat_bytes(spec_track_strs(e))
}

/// The byte length of a track row.
pub open spec fn spec_track_row_len(e: TrackEntry) -> int {
    0x88 + total_len(spec_track_strs(e))
}

/// A track entry whose row fits the format's 16-bit offsets.
pub open spec fn spec_track_wf(e: TrackEntry) -> bool {
    spec_track_row_len(e) <= 0xFFFF
}

/// Joined lengths are never negative.
proof fn lemma_total_len_nonneg(parts: Seq<Seq<u8>>)
    ensures
        total_len(parts) >= 0,
    decreases parts.len(),
{
    if parts.len() > 0 {
        lemma_total_len_nonneg(parts.drop_last());
    }
}

/// A prefix never outweighs the whole.
proof fn lemma_total_len_prefix(parts: Seq<Seq<u8>>, i: int)
    requires
        0 <= i <= parts.len(),
    ensures
        0 <= total_len(parts.subrange(0, i)) <= total_len(parts),
    decreases parts.len() - i,
{
    lemma_total_len_nonneg(parts.subrange(0, i));
    if i == parts.len() {
        assert(parts.subrange(0, i) =~= parts);
    } else {
        lemma_total_len_prefix(parts, i + 1);
        assert(parts.subrange(0, i + 1).drop_last() =~= parts.subrange(0, i));
        assert(parts.subrange(0, i + 1).last() == parts[i]);
        assert(total_len(parts.subrange(0, i + 1)) == total_len(parts.subrange(0, i))
            + parts[i].len());
    }
}

/// No part outweighs the whole.
proof fn lemma_total_len_parts(parts: Seq<Seq<u8>>)
    ensures
        forall|i: int| 0 <= i < parts.len() ==> #[trigger] parts[i].len() <= total_len(parts),
        forall|i: int|
            0 <= i <= parts.len() ==> 0 <= #[trigger] total_len(parts.subrange(0, i)) <= total_len(
                parts,
            ),
{
    assert forall|i: int|
        0 <= i <= parts.len() implies 0 <= #[trigger] total_len(parts.subrange(0, i))
        <= total_len(parts) by {
        lemma_total_len_prefix(parts, i);
    }
    assert forall|i: int| 0 <= i < parts.len() implies #[trigger] parts[i].len() <= total_len(
        parts,
    ) by {
        lemma_total_len_prefix(parts, i);
        lemma_total_len_prefix(parts, i + 1);
        assert(parts.subrange(0, i + 1).drop_last() =~= parts.subrange(0, i));
        assert(parts.subrange(0, i + 1).last() == parts[i]);
        assert(total_len(parts.subrange(0, i + 1)) == total_len(parts.subrange(0, i))
            + parts[i].len());
    }
}

/// The single byte that encodes the empty string.
fn empty_string_bytes() -> (r: Vec<u8>)
    ensures
        r@ == spec_encode_string(Seq::<char>::empty()),
{
    proof {
        reveal_strlit("");
        assert(""@ =~= Seq::<char>::empty());
    }
    crate::string::encode_string("")
}

/// Build one track row.
#[verifier::rlimit(100)]
fn build_track_row(e: &TrackEntry) -> (r: Vec<u8>)
    requires
        spec_track_wf(*e),
    ensures
        r@ == spec_track_row(*e),
        r@.len() == spec_track_row_len(*e),
{
    let ghost contents = spec_track_contents(*e);
    let ghost strs = spec_track_strs(*e);
    proof {
        lemma_total_len_parts(strs);
        assert(forall|i: int| 0 <= i < 21 ==> #[trigger] strs[i] == spec_encode_string(
            contents[i],
        ));
        assert(contents[11] == spec_release_date(e.analysis.year));
        assert(contents[14] == spec_slashed(e.analyze_path@));
        assert(contents[16] == spec_opt_chars(e.analysis.comment));
        assert(contents[17] == e.analysis.title@);
        assert(contents[19] == spec_after_last_slash(e.analysis.file_path@));
        assert(contents[20] == e.analysis.file_path@);
        assert(spec_track_row_len(*e) == 0x88 + total_len(strs));
    }
    // The string bodies, slot by slot.
    let mut bodies: Vec<Vec<u8>> = Vec::new();
    let mut slot: usize = 0;
    while slot < 11
        invariant
            slot <= 11,
            bodies@.len() == slot,
            forall|i: int|
                0 <= i < slot ==> (#[trigger] bodies@[i])@ == spec_encode_string(
                    Seq::<char>::empty(),
                ),
        decreases 11 - slot,
    {
        bodies.push(empty_string_bytes());
        slot = slot + 1;
    }
    let release = release_date_string(&e.analysis.year);
    proof {
        assert(strs[11].len() <= total_len(strs));
        assert(spec_encoded_length(release@) == strs[11].len());
    }
    bodies.push(crate::string::encode_string(release.as_str()));
    bodies.push(empty_string_bytes());
    bodies.push(empty_string_bytes());
    let slashed = slashed_path(e.analyze_path.as_str());
    proof {
        assert(strs[14].len() <= total_len(strs));
        assert(spec_encoded_length(slashed@) == strs[14].len());
    }
    bodies.push(crate::string::encode_string(slashed.as_str()));
    bodies.push(empty_string_bytes());
    let comment = match &e.analysis.comment {
        Some(c) => c.as_str(),
        None => "",
    };
    proof {
        reveal_strlit("");
        assert(""@ =~= Seq::<char>::empty());
        assert(comment@ == contents[16]);
        assert(strs[16].len() <= total_len(strs));
        assert(spec_encoded_length(comment@) == strs[16].len());
    }
    bodies.push(crate::string::encode_string(comment));
    proof {
        assert(strs[17].len() <= total_len(strs));
        assert(spec_encoded_length(e.analysis.title@) == strs[17].len());
    }
    bodies.push(crate::string::encode_string(e.analysis.title.as_str()));
    bodies.push(empty_string_bytes());
    let fname = filename_of(e.analysis.file_path.as_str());
    proof {
        assert(strs[19].len() <= total_len(strs));
        assert(spec_encoded_length(fname@) == strs[19].len());
        assert(strs[20].len() <= total_len(strs));
        assert(spec_encoded_length(e.analysis.file_path@) == strs[20].len());
    }
    bodies.push(crate::string::encode_string(fname.as_str()));
    bodies.push(crate::string::encode_string(e.analysis.file_path.as_str()));
    proof {
        assert(bodies@.len() == 21);
        assert(contents[0] == Seq::<char>::empty() && contents[1] == Seq::<char>::empty()
            && contents[2] == Seq::<char>::empty() && contents[3] == Seq::<char>::empty()
            && contents[4] == Seq::<char>::empty() && contents[5] == Seq::<char>::empty()
            && contents[6] == Seq::<char>::empty() && contents[7] == Seq::<char>::empty()
            && contents[8] == Seq::<char>::empty() && contents[9] == Seq::<char>::empty()
            && contents[10] == Seq::<char>::empty() && contents[12] == Seq::<char>::empty()
            && contents[13] == Seq::<char>::empty() && contents[15] == Seq::<char>::empty()
            && contents[18] == Seq::<char>::empty());
        assert(forall|i: int| 0 <= i < 21 ==> (#[trigger] bodies@[i])@ == strs[i]);
    }
    // The fixed head.
    let mut r: Vec<u8> = Vec::new();
    crate::bytes::push_u16_le(&mut r, SUBTYPE_TRACK);
    crate::bytes::push_u16_le(&mut r, 0);
    crate::bytes::push_u32_le(&mut r, 0);
    crate::bytes::push_u32_le(&mut r, e.analysis.sample_rate);
    crate::bytes::push_u32_le(&mut r, 0);
    proof {
        let fs = e.analysis.file_size;
        assert((fs & 0xFFFF_FFFF) <= 0xFFFF_FFFF) by (bit_vector);
    }
    crate::bytes::push_u32_le(&mut r, (e.analysis.file_size & 0xFFFF_FFFF) as u32);
    crate::bytes::push_u32_le(&mut r, 0);
    crate::bytes::push_u16_le(&mut r, 0);
    crate::bytes::push_u16_le(&mut r, 0);
    crate::bytes::push_u32_le(&mut r, e.artwork_id);
    crate::bytes::push_u32_le(&mut r, e.key_id);
    crate::bytes::push_u32_le(&mut r, 0);
    crate::bytes::push_u32_le(&mut r, e.label_id);
    crate::bytes::push_u32_le(&mut r, 0);
    crate::bytes::push_u32_le(&mut r, e.analysis.bitrate);
    crate::bytes::push_u32_le(
        &mut r,
        match e.analysis.track_number {
            Some(n) => n,
            None => 0,
        },
    );
    crate::bytes::push_u32_le(&mut r, e.analysis.bpm_100);
    crate::bytes::push_u32_le(&mut r, e.genre_id);
    crate::bytes::push_u32_le(&mut r, e.album_id);
    crate::bytes::push_u32_le(&mut r, e.artist_id);
    crate::bytes::push_u32_le(&mut r, e.analysis.id);
    crate::bytes::push_u16_le(&mut r, 1);
    crate::bytes::push_u16_le(&mut r, 0);
    crate::bytes::push_u16_le(
        &mut r,
        match e.analysis.year {
            Some(y) => y,
            None => 0,
        },
    );
    crate::bytes::push_u16_le(&mut r, e.analysis.bit_depth);
    crate::bytes::push_u16_le(&mut r, e.analysis.duration_secs);
    crate::bytes::push_u16_le(&mut r, 41);
    r.push(0);
    r.push(0);
    crate::bytes::push_u16_le(&mut r, 1);
    crate::bytes::push_u16_le(&mut r, 3);
    proof {
        assert(r@ =~= spec_track_fixed(*e));
        assert(r@.len() == 0x5E);
    }
    // The offsets.
    let ghost offset_parts = Seq::new(
        21,
        |i: int| le2((0x88 + total_len(strs.subrange(0, i))) as u16),
    );
    let ghost after_fixed = r@;
    let mut cur: usize = 0x88;
    let mut i: usize = 0;
    while i < 21
        invariant
            i <= 21,
            bodies@.len() == 21,
            forall|j: int| 0 <= j < 21 ==> (#[trigger] bodies@[j])@ == strs[j],
            strs.len() == 21,
            total_len(strs) <= 0xFFFF - 0x88,
            forall|j: int|
                0 <= j <= 21 ==> 0 <= #[trigger] total_len(strs.subrange(0, j)) <= total_len(strs),
            cur == 0x88 + total_len(strs.subrange(0, i as int)),
            r@ == after_fixed + concat_bytes(offset_parts.subrange(0, i as int)),
            offset_parts == Seq::new(
                21,
                |j: int| le2((0x88 + total_len(strs.subrange(0, j))) as u16),
            ),
        decreases 21 - i,
    {
        let ghost before = offset_parts.subrange(0, i as int);
        crate::bytes::push_u16_le(&mut r, cur as u16);
        proof {
            assert(strs.subrange(0, i as int + 1).drop_last() =~= strs.subrange(0, i as int));
            assert(strs.subrange(0, i as int + 1).last() == strs[i as int]);
            assert(offset_parts.subrange(0, i as int + 1) =~= before.push(offset_parts[i as int]));
            crate::bytes::lemma_concat_bytes_push(before, offset_parts[i as int]);
            assert(r@ =~= after_fixed + concat_bytes(offset_parts.subrange(0, i as int + 1)));
            assert(total_len(strs.subrange(0, i as int + 1)) == total_len(
                strs.subrange(0, i as int),
            ) + strs[i as int].len());
            assert(bodies@[i as int]@ == strs[i as int]);
        }
        cur = cur + bodies[i].len();
        i = i + 1;
    }
    proof {
        assert(offset_parts.subrange(0, 21) =~= offset_parts);
    }
    // The string bodies.
    let ghost after_offsets = r@;
    let mut i2: usize = 0;
    while i2 < 21
        invariant
            i2 <= 21,
            bodies@.len() == 21,
            forall|j: int| 0 <= j < 21 ==> (#[trigger] bodies@[j])@ == strs[j],
            strs.len() == 21,
            r@ == after_offsets + concat_bytes(strs.subrange(0, i2 as int)),
        decreases 21 - i2,
    {
        let ghost before = strs.subrange(0, i2 as int);
        crate::bytes::push_bytes(&mut r, &bodies[i2]);
        i2 = i2 + 1;
        proof {
            assert(strs.subrange(0, i2 as int) =~= before.push(strs[i2 - 1]));
            crate::bytes::lemma_concat_bytes_push(before, strs[i2 - 1]);
            assert(r@ =~= after_offsets + concat_bytes(strs.subrange(0, i2 as int)));
        }
    }
    proof {
        assert(strs.subrange(0, 21) =~= strs);
        assert(r@ =~= spec_track_row(*e));
        crate::bytes::lemma_concat_bytes_len(strs);
        crate::bytes::lemma_concat_bytes_len_uniform(offset_parts, 2);
    }
    r
}

/// The abstract state of a build: everything interned so far.
pub ghost struct BuilderModel {
    /// The tracks added, in order.
    pub tracks: Seq<TrackEntry>,
    /// Interned artist names; the artist at position `i` has id `i + 1`.
    pub artists: Seq<String>,
    /// Interned albums as name and artist id; position `i` has id `i + 1`.
    pub albums: Seq<(String, u32)>,
    /// Interned genre names.
    pub genres: Seq<String>,
    /// Interned label names.
    pub labels: Seq<String>,
    /// Interned player key ids; the key at position `i` has row id `i + 1`.
    pub keys: Seq<u8>,
    /// The playlists added, in order.
    pub playlists: Seq<PlaylistInfo>,
    /// Interned artwork paths.
    pub artworks: Seq<String>,
}

/// How one interning step relates the list before and after: an empty
/// name interns as 0, a known name keeps the list and yields the id of
/// its first occurrence, a new name is appended with the next dense id.
pub open spec fn spec_interned(
    old_list: Seq<String>,
    new_list: Seq<String>,
    name: Seq<char>,
    id: u32,
) -> bool {
    if name.len() == 0 {
        new_list == old_list && id == 0
    } else if exists|j: int| 0 <= j < old_list.len() && (#[trigger] old_list[j])@ == name {
        &&& new_list == old_list
        &&& 1 <= id <= old_list.len()
        &&& old_list[id - 1]@ == name
        &&& forall|j: int| 0 <= j < id - 1 ==> (#[trigger] old_list[j])@ != name
    } else {
        &&& new_list.len() == old_list.len() + 1
        &&& new_list.drop_last() == old_list
        &&& new_list.last()@ == name
        &&& id == old_list.len() + 1
    }
}

/// The interning step for albums, which are keyed by name and artist.
pub open spec fn spec_interned_album(
    old_list: Seq<(String, u32)>,
    new_list: Seq<(String, u32)>,
    name: Seq<char>,
    artist_id: u32,
    id: u32,
) -> bool {
    if name.len() == 0 {
        new_list == old_list && id == 0
    } else if exists|j: int|
        0 <= j < old_list.len() && (#[trigger] old_list[j]).0@ == name && old_list[j].1
            == artist_id {
        &&& new_list == old_list
        &&& 1 <= id <= old_list.len()
        &&& old_list[id - 1].0@ == name && old_list[id - 1].1 == artist_id
        &&& forall|j: int|
            0 <= j < id - 1 ==> !((#[trigger] old_list[j]).0@ == name && old_list[j].1
                == artist_id)
    } else {
        &&& new_list.len() == old_list.len() + 1
        &&& new_list.drop_last() == old_list
        &&& new_list.last().0@ == name && new_list.last().1 == artist_id
        &&& id == old_list.len() + 1
    }
}

/// The interning step for keys, keyed by the player's key id.
pub open spec fn spec_interned_key(old_list: Seq<u8>, new_list: Seq<u8>, kid: u8, id: u32) -> bool {
    if exists|j: int| 0 <= j < old_list.len() && #[trigger] old_list[j] == kid {
        &&& new_list == old_list
        &&& 1 <= id <= old_list.len()
        &&& old_list[id - 1] == kid
        &&& forall|j: int| 0 <= j < id - 1 ==> #[trigger] old_list[j] != kid
    } else {
        new_list == old_list.push(kid) && id == old_list.len() + 1
    }
}

/// Intern a name into a dense-id list.
fn intern_name(list: &mut Vec<String>, name: &str) -> (r: u32)
    requires
        old(list)@.len() < 0xFFFF_FFFE,
    ensures
        spec_interned(old(list)@, final(list)@, name@, r),
{
    if name.is_empty() {
        return 0;
    }
    let n = list.len();
    let mut i: usize = 0;
    while i < n
        invariant
            i <= n,
            n == list@.len(),
            n < 0xFFFF_FFFE,
            list@ == old(list)@,
            name@.len() > 0,
            forall|j: int| 0 <= j < i ==> (#[trigger] list@[j])@ != name@,
        decreases n - i,
    {
        if str_eq(list[i].as_str(), name) {
            return (i + 1) as u32;
        }
        i = i + 1;
    }
    list.push(String::from_str(name));
    proof {
        assert(final(list)@.drop_last() =~= old(list)@);
    }
    (n + 1) as u32
}

/// Intern an album keyed by name and artist.
fn intern_album(list: &mut Vec<(String, u32)>, name: &str, artist_id: u32) -> (r: u32)
    requires
        old(list)@.len() < 0xFFFF_FFFE,
    ensures
        spec_interned_album(old(list)@, final(list)@, name@, artist_id, r),
{
    if name.is_empty() {
        return 0;
    }
    let n = list.len();
    let mut i: usize = 0;
    while i < n
        invariant
            i <= n,
            n == list@.len(),
            n < 0xFFFF_FFFE,
            list@ == old(list)@,
            name@.len() > 0,
            forall|j: int|
                0 <= j < i ==> !((#[trigger] list@[j]).0@ == name@ && list@[j].1 == artist_id),
        decreases n - i,
    {
        let hit = str_eq(list[i].0.as_str(), name) && list[i].1 == artist_id;
        if hit {
            return (i + 1) as u32;
        }
        i = i + 1;
    }
    list.push((String::from_str(name), artist_id));
    proof {
        assert(final(list)@.drop_last() =~= old(list)@);
    }
    (n + 1) as u32
}

/// Intern a player key id.
fn intern_key(list: &mut Vec<u8>, kid: u8) -> (r: u32)
    requires
        old(list)@.len() < 0xFFFF_FFFE,
    ensures
        spec_interned_key(old(list)@, final(list)@, kid, r),
{
    let n = list.len();
    let mut i: usize = 0;
    while i < n
        invariant
            i <= n,
            n == list@.len(),
            n < 0xFFFF_FFFE,
            list@ == old(list)@,
            forall|j: int| 0 <= j < i ==> #[trigger] list@[j] != kid,
        decreases n - i,
    {
        if list[i] == kid {
            return (i + 1) as u32;
        }
        i = i + 1;
    }
    list.push(kid);
    (n + 1) as u32
}

/// The database builder: it interns shared entities, lays out rows, and
/// emits the paged file.
pub struct PdbBuilder {
    tracks: Vec<TrackEntry>,
    artists: Vec<String>,
    albums: Vec<(String, u32)>,
    genres: Vec<String>,
    labels: Vec<String>,
    keys: Vec<u8>,
    playlists: Vec<PlaylistInfo>,
    artworks: Vec<String>,
}

impl View for PdbBuilder {
    type V = BuilderModel;

    closed spec fn view(&self) -> BuilderModel {
        BuilderModel {
            tracks: self.tracks@,
            artists: self.artists@,
            albums: self.albums@,
            genres: self.genres@,
            labels: self.labels@,
            keys: self.keys@,
            playlists: self.playlists@,
            artworks: self.artworks@,
        }
    }
}

/// The model of an empty builder.
pub open spec fn spec_empty_builder(m: BuilderModel) -> bool {
    &&& m.tracks.len() == 0
    &&& m.artists.len() == 0
    &&& m.albums.len() == 0
    &&& m.genres.len() == 0
    &&& m.labels.len() == 0
    &&& m.keys.len() == 0
    &&& m.playlists.len() == 0
    &&& m.artworks.len() == 0
}

impl PdbBuilder {
    /// A builder with nothing added.
    pub fn new() -> (r: PdbBuilder)
        ensures
            spec_empty_builder(r@),
    {
        PdbBuilder {
            tracks: Vec::new(),
            artists: Vec::new(),
            albums: Vec::new(),
            genres: Vec::new(),
            labels: Vec::new(),
            keys: Vec::new(),
            playlists: Vec::new(),
            artworks: Vec::new(),
        }
    }

    /// Add a track without artwork; see `add_track_with_artwork`.
    pub fn add_track(&mut self, analysis: TrackAnalysis, analyze_path: &str) -> (r: u32)
        requires
            old(self)@.artists.len() < 0xFFFF_FFFE,
            old(self)@.albums.len() < 0xFFFF_FFFE,
            old(self)@.genres.len() < 0xFFFF_FFFE,
            old(self)@.labels.len() < 0xFFFF_FFFE,
            old(self)@.keys.len() < 0xFFFF_FFFE,
            old(self)@.artworks.len() < 0xFFFF_FFFE,
            analysis.key matches Some(k) ==> k.pitch_class < 12,
        ensures
            spec_track_added(old(self)@, final(self)@, analysis, analyze_path@, None),
            r == analysis.id,
    {
        self.add_track_with_artwork(analysis, analyze_path, None)
    }

    /// Add a track: intern its artist, album, genre, label, key and
    /// artwork, and append a row with the resulting ids. The returned
    /// id is the track's own; the builder never mints ids.
    pub fn add_track_with_artwork(
        &mut self,
        analysis: TrackAnalysis,
        analyze_path: &str,
        artwork_path: Option<&str>,
    ) -> (r: u32)
        requires
            old(self)@.artists.len() < 0xFFFF_FFFE,
            old(self)@.albums.len() < 0xFFFF_FFFE,
            old(self)@.genres.len() < 0xFFFF_FFFE,
            old(self)@.labels.len() < 0xFFFF_FFFE,
            old(self)@.keys.len() < 0xFFFF_FFFE,
            old(self)@.artworks.len() < 0xFFFF_FFFE,
            analysis.key matches Some(k) ==> k.pitch_class < 12,
        ensures
            spec_track_added(
                old(self)@,
                final(self)@,
                analysis,
                analyze_path@,
                match artwork_path {
                    Some(p) => Some(p@),
                    None => None,
                },
            ),
            r == analysis.id,
    {
        let track_id = analysis.id;
        let artist_id = intern_name(&mut self.artists, analysis.artist.as_str());
        let album_id = match &analysis.album {
            Some(a) => intern_album(&mut self.albums, a.as_str(), artist_id),
            None => 0,
        };
        let genre_id = match &analysis.genre {
            Some(g) => intern_name(&mut self.genres, g.as_str()),
            None => 0,
        };
        let label_id = match &analysis.label {
            Some(l) => intern_name(&mut self.labels, l.as_str()),
            None => 0,
        };
        let key_id = match &analysis.key {
            Some(k) => intern_key(&mut self.keys, k.to_rekordbox_id()),
            None => 0,
        };
        let artwork_id = match artwork_path {
            Some(p) => intern_name(&mut self.artworks, p),
            None => 0,
        };
        let entry = TrackEntry {
            analysis,
            artist_id,
            album_id,
            genre_id,
            label_id,
            key_id,
            artwork_id,
            analyze_path: String::from_str(analyze_path),
        };
        self.tracks.push(entry);
        proof {
            assert(final(self)@.tracks.drop_last() =~= old(self)@.tracks);
        }
        track_id
    }

    /// Add a playlist holding `track_ids`, in that order; its sort
    /// order is its position among the playlists added so far.
    pub fn add_playlist(&mut self, id: u32, parent_id: u32, name: &str, track_ids: Vec<u32>)
        requires
            old(self)@.playlists.len() < 0xFFFF_FFFF,
        ensures
            final(self)@ == (BuilderModel {
                playlists: final(self)@.playlists,
                ..old(self)@
            }),
            final(self)@.playlists.len() == old(self)@.playlists.len() + 1,
            final(self)@.playlists.drop_last() == old(self)@.playlists,
            spec_playlist_fields(
                final(self)@.playlists.last(),
                id,
                parent_id,
                name@,
                false,
                old(self)@.playlists.len() as u32,
                track_ids@,
            ),
    {
        let sort_order = self.playlists.len() as u32;
        self.playlists.push(
            PlaylistInfo {
                id,
                parent_id,
                name: String::from_str(name),
                is_folder: false,
                sort_order,
                track_ids,
            },
        );
        proof {
            assert(final(self)@.playlists.drop_last() =~= old(self)@.playlists);
        }
    }

    /// Add a playlist folder; folders carry no entries.
    pub fn add_folder(&mut self, id: u32, parent_id: u32, name: &str)
        requires
            old(self)@.playlists.len() < 0xFFFF_FFFF,
        ensures
            final(self)@ == (BuilderModel {
                playlists: final(self)@.playlists,
                ..old(self)@
            }),
            final(self)@.playlists.len() == old(self)@.playlists.len() + 1,
            final(self)@.playlists.drop_last() == old(self)@.playlists,
            spec_playlist_fields(
                final(self)@.playlists.last(),
                id,
                parent_id,
                name@,
                true,
                old(self)@.playlists.len() as u32,
                Seq::empty(),
            ),
    {
        let sort_order = self.playlists.len() as u32;
        self.playlists.push(
            PlaylistInfo {
                id,
                parent_id,
                name: String::from_str(name),
                is_folder: true,
                sort_order,
                track_ids: Vec::new(),
            },
        );
        proof {
            assert(final(self)@.playlists.drop_last() =~= old(self)@.playlists);
        }
    }
}

/// Field-by-field description of a stored playlist.
pub open spec fn spec_playlist_fields(
    p: PlaylistInfo,
    id: u32,
    parent_id: u32,
    name: Seq<char>,
    is_folder: bool,
    sort_order: u32,
    track_ids: Seq<u32>,
) -> bool {
    &&& p.id == id
    &&& p.parent_id == parent_id
    &&& p.name@ == name
    &&& p.is_folder == is_folder
    &&& p.sort_order == sort_order
    &&& p.track_ids@ == track_ids
}

/// What adding one track does to the builder: the track list grows by
/// one entry holding the given data, and each intern list either keeps
/// or gains the entry the new ids point at.
pub open spec fn spec_track_added(
    old_m: BuilderModel,
    new_m: BuilderModel,
    analysis: TrackAnalysis,
    analyze_path: Seq<char>,
    artwork_path: Option<Seq<char>>,
) -> bool {
    &&& new_m.playlists == old_m.playlists
    &&& new_m.tracks.len() == old_m.tracks.len() + 1
    &&& new_m.tracks.drop_last() == old_m.tracks
    &&& {
        let e = new_m.tracks.last();
        &&& e.analysis == analysis
        &&& e.analyze_path@ == analyze_path
        &&& spec_interned(old_m.artists, new_m.artists, analysis.artist@, e.artist_id)
        &&& match analysis.album {
            Some(a) => spec_interned_album(
                old_m.albums,
                new_m.albums,
                a@,
                e.artist_id,
                e.album_id,
            ),
            None => new_m.albums == old_m.albums && e.album_id == 0,
        }
        &&& match analysis.genre {
            Some(g) => spec_interned(old_m.genres, new_m.genres, g@, e.genre_id),
            None => new_m.genres == old_m.genres && e.genre_id == 0,
        }
        &&& match analysis.label {
            Some(l) => spec_interned(old_m.labels, new_m.labels, l@, e.label_id),
            None => new_m.labels == old_m.labels && e.label_id == 0,
        }
        &&& match analysis.key {
            Some(k) => spec_interned_key(
                old_m.keys,
                new_m.keys,
                crate::track::spec_key_to_id(k),
                e.key_id,
            ),
            None => new_m.keys == old_m.keys && e.key_id == 0,
        }
        &&& match artwork_path {
            Some(p) => spec_interned(old_m.artworks, new_m.artworks, p, e.artwork_id),
            None => new_m.artworks == old_m.artworks && e.artwork_id == 0,
        }
    }
}

/// One row of the static table at slot 17: four words, reproduced
/// verbatim from reference captures.
pub open spec fn spec_uk17_row(a: u32, b: u32, c: u32, d: u32) -> Seq<u8> {
    le4(a) + le4(b) + le4(c) + le4(d)
}

/// The 22 fixed rows of the table at slot 17.
pub open spec fn spec_uk17_rows() -> Seq<Seq<u8>> {
    seq![
        spec_uk17_row(0x1, 0x1, 0x163, 0x0),
        spec_uk17_row(0x5, 0x6, 0x105, 0x0),
        spec_uk17_row(0x6, 0x7, 0x163, 0x0),
        spec_uk17_row(0x7, 0x8, 0x163, 0x0),
        spec_uk17_row(0x8, 0x9, 0x163, 0x0),
        spec_uk17_row(0x9, 0xa, 0x163, 0x0),
        spec_uk17_row(0xa, 0xb, 0x163, 0x0),
        spec_uk17_row(0xd, 0xf, 0x163, 0x0),
        spec_uk17_row(0xe, 0x13, 0x104, 0x0),
        spec_uk17_row(0xf, 0x14, 0x106, 0x0),
        spec_uk17_row(0x10, 0x15, 0x163, 0x0),
        spec_uk17_row(0x12, 0x17, 0x163, 0x0),
        spec_uk17_row(0x2, 0x2, 0x2, 0x1),
        spec_uk17_row(0x3, 0x3, 0x3, 0x2),
        spec_uk17_row(0x4, 0x4, 0x1, 0x3),
        spec_uk17_row(0xb, 0xc, 0x63, 0x4),
        spec_uk17_row(0x11, 0x5, 0x63, 0x5),
        spec_uk17_row(0x13, 0x16, 0x63, 0x6),
        spec_uk17_row(0x14, 0x12, 0x63, 0x7),
        spec_uk17_row(0x1b, 0x1a, 0x263, 0x8),
        spec_uk17_row(0x18, 0x11, 0x63, 0x9),
        spec_uk17_row(0x16, 0x1b, 0x63, 0xa),
    ]
}

/// The eight fixed palette rows of the color table.
pub open spec fn spec_color_rows() -> Seq<Seq<u8>> {
    seq![
        spec_color_row(1, "Pink"@),
        spec_color_row(2, "Red"@),
        spec_color_row(3, "Orange"@),
        spec_color_row(4, "Yellow"@),
        spec_color_row(5, "Green"@),
        spec_color_row(6, "Aqua"@),
        spec_color_row(7, "Blue"@),
        spec_color_row(8, "Purple"@),
    ]
}

/// The playlist entry triples of every non-folder playlist, in
/// playlist order: position in the playlist, track id, playlist id.
pub open spec fn spec_playlist_entries(playlists: Seq<PlaylistInfo>) -> Seq<(u32, u32, u32)>
    decreases playlists.len(),
{
    if playlists.len() == 0 {
        Seq::empty()
    } else {
        spec_playlist_entries(playlists.drop_last()) + (if playlists.last().is_folder {
            Seq::empty()
        } else {
            spec_entries_of(playlists.last())
        })
    }
}

/// The entry triples of one playlist.
pub open spec fn spec_entries_of(p: PlaylistInfo) -> Seq<(u32, u32, u32)> {
    Seq::new(p.track_ids@.len(), |i: int| (i as u32, p.track_ids@[i], p.id))
}

/// The rows of table `t`, as the byte sequences laid into its data
/// pages, in emission order.
#[verifier::opaque]
pub open spec fn spec_table_rows(m: BuilderModel, t: int) -> Seq<Seq<u8>> {
    if t == 0 {
        m.tracks.map_values(|e: TrackEntry| spec_track_row(e))
    } else if t == 1 {
        Seq::new(m.genres.len(), |i: int| spec_genre_row((i + 1) as u32, m.genres[i]@))
    } else if t == 2 {
        Seq::new(m.artists.len(), |i: int| spec_artist_row((i + 1) as u32, m.artists[i]@))
    } else if t == 3 {
        Seq::new(
            m.albums.len(),
            |i: int| spec_album_row((i + 1) as u32, m.albums[i].1, m.albums[i].0@),
        )
    } else if t == 4 {
        Seq::new(m.labels.len(), |i: int| spec_label_row((i + 1) as u32, m.labels[i]@))
    } else if t == 5 {
        Seq::new(
            m.keys.len(),
            |i: int| spec_key_row((i + 1) as u32, spec_key_name(spec_key_from_id(m.keys[i]))),
        )
    } else if t == 6 {
        spec_color_rows()
    } else if t == 7 {
        m.playlists.map_values(|p: PlaylistInfo| spec_playlist_tree_row(p))
    } else if t == 8 {
        spec_playlist_entries(m.playlists).map_values(
            |e: (u32, u32, u32)| spec_playlist_entry_row(e.0, e.1, e.2),
        )
    } else if t == 17 {
        spec_uk17_rows()
    } else {
        Seq::empty()
    }
}

/// Names short enough to encode, and counts small enough for dense
/// 32-bit ids and page indices.
pub open spec fn spec_builder_wf(m: BuilderModel) -> bool {
    &&& forall|i: int| 0 <= i < m.tracks.len() ==> spec_track_wf(#[trigger] m.tracks[i])
    &&& forall|i: int|
        0 <= i < m.artists.len() ==> spec_encoded_length((#[trigger] m.artists[i])@) <= 0xFFFF
    &&& forall|i: int|
        0 <= i < m.albums.len() ==> spec_encoded_length((#[trigger] m.albums[i]).0@) <= 0xFFFF
    &&& forall|i: int|
        0 <= i < m.genres.len() ==> spec_encoded_length((#[trigger] m.genres[i])@) <= 0xFFFF
    &&& forall|i: int|
        0 <= i < m.labels.len() ==> spec_encoded_length((#[trigger] m.labels[i])@) <= 0xFFFF
    &&& forall|i: int|
        0 <= i < m.artworks.len() ==> spec_encoded_length((#[trigger] m.artworks[i])@) <= 0xFFFF
    &&& forall|i: int|
        0 <= i < m.playlists.len() ==> spec_encoded_length((#[trigger] m.playlists[i]).name@)
            <= 0xFFFF
    &&& forall|i: int|
        0 <= i < m.playlists.len() ==> (#[trigger] m.playlists[i]).track_ids@.len() <= 0x000F_0000
    &&& m.tracks.len() <= 0x000F_0000
    &&& m.artists.len() <= 0x000F_0000
    &&& m.albums.len() <= 0x000F_0000
    &&& m.genres.len() <= 0x000F_0000
    &&& m.labels.len() <= 0x000F_0000
    &&& m.keys.len() <= 0x000F_0000
    &&& m.playlists.len() <= 0x000F_0000
    &&& m.artworks.len() <= 0x000F_0000
    &&& spec_playlist_entries(m.playlists).len() <= 0x000F_0000
}

/// A key id read back from the intern list denotes a key with a pitch
/// class below twelve.
proof fn lemma_key_from_id_in_range(id: u8)
    ensures
        spec_key_from_id(id).pitch_class < 12,
{
}

/// Key names are short ASCII: at most three characters, encoding to at
/// most four bytes.
proof fn lemma_key_name_short(k: Key)
    requires
        k.pitch_class < 12,
    ensures
        spec_encoded_length(spec_key_name(k)) <= 4,
{
    reveal_strlit("C");
    reveal_strlit("C#");
    reveal_strlit("D");
    reveal_strlit("D#");
    reveal_strlit("E");
    reveal_strlit("F");
    reveal_strlit("F#");
    reveal_strlit("G");
    reveal_strlit("G#");
    reveal_strlit("A");
    reveal_strlit("A#");
    reveal_strlit("B");
    reveal_strlit("m");
    let name = spec_key_name(k);
    assert(name.len() <= 3);
    assert(vstd::utf8::is_ascii_chars(name));
    assert(spec_encode_string(name).len() == 1 + name.len());
}

impl PdbBuilder {
    /// The encoded rows of table `t`.
    #[verifier::rlimit(100)]
    fn table_rows_for(&self, t: &crate::page::PageType) -> (r: Vec<Vec<u8>>)
        requires
            spec_builder_wf(self@),
        ensures
            r@.len() == spec_table_rows(self@, crate::page::spec_table_type_id(*t) as int).len(),
            forall|i: int|
                0 <= i < r@.len() ==> (#[trigger] r@[i])@ == spec_table_rows(
                    self@,
                    crate::page::spec_table_type_id(*t) as int,
                )[i],
    {
        proof {
            reveal(spec_table_rows);
        }
        let ghost tid = crate::page::spec_table_type_id(*t) as int;
        match t {
            crate::page::PageType::Tracks => {
                let ghost spec_rows = spec_table_rows(self@, 0);
                let mut r: Vec<Vec<u8>> = Vec::new();
                let mut i: usize = 0;
                while i < self.tracks.len()
                    invariant
                        i <= self@.tracks.len(),
                        spec_builder_wf(self@),
                        r@.len() == i,
                        spec_rows == spec_table_rows(self@, 0),
                        forall|j: int| 0 <= j < i ==> (#[trigger] r@[j])@ == spec_rows[j],
                    decreases self@.tracks.len() - i,
                {
                    proof {
                        reveal(spec_table_rows);
                    }
                    r.push(build_track_row(&self.tracks[i]));
                    i = i + 1;
                }
                r
            },
            crate::page::PageType::Genres => {
                let ghost spec_rows = spec_table_rows(self@, 1);
                let mut r: Vec<Vec<u8>> = Vec::new();
                let mut i: usize = 0;
                while i < self.genres.len()
                    invariant
                        i <= self@.genres.len(),
                        spec_builder_wf(self@),
                        r@.len() == i,
                        spec_rows == spec_table_rows(self@, 1),
                        forall|j: int| 0 <= j < i ==> (#[trigger] r@[j])@ == spec_rows[j],
                    decreases self@.genres.len() - i,
                {
                    proof {
                        reveal(spec_table_rows);
                    }
                    r.push(build_genre_row((i + 1) as u32, self.genres[i].as_str()));
                    i = i + 1;
                }
                r
            },
            crate::page::PageType::Artists => {
                let ghost spec_rows = spec_table_rows(self@, 2);
                let mut r: Vec<Vec<u8>> = Vec::new();
                let mut i: usize = 0;
                while i < self.artists.len()
                    invariant
                        i <= self@.artists.len(),
                        spec_builder_wf(self@),
                        r@.len() == i,
                        spec_rows == spec_table_rows(self@, 2),
                        forall|j: int| 0 <= j < i ==> (#[trigger] r@[j])@ == spec_rows[j],
                    decreases self@.artists.len() - i,
                {
                    proof {
                        reveal(spec_table_rows);
                    }
                    r.push(build_artist_row((i + 1) as u32, self.artists[i].as_str()));
                    i = i + 1;
                }
                r
            },
            crate::page::PageType::Albums => {
                let ghost spec_rows = spec_table_rows(self@, 3);
                let mut r: Vec<Vec<u8>> = Vec::new();
                let mut i: usize = 0;
                while i < self.albums.len()
                    invariant
                        i <= self@.albums.len(),
                        spec_builder_wf(self@),
                        r@.len() == i,
                        spec_rows == spec_table_rows(self@, 3),
                        forall|j: int| 0 <= j < i ==> (#[trigger] r@[j])@ == spec_rows[j],
                    decreases self@.albums.len() - i,
                {
                    proof {
                        reveal(spec_table_rows);
                    }
                    let aid = self.albums[i].1;
                    r.push(build_album_row((i + 1) as u32, aid, self.albums[i].0.as_str()));
                    i = i + 1;
                }
                r
            },
            crate::page::PageType::Labels => {
                let ghost spec_rows = spec_table_rows(self@, 4);
                let mut r: Vec<Vec<u8>> = Vec::new();
                let mut i: usize = 0;
                while i < self.labels.len()
                    invariant
                        i <= self@.labels.len(),
                        spec_builder_wf(self@),
                        r@.len() == i,
                        spec_rows == spec_table_rows(self@, 4),
                        forall|j: int| 0 <= j < i ==> (#[trigger] r@[j])@ == spec_rows[j],
                    decreases self@.labels.len() - i,
                {
                    proof {
                        reveal(spec_table_rows);
                    }
                    r.push(build_label_row((i + 1) as u32, self.labels[i].as_str()));
                    i = i + 1;
                }
                r
            },
            crate::page::PageType::Keys => {
                let ghost spec_rows = spec_table_rows(self@, 5);
                let mut r: Vec<Vec<u8>> = Vec::new();
                let mut i: usize = 0;
                while i < self.keys.len()
                    invariant
                        i <= self@.keys.len(),
                        spec_builder_wf(self@),
                        r@.len() == i,
                        spec_rows == spec_table_rows(self@, 5),
                        forall|j: int| 0 <= j < i ==> (#[trigger] r@[j])@ == spec_rows[j],
                    decreases self@.keys.len() - i,
                {
                    proof {
                        reveal(spec_table_rows);
                    }
                    let key = Key::from_rekordbox_id(self.keys[i]);
                    proof {
                        lemma_key_from_id_in_range(self@.keys[i as int]);
                        lemma_key_name_short(spec_key_from_id(self@.keys[i as int]));
                    }
                    let name = key.name();
                    r.push(build_key_row((i + 1) as u32, name.as_str()));
                    i = i + 1;
                }
                r
            },
            crate::page::PageType::Colors => {
                let mut r: Vec<Vec<u8>> = Vec::new();
                proof {
                    reveal_strlit("Pink");
                    reveal_strlit("Red");
                    reveal_strlit("Orange");
                    reveal_strlit("Yellow");
                    reveal_strlit("Green");
                    reveal_strlit("Aqua");
                    reveal_strlit("Blue");
                    reveal_strlit("Purple");
                }
                r.push(build_color_row(1, "Pink"));
                r.push(build_color_row(2, "Red"));
                r.push(build_color_row(3, "Orange"));
                r.push(build_color_row(4, "Yellow"));
                r.push(build_color_row(5, "Green"));
                r.push(build_color_row(6, "Aqua"));
                r.push(build_color_row(7, "Blue"));
                r.push(build_color_row(8, "Purple"));
                proof {
                    assert(forall|i: int|
                        0 <= i < r@.len() ==> (#[trigger] r@[i])@ == spec_color_rows()[i]);
                }
                r
            },
            crate::page::PageType::PlaylistTree => {
                let ghost spec_rows = spec_table_rows(self@, 7);
                let mut r: Vec<Vec<u8>> = Vec::new();
                let mut i: usize = 0;
                while i < self.playlists.len()
                    invariant
                        i <= self@.playlists.len(),
                        spec_builder_wf(self@),
                        r@.len() == i,
                        spec_rows == spec_table_rows(self@, 7),
                        forall|j: int| 0 <= j < i ==> (#[trigger] r@[j])@ == spec_rows[j],
                    decreases self@.playlists.len() - i,
                {
                    proof {
                        reveal(spec_table_rows);
                    }
                    r.push(build_playlist_tree_row(&self.playlists[i]));
                    i = i + 1;
                }
                r
            },
            crate::page::PageType::PlaylistEntries => self.playlist_entry_rows(),
            crate::page::PageType::Unknown17 => {
                let mut r: Vec<Vec<u8>> = Vec::new();
                r.push(build_uk17_row(0x1, 0x1, 0x163, 0x0));
                r.push(build_uk17_row(0x5, 0x6, 0x105, 0x0));
                r.push(build_uk17_row(0x6, 0x7, 0x163, 0x0));
                r.push(build_uk17_row(0x7, 0x8, 0x163, 0x0));
                r.push(build_uk17_row(0x8, 0x9, 0x163, 0x0));
                r.push(build_uk17_row(0x9, 0xa, 0x163, 0x0));
                r.push(build_uk17_row(0xa, 0xb, 0x163, 0x0));
                r.push(build_uk17_row(0xd, 0xf, 0x163, 0x0));
                r.push(build_uk17_row(0xe, 0x13, 0x104, 0x0));
                r.push(build_uk17_row(0xf, 0x14, 0x106, 0x0));
                r.push(build_uk17_row(0x10, 0x15, 0x163, 0x0));
                r.push(build_uk17_row(0x12, 0x17, 0x163, 0x0));
                r.push(build_uk17_row(0x2, 0x2, 0x2, 0x1));
                r.push(build_uk17_row(0x3, 0x3, 0x3, 0x2));
                r.push(build_uk17_row(0x4, 0x4, 0x1, 0x3));
                r.push(build_uk17_row(0xb, 0xc, 0x63, 0x4));
                r.push(build_uk17_row(0x11, 0x5, 0x63, 0x5));
                r.push(build_uk17_row(0x13, 0x16, 0x63, 0x6));
                r.push(build_uk17_row(0x14, 0x12, 0x63, 0x7));
                r.push(build_uk17_row(0x1b, 0x1a, 0x263, 0x8));
                r.push(build_uk17_row(0x18, 0x11, 0x63, 0x9));
                r.push(build_uk17_row(0x16, 0x1b, 0x63, 0xa));
                proof {
                    assert(forall|i: int|
                        0 <= i < r@.len() ==> (#[trigger] r@[i])@ == spec_uk17_rows()[i]);
                }
                r
            },
            _ => {
                let r: Vec<Vec<u8>> = Vec::new();
                r
            },
        }
    }

    /// The rows of the playlist entries table.
    fn playlist_entry_rows(&self) -> (r: Vec<Vec<u8>>)
        requires
            spec_builder_wf(self@),
        ensures
            r@.len() == spec_table_rows(self@, 8).len(),
            forall|i: int|
                0 <= i < r@.len() ==> (#[trigger] r@[i])@ == spec_table_rows(self@, 8)[i],
    {
        proof {
            reveal(spec_table_rows);
        }
        let ghost f = |e: (u32, u32, u32)| spec_playlist_entry_row(e.0, e.1, e.2);
        let mut r: Vec<Vec<u8>> = Vec::new();
        let mut p: usize = 0;
        while p < self.playlists.len()
            invariant
                p <= self@.playlists.len(),
                spec_builder_wf(self@),
                r@.len() == spec_playlist_entries(self@.playlists.subrange(0, p as int)).len(),
                forall|j: int|
                    0 <= j < r@.len() ==> (#[trigger] r@[j])@ == spec_playlist_entries(
                        self@.playlists.subrange(0, p as int),
                    ).map_values(f)[j],
                f == (|e: (u32, u32, u32)| spec_playlist_entry_row(e.0, e.1, e.2)),
            decreases self@.playlists.len() - p,
        {
            let ghost prefix = self@.playlists.subrange(0, p as int);
            proof {
                reveal(spec_table_rows);
                assert(self@.playlists.subrange(0, p as int + 1).drop_last() =~= prefix);
                assert(self@.playlists.subrange(0, p as int + 1).last() == self@.playlists[
                    p as int
                ]);
            }
            let pl = &self.playlists[p];
            if !pl.is_folder {
                let ghost before = spec_playlist_entries(prefix);
                let n = pl.track_ids.len();
                let mut j: usize = 0;
                while j < n
                    invariant
                        j <= n,
                        n == self@.playlists[p as int].track_ids@.len(),
                        p < self@.playlists.len(),
                        n <= 0x000F_0000,
                        pl == &self.playlists[p as int],
                        r@.len() == before.len() + j,
                        before == spec_playlist_entries(
                            self@.playlists.subrange(0, p as int),
                        ),
                        forall|k: int|
                            0 <= k < before.len() ==> (#[trigger] r@[k])@ == before.map_values(
                                f,
                            )[k],
                        forall|k: int|
                            0 <= k < j ==> (#[trigger] r@[before.len() + k])@
                                == spec_playlist_entry_row(
                                k as u32,
                                self@.playlists[p as int].track_ids@[k],
                                self@.playlists[p as int].id,
                            ),
                        f == (|e: (u32, u32, u32)| spec_playlist_entry_row(e.0, e.1, e.2)),
                    decreases n - j,
                {
                    r.push(build_playlist_entry_row(j as u32, pl.track_ids[j], pl.id));
                    j = j + 1;
                }
            }
            p = p + 1;
            proof {
                let cur = self@.playlists[p as int - 1];
                let now = self@.playlists.subrange(0, p as int);
                let before = spec_playlist_entries(prefix);
                let tail_part = if cur.is_folder {
                    Seq::<(u32, u32, u32)>::empty()
                } else {
                    spec_entries_of(cur)
                };
                assert(spec_playlist_entries(now) == before + tail_part);
                assert((before + tail_part).map_values(f) =~= before.map_values(f)
                    + tail_part.map_values(f));
                assert forall|j: int|
                    0 <= j < r@.len() implies (#[trigger] r@[j])@ == spec_playlist_entries(
                    now,
                ).map_values(f)[j] by {
                    if j >= before.len() {
                        let k = j - before.len();
                        assert(tail_part[k] == (k as u32, cur.track_ids@[k], cur.id));
                        assert((#[trigger] r@[before.len() + k])@ == spec_playlist_entry_row(
                            k as u32,
                            cur.track_ids@[k],
                            cur.id,
                        ));
                        assert(f(tail_part[k]) == spec_playlist_entry_row(
                            k as u32,
                            cur.track_ids@[k],
                            cur.id,
                        ));
                    }
                }
            }
        }
        proof {
            assert(self@.playlists.subrange(0, self@.playlists.len() as int) =~= self@.playlists);
        }
        r
    }
}

/// The header facts every emitted page keeps, stated over the whole
/// file: the page records its own position; its flag byte is one of
/// the three the format uses; its used size fits the heap; and a data
/// page links either to the page right after it (again a data page) or
/// to the chain terminator.
#[verifier::opaque]
pub open spec fn spec_page_frame(out: Seq<u8>, p: int) -> bool {
    let off = p * 4096;
    &&& crate::bytes::rd4(out, off + 4) == p
    &&& (out[off + 0x1B] == 0x24 || out[off + 0x1B] == 0x34 || out[off + 0x1B] == 0x64)
    &&& crate::bytes::rd2(out, off + 0x1E) <= 4068
    &&& (out[off + 0x1B] != 0x64 ==> {
        let next = crate::bytes::rd4(out, off + 8);
        next == 0xFFFF_FFFF || (next == p + 1 && (p + 2) * 4096 <= out.len() && out[(p + 1) * 4096
            + 0x1B] != 0x64)
    })
    &&& (out[off + 0x1B] == 0x64 ==> {
        let link = crate::bytes::rd4(out, off + 0x2C);
        link == 0x03FF_FFFF || (link == p + 1 && (p + 2) * 4096 <= out.len() && out[(p + 1) * 4096
            + 0x1B] != 0x64)
    })
}

/// The pointer facts for table `t` in page zero: the pointer names its
/// own table type, and both its pages lie inside the file.
#[verifier::opaque]
pub open spec fn spec_pointer_frame(out: Seq<u8>, t: int) -> bool {
    let off = 0x10 + 16 * t;
    let n = out.len() / 4096;
    &&& crate::bytes::rd4(out, off + 12) == t
    &&& 1 <= crate::bytes::rd4(out, off + 4) < n
    &&& 1 <= crate::bytes::rd4(out, off + 8) < n
}

/// Everything `build` guarantees of an emitted file: a whole number of
/// pages, at least the 41 an empty export takes, the header fields of
/// page zero, twenty well-formed table pointers, and the page frame of
/// every later page.
pub open spec fn spec_export_frame(out: Seq<u8>) -> bool {
    let n = out.len() / 4096;
    &&& out.len() == n * 4096
    &&& n >= 41
    &&& n < 0x0400_0000
    &&& crate::bytes::rd4(out, 4) == 4096
    &&& crate::bytes::rd4(out, 8) == 20
    &&& crate::bytes::rd4(out, 12) == n
    &&& forall|t: int| 0 <= t < 20 ==> spec_pointer_frame(out, t)
    &&& forall|p: int| 1 <= p < n ==> spec_page_frame(out, p)
}

/// Whether one row fits an otherwise empty data page.
pub open spec fn spec_row_fits(row: Seq<u8>) -> bool {
    row.len() <= 4020
}

/// The page frame of a body that holds pages 1 and up, before the
/// header page exists; page `p` sits at byte `(p - 1) * 4096`.
#[verifier::opaque]
pub open spec fn spec_body_page(body: Seq<u8>, npages: int, p: int) -> bool {
    let off = (p - 1) * 4096;
    &&& crate::bytes::rd4(body, off + 4) == p
    &&& (body[off + 0x1B] == 0x24 || body[off + 0x1B] == 0x34 || body[off + 0x1B] == 0x64)
    &&& crate::bytes::rd2(body, off + 0x1E) <= 4068
    &&& (body[off + 0x1B] != 0x64 ==> {
        let next = crate::bytes::rd4(body, off + 8);
        next == 0xFFFF_FFFF || (next == p + 1 && p + 1 < npages && body[p * 4096 + 0x1B] != 0x64)
    })
    &&& (body[off + 0x1B] == 0x64 ==> {
        let link = crate::bytes::rd4(body, off + 0x2C);
        link == 0x03FF_FFFF || (link == p + 1 && p + 1 < npages && body[p * 4096 + 0x1B] != 0x64)
    })
}

/// The field facts of one finalized data page.
proof fn lemma_data_page_fields(idx: u32, t: crate::page::PageType, next: u32, heap: Seq<u8>, rows: Seq<u16>)
    requires
        0x28 + heap.len() + crate::page::spec_reserved(rows.len() as int) <= 4096,
        idx < 0xF000_0000,
    ensures
        crate::bytes::rd4(crate::page::spec_data_page(idx, t, next, heap, rows), 4) == idx,
        crate::bytes::rd4(crate::page::spec_data_page(idx, t, next, heap, rows), 8) == next,
        crate::page::spec_data_page(idx, t, next, heap, rows)[0x1B] == crate::page::spec_page_flags(
            t,
        ),
        crate::bytes::rd2(crate::page::spec_data_page(idx, t, next, heap, rows), 0x1E)
            <= 4068,
        crate::page::spec_data_page(idx, t, next, heap, rows).len() == 4096,
{
    let page = crate::page::spec_data_page(idx, t, next, heap, rows);
    let nrows = rows.len() as int;
    let groups = crate::page::spec_group_count(nrows);
    assert(36 * groups <= crate::page::spec_reserved(nrows) && nrows < 2048) by {
        crate::page::lemma_group_reserve_pub(nrows);
    }
    assert(page.len() == 4096) by {
        crate::page::lemma_data_page_len(idx, t, next, heap, rows);
    }
    assert(page.subrange(4, 8) =~= le4(idx));
    crate::bytes::lemma_rd4_of_le4(page, 4, idx);
    assert(page.subrange(8, 12) =~= le4(next));
    crate::bytes::lemma_rd4_of_le4(page, 8, next);
    assert(page[0x1B] == crate::page::spec_page_flags(t));
    assert(page.subrange(0x1E, 0x20) =~= le2(heap.len() as u16));
    crate::bytes::lemma_rd2_of_le2(page, 0x1E, heap.len() as u16);
}

/// The field facts of one finalized index page.
proof fn lemma_index_page_fields(idx: u32, dp: u32, has_data: bool, slots: u32)
    requires
        idx < 0xF000_0000,
    ensures
        crate::bytes::rd4(crate::page::spec_index_page(idx, dp, has_data, slots), 4) == idx,
        crate::page::spec_index_page(idx, dp, has_data, slots)[0x1B] == 0x64,
        crate::bytes::rd2(crate::page::spec_index_page(idx, dp, has_data, slots), 0x1E) == 0,
        crate::page::spec_index_page(idx, dp, has_data, slots).len() == 4096,
        crate::bytes::rd4(crate::page::spec_index_page(idx, dp, has_data, slots), 0x2C) == (
        if has_data {
            dp
        } else {
            0x03FF_FFFFu32
        }),
{
    let page = crate::page::spec_index_page(idx, dp, has_data, slots);
    assert(page.len() == 4096) by {
        crate::page::lemma_index_page_len(idx, dp, has_data, slots);
    }
    assert(page.subrange(4, 8) =~= le4(idx));
    crate::bytes::lemma_rd4_of_le4(page, 4, idx);
    assert(page.subrange(0x2C, 0x30) =~= le4(
        if has_data {
            dp
        } else {
            0x03FF_FFFFu32
        },
    ));
    crate::bytes::lemma_rd4_of_le4(
        page,
        0x2C,
        if has_data {
            dp
        } else {
            0x03FF_FFFFu32
        },
    );
    assert(page[0x1B] == 0x64);
    assert(page.subrange(28, 32) =~= zeros(4));
    assert(page[0x1E] == page.subrange(28, 32)[2] && page[0x1F] == page.subrange(28, 32)[3]);
    assert((0u8 as u16 | ((0u8 as u16) << 8)) as u16 == 0) by (bit_vector);
    assert(crate::bytes::u16_of_le(0, 0) == 0);
}

/// The state of the greedy packer: the pages already closed (as their
/// heap bytes and row offsets) and the page still open.
pub ghost struct PackState {
    /// Closed pages, in order; page `i` of a table links to page `i + 1`.
    pub done: Seq<(Seq<u8>, Seq<u16>)>,
    /// The open page's heap.
    pub heap: Seq<u8>,
    /// The open page's row offsets.
    pub offs: Seq<u16>,
}

/// One packing step: when the row would run into the open page's row
/// directory, close that page and open a fresh one; then write the row
/// (its bytes, four-byte padding, and its offset slot).
pub open spec fn spec_pack_step(st: PackState, row: Seq<u8>) -> PackState {
    let st1 = if crate::page::spec_would_overflow(
        st.heap.len() as int,
        st.offs.len() as int,
        row.len() as int,
    ) {
        PackState {
            done: st.done.push((st.heap, st.offs)),
            heap: Seq::empty(),
            offs: Seq::empty(),
        }
    } else {
        st
    };
    PackState {
        done: st1.done,
        heap: st1.heap + crate::page::PageBuilder::spec_row_heap_bytes(
            st1.heap,
            st1.offs.len() as int,
            row,
        ),
        offs: st1.offs.push(st1.heap.len() as u16),
    }
}

/// The packer's state after all the rows, starting from one empty open
/// page.
pub open spec fn spec_pack_states(rows: Seq<Seq<u8>>) -> PackState
    decreases rows.len(),
{
    if rows.len() == 0 {
        PackState { done: Seq::empty(), heap: Seq::empty(), offs: Seq::empty() }
    } else {
        spec_pack_step(spec_pack_states(rows.drop_last()), rows.last())
    }
}

/// How many data pages the rows pack into: the closed pages plus the
/// open one, which is emitted even when no row was written.
pub open spec fn spec_pack_page_count(rows: Seq<Seq<u8>>) -> int {
    spec_pack_states(rows).done.len() as int + 1
}

/// Every page of the packing, closed and open alike, as the pair of its
/// heap and row offsets.
pub open spec fn spec_pack_pages(rows: Seq<Seq<u8>>) -> Seq<(Seq<u8>, Seq<u16>)> {
    let st = spec_pack_states(rows);
    st.done.push((st.heap, st.offs))
}

/// Page `j` of a packing laid out from page `base`: its full bytes.
/// Kept opaque so that callers can carry the fact without unfolding
/// the whole page layout.
#[verifier::opaque]
pub open spec fn spec_packed_page_at(
    rows: Seq<Seq<u8>>,
    base: int,
    count: int,
    t: crate::page::PageType,
    j: int,
) -> Seq<u8> {
    crate::page::spec_data_page(
        (base + j) as u32,
        t,
        if j + 1 < count {
            (base + j + 1) as u32
        } else {
            0xFFFF_FFFFu32
        },
        spec_pack_pages(rows)[j].0,
        spec_pack_pages(rows)[j].1,
    )
}

/// The bytes of one table's data pages: the packed pages laid out from
/// page `base`, each linking to its successor, the last one ending the
/// chain.
pub open spec fn spec_table_data_pages(rows: Seq<Seq<u8>>, base: int, t: crate::page::PageType) -> Seq<u8> {
    let all = spec_pack_pages(rows);
    crate::bytes::concat_bytes(
        Seq::new(
            all.len(),
            |i: int|
                crate::page::spec_data_page(
                    (base + i) as u32,
                    t,
                    if i + 1 < all.len() {
                        (base + i + 1) as u32
                    } else {
                        0xFFFF_FFFFu32
                    },
                    all[i].0,
                    all[i].1,
                ),
        ),
    )
}

/// Pack rows into consecutive data pages starting at `*next_idx`. Each
/// page records the position of its successor; the last one ends the
/// chain. A table without rows still gets one (empty) data page.
#[verifier::rlimit(100)]
fn pack_rows(
    rows: &Vec<Vec<u8>>,
    next_idx: &mut u32,
    t: crate::page::PageType,
) -> (r: crate::error::Result<(Vec<Vec<u8>>, bool)>)
    requires
        1 <= *old(next_idx),
        *old(next_idx) + rows@.len() + 1 < 0xF000_0000,
    ensures
        r matches Ok(pr) ==> {
            let base = *old(next_idx) as int;
            &&& pr.0@.len() >= 1
            &&& pr.0@.len() <= 1 + rows@.len()
            &&& *final(next_idx) == base + pr.0@.len()
            &&& pr.1 == (rows@.len() > 0)
            &&& pr.0@.len() == spec_pack_page_count(rows@.map_values(|v: Vec<u8>| v@))
            &&& forall|p: int|
                0 <= p < pr.0@.len() ==> {
                    let page = (#[trigger] pr.0@[p])@;
                    &&& page.len() == 4096
                    &&& crate::bytes::rd4(page, 4) == base + p
                    &&& page[0x1B] == crate::page::spec_page_flags(t)
                    &&& crate::bytes::rd2(page, 0x1E) <= 4068
                    &&& crate::bytes::rd4(page, 8) == (if p + 1 < pr.0@.len() {
                        (base + p + 1) as u32
                    } else {
                        0xFFFF_FFFFu32
                    })
                    &&& page == crate::page::spec_data_page(
                        (base + p) as u32,
                        t,
                        if p + 1 < pr.0@.len() {
                            (base + p + 1) as u32
                        } else {
                            0xFFFF_FFFFu32
                        },
                        spec_pack_pages(rows@.map_values(|v: Vec<u8>| v@))[p].0,
                        spec_pack_pages(rows@.map_values(|v: Vec<u8>| v@))[p].1,
                    )
                }
        },
        (r is Ok) <==> (forall|i: int| 0 <= i < rows@.len() ==> spec_row_fits((#[trigger] rows@[i])@)),
        r matches Err(e) ==> e is PageOverflow && *final(next_idx) == *old(next_idx),
{
    let ghost base = *old(next_idx) as int;
    let ghost rs = rows@.map_values(|v: Vec<u8>| v@);
    let mut pages: Vec<Vec<u8>> = Vec::new();
    let start = *next_idx;
    let mut cur = crate::page::PageBuilder::new(start, t);
    let mut i: usize = 0;
    proof {
        assert(rs.subrange(0, 0) =~= Seq::<Seq<u8>>::empty());
    }
    while i < rows.len()
        invariant
            i <= rows@.len(),
            base + rows@.len() + 1 < 0xF000_0000,
            1 <= base,
            pages@.len() <= i,
            start == base,
            *old(next_idx) == start,
            rs == rows@.map_values(|v: Vec<u8>| v@),
            cur.wf(),
            cur.ptype() == t,
            cur.idx() as int == base + pages@.len(),
            *next_idx == cur.idx(),
            pages@.len() == spec_pack_states(rs.subrange(0, i as int)).done.len(),
            cur.heap() == spec_pack_states(rs.subrange(0, i as int)).heap,
            cur.rows() == spec_pack_states(rs.subrange(0, i as int)).offs,
            forall|p: int|
                0 <= p < pages@.len() ==> {
                    let page = (#[trigger] pages@[p])@;
                    &&& page.len() == 4096
                    &&& crate::bytes::rd4(page, 4) == base + p
                    &&& page[0x1B] == crate::page::spec_page_flags(t)
                    &&& crate::bytes::rd2(page, 0x1E) <= 4068
                    &&& crate::bytes::rd4(page, 8) == (base + p + 1) as u32
                    &&& page == crate::page::spec_data_page(
                        (base + p) as u32,
                        t,
                        (base + p + 1) as u32,
                        spec_pack_states(rs.subrange(0, i as int)).done[p].0,
                        spec_pack_states(rs.subrange(0, i as int)).done[p].1,
                    )
                },
            forall|k: int| 0 <= k < i ==> spec_row_fits((#[trigger] rows@[k])@),
        decreases rows@.len() - i,
    {
        let row = &rows[i];
        let ghost st = spec_pack_states(rs.subrange(0, i as int));
        proof {
            assert(rs.subrange(0, i as int + 1).drop_last() =~= rs.subrange(0, i as int));
            assert(rs.subrange(0, i as int + 1).last() == rs[i as int]);
            assert(rs[i as int] == rows@[i as int]@);
            assert(spec_pack_states(rs.subrange(0, i as int + 1)) == spec_pack_step(
                st,
                rs[i as int],
            ));
        }
        if cur.would_overflow(row.len()) {
            let nxt = *next_idx + 1;
            let ghost oldidx = cur.idx();
            let ghost oldheap = cur.heap();
            let ghost oldrows = cur.rows();
            let full = cur.finalize(nxt);
            proof {
                lemma_data_page_fields(oldidx, t, nxt, oldheap, oldrows);
            }
            *next_idx = nxt;
            cur = crate::page::PageBuilder::new(nxt, t);
            let ghost oldpages = pages@;
            pages.push(full);
            proof {
                assert(forall|p: int|
                    0 <= p < oldpages.len() ==> #[trigger] pages@[p] == oldpages[p]);
            }
        }
        match cur.write_row(row) {
            Ok(_) => {},
            Err(e) => {
                proof {
                    assert(!spec_row_fits(rows@[i as int]@));
                }
                *next_idx = start;
                return Err(e);
            },
        }
        i = i + 1;
        proof {
            let stn = spec_pack_states(rs.subrange(0, i as int));
            assert(pages@.len() == stn.done.len());
            assert(cur.heap() == stn.heap);
            assert(cur.rows() == stn.offs);
        }
    }
    let ghost st_all = spec_pack_states(rs);
    proof {
        assert(rs.subrange(0, rows@.len() as int) =~= rs);
    }
    let ghost oldidx = cur.idx();
    let ghost oldheap = cur.heap();
    let ghost oldrows = cur.rows();
    let nxt_final = *next_idx + 1;
    *next_idx = nxt_final;
    let full = cur.finalize(0xFFFF_FFFF);
    proof {
        lemma_data_page_fields(oldidx, t, 0xFFFF_FFFF, oldheap, oldrows);
    }
    let ghost oldpages = pages@;
    pages.push(full);
    proof {
        assert(forall|p: int| 0 <= p < oldpages.len() ==> #[trigger] pages@[p] == oldpages[p]);
        assert(spec_pack_pages(rs) == st_all.done.push((st_all.heap, st_all.offs)));
        assert(forall|p: int|
            0 <= p < oldpages.len() ==> #[trigger] spec_pack_pages(rs)[p] == st_all.done[p]);
        assert(spec_pack_pages(rs)[oldpages.len() as int] == (st_all.heap, st_all.offs));
    }
    let has_data = rows.len() > 0;
    Ok((pages, has_data))
}

/// Every table's row list stays within the size bound of the builder.
proof fn lemma_table_rows_bound(m: BuilderModel, t: int)
    requires
        spec_builder_wf(m),
    ensures
        spec_table_rows(m, t).len() <= 0x000F_0000,
{
    reveal(spec_table_rows);
}

/// The first page of table `t`: page one for the first table, and past
/// the previous table's index page and data pages for the rest.
pub open spec fn spec_table_start(m: BuilderModel, t: int) -> int
    decreases t,
{
    if t <= 0 {
        1
    } else {
        spec_table_start(m, t - 1) + 1 + spec_pack_page_count(spec_table_rows(m, t - 1))
    }
}

/// One table's bytes: its index page, then its packed data pages.
pub open spec fn spec_table_segment(m: BuilderModel, t: int) -> Seq<u8> {
    let start = spec_table_start(m, t);
    let rows = spec_table_rows(m, t);
    crate::page::spec_index_page(
        start as u32,
        (start + 1) as u32,
        rows.len() > 0,
        (4 * rows.len()) as u32,
    ) + spec_table_data_pages(rows, start + 1, crate::page::spec_type_of(t))
}

/// The bytes of the first `t` tables, in table order.
pub open spec fn spec_tables_bytes(m: BuilderModel, t: int) -> Seq<u8>
    decreases t,
{
    if t <= 0 {
        Seq::empty()
    } else {
        spec_tables_bytes(m, t - 1) + spec_table_segment(m, t - 1)
    }
}

/// The page count of the whole file: one page zero plus every table's
/// pages.
pub open spec fn spec_npages_of(m: BuilderModel) -> int {
    spec_table_start(m, 20)
}

/// The pointer page zero holds for table `t`: its index page (also used
/// as the opaque counter) and its last data page, which for an empty
/// table is the index page itself.
pub open spec fn spec_table_pointer_of(m: BuilderModel, t: int) -> crate::page::TablePointer {
    let start = spec_table_start(m, t);
    let rows = spec_table_rows(m, t);
    crate::page::TablePointer {
        first: start as u32,
        index_page: start as u32,
        last_data_page: if rows.len() > 0 {
            (start + spec_pack_page_count(rows)) as u32
        } else {
            start as u32
        },
        table_type: t as u32,
    }
}

/// The whole database file a builder state denotes: page zero naming
/// every table, then the twenty tables in order. `build` returns
/// exactly these bytes, so equal builder states give equal files.
pub open spec fn spec_pdb_file(m: BuilderModel) -> Seq<u8> {
    crate::page::spec_file_header_page(
        4096,
        20,
        spec_npages_of(m) as u32,
        Seq::new(20, |t: int| spec_table_pointer_of(m, t)),
    ) + spec_tables_bytes(m, 20)
}

/// One table's index page and data pages, laid end to end, are that
/// table's segment of the file.
#[verifier::rlimit(100)]
proof fn lemma_segment_bytes(
    m: BuilderModel,
    tid: int,
    rs: Seq<Seq<u8>>,
    pages: Seq<Vec<u8>>,
    index_page: Seq<u8>,
    start: int,
)
    requires
        0 <= tid,
        rs == spec_table_rows(m, tid),
        start == spec_table_start(m, tid),
        pages.len() == spec_pack_page_count(rs),
        forall|j: int|
            0 <= j < pages.len() ==> (#[trigger] pages[j])@ == crate::page::spec_data_page(
                (start + 1 + j) as u32,
                crate::page::spec_type_of(tid),
                if j + 1 < pages.len() {
                    (start + 2 + j) as u32
                } else {
                    0xFFFF_FFFFu32
                },
                spec_pack_pages(rs)[j].0,
                spec_pack_pages(rs)[j].1,
            ),
        index_page == crate::page::spec_index_page(
            start as u32,
            (start + 1) as u32,
            rs.len() > 0,
            (4 * rs.len()) as u32,
        ),
    ensures
        index_page + crate::bytes::concat_bytes(
            Seq::new(pages.len() as nat, |j: int| pages[j]@),
        ) == spec_table_segment(m, tid),
{
    let all = spec_pack_pages(rs);
    let base = start + 1;
    assert(Seq::new(pages.len() as nat, |j: int| pages[j]@) =~= Seq::new(
        all.len(),
        |j: int|
            crate::page::spec_data_page(
                (base + j) as u32,
                crate::page::spec_type_of(tid),
                if j + 1 < all.len() {
                    (base + j + 1) as u32
                } else {
                    0xFFFF_FFFFu32
                },
                all[j].0,
                all[j].1,
            ),
    ));
    assert(crate::bytes::concat_bytes(Seq::new(pages.len() as nat, |j: int| pages[j]@))
        == spec_table_data_pages(rs, base, crate::page::spec_type_of(tid)));
}

/// Appending one table's segment advances the builder's byte mirror and
/// page cursor by exactly that table.
#[verifier::rlimit(100)]
#[verifier::spinoff_prover]
proof fn lemma_build_step(
    m: BuilderModel,
    tid: int,
    oldbody: Seq<u8>,
    body: Seq<u8>,
    index_page: Seq<u8>,
    pages: Seq<Vec<u8>>,
    old_next: int,
    new_next: int,
    rs: Seq<Seq<u8>>,
)
    requires
        0 <= tid,
        oldbody == spec_tables_bytes(m, tid),
        old_next == spec_table_start(m, tid),
        rs == spec_table_rows(m, tid),
        pages.len() == spec_pack_page_count(rs),
        forall|j: int|
            0 <= j < pages.len() ==> (#[trigger] pages[j])@ == spec_packed_page_at(
                rs,
                old_next + 1,
                pages.len() as int,
                crate::page::spec_type_of(tid),
                j,
            ),
        index_page == crate::page::spec_index_page(
            old_next as u32,
            (old_next + 1) as u32,
            rs.len() > 0,
            (4 * rs.len()) as u32,
        ),
        body == oldbody + index_page + crate::bytes::concat_bytes(
            Seq::new(pages.len() as nat, |j: int| pages[j]@),
        ),
        new_next == old_next + 1 + pages.len(),
    ensures
        body == spec_tables_bytes(m, tid + 1),
        new_next == spec_table_start(m, tid + 1),
{
    reveal(spec_packed_page_at);
    assert forall|j: int| 0 <= j < pages.len() implies (#[trigger] pages[j])@
        == crate::page::spec_data_page(
        (old_next + 1 + j) as u32,
        crate::page::spec_type_of(tid),
        if j + 1 < pages.len() {
            (old_next + 2 + j) as u32
        } else {
            0xFFFF_FFFFu32
        },
        spec_pack_pages(rs)[j].0,
        spec_pack_pages(rs)[j].1,
    ) by {
        assert(pages[j]@ == spec_packed_page_at(
            rs,
            old_next + 1,
            pages.len() as int,
            crate::page::spec_type_of(tid),
            j,
        ));
    }
    lemma_segment_bytes(m, tid, rs, pages, index_page, old_next);
    assert(spec_tables_bytes(m, tid + 1) == spec_tables_bytes(m, tid) + spec_table_segment(
        m,
        tid,
    ));
    assert(body =~= spec_tables_bytes(m, tid + 1));
    assert(spec_table_start(m, tid + 1) == spec_table_start(m, tid) + 1 + spec_pack_page_count(
        spec_table_rows(m, tid),
    ));
}

/// Append one finished table segment (index page, then data pages) to
/// the body, keeping every page frame.
#[verifier::rlimit(100)]
fn append_segment(
    body: &mut Vec<u8>,
    index_page: &Vec<u8>,
    pages: &Vec<Vec<u8>>,
    t: crate::page::PageType,
    Ghost(old_next): Ghost<int>,
)
    requires
        old(body)@.len() == 4096 * (old_next - 1),
        1 <= old_next,
        old_next + 1 + pages@.len() < 0xF000_0000,
        index_page@.len() == 4096,
        pages@.len() >= 1,
        crate::bytes::rd4(index_page@, 4) == old_next,
        index_page@[0x1B] == 0x64,
        crate::bytes::rd2(index_page@, 0x1E) == 0,
        crate::bytes::rd4(index_page@, 0x2C) == 0x03FF_FFFF || crate::bytes::rd4(
            index_page@,
            0x2C,
        ) == old_next + 1,
        forall|j: int|
            0 <= j < pages@.len() ==> {
                let page = (#[trigger] pages@[j])@;
                &&& page.len() == 4096
                &&& crate::bytes::rd4(page, 4) == old_next + 1 + j
                &&& page[0x1B] == crate::page::spec_page_flags(t)
                &&& crate::bytes::rd2(page, 0x1E) <= 4068
                &&& crate::bytes::rd4(page, 8) == (if j + 1 < pages@.len() {
                    (old_next + 2 + j) as u32
                } else {
                    0xFFFF_FFFFu32
                })
            },
        forall|p: int| 1 <= p < old_next ==> spec_body_page(old(body)@, old_next, p),
    ensures
        final(body)@ == old(body)@ + index_page@ + crate::bytes::concat_bytes(
            Seq::new(pages@.len() as nat, |j: int| pages@[j]@),
        ),
        final(body)@.len() == 4096 * (old_next + pages@.len()),
        forall|p: int|
            1 <= p < old_next + 1 + pages@.len() ==> #[trigger] spec_body_page(
                final(body)@,
                old_next + 1 + pages@.len(),
                p,
            ),
{
    let ghost oldbody = body@;
    let ghost new_next = old_next + 1 + pages@.len();
    crate::bytes::push_bytes(body, index_page);
    let mut pi: usize = 0;
    while pi < pages.len()
        invariant
            pi <= pages@.len(),
            oldbody.len() == 4096 * (old_next - 1),
            index_page@.len() == 4096,
            forall|p: int| 0 <= p < pages@.len() ==> (#[trigger] pages@[p])@.len() == 4096,
            body@.len() == oldbody.len() + 4096 + 4096 * pi,
            body@.subrange(0, oldbody.len() as int) == oldbody,
            body@.subrange(oldbody.len() as int, oldbody.len() as int + 4096) == index_page@,
            forall|j: int|
                0 <= j < pi ==> body@.subrange(
                    oldbody.len() + 4096 * (j + 1),
                    oldbody.len() + 4096 * (j + 2),
                ) == (#[trigger] pages@[j])@,
            body@ == oldbody + index_page@ + crate::bytes::concat_bytes(
                Seq::new(pi as nat, |j: int| pages@[j]@),
            ),
        decreases pages@.len() - pi,
    {
        let ghost prev = body@;
        let ghost before_parts = Seq::new(pi as nat, |j: int| pages@[j]@);
        crate::bytes::push_bytes(body, &pages[pi]);
        pi = pi + 1;
        proof {
            assert(Seq::new(pi as nat, |j: int| pages@[j]@) =~= before_parts.push(
                pages@[pi - 1]@,
            ));
            crate::bytes::lemma_concat_bytes_push(before_parts, pages@[pi - 1]@);
            assert(body@ =~= oldbody + index_page@ + crate::bytes::concat_bytes(
                Seq::new(pi as nat, |j: int| pages@[j]@),
            ));
            assert(body@.subrange(0, oldbody.len() as int) =~= oldbody);
            assert(body@.subrange(oldbody.len() as int, oldbody.len() as int + 4096)
                =~= index_page@);
            assert forall|j: int| 0 <= j < pi implies body@.subrange(
                oldbody.len() + 4096 * (j + 1),
                oldbody.len() + 4096 * (j + 2),
            ) == (#[trigger] pages@[j])@ by {
                if j < pi - 1 {
                    assert(body@.subrange(
                        oldbody.len() + 4096 * (j + 1),
                        oldbody.len() + 4096 * (j + 2),
                    ) =~= prev.subrange(
                        oldbody.len() + 4096 * (j + 1),
                        oldbody.len() + 4096 * (j + 2),
                    ));
                } else {
                    assert(body@.subrange(
                        oldbody.len() + 4096 * (j + 1),
                        oldbody.len() + 4096 * (j + 2),
                    ) =~= pages@[j]@);
                }
            }
        }
    }
    proof {
        lemma_body_frame_extends(
            oldbody,
            body@,
            index_page@,
            pages@,
            old_next,
            new_next,
            t,
        );
    }
}

/// The packer closes at most one page per row, and always emits one.
proof fn lemma_pack_count_le(rows: Seq<Seq<u8>>)
    ensures
        1 <= spec_pack_page_count(rows) <= 1 + rows.len(),
    decreases rows.len(),
{
    if rows.len() > 0 {
        lemma_pack_count_le(rows.drop_last());
    }
}

/// Table starts grow by at least two pages per table and stay within
/// the builder's size bound.
proof fn lemma_start_bounds(m: BuilderModel, t: int)
    requires
        spec_builder_wf(m),
        0 <= t <= 20,
    ensures
        1 + 2 * t <= spec_table_start(m, t) <= 1 + t * 0x000F_0002,
    decreases t,
{
    if t > 0 {
        lemma_start_bounds(m, t - 1);
        lemma_pack_count_le(spec_table_rows(m, t - 1));
        lemma_table_rows_bound(m, t - 1);
    }
}

/// Table starts never decrease.
proof fn lemma_start_mono(m: BuilderModel, t1: int, t2: int)
    requires
        0 <= t1 <= t2,
    ensures
        spec_table_start(m, t1) <= spec_table_start(m, t2),
    decreases t2 - t1,
{
    if t1 < t2 {
        lemma_start_mono(m, t1, t2 - 1);
        lemma_pack_count_le(spec_table_rows(m, t2 - 1));
    }
}

/// Every table pointer of the mirror names its own type and pages that
/// lie inside the file.
proof fn lemma_pointer_ranges(m: BuilderModel, t: int)
    requires
        spec_builder_wf(m),
        0 <= t < 20,
    ensures
        spec_table_pointer_of(m, t).table_type == t,
        1 <= spec_table_pointer_of(m, t).index_page < spec_npages_of(m),
        1 <= spec_table_pointer_of(m, t).last_data_page < spec_npages_of(m),
{
    lemma_start_bounds(m, t);
    lemma_start_bounds(m, t + 1);
    lemma_pack_count_le(spec_table_rows(m, t));
    lemma_table_rows_bound(m, t);
    lemma_start_mono(m, t + 1, 20);
    lemma_start_bounds(m, 20);
}

impl PdbBuilder {
    /// Produce one table's index page and packed data pages, advancing
    /// the page cursor past them.
    #[verifier::rlimit(100)]
    fn table_parts(&self, ti: usize, t: crate::page::PageType, next_idx: &mut u32) -> (r:
        crate::error::Result<(Vec<u8>, Vec<Vec<u8>>, bool)>)
        requires
            spec_builder_wf(self@),
            ti < 20,
            t == crate::page::spec_type_of(ti as int),
            *old(next_idx) as int == spec_table_start(self@, ti as int),
            1 <= *old(next_idx),
            *old(next_idx) as int <= 1 + (ti as int) * 0x000F_0002,
        ensures
            r matches Err(e) ==> e is PageOverflow,
            (r is Ok) <==> (forall|i: int|
                0 <= i < spec_table_rows(self@, ti as int).len() ==> spec_row_fits(
                    #[trigger] spec_table_rows(self@, ti as int)[i],
                )),
            r matches Ok(pr) ==> {
                let start = *old(next_idx) as int;
                let rsspec = spec_table_rows(self@, ti as int);
                &&& pr.0@ == crate::page::spec_index_page(
                    start as u32,
                    (start + 1) as u32,
                    rsspec.len() > 0,
                    (4 * rsspec.len()) as u32,
                )
                &&& pr.0@.len() == 4096
                &&& crate::bytes::rd4(pr.0@, 4) == start
                &&& pr.0@[0x1B] == 0x64
                &&& crate::bytes::rd2(pr.0@, 0x1E) == 0
                &&& (crate::bytes::rd4(pr.0@, 0x2C) == 0x03FF_FFFF || crate::bytes::rd4(
                    pr.0@,
                    0x2C,
                ) == start + 1)
                &&& pr.1@.len() == spec_pack_page_count(rsspec)
                &&& 1 <= pr.1@.len() <= 1 + rsspec.len()
                &&& *final(next_idx) as int == start + 1 + pr.1@.len()
                &&& pr.2 == (rsspec.len() > 0)
                &&& forall|j: int|
                    0 <= j < pr.1@.len() ==> {
                        let page = (#[trigger] pr.1@[j])@;
                        &&& page.len() == 4096
                        &&& crate::bytes::rd4(page, 4) == start + 1 + j
                        &&& page[0x1B] == crate::page::spec_page_flags(t)
                        &&& crate::bytes::rd2(page, 0x1E) <= 4068
                        &&& crate::bytes::rd4(page, 8) == (if j + 1 < pr.1@.len() {
                            (start + 2 + j) as u32
                        } else {
                            0xFFFF_FFFFu32
                        })
                        &&& page == spec_packed_page_at(
                            rsspec,
                            start + 1,
                            pr.1@.len() as int,
                            t,
                            j,
                        )
                    }
            },
    {
        let ghost tid = ti as int;
        let rows = self.table_rows_for(&t);
        proof {
            lemma_table_rows_bound(self@, tid);
        }
        let index_idx = *next_idx;
        *next_idx = *next_idx + 1;
        let data_start = *next_idx;
        let packed = match pack_rows(&rows, next_idx, t) {
            Ok(x) => x,
            Err(e) => {
                proof {
                    assert(exists|i: int|
                        0 <= i < spec_table_rows(self@, tid).len() && !spec_row_fits(
                            #[trigger] spec_table_rows(self@, tid)[i],
                        )) by {
                        let i = choose|i: int|
                            0 <= i < rows@.len() && !spec_row_fits((#[trigger] rows@[i])@);
                        assert(rows@[i]@ == spec_table_rows(self@, tid)[i]);
                    }
                }
                return Err(e);
            },
        };
        let (pages, has_data) = packed;
        let ghost rs = rows@.map_values(|v: Vec<u8>| v@);
        proof {
            assert forall|i: int|
                0 <= i < spec_table_rows(self@, tid).len() implies spec_row_fits(
                #[trigger] spec_table_rows(self@, tid)[i],
            ) by {
                assert(rows@[i]@ == spec_table_rows(self@, tid)[i]);
                assert(spec_row_fits(rows@[i]@));
            }
            assert forall|i: int| 0 <= i < rs.len() implies #[trigger] rs[i] == spec_table_rows(
                self@,
                tid,
            )[i] by {
                assert(rs[i] == rows@[i]@);
            }
            assert(rs =~= spec_table_rows(self@, tid));
        }
        let num_slots = (4 * rows.len()) as u32;
        let ipb = crate::page::IndexPageBuilder::new(index_idx, t);
        let index_page = ipb.finalize(data_start, has_data, num_slots);
        proof {
            lemma_index_page_fields(index_idx, data_start, has_data, num_slots);
            reveal(spec_packed_page_at);
            assert forall|j: int| 0 <= j < pages@.len() implies (#[trigger] pages@[j])@
                == spec_packed_page_at(
                spec_table_rows(self@, tid),
                index_idx as int + 1,
                pages@.len() as int,
                t,
                j,
            ) by {
                assert(pages@[j]@ == crate::page::spec_data_page(
                    (index_idx as int + 1 + j) as u32,
                    t,
                    if j + 1 < pages@.len() {
                        (index_idx as int + 2 + j) as u32
                    } else {
                        0xFFFF_FFFFu32
                    },
                    spec_pack_pages(rs)[j].0,
                    spec_pack_pages(rs)[j].1,
                ));
            }
        }
        Ok((index_page, pages, has_data))
    }

    /// Append one table to the file being built: its index page, then
    /// its packed data pages; record its pointer in the header. The
    /// body and page cursor advance by exactly the table's segment.
    #[verifier::rlimit(100)]
    fn append_table(
        &self,
        ti: usize,
        t: crate::page::PageType,
        body: &mut Vec<u8>,
        header: &mut crate::page::FileHeader,
        next_idx: &mut u32,
    ) -> (r: crate::error::Result<()>)
        requires
            spec_builder_wf(self@),
            ti < 20,
            t == crate::page::spec_type_of(ti as int),
            old(body)@ == spec_tables_bytes(self@, ti as int),
            *old(next_idx) as int == spec_table_start(self@, ti as int),
            old(body)@.len() == 4096 * (*old(next_idx) - 1),
            1 <= *old(next_idx),
            *old(next_idx) as int <= 1 + (ti as int) * 0x000F_0002,
            old(header).tables@.len() == ti,
            old(header).num_tables == ti,
            old(header).page_size == 4096,
            forall|p: int|
                1 <= p < *old(next_idx) ==> spec_body_page(
                    old(body)@,
                    *old(next_idx) as int,
                    p,
                ),
        ensures
            r matches Err(e) ==> e is PageOverflow,
            (r is Ok) <==> (forall|i: int|
                0 <= i < spec_table_rows(self@, ti as int).len() ==> spec_row_fits(
                    #[trigger] spec_table_rows(self@, ti as int)[i],
                )),
            r is Ok ==> {
                &&& final(body)@ == spec_tables_bytes(self@, ti as int + 1)
                &&& *final(next_idx) as int == spec_table_start(self@, ti as int + 1)
                &&& final(body)@.len() == 4096 * (*final(next_idx) - 1)
                &&& final(header).tables@ == old(header).tables@.push(
                    spec_table_pointer_of(self@, ti as int),
                )
                &&& final(header).num_tables == ti + 1
                &&& final(header).page_size == 4096
                &&& forall|p: int|
                    1 <= p < *final(next_idx) ==> spec_body_page(
                        final(body)@,
                        *final(next_idx) as int,
                        p,
                    )
            },
    {
        let ghost tid = ti as int;
        let index_idx = *next_idx;
        let parts = match self.table_parts(ti, t, next_idx) {
            Ok(x) => x,
            Err(e) => {
                return Err(e);
            },
        };
        let (index_page, pages, has_data) = parts;
        let last_page = if has_data {
            index_idx + (pages.len() as u32)
        } else {
            index_idx
        };
        header.add_table(crate::page::TablePointer::new(t, index_idx, index_idx, last_page));
        let ghost oldbody = body@;
        let ghost old_next = index_idx as int;
        proof {
            lemma_start_bounds(self@, tid);
            lemma_table_rows_bound(self@, tid);
        }
        append_segment(body, &index_page, &pages, t, Ghost(old_next));
        let ghost new_next = *next_idx as int;
        proof {
            lemma_build_step(
                self@,
                tid,
                oldbody,
                body@,
                index_page@,
                pages@,
                old_next,
                new_next,
                spec_table_rows(self@, tid),
            );
            assert(header.tables@[tid] == spec_table_pointer_of(self@, tid));
            assert(header.tables@ =~= old(header).tables@.push(
                spec_table_pointer_of(self@, tid),
            ));
        }
        Ok(())
    }

    /// Build the complete database file: page zero, then, for each of
    /// the twenty tables in order, one index page and its data pages.
    /// The output is pinned: it equals `spec_pdb_file` of the builder's
    /// state. Succeeds exactly when every row fits an empty data page;
    /// the only failure is a page overflow.
    #[verifier::rlimit(100)]
    pub fn build(&self) -> (r: crate::error::Result<Vec<u8>>)
        requires
            spec_builder_wf(self@),
        ensures
            r matches Ok(out) ==> out@ == spec_pdb_file(self@),
            r matches Ok(out) ==> spec_export_frame(out@),
            (r is Ok) <==> (forall|t: int, i: int|
                0 <= t < 20 && 0 <= i < spec_table_rows(self@, t).len() ==> spec_row_fits(
                    #[trigger] spec_table_rows(self@, t)[i],
                )),
            r matches Err(e) ==> e is PageOverflow,
    {
        let types = crate::page::PageType::all_types();
        let mut body: Vec<u8> = Vec::new();
        let mut header = crate::page::FileHeader::new();
        let mut next_idx: u32 = 1;
        let mut ti: usize = 0;
        while ti < 20
            invariant
                ti <= 20,
                spec_builder_wf(self@),
                types@.len() == 20,
                forall|k: int| 0 <= k < 20 ==> #[trigger] types@[k] == crate::page::spec_type_of(k),
                body@ == spec_tables_bytes(self@, ti as int),
                next_idx as int == spec_table_start(self@, ti as int),
                body@.len() == 4096 * (next_idx - 1),
                header.tables@.len() == ti,
                header.num_tables == ti,
                header.page_size == 4096,
                forall|t2: int|
                    0 <= t2 < ti ==> #[trigger] header.tables@[t2] == spec_table_pointer_of(
                        self@,
                        t2,
                    ),
                forall|p: int| 1 <= p < next_idx ==> spec_body_page(body@, next_idx as int, p),
                forall|t2: int, i: int|
                    0 <= t2 < ti && 0 <= i < spec_table_rows(self@, t2).len() ==> spec_row_fits(
                        #[trigger] spec_table_rows(self@, t2)[i],
                    ),
            decreases 20 - ti,
        {
            let t = types[ti];
            let ghost tid = ti as int;
            let ghost old_tables = header.tables@;
            proof {
                lemma_start_bounds(self@, tid);
            }
            match self.append_table(ti, t, &mut body, &mut header, &mut next_idx) {
                Ok(_) => {},
                Err(e) => {
                    proof {
                        assert(exists|i: int|
                            0 <= i < spec_table_rows(self@, tid).len() && !spec_row_fits(
                                #[trigger] spec_table_rows(self@, tid)[i],
                            ));
                    }
                    return Err(e);
                },
            }
            ti = ti + 1;
            proof {
                assert(forall|t2: int|
                    0 <= t2 < old_tables.len() ==> #[trigger] header.tables@[t2]
                        == old_tables[t2]);
                assert(header.tables@[tid] == spec_table_pointer_of(self@, tid));
                lemma_start_bounds(self@, ti as int);
            }
        }
        header.next_unused_page = next_idx;
        let page0 = header.to_page();
        let mut out = page0;
        crate::bytes::push_bytes(&mut out, &body);
        proof {
            lemma_start_bounds(self@, 20);
            assert forall|t2: int| 0 <= t2 < 20 implies {
                let ptr = #[trigger] header.tables@[t2];
                &&& ptr.table_type == t2
                &&& 1 <= ptr.index_page < next_idx
                &&& 1 <= ptr.last_data_page < next_idx
            } by {
                lemma_pointer_ranges(self@, t2);
                assert(header.tables@[t2] == spec_table_pointer_of(self@, t2));
            }
            assert(out@.subrange(0, 4096) =~= crate::page::spec_file_header_page(
                4096,
                20,
                next_idx,
                header.tables@,
            ));
            assert(out@.subrange(4096, out@.len() as int) =~= body@);
            lemma_export_frame_assembled(out@, body@, header.tables@, next_idx as int);
            assert(header.tables@ =~= Seq::new(
                20,
                |t2: int| spec_table_pointer_of(self@, t2),
            ));
            assert(next_idx as int == spec_npages_of(self@));
            assert(out@ =~= spec_pdb_file(self@));
        }
        Ok(out)
    }
}

/// Appending one table's segment (its index page, then its data pages)
/// keeps every page frame of the body and establishes the frames of
/// the new pages.
#[verifier::rlimit(100)]
proof fn lemma_body_frame_extends(
    oldbody: Seq<u8>,
    body: Seq<u8>,
    index_page: Seq<u8>,
    pages: Seq<Vec<u8>>,
    old_next: int,
    new_next: int,
    t: crate::page::PageType,
)
    requires
        oldbody.len() == 4096 * (old_next - 1),
        1 <= old_next,
        index_page.len() == 4096,
        pages.len() >= 1,
        new_next == old_next + 1 + pages.len(),
        body.len() == oldbody.len() + 4096 + 4096 * pages.len(),
        body.subrange(0, oldbody.len() as int) == oldbody,
        body.subrange(oldbody.len() as int, oldbody.len() as int + 4096) == index_page,
        forall|j: int|
            0 <= j < pages.len() ==> body.subrange(
                oldbody.len() + 4096 * (j + 1),
                oldbody.len() + 4096 * (j + 2),
            ) == (#[trigger] pages[j])@,
        forall|p: int| 1 <= p < old_next ==> spec_body_page(oldbody, old_next, p),
        crate::bytes::rd4(index_page, 4) == old_next,
        index_page[0x1B] == 0x64,
        crate::bytes::rd2(index_page, 0x1E) == 0,
        crate::bytes::rd4(index_page, 0x2C) == 0x03FF_FFFF || crate::bytes::rd4(
            index_page,
            0x2C,
        ) == old_next + 1,
        forall|j: int|
            0 <= j < pages.len() ==> {
                let page = (#[trigger] pages[j])@;
                &&& page.len() == 4096
                &&& crate::bytes::rd4(page, 4) == old_next + 1 + j
                &&& page[0x1B] == crate::page::spec_page_flags(t)
                &&& crate::bytes::rd2(page, 0x1E) <= 4068
                &&& crate::bytes::rd4(page, 8) == (if j + 1 < pages.len() {
                    (old_next + 2 + j) as u32
                } else {
                    0xFFFF_FFFFu32
                })
            },
    ensures
        forall|p: int| 1 <= p < new_next ==> spec_body_page(body, new_next, p),
{
    reveal(spec_body_page);
    crate::bytes::lemma_reads_at(body, oldbody, 0);
    crate::bytes::lemma_reads_at(body, index_page, oldbody.len() as int);
    assert forall|p: int| 1 <= p < new_next implies spec_body_page(body, new_next, p) by {
        if p < old_next {
            let off = (p - 1) * 4096;
            assert(off + 4096 <= oldbody.len()) by (nonlinear_arith)
                requires
                    off == (p - 1) * 4096 && p < old_next && oldbody.len() == 4096 * (old_next
                        - 1),
            ;
            assert(spec_body_page(oldbody, old_next, p));
            assert(crate::bytes::rd4(body, off + 4) == crate::bytes::rd4(oldbody, off + 4));
            assert(crate::bytes::rd4(body, off + 8) == crate::bytes::rd4(oldbody, off + 8));
            assert(crate::bytes::rd4(body, off + 0x2C) == crate::bytes::rd4(oldbody, off + 0x2C));
            assert(crate::bytes::rd2(body, off + 0x1E) == crate::bytes::rd2(oldbody, off + 0x1E));
            assert(body[off + 0x1B] == oldbody[off + 0x1B]);
            if body[off + 0x1B] != 0x64 && crate::bytes::rd4(body, off + 8) != 0xFFFF_FFFF {
                assert(p * 4096 + 0x1B < oldbody.len());
                assert(body[p * 4096 + 0x1B] == oldbody[p * 4096 + 0x1B]);
            }
            if body[off + 0x1B] == 0x64 && crate::bytes::rd4(body, off + 0x2C) != 0x03FF_FFFF {
                assert(p * 4096 + 0x1B < oldbody.len());
                assert(body[p * 4096 + 0x1B] == oldbody[p * 4096 + 0x1B]);
            }
        } else if p == old_next {
            let off = (p - 1) * 4096;
            assert(off == oldbody.len());
            assert(crate::bytes::rd4(body, off + 4) == crate::bytes::rd4(index_page, 4));
            assert(body[off + 0x1B] == index_page[0x1B]);
            assert(crate::bytes::rd2(body, off + 0x1E) == crate::bytes::rd2(index_page, 0x1E));
            assert(crate::bytes::rd4(body, off + 0x2C) == crate::bytes::rd4(index_page, 0x2C));
            if crate::bytes::rd4(body, off + 0x2C) != 0x03FF_FFFF {
                let firstpage = pages[0]@;
                crate::bytes::lemma_reads_at(body, firstpage, p * 4096);
                assert(body[p * 4096 + 0x1B] == firstpage[0x1B]);
                assert(crate::page::spec_page_flags(t) != 0x64);
            }
        } else {
            let j = p - old_next - 1;
            let off = (p - 1) * 4096;
            let page = pages[j]@;
            assert(oldbody.len() + 4096 * (j + 1) == off) by (nonlinear_arith)
                requires
                    oldbody.len() == 4096 * (old_next - 1) && off == (p - 1) * 4096 && j == p
                        - old_next - 1,
            ;
            crate::bytes::lemma_reads_at(body, page, off);
            assert(crate::bytes::rd4(body, off + 4) == crate::bytes::rd4(page, 4));
            assert(body[off + 0x1B] == page[0x1B]);
            assert(crate::bytes::rd2(body, off + 0x1E) == crate::bytes::rd2(page, 0x1E));
            assert(crate::bytes::rd4(body, off + 8) == crate::bytes::rd4(page, 8));
            assert(crate::page::spec_page_flags(t) != 0x64);
            if j + 1 < pages.len() {
                let nextpage = pages[j + 1]@;
                assert(oldbody.len() + 4096 * (j + 2) == p * 4096) by (nonlinear_arith)
                    requires
                        oldbody.len() == 4096 * (old_next - 1) && j == p - old_next - 1,
                ;
                crate::bytes::lemma_reads_at(body, nextpage, p * 4096);
                assert(body[p * 4096 + 0x1B] == nextpage[0x1B]);
            }
        }
    }
}

/// Page zero plus a well-framed body forms a well-framed export.
#[verifier::rlimit(100)]
proof fn lemma_export_frame_assembled(
    out: Seq<u8>,
    body: Seq<u8>,
    tables: Seq<crate::page::TablePointer>,
    npages: int,
)
    requires
        41 <= npages < 0x0400_0000,
        body.len() == 4096 * (npages - 1),
        tables.len() == 20,
        out.len() == 4096 + body.len(),
        out.subrange(0, 4096) == crate::page::spec_file_header_page(
            4096,
            20,
            npages as u32,
            tables,
        ),
        out.subrange(4096, out.len() as int) == body,
        forall|p: int| 1 <= p < npages ==> spec_body_page(body, npages, p),
        forall|t2: int|
            0 <= t2 < 20 ==> {
                let ptr = #[trigger] tables[t2];
                &&& ptr.table_type == t2
                &&& 1 <= ptr.index_page < npages
                &&& 1 <= ptr.last_data_page < npages
            },
    ensures
        spec_export_frame(out),
{
    reveal(spec_body_page);
    reveal(spec_page_frame);
    reveal(spec_pointer_frame);
    let page0 = crate::page::spec_file_header_page(4096, 20, npages as u32, tables);
    assert(out.len() == npages * 4096);
    assert(out.len() / 4096 == npages) by (nonlinear_arith)
        requires
            out.len() == npages * 4096 && npages >= 1,
    ;
    let parts = tables.map_values(|p: crate::page::TablePointer| crate::page::spec_table_pointer_bytes(p));
    assert(forall|i: int| 0 <= i < parts.len() ==> (#[trigger] parts[i]).len() == 16);
    crate::bytes::lemma_concat_bytes_len_uniform(parts, 16);
    crate::bytes::lemma_reads_at(out, page0, 0);
    assert(page0.subrange(4, 8) =~= le4(4096));
    crate::bytes::lemma_rd4_of_le4(page0, 4, 4096);
    assert(page0.subrange(8, 12) =~= le4(20));
    crate::bytes::lemma_rd4_of_le4(page0, 8, 20);
    assert(page0.subrange(12, 16) =~= le4(npages as u32));
    crate::bytes::lemma_rd4_of_le4(page0, 12, npages as u32);
    assert(crate::bytes::rd4(out, 4) == 4096);
    assert(crate::bytes::rd4(out, 8) == 20);
    assert(crate::bytes::rd4(out, 12) == npages);
    assert forall|t2: int| 0 <= t2 < 20 implies spec_pointer_frame(out, t2) by {
        let ptr = tables[t2];
        let pb = crate::page::spec_table_pointer_bytes(ptr);
        crate::bytes::lemma_concat_bytes_uniform_index(parts, 16, t2);
        assert(page0.subrange(16 + 16 * t2, 16 + 16 * t2 + 16) =~= crate::bytes::concat_bytes(
            parts,
        ).subrange(16 * t2, 16 * t2 + 16));
        assert(page0.subrange(16 + 16 * t2, 16 + 16 * t2 + 16) == pb);
        crate::bytes::lemma_reads_at(page0, pb, 16 + 16 * t2);
        assert(pb.subrange(4, 8) =~= le4(ptr.index_page));
        crate::bytes::lemma_rd4_of_le4(pb, 4, ptr.index_page);
        assert(pb.subrange(8, 12) =~= le4(ptr.last_data_page));
        crate::bytes::lemma_rd4_of_le4(pb, 8, ptr.last_data_page);
        assert(pb.subrange(12, 16) =~= le4(ptr.table_type));
        crate::bytes::lemma_rd4_of_le4(pb, 12, ptr.table_type);
        assert(crate::bytes::rd4(out, 16 + 16 * t2 + 4) == ptr.index_page);
        assert(crate::bytes::rd4(out, 16 + 16 * t2 + 8) == ptr.last_data_page);
        assert(crate::bytes::rd4(out, 16 + 16 * t2 + 12) == ptr.table_type);
    }
    crate::bytes::lemma_reads_at(out, body, 4096);
    assert forall|p: int| 1 <= p < npages implies spec_page_frame(out, p) by {
        let boff = (p - 1) * 4096;
        assert(spec_body_page(body, npages, p));
        assert(boff + 4096 <= body.len()) by (nonlinear_arith)
            requires
                boff == (p - 1) * 4096 && p < npages && body.len() == 4096 * (npages - 1),
        ;
        assert(p * 4096 == 4096 + boff);
        assert(crate::bytes::rd4(out, p * 4096 + 4) == crate::bytes::rd4(body, boff + 4));
        assert(crate::bytes::rd4(out, p * 4096 + 8) == crate::bytes::rd4(body, boff + 8));
        assert(crate::bytes::rd4(out, p * 4096 + 0x2C) == crate::bytes::rd4(body, boff + 0x2C));
        assert(crate::bytes::rd2(out, p * 4096 + 0x1E) == crate::bytes::rd2(body, boff + 0x1E));
        assert(out[p * 4096 + 0x1B] == body[boff + 0x1B]);
        if out[p * 4096 + 0x1B] != 0x64 && crate::bytes::rd4(out, p * 4096 + 8) == p + 1 {
            assert(out[(p + 1) * 4096 + 0x1B] == body[p * 4096 + 0x1B]);
        }
        if out[p * 4096 + 0x1B] == 0x64 && crate::bytes::rd4(out, p * 4096 + 0x2C) == p + 1
            && crate::bytes::rd4(out, p * 4096 + 0x2C) != 0x03FF_FFFF {
            assert(body[boff + 0x1B] == 0x64 && crate::bytes::rd4(body, boff + 0x2C) == p + 1);
            assert(p + 1 < npages);
            assert(out[(p + 1) * 4096 + 0x1B] == body[p * 4096 + 0x1B]);
        }
    }
}

/// Build one row of the static table at slot 17.
fn build_uk17_row(a: u32, b: u32, c: u32, d: u32) -> (r: Vec<u8>)
    ensures
        r@ == spec_uk17_row(a, b, c, d),
{
    let mut r: Vec<u8> = Vec::new();
    crate::bytes::push_u32_le(&mut r, a);
    crate::bytes::push_u32_le(&mut r, b);
    crate::bytes::push_u32_le(&mut r, c);
    crate::bytes::push_u32_le(&mut r, d);
    proof {
        assert(r@ =~= spec_uk17_row(a, b, c, d));
    }
    r
}

} // verus!
