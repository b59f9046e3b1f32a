//! Data handed to the writers: one record per analyzed track, with its
//! beat grid, waveforms and cue points.
//!
//! The binary formats carry times in whole milliseconds and tempo as
//! beats per minute times one hundred, so those are the units used here.

use vstd::prelude::*;

verus! {

/// Everything the export writers need to know about one track.
pub struct TrackAnalysis {
    /// Unique track id, at least 1; the writer never mints ids.
    pub id: u32,
    /// File path relative to the USB root, slash separated.
    pub file_path: String,
    /// Track title.
    pub title: String,
    /// Artist name.
    pub artist: String,
    /// Album name, if known.
    pub album: Option<String>,
    /// Genre, if known.
    pub genre: Option<String>,
    /// Record label, if known.
    pub label: Option<String>,
    /// Duration in whole seconds, as the track row stores it.
    pub duration_secs: u16,
    /// Sample rate in Hz.
    pub sample_rate: u32,
    /// Bit depth.
    pub bit_depth: u16,
    /// Bitrate in kbps.
    pub bitrate: u32,
    /// Tempo as beats per minute times one hundred.
    pub bpm_100: u32,
    /// Musical key, if known.
    pub key: Option<Key>,
    /// Beat grid.
    pub beat_grid: BeatGrid,
    /// Waveform data for the player displays.
    pub waveform: Waveform,
    /// Cue points (hot cues, memory cues, loops).
    pub cue_points: Vec<CuePoint>,
    /// File size in bytes.
    pub file_size: u64,
    /// Fingerprint of the audio file, used by the analysis cache.
    pub file_hash: u64,
    /// Year of release, if known.
    pub year: Option<u16>,
    /// Free-form comment, if any.
    pub comment: Option<String>,
    /// Track number in its album, if known.
    pub track_number: Option<u32>,
    /// Audio container kind.
    pub file_type: FileType,
}

/// Audio file kind, recognized from the file extension.
#[derive(Debug, Clone, Copy, PartialEq, Eq, Structural, Default)]
pub enum FileType {
    #[default]
    Unknown,
    Mp3,
    M4a,
    Flac,
    Wav,
    Aiff,
}

/// `c` with an ASCII capital letter folded to lower case.
pub open spec fn lower_char(c: char) -> char {
    if 'A' <= c && c <= 'Z' {
        (((c as u8) + 32) as u8) as char
    } else {
        c
    }
}

/// `s` folded to ASCII lower case.
pub open spec fn lower_seq(s: Seq<char>) -> Seq<char> {
    Seq::new(s.len(), |i: int| lower_char(s[i]))
}

/// The file kind for a (case-folded) extension.
pub open spec fn spec_file_type_of(ext: Seq<char>) -> FileType {
    let l = lower_seq(ext);
    if l == "mp3"@ {
        FileType::Mp3
    } else if l == "m4a"@ || l == "aac"@ {
        FileType::M4a
    } else if l == "flac"@ {
        FileType::Flac
    } else if l == "wav"@ {
        FileType::Wav
    } else if l == "aiff"@ || l == "aif"@ {
        FileType::Aiff
    } else {
        FileType::Unknown
    }
}

/// True when `s`, folded to ASCII lower case, equals `t`.
fn lower_eq(s: &str, t: &str) -> (r: bool)
    ensures
        r == (lower_seq(s@) == t@),
{
    let n = s.unicode_len();
    let m = t.unicode_len();
    if n != m {
        proof {
            assert(lower_seq(s@).len() != t@.len());
        }
        return false;
    }
    let mut i: usize = 0;
    while i < n
        invariant
            i <= n,
            n == s@.len() && n == t@.len(),
            forall|j: int| 0 <= j < i ==> lower_seq(s@)[j] == t@[j],
        decreases n - i,
    {
        let mut c = s.get_char(i);
        if 'A' <= c && c <= 'Z' {
            c = ((c as u8) + 32) as char;
        }
        if c != t.get_char(i) {
            proof {
                assert(lower_seq(s@)[i as int] != t@[i as int]);
            }
            return false;
        }
        i = i + 1;
    }
    proof {
        assert(lower_seq(s@) =~= t@);
    }
    true
}

impl FileType {
    /// Recognize a file kind from its extension, ignoring ASCII case.
    pub fn from_extension(ext: &str) -> (r: FileType)
        ensures
            r == spec_file_type_of(ext@),
    {
        if lower_eq(ext, "mp3") {
            FileType::Mp3
        } else if lower_eq(ext, "m4a") || lower_eq(ext, "aac") {
            FileType::M4a
        } else if lower_eq(ext, "flac") {
            FileType::Flac
        } else if lower_eq(ext, "wav") {
            FileType::Wav
        } else if lower_eq(ext, "aiff") || lower_eq(ext, "aif") {
            FileType::Aiff
        } else {
            FileType::Unknown
        }
    }
}

/// Musical key as a pitch class (0 is C, 1 is C sharp, and so on) plus
/// major or minor.
#[derive(Debug, Clone, Copy, PartialEq, Eq, Structural)]
pub struct Key {
    /// Pitch class, 0 through 11.
    pub pitch_class: u8,
    /// True for major, false for minor.
    pub is_major: bool,
}

/// The circle-of-fifths position the player database uses for a pitch
/// class: C maps to 1, G to 2, and so on through the minor ids.
pub open spec fn spec_fifths_pos(pc: u8) -> u8 {
    if pc == 0 {
        1
    } else if pc == 1 {
        8
    } else if pc == 2 {
        3
    } else if pc == 3 {
        10
    } else if pc == 4 {
        5
    } else if pc == 5 {
        12
    } else if pc == 6 {
        7
    } else if pc == 7 {
        2
    } else if pc == 8 {
        9
    } else if pc == 9 {
        4
    } else if pc == 10 {
        11
    } else {
        6
    }
}

/// The database key id of `k`: minor keys take 1 through 12 in
/// circle-of-fifths order starting from C minor, major keys the same
/// order shifted by 12.
pub open spec fn spec_key_to_id(k: Key) -> u8 {
    if k.is_major {
        (spec_fifths_pos(k.pitch_class) + 12) as u8
    } else {
        spec_fifths_pos(k.pitch_class)
    }
}

/// The pitch class at a circle-of-fifths position, inverse of
/// `spec_fifths_pos`.
pub open spec fn spec_fifths_pc(pos: u8) -> u8 {
    if pos == 1 {
        0
    } else if pos == 2 {
        7
    } else if pos == 3 {
        2
    } else if pos == 4 {
        9
    } else if pos == 5 {
        4
    } else if pos == 6 {
        11
    } else if pos == 7 {
        6
    } else if pos == 8 {
        1
    } else if pos == 9 {
        8
    } else if pos == 10 {
        3
    } else if pos == 11 {
        10
    } else if pos == 12 {
        5
    } else {
        0
    }
}

/// The key a database id denotes: ids 1 through 12 are minor, 13 through
/// 24 major; 0 and out-of-range ids fall back to C minor.
pub open spec fn spec_key_from_id(id: u8) -> Key {
    if id == 0 {
        Key { pitch_class: 0, is_major: false }
    } else if id <= 12 {
        Key { pitch_class: spec_fifths_pc(id), is_major: false }
    } else if id <= 24 {
        Key { pitch_class: spec_fifths_pc((id - 12) as u8), is_major: true }
    } else {
        Key { pitch_class: 0, is_major: false }
    }
}

/// The note name of a pitch class.
pub open spec fn spec_note_name(pc: u8) -> Seq<char> {
    if pc == 0 {
        "C"@
    } else if pc == 1 {
        "C#"@
    } else if pc == 2 {
        "D"@
    } else if pc == 3 {
        "D#"@
    } else if pc == 4 {
        "E"@
    } else if pc == 5 {
        "F"@
    } else if pc == 6 {
        "F#"@
    } else if pc == 7 {
        "G"@
    } else if pc == 8 {
        "G#"@
    } else if pc == 9 {
        "A"@
    } else if pc == 10 {
        "A#"@
    } else {
        "B"@
    }
}

/// The display name of a key: the note name, with an `m` suffix for
/// minor keys.
pub open spec fn spec_key_name(k: Key) -> Seq<char> {
    if k.is_major {
        spec_note_name(k.pitch_class)
    } else {
        spec_note_name(k.pitch_class) + "m"@
    }
}

/// The Camelot wheel position of a key: relative keys share a number,
/// minor keys are `A`, major keys `B`.
pub open spec fn spec_camelot_pos(k: Key) -> u8 {
    if k.is_major {
        if k.pitch_class == 0 {
            8
        } else if k.pitch_class == 1 {
            3
        } else if k.pitch_class == 2 {
            10
        } else if k.pitch_class == 3 {
            5
        } else if k.pitch_class == 4 {
            12
        } else if k.pitch_class == 5 {
            7
        } else if k.pitch_class == 6 {
            2
        } else if k.pitch_class == 7 {
            9
        } else if k.pitch_class == 8 {
            4
        } else if k.pitch_class == 9 {
            11
        } else if k.pitch_class == 10 {
            6
        } else {
            1
        }
    } else {
        if k.pitch_class == 0 {
            5
        } else if k.pitch_class == 1 {
            12
        } else if k.pitch_class == 2 {
            7
        } else if k.pitch_class == 3 {
            2
        } else if k.pitch_class == 4 {
            9
        } else if k.pitch_class == 5 {
            4
        } else if k.pitch_class == 6 {
            11
        } else if k.pitch_class == 7 {
            6
        } else if k.pitch_class == 8 {
            1
        } else if k.pitch_class == 9 {
            8
        } else if k.pitch_class == 10 {
            3
        } else {
            10
        }
    }
}

/// The Open Key number of a key; major keys take suffix `d`, minor `m`.
pub open spec fn spec_open_key_pos(k: Key) -> u8 {
    if k.pitch_class == 0 {
        1
    } else if k.pitch_class == 1 {
        8
    } else if k.pitch_class == 2 {
        3
    } else if k.pitch_class == 3 {
        10
    } else if k.pitch_class == 4 {
        5
    } else if k.pitch_class == 5 {
        12
    } else if k.pitch_class == 6 {
        7
    } else if k.pitch_class == 7 {
        2
    } else if k.pitch_class == 8 {
        9
    } else if k.pitch_class == 9 {
        4
    } else if k.pitch_class == 10 {
        11
    } else {
        6
    }
}

/// The decimal digits of a wheel position 1 through 12.
pub open spec fn spec_pos_digits(pos: u8) -> Seq<char> {
    if pos == 1 {
        "1"@
    } else if pos == 2 {
        "2"@
    } else if pos == 3 {
        "3"@
    } else if pos == 4 {
        "4"@
    } else if pos == 5 {
        "5"@
    } else if pos == 6 {
        "6"@
    } else if pos == 7 {
        "7"@
    } else if pos == 8 {
        "8"@
    } else if pos == 9 {
        "9"@
    } else if pos == 10 {
        "10"@
    } else if pos == 11 {
        "11"@
    } else {
        "12"@
    }
}

/// The digits of a wheel position, as a string.
fn pos_digits(pos: u8) -> (r: String)
    requires
        1 <= pos <= 12,
    ensures
        r@ == spec_pos_digits(pos),
{
    if pos == 1 {
        String::from_str("1")
    } else if pos == 2 {
        String::from_str("2")
    } else if pos == 3 {
        String::from_str("3")
    } else if pos == 4 {
        String::from_str("4")
    } else if pos == 5 {
        String::from_str("5")
    } else if pos == 6 {
        String::from_str("6")
    } else if pos == 7 {
        String::from_str("7")
    } else if pos == 8 {
        String::from_str("8")
    } else if pos == 9 {
        String::from_str("9")
    } else if pos == 10 {
        String::from_str("10")
    } else if pos == 11 {
        String::from_str("11")
    } else {
        String::from_str("12")
    }
}

impl Key {
    /// A key from a pitch class (reduced modulo 12) and mode.
    pub fn new(pitch_class: u8, is_major: bool) -> (r: Key)
        ensures
            r.pitch_class == pitch_class % 12,
            r.is_major == is_major,
    {
        Key { pitch_class: pitch_class % 12, is_major }
    }

    /// The Camelot wheel notation, `1A` through `12B`.
    pub fn to_camelot(&self) -> (r: String)
        requires
            self.pitch_class < 12,
        ensures
            r@ == spec_pos_digits(spec_camelot_pos(*self)) + (if self.is_major {
                "B"@
            } else {
                "A"@
            }),
    {
        let pos = self.camelot_pos();
        let mut r = pos_digits(pos);
        if self.is_major {
            r.append("B");
        } else {
            r.append("A");
        }
        r
    }

    /// The Camelot wheel position of this key.
    fn camelot_pos(&self) -> (r: u8)
        requires
            self.pitch_class < 12,
        ensures
            r == spec_camelot_pos(*self),
            1 <= r <= 12,
    {
        let minor_map: [u8; 12] = [5, 12, 7, 2, 9, 4, 11, 6, 1, 8, 3, 10];
        let major_map: [u8; 12] = [8, 3, 10, 5, 12, 7, 2, 9, 4, 11, 6, 1];
        if self.is_major {
            major_map[self.pitch_class as usize]
        } else {
            minor_map[self.pitch_class as usize]
        }
    }

    /// The Open Key notation, `1m` through `12d`.
    pub fn to_open_key(&self) -> (r: String)
        requires
            self.pitch_class < 12,
        ensures
            r@ == spec_pos_digits(spec_open_key_pos(*self)) + (if self.is_major {
                "d"@
            } else {
                "m"@
            }),
    {
        let open_map: [u8; 12] = [1, 8, 3, 10, 5, 12, 7, 2, 9, 4, 11, 6];
        let pos = open_map[self.pitch_class as usize];
        let mut r = pos_digits(pos);
        if self.is_major {
            r.append("d");
        } else {
            r.append("m");
        }
        r
    }

    /// The database key id, 1 through 24.
    pub fn to_rekordbox_id(&self) -> (r: u8)
        requires
            self.pitch_class < 12,
        ensures
            r == spec_key_to_id(*self),
    {
        let minor_map: [u8; 12] = [1, 8, 3, 10, 5, 12, 7, 2, 9, 4, 11, 6];
        let id = minor_map[self.pitch_class as usize];
        if self.is_major {
            id + 12
        } else {
            id
        }
    }

    /// The key a database id denotes; 0 and out-of-range ids fall back
    /// to C minor.
    pub fn from_rekordbox_id(id: u8) -> (r: Key)
        ensures
            r == spec_key_from_id(id),
    {
        let inverse_map: [u8; 13] = [0, 0, 7, 2, 9, 4, 11, 6, 1, 8, 3, 10, 5];
        if id == 0 {
            Key { pitch_class: 0, is_major: false }
        } else if id <= 12 {
            Key { pitch_class: inverse_map[id as usize], is_major: false }
        } else if id <= 24 {
            Key { pitch_class: inverse_map[(id - 12) as usize], is_major: true }
        } else {
            Key { pitch_class: 0, is_major: false }
        }
    }

    /// The display name, such as `Am` or `C`.
    pub fn name(&self) -> (r: String)
        requires
            self.pitch_class < 12,
        ensures
            r@ == spec_key_name(*self),
    {
        let pc = self.pitch_class;
        let note = if pc == 0 {
            "C"
        } else if pc == 1 {
            "C#"
        } else if pc == 2 {
            "D"
        } else if pc == 3 {
            "D#"
        } else if pc == 4 {
            "E"
        } else if pc == 5 {
            "F"
        } else if pc == 6 {
            "F#"
        } else if pc == 7 {
            "G"
        } else if pc == 8 {
            "G#"
        } else if pc == 9 {
            "A"
        } else if pc == 10 {
            "A#"
        } else {
            "B"
        };
        let mut r = String::from_str(note);
        if !self.is_major {
            r.append("m");
        }
        r
    }
}

/// A key survives the trip through its database id.
pub proof fn lemma_key_id_roundtrip(k: Key)
    requires
        k.pitch_class < 12,
    ensures
        spec_key_from_id(spec_key_to_id(k)) == k,
{
}

/// One beat of the beat grid.
#[derive(Debug, Clone, Copy, PartialEq, Eq, Structural)]
pub struct Beat {
    /// Position within the bar, 1 through 4.
    pub beat_number: u8,
    /// Time from track start in milliseconds.
    pub time_ms: u32,
    /// Tempo at this beat, beats per minute times one hundred.
    pub tempo_100: u16,
}

/// The beat grid: every beat position of the track.
#[derive(Debug, Default)]
pub struct BeatGrid {
    /// Tempo as beats per minute times one hundred.
    pub bpm_100: u32,
    /// First beat position in milliseconds from track start.
    pub first_beat_ms: u32,
    /// The beats, in time order.
    pub beats: Vec<Beat>,
}

/// Time of beat `n` in a constant-tempo grid: the first beat time plus
/// `n` beat lengths, where one beat lasts `60000 / bpm` milliseconds.
pub open spec fn spec_beat_time(first_beat_ms: u32, bpm_100: u32, n: int) -> int {
    first_beat_ms + (n * 6_000_000) / (bpm_100 as int)
}

/// Beat `n` never comes before slot `n` milliseconds; this bounds the
/// number of beats that fit in a track.
proof fn lemma_beat_time_ge_n(first_beat_ms: u32, bpm_100: u32, n: int)
    requires
        1 <= bpm_100 <= 0xFFFF,
        0 <= n,
    ensures
        n <= spec_beat_time(first_beat_ms, bpm_100, n),
{
    let b = bpm_100 as int;
    assert(n * b <= n * 6_000_000) by (nonlinear_arith)
        requires
            1 <= b <= 6_000_000 && 0 <= n,
    ;
    vstd::arithmetic::div_mod::lemma_div_is_ordered(n * b, n * 6_000_000, b);
    vstd::arithmetic::div_mod::lemma_div_by_multiple(n, b);
}

impl BeatGrid {
    /// A constant-tempo grid: beats every `60000 / bpm` milliseconds
    /// starting at `first_beat_ms`, for as long as the beat falls before
    /// `duration_ms`; bar positions cycle 1 through 4.
    pub fn constant_tempo(bpm_100: u32, first_beat_ms: u32, duration_ms: u32) -> (r: BeatGrid)
        requires
            1 <= bpm_100 <= 0xFFFF,
        ensures
            r.bpm_100 == bpm_100,
            r.first_beat_ms == first_beat_ms,
            forall|k: int|
                0 <= k < r.beats@.len() ==> #[trigger] r.beats@[k] == (Beat {
                    beat_number: ((k % 4) + 1) as u8,
                    time_ms: spec_beat_time(first_beat_ms, bpm_100, k) as u32,
                    tempo_100: bpm_100 as u16,
                }),
            forall|k: int|
                0 <= k < r.beats@.len() ==> spec_beat_time(first_beat_ms, bpm_100, k)
                    < duration_ms,
            spec_beat_time(first_beat_ms, bpm_100, r.beats@.len() as int) >= duration_ms,
    {
        let mut beats: Vec<Beat> = Vec::new();
        let mut n: u64 = 0;
        let mut time: u64 = first_beat_ms as u64;
        proof {
            lemma_beat_time_ge_n(first_beat_ms, bpm_100, 0);
        }
        while time < duration_ms as u64
            invariant
                1 <= bpm_100 <= 0xFFFF,
                beats@.len() == n,
                n <= time,
                time == spec_beat_time(first_beat_ms, bpm_100, n as int),
                forall|k: int|
                    0 <= k < n ==> #[trigger] beats@[k] == (Beat {
                        beat_number: ((k % 4) + 1) as u8,
                        time_ms: spec_beat_time(first_beat_ms, bpm_100, k) as u32,
                        tempo_100: bpm_100 as u16,
                    }),
                forall|k: int|
                    0 <= k < n ==> spec_beat_time(first_beat_ms, bpm_100, k) < duration_ms,
            decreases duration_ms - n,
        {
            beats.push(
                Beat {
                    beat_number: ((n % 4) + 1) as u8,
                    time_ms: time as u32,
                    tempo_100: bpm_100 as u16,
                },
            );
            n = n + 1;
            proof {
                lemma_beat_time_ge_n(first_beat_ms, bpm_100, n as int);
                assert(n * 6_000_000 <= 0xFFFF_FFFFu64 * 6_000_000) by (nonlinear_arith)
                    requires
                        n <= 0xFFFF_FFFFu64,
                ;
            }
            time = first_beat_ms as u64 + (n * 6_000_000) / (bpm_100 as u64);
        }
        BeatGrid { bpm_100, first_beat_ms, beats }
    }

    /// The number of beats in the grid.
    pub fn len(&self) -> (r: usize)
        ensures
            r == self.beats@.len(),
    {
        self.beats.len()
    }

    /// True when the grid has no beats.
    pub fn is_empty(&self) -> (r: bool)
        ensures
            r == (self.beats@.len() == 0),
    {
        self.beats.is_empty()
    }
}

/// Cue point kind.
#[derive(Debug, Clone, Copy, PartialEq, Eq, Structural, Default)]
pub enum CueType {
    /// Plain cue point.
    #[default]
    Cue,
    /// Fade-in point.
    FadeIn,
    /// Fade-out point.
    FadeOut,
    /// Load point.
    Load,
    /// Loop.
    Loop,
}

/// Hot cue color: a palette index plus the RGB shown on the pads.
#[derive(Debug, Clone, Copy, PartialEq, Eq, Structural, Default)]
pub struct HotCueColor {
    /// Palette index, `0x00` through `0x3E`.
    pub palette_index: u8,
    /// Red for the pad LED.
    pub red: u8,
    /// Green for the pad LED.
    pub green: u8,
    /// Blue for the pad LED.
    pub blue: u8,
}

/// The stock color assigned to a hot cue slot.
pub open spec fn spec_default_color(slot: u8) -> HotCueColor {
    if slot == 2 {
        HotCueColor { palette_index: 0x09, red: 0x00, green: 0xE0, blue: 0xFF }
    } else if slot == 3 {
        HotCueColor { palette_index: 0x11, red: 0x00, green: 0x50, blue: 0xFF }
    } else if slot == 4 {
        HotCueColor { palette_index: 0x3E, red: 0x64, green: 0x73, blue: 0xFF }
    } else if slot == 5 {
        HotCueColor { palette_index: 0x1A, red: 0xFF, green: 0x00, blue: 0xC8 }
    } else if slot == 6 {
        HotCueColor { palette_index: 0x2A, red: 0xE6, green: 0x28, blue: 0x28 }
    } else if slot == 7 {
        HotCueColor { palette_index: 0x22, red: 0xFF, green: 0xA0, blue: 0x00 }
    } else if slot == 8 {
        HotCueColor { palette_index: 0x32, red: 0xFF, green: 0xFF, blue: 0x00 }
    } else {
        HotCueColor { palette_index: 0x00, red: 0x28, green: 0xE2, blue: 0x14 }
    }
}

impl HotCueColor {
    /// The stock color for a hot cue slot (1 through 8; anything else
    /// gets the slot-1 green).
    pub fn default_for_slot(slot: u8) -> (r: HotCueColor)
        ensures
            r == spec_default_color(slot),
    {
        if slot == 2 {
            HotCueColor { palette_index: 0x09, red: 0x00, green: 0xE0, blue: 0xFF }
        } else if slot == 3 {
            HotCueColor { palette_index: 0x11, red: 0x00, green: 0x50, blue: 0xFF }
        } else if slot == 4 {
            HotCueColor { palette_index: 0x3E, red: 0x64, green: 0x73, blue: 0xFF }
        } else if slot == 5 {
            HotCueColor { palette_index: 0x1A, red: 0xFF, green: 0x00, blue: 0xC8 }
        } else if slot == 6 {
            HotCueColor { palette_index: 0x2A, red: 0xE6, green: 0x28, blue: 0x28 }
        } else if slot == 7 {
            HotCueColor { palette_index: 0x22, red: 0xFF, green: 0xA0, blue: 0x00 }
        } else if slot == 8 {
            HotCueColor { palette_index: 0x32, red: 0xFF, green: 0xFF, blue: 0x00 }
        } else {
            HotCueColor { palette_index: 0x00, red: 0x28, green: 0xE2, blue: 0x14 }
        }
    }
}

/// A cue point: hot cue slot 0 means a memory cue.
#[derive(Debug, Default)]
pub struct CuePoint {
    /// Hot cue slot, 1 through 8; 0 for a memory cue.
    pub hot_cue: u8,
    /// Kind of cue.
    pub cue_type: CueType,
    /// Position in milliseconds from track start.
    pub time_ms: u32,
    /// Loop length in milliseconds; 0 when the cue is not a loop.
    pub loop_ms: u32,
    /// Label shown next to the cue, if any.
    pub comment: Option<String>,
    /// Pad color, for hot cues.
    pub color: Option<HotCueColor>,
}

/// Waveform data for the player displays.
#[derive(Debug, Default)]
pub struct Waveform {
    /// Monochrome overview, 400 columns.
    pub preview: WaveformPreview,
    /// Color overview, 1200 columns.
    pub color_preview: WaveformColorPreview,
    /// Color detail, 150 entries per second.
    pub detail: WaveformDetail,
}

/// Monochrome overview waveform.
#[derive(Debug, Default)]
pub struct WaveformPreview {
    /// The columns; the writer pads or cuts to 400.
    pub columns: Vec<WaveformColumn>,
}

/// One column of the monochrome overview.
#[derive(Debug, Clone, Copy, PartialEq, Eq, Structural, Default)]
pub struct WaveformColumn {
    /// Height, 0 through 31.
    pub height: u8,
    /// Whiteness, 0 through 7; higher reads as louder.
    pub whiteness: u8,
}

/// The packed byte of an overview column: height in the high five bits,
/// whiteness in the low three.
pub open spec fn spec_column_byte(c: WaveformColumn) -> u8 {
    (((c.height & 0x1F) << 3) | (c.whiteness & 0x07)) as u8
}

/// The column a packed byte denotes.
pub open spec fn spec_column_of_byte(byte: u8) -> WaveformColumn {
    WaveformColumn { height: ((byte >> 3) & 0x1F) as u8, whiteness: (byte & 0x07) as u8 }
}

impl WaveformColumn {
    /// Pack the column into its overview byte.
    pub fn to_byte(&self) -> (r: u8)
        ensures
            r == spec_column_byte(*self),
    {
        ((self.height & 0x1F) << 3) | (self.whiteness & 0x07)
    }

    /// Unpack an overview byte.
    pub fn from_byte(byte: u8) -> (r: WaveformColumn)
        ensures
            r == spec_column_of_byte(byte),
    {
        WaveformColumn { height: (byte >> 3) & 0x1F, whiteness: byte & 0x07 }
    }
}

/// An in-range overview column survives the trip through its byte.
pub proof fn lemma_column_roundtrip(c: WaveformColumn)
    requires
        c.height <= 31,
        c.whiteness <= 7,
    ensures
        spec_column_of_byte(spec_column_byte(c)) == c,
{
    let h = c.height;
    let w = c.whiteness;
    assert(((((h & 0x1F) << 3) | (w & 0x07)) >> 3) & 0x1F == h && (((h & 0x1F) << 3) | (w & 0x07))
        & 0x07 == w) by (bit_vector)
        requires
            h <= 31 && w <= 7,
    ;
}

/// Color overview waveform.
#[derive(Debug, Default)]
pub struct WaveformColorPreview {
    /// The columns; the writer pads or cuts to 1200.
    pub columns: Vec<WaveformColorPreviewColumn>,
}

/// One column of the color overview; each field holds seven bits.
#[derive(Debug, Clone, Copy, PartialEq, Eq, Structural, Default)]
pub struct WaveformColorPreviewColumn {
    /// Height.
    pub height: u8,
    /// Luminance boost.
    pub luminance: u8,
    /// Blue intensity.
    pub blue: u8,
    /// Red intensity.
    pub red: u8,
    /// Green intensity.
    pub green: u8,
    /// Second blue channel.
    pub blue2: u8,
}

/// The six bytes of a color overview column, each masked to seven bits.
pub open spec fn spec_color_preview_bytes(c: WaveformColorPreviewColumn) -> Seq<u8> {
    seq![
        (c.height & 0x7F) as u8,
        (c.luminance & 0x7F) as u8,
        (c.blue & 0x7F) as u8,
        (c.red & 0x7F) as u8,
        (c.green & 0x7F) as u8,
        (c.blue2 & 0x7F) as u8,
    ]
}

impl WaveformColorPreviewColumn {
    /// Pack the column into its six bytes.
    pub fn to_bytes(&self) -> (r: [u8; 6])
        ensures
            r@ == spec_color_preview_bytes(*self),
    {
        let r = [
            self.height & 0x7F,
            self.luminance & 0x7F,
            self.blue & 0x7F,
            self.red & 0x7F,
            self.green & 0x7F,
            self.blue2 & 0x7F,
        ];
        proof {
            assert(r@ =~= spec_color_preview_bytes(*self));
        }
        r
    }

    /// Unpack six bytes into a column.
    pub fn from_bytes(bytes: [u8; 6]) -> (r: WaveformColorPreviewColumn)
        ensures
            r == (WaveformColorPreviewColumn {
                height: (bytes[0] & 0x7F) as u8,
                luminance: (bytes[1] & 0x7F) as u8,
                blue: (bytes[2] & 0x7F) as u8,
                red: (bytes[3] & 0x7F) as u8,
                green: (bytes[4] & 0x7F) as u8,
                blue2: (bytes[5] & 0x7F) as u8,
            }),
    {
        WaveformColorPreviewColumn {
            height: bytes[0] & 0x7F,
            luminance: bytes[1] & 0x7F,
            blue: bytes[2] & 0x7F,
            red: bytes[3] & 0x7F,
            green: bytes[4] & 0x7F,
            blue2: bytes[5] & 0x7F,
        }
    }
}

/// An in-range color overview column survives the trip through its six
/// bytes.
pub proof fn lemma_color_preview_roundtrip(c: WaveformColorPreviewColumn)
    requires
        c.height <= 0x7F,
        c.luminance <= 0x7F,
        c.blue <= 0x7F,
        c.red <= 0x7F,
        c.green <= 0x7F,
        c.blue2 <= 0x7F,
    ensures
        (WaveformColorPreviewColumn {
            height: (spec_color_preview_bytes(c)[0] & 0x7F) as u8,
            luminance: (spec_color_preview_bytes(c)[1] & 0x7F) as u8,
            blue: (spec_color_preview_bytes(c)[2] & 0x7F) as u8,
            red: (spec_color_preview_bytes(c)[3] & 0x7F) as u8,
            green: (spec_color_preview_bytes(c)[4] & 0x7F) as u8,
            blue2: (spec_color_preview_bytes(c)[5] & 0x7F) as u8,
        }) == c,
{
    assert(forall|b: u8| b <= 0x7F ==> ((b & 0x7F) & 0x7F) == b) by (bit_vector);
}

/// Color detail waveform.
#[derive(Debug, Default)]
pub struct WaveformDetail {
    /// Color entries, 150 per second of audio.
    pub entries: Vec<WaveformColorEntry>,
}

/// One color detail entry: three color channels of three bits and a
/// five-bit height.
#[derive(Debug, Clone, Copy, PartialEq, Eq, Structural, Default)]
pub struct WaveformColorEntry {
    /// Red channel, 0 through 7 (low-band energy).
    pub red: u8,
    /// Green channel, 0 through 7 (mid-band energy).
    pub green: u8,
    /// Blue channel, 0 through 7 (high-band energy).
    pub blue: u8,
    /// Height, 0 through 31.
    pub height: u8,
}

/// The packed sixteen-bit value of a detail entry: red in bits 15..13,
/// green in 12..10, blue in 9..7, height in 6..2.
pub open spec fn spec_color_entry_value(e: WaveformColorEntry) -> u16 {
    ((((e.red as u16) & 0x07) << 13) | (((e.green as u16) & 0x07) << 10) | (((e.blue as u16)
        & 0x07) << 7) | (((e.height as u16) & 0x1F) << 2)) as u16
}

/// The entry a packed value denotes.
pub open spec fn spec_color_entry_of_value(v: u16) -> WaveformColorEntry {
    WaveformColorEntry {
        red: ((v >> 13) & 0x07) as u8,
        green: ((v >> 10) & 0x07) as u8,
        blue: ((v >> 7) & 0x07) as u8,
        height: ((v >> 2) & 0x1F) as u8,
    }
}

impl WaveformColorEntry {
    /// Pack the entry into its two big-endian bytes.
    pub fn to_bytes(&self) -> (r: [u8; 2])
        ensures
            r@ == crate::bytes::be2(spec_color_entry_value(*self)),
    {
        let value: u16 = (((self.red as u16) & 0x07) << 13) | (((self.green as u16) & 0x07) << 10)
            | (((self.blue as u16) & 0x07) << 7) | (((self.height as u16) & 0x1F) << 2);
        let r = [((value >> 8) & 0xff) as u8, (value & 0xff) as u8];
        proof {
            assert(r@ =~= crate::bytes::be2(spec_color_entry_value(*self)));
        }
        r
    }

    /// Unpack two big-endian bytes into an entry.
    pub fn from_bytes(bytes: [u8; 2]) -> (r: WaveformColorEntry)
        ensures
            r == spec_color_entry_of_value((((bytes[0] as u16) << 8) | (bytes[1] as u16)) as u16),
    {
        let value: u16 = ((bytes[0] as u16) << 8) | (bytes[1] as u16);
        WaveformColorEntry {
            red: ((value >> 13) & 0x07) as u8,
            green: ((value >> 10) & 0x07) as u8,
            blue: ((value >> 7) & 0x07) as u8,
            height: ((value >> 2) & 0x1F) as u8,
        }
    }
}

/// An in-range detail entry survives the trip through its packed value.
pub proof fn lemma_color_entry_roundtrip(e: WaveformColorEntry)
    requires
        e.red <= 7,
        e.green <= 7,
        e.blue <= 7,
        e.height <= 31,
    ensures
        spec_color_entry_of_value(spec_color_entry_value(e)) == e,
{
    let r = e.red as u16;
    let g = e.green as u16;
    let b = e.blue as u16;
    let h = e.height as u16;
    let v = ((((r & 0x07) << 13) | ((g & 0x07) << 10) | ((b & 0x07) << 7) | ((h & 0x1F)
        << 2)) as u16);
    assert(((v >> 13) & 0x07) == r && ((v >> 10) & 0x07) == g && ((v >> 7) & 0x07) == b && ((v >> 2)
        & 0x1F) == h) by (bit_vector)
        requires
            v == ((((r & 0x07) << 13) | ((g & 0x07) << 10) | ((b & 0x07) << 7) | ((h & 0x1F)
                << 2)) as u16) && r <= 7 && g <= 7 && b <= 7 && h <= 31,
    ;
}

/// Unpacking two big-endian bytes reads back what `to_bytes` wrote.
pub proof fn lemma_color_entry_bytes_roundtrip(e: WaveformColorEntry)
    requires
        e.red <= 7,
        e.green <= 7,
        e.blue <= 7,
        e.height <= 31,
    ensures
        spec_color_entry_of_value(
            ((((crate::bytes::be2(spec_color_entry_value(e))[0]) as u16) << 8) | ((crate::bytes::be2(
                spec_color_entry_value(e),
            )[1]) as u16)) as u16,
        ) == e,
{
    let v = spec_color_entry_value(e);
    assert(((((((v >> 8) & 0xff) as u8) as u16) << 8) | (((v & 0xff) as u8) as u16)) as u16 == v)
        by (bit_vector);
    lemma_color_entry_roundtrip(e);
}

} // verus!
