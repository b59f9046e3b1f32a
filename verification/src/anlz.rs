//! ANLZ analysis file writer (`.DAT`, `.EXT`, `.2EX`).
//!
//! An ANLZ file is a 28-byte `PMAI` header followed by tagged sections.
//! Every section starts with a four-byte ASCII tag, a big-endian `u32`
//! header length (measured past the tag), and a big-endian `u32` full
//! section length; all integers in these files are big-endian.

use vstd::prelude::*;

use crate::bytes::be2;
use crate::bytes::be4;
use crate::bytes::concat_bytes;
use crate::bytes::lemma_concat_bytes_push;
use crate::bytes::zeros;
use crate::string::u16s_be;
use crate::string::utf16_seq;
use crate::textfmt::spec_dec_pad;
use crate::textfmt::spec_hex_upper;
use vstd::utf8::encode_utf8;

use crate::track::Beat;
use crate::track::Waveform;
use crate::track::BeatGrid;
use crate::track::CuePoint;
use crate::track::CueType;
use crate::track::spec_default_color;
use crate::track::WaveformColorPreviewColumn;
use crate::track::WaveformColorEntry;
use crate::track::WaveformColumn;
use crate::track::spec_color_entry_value;
use crate::track::spec_color_preview_bytes;
use crate::track::spec_column_byte;

verus! {

/// The four tag bytes of a section.
pub open spec fn tag4(a: u8, b: u8, c: u8, d: u8) -> Seq<u8> {
    seq![a, b, c, d]
}

/// Append four tag bytes.
fn push_tag(out: &mut Vec<u8>, a: u8, b: u8, c: u8, d: u8)
    ensures
        final(out)@ == old(out)@ + tag4(a, b, c, d),
{
    out.push(a);
    out.push(b);
    out.push(c);
    out.push(d);
    assert(out@ =~= old(out)@ + tag4(a, b, c, d));
}

/// The eight bytes of one beat: bar position, tempo, time.
pub open spec fn spec_beat_bytes(b: Beat) -> Seq<u8> {
    be2(b.beat_number as u16) + be2(b.tempo_100) + be4(b.time_ms)
}

/// The `PQTZ` beat grid section: two zero words, the beat count, then
/// eight bytes per beat.
pub open spec fn spec_pqtz_section(beats: Seq<Beat>) -> Seq<u8> {
    tag4(0x50, 0x51, 0x54, 0x5A) + be4(20) + be4((24 + 8 * beats.len()) as u32) + be4(0) + be4(0)
        + be4(beats.len() as u32) + concat_bytes(beats.map_values(|b: Beat| spec_beat_bytes(b)))
}

/// Write the `PQTZ` beat grid section.
pub fn generate_pqtz_section(grid: &BeatGrid) -> (r: Vec<u8>)
    requires
        grid.beats@.len() <= 0x00FF_FFFF,
    ensures
        r@ == spec_pqtz_section(grid.beats@),
        r@.len() == 24 + 8 * grid.beats@.len(),
{
    let count = grid.beats.len();
    let mut out: Vec<u8> = Vec::new();
    push_tag(&mut out, 0x50, 0x51, 0x54, 0x5A);
    crate::bytes::push_u32_be(&mut out, 20);
    crate::bytes::push_u32_be(&mut out, (24 + 8 * count) as u32);
    crate::bytes::push_u32_be(&mut out, 0);
    crate::bytes::push_u32_be(&mut out, 0);
    crate::bytes::push_u32_be(&mut out, count as u32);
    let ghost header = out@;
    let ghost f = |b: Beat| spec_beat_bytes(b);
    let mut i: usize = 0;
    while i < count
        invariant
            i <= count,
            count == grid.beats@.len(),
            header.len() == 24,
            out@ == header + concat_bytes(grid.beats@.subrange(0, i as int).map_values(f)),
            out@.len() == 24 + 8 * i,
            f == (|b: Beat| spec_beat_bytes(b)),
        decreases count - i,
    {
        let b = grid.beats[i];
        let ghost before = grid.beats@.subrange(0, i as int).map_values(f);
        crate::bytes::push_u16_be(&mut out, b.beat_number as u16);
        crate::bytes::push_u16_be(&mut out, b.tempo_100);
        crate::bytes::push_u32_be(&mut out, b.time_ms);
        i = i + 1;
        proof {
            assert(grid.beats@.subrange(0, i as int).map_values(f) =~= before.push(
                spec_beat_bytes(b),
            ));
            lemma_concat_bytes_push(before, spec_beat_bytes(b));
            assert(out@ =~= header + concat_bytes(grid.beats@.subrange(0, i as int).map_values(f)));
        }
    }
    proof {
        assert(grid.beats@.subrange(0, count as int) =~= grid.beats@);
        assert(out@ =~= spec_pqtz_section(grid.beats@));
    }
    out
}

/// The `PWAV` monochrome overview section: always 400 column bytes,
/// padded with zeros past the supplied columns.
pub open spec fn spec_pwav_section(cols: Seq<WaveformColumn>) -> Seq<u8> {
    tag4(0x50, 0x57, 0x41, 0x56) + be4(16) + be4(420) + be4(400) + be4(0) + Seq::new(
        400,
        |i: int|
            if i < cols.len() {
                spec_column_byte(cols[i])
            } else {
                0u8
            },
    )
}

/// Write the `PWAV` monochrome overview section.
pub fn generate_pwav_section(cols: &Vec<WaveformColumn>) -> (r: Vec<u8>)
    ensures
        r@ == spec_pwav_section(cols@),
        r@.len() == 420,
{
    let mut out: Vec<u8> = Vec::new();
    push_tag(&mut out, 0x50, 0x57, 0x41, 0x56);
    crate::bytes::push_u32_be(&mut out, 16);
    crate::bytes::push_u32_be(&mut out, 420);
    crate::bytes::push_u32_be(&mut out, 400);
    crate::bytes::push_u32_be(&mut out, 0);
    let ghost header = out@;
    let ghost body = Seq::new(
        400,
        |i: int|
            if i < cols@.len() {
                spec_column_byte(cols@[i])
            } else {
                0u8
            },
    );
    let mut i: usize = 0;
    while i < 400
        invariant
            i <= 400,
            header.len() == 20,
            out@ == header + body.subrange(0, i as int),
            body == Seq::new(
                400,
                |j: int|
                    if j < cols@.len() {
                        spec_column_byte(cols@[j])
                    } else {
                        0u8
                    },
            ),
        decreases 400 - i,
    {
        if i < cols.len() {
            let c = cols[i];
            out.push(c.to_byte());
        } else {
            out.push(0u8);
        }
        i = i + 1;
        assert(out@ =~= header + body.subrange(0, i as int));
    }
    proof {
        assert(body.subrange(0, 400) =~= body);
        assert(out@ =~= spec_pwav_section(cols@));
    }
    out
}

/// The packed byte of one three-band overview entry: three bits of
/// height, then three bits of whiteness averaged from the colors.
pub open spec fn spec_pwv3_byte(e: WaveformColorEntry) -> u8 {
    let inten = (e.red + e.green + e.blue) as int / 3;
    let wh = if inten > 7 {
        7
    } else {
        inten
    };
    let h3 = if (e.height >> 2) > 7 {
        7u8
    } else {
        (e.height >> 2) as u8
    };
    (((h3 as u8) << 5) | ((wh as u8) << 2)) as u8
}

/// The `PWV3` three-band overview section: one byte per detail entry.
pub open spec fn spec_pwv3_section(entries: Seq<WaveformColorEntry>) -> Seq<u8> {
    tag4(0x50, 0x57, 0x56, 0x33) + be4(16) + be4((20 + entries.len()) as u32) + be4(
        entries.len() as u32,
    ) + be4(0) + Seq::new(entries.len(), |i: int| spec_pwv3_byte(entries[i]))
}

/// Write the `PWV3` three-band overview section.
pub fn generate_pwv3_section(entries: &Vec<WaveformColorEntry>) -> (r: Vec<u8>)
    requires
        entries@.len() <= 0x00FF_FFFF,
    ensures
        r@ == spec_pwv3_section(entries@),
        r@.len() == 20 + entries@.len(),
{
    let count = entries.len();
    let mut out: Vec<u8> = Vec::new();
    push_tag(&mut out, 0x50, 0x57, 0x56, 0x33);
    crate::bytes::push_u32_be(&mut out, 16);
    crate::bytes::push_u32_be(&mut out, (20 + count) as u32);
    crate::bytes::push_u32_be(&mut out, count as u32);
    crate::bytes::push_u32_be(&mut out, 0);
    let ghost header = out@;
    let ghost body = Seq::new(entries@.len(), |i: int| spec_pwv3_byte(entries@[i]));
    let mut i: usize = 0;
    while i < count
        invariant
            i <= count,
            count == entries@.len(),
            header.len() == 20,
            out@ == header + body.subrange(0, i as int),
            body == Seq::new(entries@.len(), |j: int| spec_pwv3_byte(entries@[j])),
        decreases count - i,
    {
        let e = entries[i];
        let sum: u16 = e.red as u16 + e.green as u16 + e.blue as u16;
        let inten: u16 = sum / 3;
        let wh: u8 = if inten > 7 {
            7
        } else {
            inten as u8
        };
        let h3: u8 = if (e.height >> 2) > 7 {
            7
        } else {
            e.height >> 2
        };
        out.push((h3 << 5) | (wh << 2));
        i = i + 1;
        proof {
            assert((h3 << 5) | (wh << 2) == spec_pwv3_byte(e));
            assert(out@ =~= header + body.subrange(0, i as int));
        }
    }
    proof {
        assert(body.subrange(0, count as int) =~= body);
        assert(out@ =~= spec_pwv3_section(entries@));
    }
    out
}

/// The `PWV4` color overview section: always 1200 columns of six bytes,
/// padded with zeros past the supplied columns.
pub open spec fn spec_pwv4_section(cols: Seq<WaveformColorPreviewColumn>) -> Seq<u8> {
    tag4(0x50, 0x57, 0x56, 0x34) + be4(16) + be4(7220) + be4(1200) + be4(0) + concat_bytes(
        Seq::new(
            1200,
            |i: int|
                if i < cols.len() {
                    spec_color_preview_bytes(cols[i])
                } else {
                    zeros(6)
                },
        ),
    )
}

/// Write the `PWV4` color overview section.
pub fn generate_pwv4_section(cols: &Vec<WaveformColorPreviewColumn>) -> (r: Vec<u8>)
    ensures
        r@ == spec_pwv4_section(cols@),
        r@.len() == 7220,
{
    let mut out: Vec<u8> = Vec::new();
    push_tag(&mut out, 0x50, 0x57, 0x56, 0x34);
    crate::bytes::push_u32_be(&mut out, 16);
    crate::bytes::push_u32_be(&mut out, 7220);
    crate::bytes::push_u32_be(&mut out, 1200);
    crate::bytes::push_u32_be(&mut out, 0);
    let ghost header = out@;
    let ghost parts = Seq::new(
        1200,
        |i: int|
            if i < cols@.len() {
                spec_color_preview_bytes(cols@[i])
            } else {
                zeros(6)
            },
    );
    let mut i: usize = 0;
    while i < 1200
        invariant
            i <= 1200,
            header.len() == 20,
            out@ == header + concat_bytes(parts.subrange(0, i as int)),
            out@.len() == 20 + 6 * i,
            parts == Seq::new(
                1200,
                |j: int|
                    if j < cols@.len() {
                        spec_color_preview_bytes(cols@[j])
                    } else {
                        zeros(6)
                    },
            ),
        decreases 1200 - i,
    {
        let ghost before = parts.subrange(0, i as int);
        if i < cols.len() {
            let c = cols[i];
            out.push(c.height & 0x7F);
            out.push(c.luminance & 0x7F);
            out.push(c.blue & 0x7F);
            out.push(c.red & 0x7F);
            out.push(c.green & 0x7F);
            out.push(c.blue2 & 0x7F);
        } else {
            crate::bytes::push_zeros(&mut out, 6);
        }
        i = i + 1;
        proof {
            assert(parts.subrange(0, i as int) =~= before.push(parts[i - 1]));
            lemma_concat_bytes_push(before, parts[i - 1]);
            assert(out@ =~= header + concat_bytes(parts.subrange(0, i as int)));
        }
    }
    proof {
        assert(parts.subrange(0, 1200) =~= parts);
        assert(out@ =~= spec_pwv4_section(cols@));
    }
    out
}

/// The `PWV5` color detail section: two big-endian bytes per entry.
pub open spec fn spec_pwv5_section(entries: Seq<WaveformColorEntry>) -> Seq<u8> {
    tag4(0x50, 0x57, 0x56, 0x35) + be4(16) + be4((20 + 2 * entries.len()) as u32) + be4(
        entries.len() as u32,
    ) + be4(0) + concat_bytes(
        entries.map_values(|e: WaveformColorEntry| be2(spec_color_entry_value(e))),
    )
}

/// Write the `PWV5` color detail section.
pub fn generate_pwv5_section(entries: &Vec<WaveformColorEntry>) -> (r: Vec<u8>)
    requires
        entries@.len() <= 0x00FF_FFFF,
    ensures
        r@ == spec_pwv5_section(entries@),
        r@.len() == 20 + 2 * entries@.len(),
{
    let count = entries.len();
    let mut out: Vec<u8> = Vec::new();
    push_tag(&mut out, 0x50, 0x57, 0x56, 0x35);
    crate::bytes::push_u32_be(&mut out, 16);
    crate::bytes::push_u32_be(&mut out, (20 + 2 * count) as u32);
    crate::bytes::push_u32_be(&mut out, count as u32);
    crate::bytes::push_u32_be(&mut out, 0);
    let ghost header = out@;
    let ghost f = |e: WaveformColorEntry| be2(spec_color_entry_value(e));
    let mut i: usize = 0;
    while i < count
        invariant
            i <= count,
            count == entries@.len(),
            header.len() == 20,
            out@ == header + concat_bytes(entries@.subrange(0, i as int).map_values(f)),
            out@.len() == 20 + 2 * i,
            f == (|e: WaveformColorEntry| be2(spec_color_entry_value(e))),
        decreases count - i,
    {
        let e = entries[i];
        let ghost before = entries@.subrange(0, i as int).map_values(f);
        let value: u16 = (((e.red as u16) & 0x07) << 13) | (((e.green as u16) & 0x07) << 10) | (((
        e.blue as u16) & 0x07) << 7) | (((e.height as u16) & 0x1F) << 2);
        crate::bytes::push_u16_be(&mut out, value);
        i = i + 1;
        proof {
            assert(entries@.subrange(0, i as int).map_values(f) =~= before.push(
                be2(spec_color_entry_value(e)),
            ));
            lemma_concat_bytes_push(before, be2(spec_color_entry_value(e)));
            assert(out@ =~= header + concat_bytes(entries@.subrange(0, i as int).map_values(f)));
        }
    }
    proof {
        assert(entries@.subrange(0, count as int) =~= entries@);
        assert(out@ =~= spec_pwv5_section(entries@));
    }
    out
}

/// The `PPTH` path section: the UTF-16 code unit count, then the path
/// in UTF-16BE.
pub open spec fn spec_ppth_section(path: Seq<char>) -> Seq<u8> {
    tag4(0x50, 0x50, 0x54, 0x48) + be4(12) + be4((16 + 2 * utf16_seq(path).len()) as u32) + be4(
        utf16_seq(path).len() as u32,
    ) + u16s_be(utf16_seq(path))
}

/// Write the `PPTH` path section.
pub fn generate_ppth_section(file_path: &str) -> (r: Vec<u8>)
    requires
        file_path@.len() <= 0x00FF_FFFF,
    ensures
        r@ == spec_ppth_section(file_path@),
        r@.len() == 16 + 2 * utf16_seq(file_path@).len(),
        r@.len() <= 16 + 4 * file_path@.len(),
{
    let (body, units) = crate::string::utf16_be_body(file_path);
    let mut out: Vec<u8> = Vec::new();
    push_tag(&mut out, 0x50, 0x50, 0x54, 0x48);
    crate::bytes::push_u32_be(&mut out, 12);
    crate::bytes::push_u32_be(&mut out, (16 + 2 * units) as u32);
    crate::bytes::push_u32_be(&mut out, units as u32);
    crate::bytes::push_bytes(&mut out, &body);
    proof {
        assert(out@ =~= spec_ppth_section(file_path@));
    }
    out
}

/// The cue status code in `PCOB` entries.
pub open spec fn spec_pcob_status(t: CueType) -> u32 {
    match t {
        CueType::Cue => 0,
        CueType::FadeIn => 1,
        CueType::FadeOut => 2,
        CueType::Load => 3,
        CueType::Loop => 4,
    }
}

/// The cue type code in `PCO2` entries.
pub open spec fn spec_pco2_type(t: CueType) -> u32 {
    match t {
        CueType::Cue => 1,
        CueType::Loop => 2,
        CueType::FadeIn => 3,
        CueType::FadeOut => 4,
        CueType::Load => 5,
    }
}

/// The loop end field of a cue: start plus length when the cue is a
/// loop (clamped to 32 bits), `0xFFFFFFFF` otherwise.
pub open spec fn spec_loop_end(c: CuePoint) -> u32 {
    if c.loop_ms > 0 {
        if c.time_ms + c.loop_ms > 0xFFFF_FFFF {
            0xFFFF_FFFFu32
        } else {
            (c.time_ms + c.loop_ms) as u32
        }
    } else {
        0xFFFF_FFFFu32
    }
}

/// The loop end field of a cue.
fn loop_end(c: &CuePoint) -> (r: u32)
    ensures
        r == spec_loop_end(*c),
{
    if c.loop_ms > 0 {
        let sum: u64 = c.time_ms as u64 + c.loop_ms as u64;
        if sum > 0xFFFF_FFFF {
            0xFFFF_FFFF
        } else {
            sum as u32
        }
    } else {
        0xFFFF_FFFF
    }
}

/// One 24-byte `PCOB` entry.
pub open spec fn spec_pcob_entry(c: CuePoint) -> Seq<u8> {
    tag4(0x50, 0x43, 0x50, 0x01) + be4(20) + be4(c.hot_cue as u32) + be4(spec_pcob_status(c.cue_type))
        + be4(c.time_ms) + be4(spec_loop_end(c))
}

/// The `PCOB` basic cue section: all cues in one list of 24-byte entries.
pub open spec fn spec_pcob_section(cues: Seq<CuePoint>) -> Seq<u8> {
    tag4(0x50, 0x43, 0x4F, 0x42) + be4(16) + be4((20 + 24 * cues.len()) as u32) + be4(0) + be2(0)
        + be2(cues.len() as u16) + concat_bytes(cues.map_values(|c: CuePoint| spec_pcob_entry(c)))
}

/// Write the `PCOB` basic cue section.
pub fn generate_pcob_section(cues: &Vec<CuePoint>) -> (r: Vec<u8>)
    requires
        cues@.len() <= 0xFFFF,
    ensures
        r@ == spec_pcob_section(cues@),
        r@.len() == 20 + 24 * cues@.len(),
{
    let count = cues.len();
    let mut out: Vec<u8> = Vec::new();
    push_tag(&mut out, 0x50, 0x43, 0x4F, 0x42);
    crate::bytes::push_u32_be(&mut out, 16);
    crate::bytes::push_u32_be(&mut out, (20 + 24 * count) as u32);
    crate::bytes::push_u32_be(&mut out, 0);
    crate::bytes::push_u16_be(&mut out, 0);
    crate::bytes::push_u16_be(&mut out, count as u16);
    let ghost header = out@;
    let ghost f = |c: CuePoint| spec_pcob_entry(c);
    let mut i: usize = 0;
    while i < count
        invariant
            i <= count,
            count == cues@.len(),
            header.len() == 20,
            out@ == header + concat_bytes(cues@.subrange(0, i as int).map_values(f)),
            out@.len() == 20 + 24 * i,
            f == (|c: CuePoint| spec_pcob_entry(c)),
        decreases count - i,
    {
        let c = &cues[i];
        let ghost before = cues@.subrange(0, i as int).map_values(f);
        push_tag(&mut out, 0x50, 0x43, 0x50, 0x01);
        crate::bytes::push_u32_be(&mut out, 20);
        crate::bytes::push_u32_be(&mut out, c.hot_cue as u32);
        let status: u32 = match c.cue_type {
            CueType::Cue => 0,
            CueType::FadeIn => 1,
            CueType::FadeOut => 2,
            CueType::Load => 3,
            CueType::Loop => 4,
        };
        crate::bytes::push_u32_be(&mut out, status);
        crate::bytes::push_u32_be(&mut out, c.time_ms);
        let e = loop_end(c);
        crate::bytes::push_u32_be(&mut out, e);
        i = i + 1;
        proof {
            assert(cues@.subrange(0, i as int).map_values(f) =~= before.push(
                spec_pcob_entry(cues@[i - 1]),
            ));
            lemma_concat_bytes_push(before, spec_pcob_entry(cues@[i - 1]));
            assert(out@ =~= header + concat_bytes(cues@.subrange(0, i as int).map_values(f)));
        }
    }
    proof {
        assert(cues@.subrange(0, count as int) =~= cues@);
        assert(out@ =~= spec_pcob_section(cues@));
    }
    out
}

/// A cue's comments stay short enough for the length fields.
pub open spec fn spec_cue_wf(c: CuePoint) -> bool {
    match c.comment {
        Some(s) => encode_utf8(s@).len() <= 0xFFF,
        None => true,
    }
}

/// The comment block of an extended cue entry: its length including the
/// trailing zero, the bytes, then the zero. Absent comments write nothing.
pub open spec fn spec_pco2_comment(c: CuePoint) -> Seq<u8> {
    match c.comment {
        Some(s) => be4((encode_utf8(s@).len() + 1) as u32) + encode_utf8(s@) + seq![0u8],
        None => Seq::empty(),
    }
}

/// The pad color block of a hot cue entry.
pub open spec fn spec_pco2_color(c: CuePoint) -> Seq<u8> {
    let col = match c.color {
        Some(col) => col,
        None => spec_default_color(c.hot_cue),
    };
    seq![col.palette_index, col.red, col.green, col.blue] + zeros(4)
}

/// One extended cue entry; hot cues carry a color block after the
/// optional comment.
pub open spec fn spec_pco2_entry(c: CuePoint, is_hot: bool) -> Seq<u8> {
    tag4(0x50, 0x43, 0x50, 0x32) + be4((spec_pco2_entry_len(c, is_hot) - 4) as u32) + be4(
        c.hot_cue as u32,
    ) + be4(spec_pco2_type(c.cue_type)) + be4(c.time_ms) + be4(spec_loop_end(c)) + be4(0) + zeros(8)
        + spec_pco2_comment(c) + if is_hot {
        spec_pco2_color(c)
    } else {
        Seq::empty()
    }
}

/// The byte length of one extended cue entry.
pub open spec fn spec_pco2_entry_len(c: CuePoint, is_hot: bool) -> int {
    36 + (match c.comment {
        Some(s) => 5 + encode_utf8(s@).len() as int,
        None => 0int,
    }) + if is_hot {
        8int
    } else {
        0int
    }
}

/// Whether a cue belongs to the hot (`true`) or memory (`false`) list.
pub open spec fn spec_cue_in_list(c: CuePoint, is_hot: bool) -> bool {
    (c.hot_cue > 0) == is_hot
}

/// How many cues belong to one list.
pub open spec fn spec_pco2_count(cues: Seq<CuePoint>, is_hot: bool) -> int
    decreases cues.len(),
{
    if cues.len() == 0 {
        0
    } else {
        spec_pco2_count(cues.drop_last(), is_hot) + if spec_cue_in_list(cues.last(), is_hot) {
            1int
        } else {
            0int
        }
    }
}

/// The concatenated entries of one list, in input order.
pub open spec fn spec_pco2_entries(cues: Seq<CuePoint>, is_hot: bool) -> Seq<u8>
    decreases cues.len(),
{
    if cues.len() == 0 {
        Seq::empty()
    } else {
        spec_pco2_entries(cues.drop_last(), is_hot) + if spec_cue_in_list(cues.last(), is_hot) {
            spec_pco2_entry(cues.last(), is_hot)
        } else {
            Seq::empty()
        }
    }
}

/// Counts are bounded by the cue count, and the entry bytes by the
/// largest entry the length fields admit.
pub proof fn lemma_pco2_entries_bounds(cues: Seq<CuePoint>, is_hot: bool)
    requires
        forall|i: int| 0 <= i < cues.len() ==> spec_cue_wf(#[trigger] cues[i]),
    ensures
        0 <= spec_pco2_count(cues, is_hot) <= cues.len(),
        spec_pco2_entries(cues, is_hot).len() <= 4144 * cues.len(),
    decreases cues.len(),
{
    if cues.len() > 0 {
        assert(forall|i: int|
            0 <= i < cues.drop_last().len() ==> spec_cue_wf(#[trigger] cues.drop_last()[i]));
        lemma_pco2_entries_bounds(cues.drop_last(), is_hot);
        assert(cues.last() == cues[cues.len() - 1]);
        assert(spec_pco2_entry(cues.last(), is_hot).len() <= 4144);
    }
}

/// One `PCO2` sub-section: the list type, the count, then the entries
/// of that list.
pub open spec fn spec_pco2_subsection(cues: Seq<CuePoint>, is_hot: bool) -> Seq<u8> {
    tag4(0x50, 0x43, 0x4F, 0x32) + be4(16) + be4(
        (20 + spec_pco2_entries(cues, is_hot).len()) as u32,
    ) + be4(
        if is_hot {
            1u32
        } else {
            0u32
        },
    ) + be2(0) + be2(spec_pco2_count(cues, is_hot) as u16) + spec_pco2_entries(cues, is_hot)
}

/// The whole `PCO2` part of a file: the hot cue sub-section when any
/// hot cue exists, then the memory cue sub-section when any memory cue
/// exists.
pub open spec fn spec_pco2_section(cues: Seq<CuePoint>) -> Seq<u8> {
    (if spec_pco2_count(cues, true) > 0 {
        spec_pco2_subsection(cues, true)
    } else {
        Seq::empty()
    }) + (if spec_pco2_count(cues, false) > 0 {
        spec_pco2_subsection(cues, false)
    } else {
        Seq::empty()
    })
}

/// Count one list's cues and the bytes their entries take.
fn pco2_measure(cues: &Vec<CuePoint>, is_hot: bool) -> (r: (usize, usize))
    requires
        cues@.len() <= 0xFFFF,
        forall|i: int| 0 <= i < cues@.len() ==> spec_cue_wf(#[trigger] cues@[i]),
    ensures
        r.0 as int == spec_pco2_count(cues@, is_hot),
        r.1 as int == spec_pco2_entries(cues@, is_hot).len(),
        r.1 <= 4144 * cues@.len(),
{
    let mut count: usize = 0;
    let mut size: usize = 0;
    let mut i: usize = 0;
    while i < cues.len()
        invariant
            i <= cues@.len(),
            cues@.len() <= 0xFFFF,
            forall|k: int| 0 <= k < cues@.len() ==> spec_cue_wf(#[trigger] cues@[k]),
            count as int == spec_pco2_count(cues@.subrange(0, i as int), is_hot),
            size as int == spec_pco2_entries(cues@.subrange(0, i as int), is_hot).len(),
            count <= i,
            size <= 4144 * i,
        decreases cues@.len() - i,
    {
        let c = &cues[i];
        proof {
            assert(cues@.subrange(0, i as int + 1).drop_last() =~= cues@.subrange(0, i as int));
            assert(cues@.subrange(0, i as int + 1).last() == cues@[i as int]);
        }
        if (c.hot_cue > 0) == is_hot {
            count = count + 1;
            let mut entry: usize = 36;
            match &c.comment {
                Some(s) => {
                    let b = s.as_str().as_bytes_vec();
                    entry = entry + 5 + b.len();
                },
                None => {},
            }
            if is_hot {
                entry = entry + 8;
            }
            proof {
                assert(spec_pco2_entry(cues@[i as int], is_hot).len() == spec_pco2_entry_len(
                    cues@[i as int],
                    is_hot,
                ));
            }
            size = size + entry;
        }
        i = i + 1;
    }
    proof {
        assert(cues@.subrange(0, cues@.len() as int) =~= cues@);
    }
    (count, size)
}

/// The bytes of one extended cue entry.
#[verifier::rlimit(100)]
fn pco2_entry_bytes(c: &CuePoint, is_hot: bool) -> (r: Vec<u8>)
    requires
        spec_cue_wf(*c),
        spec_cue_in_list(*c, is_hot),
    ensures
        r@ == spec_pco2_entry(*c, is_hot),
{
    let mut entry_len: usize = 36;
    match &c.comment {
        Some(s) => {
            let b = s.as_str().as_bytes_vec();
            entry_len = entry_len + 5 + b.len();
        },
        None => {},
    }
    if is_hot {
        entry_len = entry_len + 8;
    }
    let mut out: Vec<u8> = Vec::new();
    push_tag(&mut out, 0x50, 0x43, 0x50, 0x32);
    crate::bytes::push_u32_be(&mut out, (entry_len - 4) as u32);
    crate::bytes::push_u32_be(&mut out, c.hot_cue as u32);
    let ty: u32 = match c.cue_type {
        CueType::Cue => 1,
        CueType::Loop => 2,
        CueType::FadeIn => 3,
        CueType::FadeOut => 4,
        CueType::Load => 5,
    };
    crate::bytes::push_u32_be(&mut out, ty);
    crate::bytes::push_u32_be(&mut out, c.time_ms);
    let e = loop_end(c);
    crate::bytes::push_u32_be(&mut out, e);
    crate::bytes::push_u32_be(&mut out, 0);
    crate::bytes::push_zeros(&mut out, 8);
    let ghost fixed = tag4(0x50, 0x43, 0x50, 0x32) + be4(
        (spec_pco2_entry_len(*c, is_hot) - 4) as u32,
    ) + be4(c.hot_cue as u32) + be4(spec_pco2_type(c.cue_type)) + be4(c.time_ms) + be4(
        spec_loop_end(*c),
    ) + be4(0) + zeros(8);
    proof {
        assert(out@ =~= fixed);
    }
    match &c.comment {
        Some(s) => {
            let b = s.as_str().as_bytes_vec();
            crate::bytes::push_u32_be(&mut out, (b.len() + 1) as u32);
            crate::bytes::push_bytes(&mut out, &b);
            out.push(0u8);
        },
        None => {},
    }
    proof {
        assert(out@ =~= fixed + spec_pco2_comment(*c));
    }
    if is_hot {
        let col = match c.color {
            Some(col) => col,
            None => crate::track::HotCueColor::default_for_slot(c.hot_cue),
        };
        out.push(col.palette_index);
        out.push(col.red);
        out.push(col.green);
        out.push(col.blue);
        crate::bytes::push_zeros(&mut out, 4);
        proof {
            assert(out@ =~= fixed + spec_pco2_comment(*c) + spec_pco2_color(*c));
        }
    }
    proof {
        assert(out@ =~= spec_pco2_entry(*c, is_hot));
    }
    out
}

/// Write one `PCO2` sub-section.
pub fn generate_pco2_subsection(cues: &Vec<CuePoint>, is_hot: bool) -> (r: Vec<u8>)
    requires
        cues@.len() <= 0xFFFF,
        forall|i: int| 0 <= i < cues@.len() ==> spec_cue_wf(#[trigger] cues@[i]),
    ensures
        r@ == spec_pco2_subsection(cues@, is_hot),
        r@.len() == 20 + spec_pco2_entries(cues@, is_hot).len(),
{
    let (count, size) = pco2_measure(cues, is_hot);
    let mut out: Vec<u8> = Vec::new();
    push_tag(&mut out, 0x50, 0x43, 0x4F, 0x32);
    crate::bytes::push_u32_be(&mut out, 16);
    crate::bytes::push_u32_be(&mut out, (20 + size) as u32);
    crate::bytes::push_u32_be(
        &mut out,
        if is_hot {
            1
        } else {
            0
        },
    );
    crate::bytes::push_u16_be(&mut out, 0);
    crate::bytes::push_u16_be(&mut out, count as u16);
    let ghost header = out@;
    let mut i: usize = 0;
    while i < cues.len()
        invariant
            i <= cues@.len(),
            cues@.len() <= 0xFFFF,
            forall|k: int| 0 <= k < cues@.len() ==> spec_cue_wf(#[trigger] cues@[k]),
            header.len() == 20,
            out@ == header + spec_pco2_entries(cues@.subrange(0, i as int), is_hot),
        decreases cues@.len() - i,
    {
        let c = &cues[i];
        proof {
            assert(cues@.subrange(0, i as int + 1).drop_last() =~= cues@.subrange(0, i as int));
            assert(cues@.subrange(0, i as int + 1).last() == cues@[i as int]);
        }
        if (c.hot_cue > 0) == is_hot {
            let entry = pco2_entry_bytes(c, is_hot);
            crate::bytes::push_bytes(&mut out, &entry);
            proof {
                assert(out@ =~= header + spec_pco2_entries(
                    cues@.subrange(0, i as int + 1),
                    is_hot,
                ));
            }
        } else {
            proof {
                assert(out@ =~= header + spec_pco2_entries(
                    cues@.subrange(0, i as int + 1),
                    is_hot,
                ));
            }
        }
        i = i + 1;
    }
    proof {
        assert(cues@.subrange(0, cues@.len() as int) =~= cues@);
        assert(out@ =~= spec_pco2_subsection(cues@, is_hot));
    }
    out
}

/// Write the whole `PCO2` part: hot cues first, then memory cues, each
/// only when present.
pub fn generate_pco2_section(cues: &Vec<CuePoint>) -> (r: Vec<u8>)
    requires
        cues@.len() <= 0xFFFF,
        forall|i: int| 0 <= i < cues@.len() ==> spec_cue_wf(#[trigger] cues@[i]),
    ensures
        r@ == spec_pco2_section(cues@),
{
    let (hot_count, _) = pco2_measure(cues, true);
    let (mem_count, _) = pco2_measure(cues, false);
    let mut out: Vec<u8> = Vec::new();
    if hot_count > 0 {
        let sub = generate_pco2_subsection(cues, true);
        crate::bytes::push_bytes(&mut out, &sub);
    }
    if mem_count > 0 {
        let sub = generate_pco2_subsection(cues, false);
        crate::bytes::push_bytes(&mut out, &sub);
    }
    proof {
        assert(out@ =~= spec_pco2_section(cues@));
    }
    out
}

/// The directory path of a track's analysis files, relative to the USB
/// root: `PIONEER/USBANLZ/P<nnn>/<hex id>/ANLZ0000.DAT`, where `nnn` is
/// `(id / 256) mod 1000` zero-padded to three digits and the id is eight
/// upper-case hex digits.
pub open spec fn spec_anlz_path(track_id: u32) -> Seq<char> {
    "PIONEER/USBANLZ/P"@ + spec_dec_pad((track_id / 256) as int % 1000, 3) + "/"@ + spec_hex_upper(
        track_id as u128,
        8,
    ) + "/ANLZ0000.DAT"@
}

/// The ANLZ path of a track, relative to the USB root.
pub fn generate_anlz_path(track_id: u32) -> (r: String)
    ensures
        r@ == spec_anlz_path(track_id),
{
    let mut r = String::from_str("PIONEER/USBANLZ/P");
    let dir = crate::textfmt::u32_dec_pad((track_id / 256) % 1000, 3);
    r.append(dir.as_str());
    r.append("/");
    let hex = crate::textfmt::u32_hex8_upper(track_id);
    r.append(hex.as_str());
    r.append("/ANLZ0000.DAT");
    proof {
        assert(r@ =~= spec_anlz_path(track_id));
    }
    r
}

/// The 28-byte `PMAI` file header; `total` is the whole file length.
pub open spec fn spec_pmai_header(total: u32) -> Seq<u8> {
    tag4(0x50, 0x4D, 0x41, 0x49) + be4(24) + be4(total) + be4(0) + be4(0) + be4(0) + be4(0)
}

/// Write the 28-byte `PMAI` file header.
fn push_pmai_header(out: &mut Vec<u8>, total: u32)
    ensures
        final(out)@ == old(out)@ + spec_pmai_header(total),
{
    push_tag(out, 0x50, 0x4D, 0x41, 0x49);
    crate::bytes::push_u32_be(out, 24);
    crate::bytes::push_u32_be(out, total);
    crate::bytes::push_u32_be(out, 0);
    crate::bytes::push_u32_be(out, 0);
    crate::bytes::push_u32_be(out, 0);
    crate::bytes::push_u32_be(out, 0);
    assert(final(out)@ =~= old(out)@ + spec_pmai_header(total));
}

/// Inputs small enough for every ANLZ length field.
pub open spec fn spec_anlz_inputs_wf(grid: BeatGrid, waveform: Waveform, path: Seq<char>) -> bool {
    &&& grid.beats@.len() <= 0x00FF_FFFF
    &&& waveform.detail.entries@.len() <= 0x00FF_FFFF
    &&& path.len() <= 0x00FF_FFFF
}

/// A whole `.DAT` file: the `PMAI` header carrying the total length,
/// then the path, beat grid, monochrome overview and color detail
/// sections.
pub open spec fn spec_dat_file(grid: BeatGrid, waveform: Waveform, path: Seq<char>) -> Seq<u8> {
    let body = spec_ppth_section(path) + spec_pqtz_section(grid.beats@) + spec_pwav_section(
        waveform.preview.columns@,
    ) + spec_pwv5_section(waveform.detail.entries@);
    spec_pmai_header((28 + body.len()) as u32) + body
}

/// Write a complete `.DAT` analysis file.
pub fn generate_dat_file(beat_grid: &BeatGrid, waveform: &Waveform, file_path: &str) -> (r:
    crate::error::Result<Vec<u8>>)
    requires
        spec_anlz_inputs_wf(*beat_grid, *waveform, file_path@),
    ensures
        r matches Ok(v) && v@ == spec_dat_file(*beat_grid, *waveform, file_path@),
        r matches Ok(v) && v@.subrange(0, 4) == tag4(0x50, 0x4D, 0x41, 0x49),
{
    let ppth = generate_ppth_section(file_path);
    let pqtz = generate_pqtz_section(beat_grid);
    let pwav = generate_pwav_section(&waveform.preview.columns);
    let pwv5 = generate_pwv5_section(&waveform.detail.entries);
    let total: usize = 28 + ppth.len() + pqtz.len() + pwav.len() + pwv5.len();
    let mut out: Vec<u8> = Vec::new();
    push_pmai_header(&mut out, total as u32);
    crate::bytes::push_bytes(&mut out, &ppth);
    crate::bytes::push_bytes(&mut out, &pqtz);
    crate::bytes::push_bytes(&mut out, &pwav);
    crate::bytes::push_bytes(&mut out, &pwv5);
    proof {
        assert(out@ =~= spec_dat_file(*beat_grid, *waveform, file_path@));
        assert(out@.subrange(0, 4) =~= tag4(0x50, 0x4D, 0x41, 0x49));
    }
    Ok(out)
}

/// A whole `.EXT` file: the `.DAT` sections plus the three-band and
/// color overviews, and, when any cue exists, the basic and extended
/// cue sections.
pub open spec fn spec_ext_file(
    grid: BeatGrid,
    waveform: Waveform,
    path: Seq<char>,
    cues: Seq<CuePoint>,
) -> Seq<u8> {
    let body = spec_ppth_section(path) + spec_pqtz_section(grid.beats@) + spec_pwav_section(
        waveform.preview.columns@,
    ) + spec_pwv3_section(waveform.detail.entries@) + spec_pwv4_section(
        waveform.color_preview.columns@,
    ) + spec_pwv5_section(waveform.detail.entries@) + (if cues.len() > 0 {
        spec_pcob_section(cues)
    } else {
        Seq::empty()
    }) + (if cues.len() > 0 {
        spec_pco2_section(cues)
    } else {
        Seq::empty()
    });
    spec_pmai_header((28 + body.len()) as u32) + body
}

/// Cue lists small and well-formed enough for the length fields.
pub open spec fn spec_cues_wf(cues: Seq<CuePoint>) -> bool {
    &&& cues.len() <= 0xFFFF
    &&& forall|i: int| 0 <= i < cues.len() ==> spec_cue_wf(#[trigger] cues[i])
}

/// Write a complete `.EXT` analysis file.
#[verifier::rlimit(100)]
pub fn generate_ext_file(
    beat_grid: &BeatGrid,
    waveform: &Waveform,
    file_path: &str,
    cue_points: &Vec<CuePoint>,
) -> (r: crate::error::Result<Vec<u8>>)
    requires
        spec_anlz_inputs_wf(*beat_grid, *waveform, file_path@),
        spec_cues_wf(cue_points@),
    ensures
        r matches Ok(v) && v@ == spec_ext_file(*beat_grid, *waveform, file_path@, cue_points@),
        r matches Ok(v) && v@.subrange(0, 4) == tag4(0x50, 0x4D, 0x41, 0x49),
{
    let ppth = generate_ppth_section(file_path);
    let pqtz = generate_pqtz_section(beat_grid);
    let pwav = generate_pwav_section(&waveform.preview.columns);
    let pwv3 = generate_pwv3_section(&waveform.detail.entries);
    let pwv4 = generate_pwv4_section(&waveform.color_preview.columns);
    let pwv5 = generate_pwv5_section(&waveform.detail.entries);
    let mut tail: Vec<u8> = Vec::new();
    if cue_points.len() > 0 {
        let pcob = generate_pcob_section(cue_points);
        crate::bytes::push_bytes(&mut tail, &pcob);
        let pco2 = generate_pco2_section(cue_points);
        proof {
            lemma_pco2_entries_bounds(cue_points@, true);
            lemma_pco2_entries_bounds(cue_points@, false);
        }
        crate::bytes::push_bytes(&mut tail, &pco2);
    }
    let total: usize = 28 + ppth.len() + pqtz.len() + pwav.len() + pwv3.len() + pwv4.len()
        + pwv5.len() + tail.len();
    let mut out: Vec<u8> = Vec::new();
    push_pmai_header(&mut out, total as u32);
    crate::bytes::push_bytes(&mut out, &ppth);
    crate::bytes::push_bytes(&mut out, &pqtz);
    crate::bytes::push_bytes(&mut out, &pwav);
    crate::bytes::push_bytes(&mut out, &pwv3);
    crate::bytes::push_bytes(&mut out, &pwv4);
    crate::bytes::push_bytes(&mut out, &pwv5);
    crate::bytes::push_bytes(&mut out, &tail);
    proof {
        assert(out@ =~= spec_ext_file(*beat_grid, *waveform, file_path@, cue_points@));
        assert(out@.subrange(0, 4) =~= tag4(0x50, 0x4D, 0x41, 0x49));
    }
    Ok(out)
}

/// Write a complete `.2EX` analysis file; newer hardware reads the same
/// layout as `.EXT`.
pub fn generate_2ex_file(
    beat_grid: &BeatGrid,
    waveform: &Waveform,
    file_path: &str,
    cue_points: &Vec<CuePoint>,
) -> (r: crate::error::Result<Vec<u8>>)
    requires
        spec_anlz_inputs_wf(*beat_grid, *waveform, file_path@),
        spec_cues_wf(cue_points@),
    ensures
        r matches Ok(v) && v@ == spec_ext_file(*beat_grid, *waveform, file_path@, cue_points@),
        r matches Ok(v) && v@.subrange(0, 4) == tag4(0x50, 0x4D, 0x41, 0x49),
{
    generate_ext_file(beat_grid, waveform, file_path, cue_points)
}

/// A `.DAT` file is its header plus its sections: the length stored in
/// the `PMAI` header is 28 plus the summed section lengths, and the
/// whole file is exactly that long.
#[verifier::rlimit(100)]
#[verifier::spinoff_prover]
pub proof fn lemma_dat_file_framing(grid: BeatGrid, waveform: Waveform, path: Seq<char>)
    requires
        spec_anlz_inputs_wf(grid, waveform, path),
    ensures
        spec_dat_file(grid, waveform, path).len() == 28 + spec_ppth_section(path).len()
            + spec_pqtz_section(grid.beats@).len() + spec_pwav_section(
            waveform.preview.columns@,
        ).len() + spec_pwv5_section(waveform.detail.entries@).len(),
        spec_dat_file(grid, waveform, path).subrange(8, 12) == be4(
            spec_dat_file(grid, waveform, path).len() as u32,
        ),
        spec_dat_file(grid, waveform, path).subrange(0, 4) == tag4(0x50, 0x4D, 0x41, 0x49),
{
    let body = spec_ppth_section(path) + spec_pqtz_section(grid.beats@) + spec_pwav_section(
        waveform.preview.columns@,
    ) + spec_pwv5_section(waveform.detail.entries@);
    let t = (28 + body.len()) as u32;
    lemma_section_lens(grid, waveform, path);
    assert(spec_dat_file(grid, waveform, path) == spec_pmai_header(t) + body);
    assert(spec_pmai_header(t).len() == 28);
    assert((spec_pmai_header(t) + body).subrange(8, 12) =~= spec_pmai_header(t).subrange(8, 12));
    assert(spec_pmai_header(t).subrange(8, 12) =~= be4(t));
    assert((spec_pmai_header(t) + body).subrange(0, 4) =~= spec_pmai_header(t).subrange(0, 4));
    assert(spec_pmai_header(t).subrange(0, 4) =~= tag4(0x50, 0x4D, 0x41, 0x49));
}

/// Every section stores its own length in its second word.
#[verifier::rlimit(100)]
#[verifier::spinoff_prover]
pub proof fn lemma_section_lens(grid: BeatGrid, waveform: Waveform, path: Seq<char>)
    requires
        spec_anlz_inputs_wf(grid, waveform, path),
    ensures
        spec_ppth_section(path).len() == 16 + 2 * utf16_seq(path).len(),
        spec_ppth_section(path).subrange(8, 12) == be4(spec_ppth_section(path).len() as u32),
        spec_pqtz_section(grid.beats@).len() == 24 + 8 * grid.beats@.len(),
        spec_pqtz_section(grid.beats@).subrange(8, 12) == be4(
            spec_pqtz_section(grid.beats@).len() as u32,
        ),
        spec_pwav_section(waveform.preview.columns@).len() == 420,
        spec_pwav_section(waveform.preview.columns@).subrange(8, 12) == be4(420),
        spec_pwv5_section(waveform.detail.entries@).len() == 20 + 2
            * waveform.detail.entries@.len(),
        spec_pwv5_section(waveform.detail.entries@).subrange(8, 12) == be4(
            spec_pwv5_section(waveform.detail.entries@).len() as u32,
        ),
{
    crate::string::lemma_u16s_be_len(utf16_seq(path));
    crate::string::lemma_utf16_seq_len(path);
    crate::bytes::lemma_concat_bytes_len_uniform(
        grid.beats@.map_values(|b: Beat| spec_beat_bytes(b)),
        8,
    );
    crate::bytes::lemma_concat_bytes_len_uniform(
        waveform.detail.entries@.map_values(
            |e: WaveformColorEntry| be2(spec_color_entry_value(e)),
        ),
        2,
    );
    assert(spec_ppth_section(path).subrange(8, 12) =~= be4(
        (16 + 2 * utf16_seq(path).len()) as u32,
    ));
    assert(spec_pqtz_section(grid.beats@).subrange(8, 12) =~= be4(
        (24 + 8 * grid.beats@.len()) as u32,
    ));
    assert(spec_pwav_section(waveform.preview.columns@).subrange(8, 12) =~= be4(420));
    assert(spec_pwv5_section(waveform.detail.entries@).subrange(8, 12) =~= be4(
        (20 + 2 * waveform.detail.entries@.len()) as u32,
    ));
}

/// An `.EXT` file is its header plus its sections: the length stored
/// in the `PMAI` header is the whole file's length, and each section
/// again stores its own.
#[verifier::rlimit(100)]
#[verifier::spinoff_prover]
pub proof fn lemma_ext_file_framing(
    grid: BeatGrid,
    waveform: Waveform,
    path: Seq<char>,
    cues: Seq<CuePoint>,
)
    requires
        spec_anlz_inputs_wf(grid, waveform, path),
        spec_cues_wf(cues),
    ensures
        spec_ext_file(grid, waveform, path, cues).len() == 28 + spec_ppth_section(path).len()
            + spec_pqtz_section(grid.beats@).len() + spec_pwav_section(
            waveform.preview.columns@,
        ).len() + spec_pwv3_section(waveform.detail.entries@).len() + spec_pwv4_section(
            waveform.color_preview.columns@,
        ).len() + spec_pwv5_section(waveform.detail.entries@).len() + (if cues.len() > 0 {
            spec_pcob_section(cues).len() + spec_pco2_section(cues).len()
        } else {
            0
        }),
        spec_ext_file(grid, waveform, path, cues).subrange(8, 12) == be4(
            spec_ext_file(grid, waveform, path, cues).len() as u32,
        ),
        spec_ext_file(grid, waveform, path, cues).subrange(0, 4) == tag4(0x50, 0x4D, 0x41, 0x49),
{
    let body = spec_ppth_section(path) + spec_pqtz_section(grid.beats@) + spec_pwav_section(
        waveform.preview.columns@,
    ) + spec_pwv3_section(waveform.detail.entries@) + spec_pwv4_section(
        waveform.color_preview.columns@,
    ) + spec_pwv5_section(waveform.detail.entries@) + (if cues.len() > 0 {
        spec_pcob_section(cues)
    } else {
        Seq::empty()
    }) + (if cues.len() > 0 {
        spec_pco2_section(cues)
    } else {
        Seq::empty()
    });
    let t = (28 + body.len()) as u32;
    assert(spec_ext_file(grid, waveform, path, cues) == spec_pmai_header(t) + body);
    assert(spec_pmai_header(t).len() == 28);
    assert((spec_pmai_header(t) + body).subrange(8, 12) =~= spec_pmai_header(t).subrange(8, 12));
    assert(spec_pmai_header(t).subrange(8, 12) =~= be4(t));
    assert((spec_pmai_header(t) + body).subrange(0, 4) =~= spec_pmai_header(t).subrange(0, 4));
    assert(spec_pmai_header(t).subrange(0, 4) =~= tag4(0x50, 0x4D, 0x41, 0x49));
}

/// `root` with trailing slashes removed.
pub open spec fn spec_trim_trailing_slashes(s: Seq<char>) -> Seq<char>
    decreases s.len(),
{
    if s.len() > 0 && s.last() == '/' {
        spec_trim_trailing_slashes(s.drop_last())
    } else {
        s
    }
}

/// The absolute filesystem path of a track's ANLZ file under `usb_root`.
pub fn generate_anlz_full_path(usb_root: &str, track_id: u32) -> (r: String)
    ensures
        r@ == spec_trim_trailing_slashes(usb_root@) + "/"@ + spec_anlz_path(track_id),
{
    let mut keep = usb_root.unicode_len();
    proof {
        assert(usb_root@.subrange(0, usb_root@.len() as int) =~= usb_root@);
    }
    while keep > 0 && usb_root.get_char(keep - 1) == '/'
        invariant
            keep <= usb_root@.len(),
            spec_trim_trailing_slashes(usb_root@) == spec_trim_trailing_slashes(
                usb_root@.subrange(0, keep as int),
            ),
        decreases keep,
    {
        proof {
            assert(usb_root@.subrange(0, keep as int).drop_last() =~= usb_root@.subrange(
                0,
                keep as int - 1,
            ));
        }
        keep = keep - 1;
    }
    let mut r = String::new();
    let trimmed = usb_root.substring_char(0, keep);
    r.append(trimmed);
    r.append("/");
    let tail = generate_anlz_path(track_id);
    r.append(tail.as_str());
    proof {
        assert(spec_trim_trailing_slashes(usb_root@.subrange(0, keep as int)) == usb_root@.subrange(
            0,
            keep as int,
        ));
        assert(r@ =~= spec_trim_trailing_slashes(usb_root@) + "/"@ + spec_anlz_path(track_id));
    }
    r
}

} // verus!
