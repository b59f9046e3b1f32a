//! The small files written beside the database: the device settings
//! blob, the DJ profile, artwork path names, and the device backup
//! record.

use std::time::SystemTime;
use std::time::UNIX_EPOCH;

use vstd::prelude::*;
use vstd::utf8::encode_utf8;
use vstd::utf8::is_ascii_chars;
use vstd::utf8::is_ascii_chars_encode_utf8;

use crate::bytes::le4;
use crate::bytes::zeros;
use crate::string::ascii_bytes;
use crate::textfmt::spec_dec;
use crate::textfmt::spec_dec_pad;
use crate::textfmt::spec_hex_lower;

verus! {

/// The 140 bytes of `DEVSETTING.DAT`: a length word, the brand and
/// application names and version in fixed-width zero-padded fields,
/// then a handful of fixed flags and markers.
pub open spec fn spec_devsetting() -> Seq<u8> {
    le4(0x60) + ascii_bytes("PIONEER DJ"@) + zeros(18) + zeros(4) + ascii_bytes("rekordbox"@)
        + zeros(23) + ascii_bytes("6.8.4"@) + zeros(27) + le4(0x20) + le4(0x12345678) + le4(1)
        + seq![1u8, 1u8, 1u8, 1u8, 1u8, 1u8] + zeros(18) + le4(0xD016)
}

/// Append the bytes of an ASCII string literal.
fn push_ascii(out: &mut Vec<u8>, s: &str)
    requires
        is_ascii_chars(s@),
    ensures
        final(out)@ == old(out)@ + ascii_bytes(s@),
{
    let b = s.as_bytes_vec();
    proof {
        is_ascii_chars_encode_utf8(s@);
        assert(b@ =~= ascii_bytes(s@));
    }
    crate::bytes::push_bytes(out, &b);
}

/// Write the 140-byte `DEVSETTING.DAT` contents.
pub fn generate_devsetting() -> (r: Vec<u8>)
    ensures
        r@ == spec_devsetting(),
        r@.len() == 140,
{
    proof {
        reveal_strlit("PIONEER DJ");
        reveal_strlit("rekordbox");
        reveal_strlit("6.8.4");
    }
    let mut out: Vec<u8> = Vec::new();
    crate::bytes::push_u32_le(&mut out, 0x60);
    push_ascii(&mut out, "PIONEER DJ");
    crate::bytes::push_zeros(&mut out, 18);
    crate::bytes::push_zeros(&mut out, 4);
    push_ascii(&mut out, "rekordbox");
    crate::bytes::push_zeros(&mut out, 23);
    push_ascii(&mut out, "6.8.4");
    crate::bytes::push_zeros(&mut out, 27);
    crate::bytes::push_u32_le(&mut out, 0x20);
    crate::bytes::push_u32_le(&mut out, 0x12345678);
    crate::bytes::push_u32_le(&mut out, 1);
    out.push(1);
    out.push(1);
    out.push(1);
    out.push(1);
    out.push(1);
    out.push(1);
    crate::bytes::push_zeros(&mut out, 18);
    crate::bytes::push_u32_le(&mut out, 0xD016);
    proof {
        assert(out@ =~= spec_devsetting());
    }
    out
}

/// The 160 bytes of `djprofile.nxs`: 32 zero bytes, then the profile
/// name (at most 31 bytes of its UTF-8 form), zero-padded to the end.
pub open spec fn spec_djprofile(name: Seq<char>) -> Seq<u8> {
    let nb = encode_utf8(name);
    let k = if nb.len() <= 31 {
        nb.len() as int
    } else {
        31
    };
    zeros(32) + nb.subrange(0, k) + zeros((128 - k) as nat)
}

/// Write the 160-byte `djprofile.nxs` contents for a profile name.
pub fn generate_djprofile(profile_name: &str) -> (r: Vec<u8>)
    ensures
        r@ == spec_djprofile(profile_name@),
        r@.len() == 160,
{
    let mut name_bytes = profile_name.as_bytes_vec();
    if name_bytes.len() > 31 {
        name_bytes.truncate(31);
    }
    let mut out: Vec<u8> = Vec::new();
    crate::bytes::push_zeros(&mut out, 32);
    crate::bytes::push_bytes(&mut out, &name_bytes);
    crate::bytes::push_zeros(&mut out, 128 - name_bytes.len());
    proof {
        assert(encode_utf8(profile_name@).subrange(
            0,
            encode_utf8(profile_name@).len() as int,
        ) =~= encode_utf8(profile_name@));
        assert(out@ =~= spec_djprofile(profile_name@));
    }
    out
}

/// The folder artworks with this id live in: artworks are grouped one
/// hundred per folder, and folders are numbered from one with five
/// digits.
pub open spec fn spec_artwork_folder(artwork_id: u32) -> Seq<char> {
    "PIONEER/Artwork/"@ + spec_dec_pad(artwork_id as int / 100 + 1, 5)
}

/// The artwork folder path for an id.
pub fn artwork_folder_path(artwork_id: u32) -> (r: String)
    ensures
        r@ == spec_artwork_folder(artwork_id),
{
    let mut r = String::from_str("PIONEER/Artwork/");
    let num = crate::textfmt::u32_dec_pad(artwork_id / 100 + 1, 5);
    r.append(num.as_str());
    proof {
        assert(r@ =~= spec_artwork_folder(artwork_id));
    }
    r
}

/// The thumbnail file name of an artwork.
pub open spec fn spec_artwork_thumbnail(artwork_id: u32) -> Seq<char> {
    "a"@ + spec_dec(artwork_id as int) + ".jpg"@
}

/// The thumbnail file name for an id.
pub fn artwork_thumbnail_name(artwork_id: u32) -> (r: String)
    ensures
        r@ == spec_artwork_thumbnail(artwork_id),
{
    let mut r = String::from_str("a");
    crate::textfmt::append_dec(&mut r, artwork_id);
    r.append(".jpg");
    proof {
        assert(r@ =~= spec_artwork_thumbnail(artwork_id));
    }
    r
}

/// The full-size image file name of an artwork.
pub open spec fn spec_artwork_full(artwork_id: u32) -> Seq<char> {
    "a"@ + spec_dec(artwork_id as int) + "_m.jpg"@
}

/// The full-size image file name for an id.
pub fn artwork_full_name(artwork_id: u32) -> (r: String)
    ensures
        r@ == spec_artwork_full(artwork_id),
{
    let mut r = String::from_str("a");
    crate::textfmt::append_dec(&mut r, artwork_id);
    r.append("_m.jpg");
    proof {
        assert(r@ =~= spec_artwork_full(artwork_id));
    }
    r
}

/// What goes into the device backup record.
#[derive(Debug)]
pub struct DeviceBackupInfo {
    /// The device's identifier, 32 hex digits.
    pub uuid: String,
    /// The device's display name.
    pub device_name: String,
    /// The filesystem on the device.
    pub filesystem: String,
    /// The name of the computer the backup was made on.
    pub backup_pc_name: String,
}

/// Relies on `std::time::SystemTime::now`: the nanoseconds since the
/// Unix epoch, used only to salt generated identifiers. Nothing is
/// assumed of the value.
#[verifier::external_body]
fn current_unix_nanos() -> u128 {
    SystemTime::now().duration_since(UNIX_EPOCH).unwrap_or_default().as_nanos()
}

impl DeviceBackupInfo {
    /// A fresh identifier: the current time rendered as 32 lower-case
    /// hex digits.
    pub fn new_uuid() -> (r: String)
        ensures
            exists|n: u128| r@ == spec_hex_lower(n, 32),
            r@.len() == 32,
    {
        let nanos = current_unix_nanos();
        let r = crate::textfmt::u128_hex_pad(nanos, 32, false);
        proof {
            assert(r@ == spec_hex_lower(nanos, 32));
        }
        r
    }
}

/// A timestamp as `YYYY/MM/DD HH:MM:SS`, from a whole-day approximation
/// of the calendar: years of 365 days, months of 30, both clamped to
/// their display ranges.
pub open spec fn spec_timestamp_text(secs: u64) -> Seq<char> {
    let days = secs as int / 86400;
    let time = secs as int % 86400;
    let year = 1970 + days / 365;
    let doy = days % 365;
    let month = if doy / 30 + 1 > 12 {
        12int
    } else {
        doy / 30 + 1
    };
    let day = if doy % 30 + 1 > 28 {
        28int
    } else {
        doy % 30 + 1
    };
    spec_dec(year) + "/"@ + spec_dec_pad(month, 2) + "/"@ + spec_dec_pad(day, 2) + " "@
        + spec_dec_pad(time / 3600, 2) + ":"@ + spec_dec_pad((time % 3600) / 60, 2) + ":"@
        + spec_dec_pad(time % 60, 2)
}

/// Render a timestamp as `YYYY/MM/DD HH:MM:SS`.
pub fn format_timestamp(secs: u64) -> (r: String)
    requires
        secs < 0xFF_FFFF_FFFF,
    ensures
        r@ == spec_timestamp_text(secs),
{
    let days = secs / 86400;
    let time = secs % 86400;
    let hours = (time / 3600) as u32;
    let minutes = ((time % 3600) / 60) as u32;
    let seconds = (time % 60) as u32;
    let year = (1970 + days / 365) as u32;
    let doy = (days % 365) as u32;
    let month: u32 = if doy / 30 + 1 > 12 {
        12
    } else {
        doy / 30 + 1
    };
    let day: u32 = if doy % 30 + 1 > 28 {
        28
    } else {
        doy % 30 + 1
    };
    let mut r = crate::textfmt::u32_dec(year);
    r.append("/");
    let ms = crate::textfmt::u32_dec_pad(month, 2);
    r.append(ms.as_str());
    r.append("/");
    let ds = crate::textfmt::u32_dec_pad(day, 2);
    r.append(ds.as_str());
    r.append(" ");
    let hs = crate::textfmt::u32_dec_pad(hours, 2);
    r.append(hs.as_str());
    r.append(":");
    let mins = crate::textfmt::u32_dec_pad(minutes, 2);
    r.append(mins.as_str());
    r.append(":");
    let ss = crate::textfmt::u32_dec_pad(seconds, 2);
    r.append(ss.as_str());
    proof {
        assert(r@ =~= spec_timestamp_text(secs));
    }
    r
}

/// The backup record: one JSON object naming the device and one backup
/// generation made at `now_secs`.
pub open spec fn spec_backup_json(
    uuid: Seq<char>,
    device_name: Seq<char>,
    filesystem: Seq<char>,
    pc_name: Seq<char>,
    pc_id: u32,
    now_secs: u64,
) -> Seq<char> {
    "{\n  \"uuid\": \""@ + uuid + "\",\n  \"info\": [\n    {\n      \"device_id\": \""@ + uuid
        + "\",\n      \"device_name\": \""@ + device_name
        + "\",\n      \"background_color\": \"0\",\n      \"background_color_libplus\": \"0\",\n      \"device_filesystem\": \""@
        + filesystem + "\",\n      \"backup_pc_id\": \""@ + spec_dec(pc_id as int)
        + "\",\n      \"backup_pc_name\": \""@ + pc_name + "\",\n      \"backup_location\": \"1\",\n      \"backup_generation\": \"1\",\n      \"backup_date\": \""@
        + spec_timestamp_text(now_secs) + "\",\n      \"backup_file_name\": \"rbDevLibBa_"@
        + spec_dec(pc_id as int) + "_"@ + uuid + ".zip\"\n    }\n  ]\n}"@
}

/// Render the backup record for a known timestamp.
pub fn device_backup_json(info: &DeviceBackupInfo, pc_id: u32, now_secs: u64) -> (r: String)
    requires
        now_secs < 0xFF_FFFF_FFFF,
    ensures
        r@ == spec_backup_json(
            info.uuid@,
            info.device_name@,
            info.filesystem@,
            info.backup_pc_name@,
            pc_id,
            now_secs,
        ),
{
    let mut r = String::from_str("{\n  \"uuid\": \"");
    r.append(info.uuid.as_str());
    r.append("\",\n  \"info\": [\n    {\n      \"device_id\": \"");
    r.append(info.uuid.as_str());
    r.append("\",\n      \"device_name\": \"");
    r.append(info.device_name.as_str());
    r.append(
        "\",\n      \"background_color\": \"0\",\n      \"background_color_libplus\": \"0\",\n      \"device_filesystem\": \"",
    );
    r.append(info.filesystem.as_str());
    r.append("\",\n      \"backup_pc_id\": \"");
    crate::textfmt::append_dec(&mut r, pc_id);
    r.append("\",\n      \"backup_pc_name\": \"");
    r.append(info.backup_pc_name.as_str());
    r.append(
        "\",\n      \"backup_location\": \"1\",\n      \"backup_generation\": \"1\",\n      \"backup_date\": \"",
    );
    let ts = format_timestamp(now_secs);
    r.append(ts.as_str());
    r.append("\",\n      \"backup_file_name\": \"rbDevLibBa_");
    crate::textfmt::append_dec(&mut r, pc_id);
    r.append("_");
    r.append(info.uuid.as_str());
    r.append(".zip\"\n    }\n  ]\n}");
    proof {
        assert(r@ =~= spec_backup_json(
            info.uuid@,
            info.device_name@,
            info.filesystem@,
            info.backup_pc_name@,
            pc_id,
            now_secs,
        ));
    }
    r
}

/// Render the backup record at the current time. The timestamp comes
/// from the clock, so only its shape is known: the result is the record
/// for some moment.
pub fn generate_device_backup_info(info: &DeviceBackupInfo, pc_id: u32) -> (r: String)
    ensures
        exists|now_secs: u64|
            r@ == spec_backup_json(
                info.uuid@,
                info.device_name@,
                info.filesystem@,
                info.backup_pc_name@,
                pc_id,
                now_secs,
            ),
{
    let nanos = current_unix_nanos();
    let mut secs128 = nanos / 1_000_000_000;
    if secs128 >= 0xFF_FFFF_FFFF {
        secs128 = 0xFF_FFFF_FFFE;
    }
    let secs = secs128 as u64;
    device_backup_json(info, pc_id, secs)
}

} // verus!
