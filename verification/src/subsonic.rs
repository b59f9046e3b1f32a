//! The computational side of the Subsonic playlist client:
//! authentication parameters and the path-to-playlist lookup built from
//! fetched playlists. The network calls themselves live outside the
//! library.

use md5::Digest;
use rand::Rng;

use vstd::prelude::*;
use vstd::utf8::is_ascii_chars;

verus! {

/// Playlist metadata as the server reports it.
#[derive(Debug)]
pub struct Playlist {
    /// The server's playlist id.
    pub id: String,
    /// Display name.
    pub name: String,
    /// How many songs it holds.
    pub song_count: u32,
    /// Its total duration in seconds.
    pub duration_secs: u32,
    /// The account that owns it.
    pub owner: String,
}

/// One track of a fetched playlist.
#[derive(Debug)]
pub struct PlaylistTrack {
    /// The server's track id.
    pub id: String,
    /// Track title.
    pub title: String,
    /// Artist name.
    pub artist: String,
    /// Album name, if known.
    pub album: Option<String>,
    /// Duration in seconds.
    pub duration_secs: u32,
    /// Path relative to the music library root.
    pub path: String,
}

/// The 16-byte digest the authentication token is built from; it
/// depends on the hashed characters alone.
pub uninterp spec fn md5_of(s: Seq<char>) -> Seq<u8>;

/// Relies on `md5::Md5` (`Digest::update` then `finalize`): the 16-byte
/// digest of the string's UTF-8 bytes, a pure function of its input.
#[verifier::external_body]
fn md5_digest(s: &str) -> (r: Vec<u8>)
    ensures
        r@ == md5_of(s@),
        r@.len() == 16,
{
    let mut hasher = md5::Md5::new();
    hasher.update(s.as_bytes());
    hasher.finalize().to_vec()
}

/// Relies on `rand::thread_rng` with `Alphanumeric`: twelve characters
/// drawn from the ASCII letters and digits. The draw is random, so only
/// the length and character class are known.
#[verifier::external_body]
fn random_alphanumeric_12() -> (r: String)
    ensures
        r@.len() == 12,
        is_ascii_chars(r@),
{
    rand::thread_rng().sample_iter(&rand::distributions::Alphanumeric).take(12).map(
        char::from,
    ).collect()
}

/// The token for a password and salt: the digest of their
/// concatenation, in lower-case hex.
pub open spec fn spec_auth_token(password: Seq<char>, salt: Seq<char>) -> Seq<char> {
    spec_hex_of_bytes(md5_of(password + salt))
}

/// A byte sequence in lower-case hex, two digits a byte.
pub open spec fn spec_hex_of_bytes(b: Seq<u8>) -> Seq<char>
    decreases b.len(),
{
    if b.len() == 0 {
        Seq::empty()
    } else {
        spec_hex_of_bytes(b.drop_last()) + seq![
            crate::textfmt::hex_digit_lower((b.last() >> 4) as int),
            crate::textfmt::hex_digit_lower((b.last() & 0xF) as int),
        ]
    }
}

/// Render bytes as lower-case hex.
fn hex_of_bytes(b: &Vec<u8>) -> (r: String)
    ensures
        r@ == spec_hex_of_bytes(b@),
        r@.len() == 2 * b@.len(),
{
    let mut r = String::new();
    let mut i: usize = 0;
    while i < b.len()
        invariant
            i <= b@.len(),
            r@ == spec_hex_of_bytes(b@.subrange(0, i as int)),
            r@.len() == 2 * i,
        decreases b@.len() - i,
    {
        let byte = b[i];
        let hex = crate::textfmt::u128_hex_pad(byte as u128, 2, false);
        r.append(hex.as_str());
        i = i + 1;
        proof {
            assert(b@.subrange(0, i as int).drop_last() =~= b@.subrange(0, i as int - 1));
            assert(b@.subrange(0, i as int).last() == b@[i - 1]);
            let bb = b@[i - 1];
            assert((((bb as u128) >> 4) & 0xF) == ((bb >> 4) as u128) && (((bb as u128) >> 0)
                & 0xF) == ((bb & 0xF) as u128)) by (bit_vector);
            assert(crate::textfmt::spec_hex_lower(bb as u128, 2)[0]
                == crate::textfmt::hex_digit_lower((bb >> 4) as int));
            assert(crate::textfmt::spec_hex_lower(bb as u128, 2)[1]
                == crate::textfmt::hex_digit_lower((bb & 0xF) as int));
            assert(crate::textfmt::spec_hex_lower(bb as u128, 2) =~= seq![
                crate::textfmt::hex_digit_lower((bb >> 4) as int),
                crate::textfmt::hex_digit_lower((bb & 0xF) as int),
            ]);
            assert(r@ =~= spec_hex_of_bytes(b@.subrange(0, i as int)));
        }
    }
    proof {
        assert(b@.subrange(0, b@.len() as int) =~= b@);
    }
    r
}

/// The query parameters that authenticate one API call: the user, a
/// token that hashes the password with a fresh salt, the salt itself,
/// and the fixed protocol fields. The salt is random, so the result is
/// pinned up to the salt drawn.
pub open spec fn spec_auth_params(
    username: Seq<char>,
    password: Seq<char>,
    salt: Seq<char>,
) -> Seq<(Seq<char>, Seq<char>)> {
    seq![
        ("u"@, username),
        ("t"@, spec_auth_token(password, salt)),
        ("s"@, salt),
        ("v"@, "1.16.0"@),
        ("c"@, "rekordbox-export"@),
        ("f"@, "json"@),
    ]
}

/// Build the authentication parameters for one API call, drawing a
/// fresh random salt.
pub fn auth_params(username: &str, password: &str) -> (r: Vec<(String, String)>)
    ensures
        exists|salt: Seq<char>|
            {
                &&& salt.len() == 12
                &&& is_ascii_chars(salt)
                &&& r@.len() == 6
                &&& forall|i: int|
                    0 <= i < 6 ==> ((#[trigger] r@[i]).0@, r@[i].1@) == spec_auth_params(
                        username@,
                        password@,
                        salt,
                    )[i]
            },
{
    let salt = random_alphanumeric_12();
    let mut message = String::from_str(password);
    message.append(salt.as_str());
    let digest = md5_digest(message.as_str());
    let token = hex_of_bytes(&digest);
    let mut r: Vec<(String, String)> = Vec::new();
    r.push((String::from_str("u"), String::from_str(username)));
    r.push((String::from_str("t"), token));
    r.push((String::from_str("s"), salt.clone()));
    r.push((String::from_str("v"), String::from_str("1.16.0")));
    r.push((String::from_str("c"), String::from_str("rekordbox-export")));
    r.push((String::from_str("f"), String::from_str("json")));
    proof {
        let ghost s = salt@;
        assert(forall|i: int|
            0 <= i < 6 ==> ((#[trigger] r@[i]).0@, r@[i].1@) == spec_auth_params(
                username@,
                password@,
                s,
            )[i]);
    }
    r
}

/// A lookup from normalized track paths to the playlist each belongs
/// to, later entries overriding earlier ones; backslashes in paths are
/// normalized to slashes.
pub open spec fn spec_normalized(p: Seq<char>) -> Seq<char> {
    p.map_values(
        |c: char|
            if c == '\\' {
                '/'
            } else {
                c
            },
    )
}

/// Replace backslashes with slashes.
fn normalize_path(p: &str) -> (r: String)
    ensures
        r@ == spec_normalized(p@),
{
    let len = p.unicode_len();
    let mut r = String::new();
    let mut i: usize = 0;
    while i < len
        invariant
            i <= len,
            len == p@.len(),
            r@ == spec_normalized(p@.subrange(0, i as int)),
        decreases len - i,
    {
        let c = p.get_char(i);
        proof {
            reveal_strlit("/");
        }
        if c == '\\' {
            r.append("/");
        } else {
            let piece = p.substring_char(i, i + 1);
            r.append(piece);
        }
        i = i + 1;
        proof {
            assert(r@ =~= spec_normalized(p@.subrange(0, i as int)));
        }
    }
    proof {
        assert(p@.subrange(0, len as int) =~= p@);
    }
    r
}

/// The pairs the path map holds: every track of every playlist, as its
/// normalized path and the playlist's name, in input order.
pub open spec fn spec_path_pairs(playlists: Seq<(Playlist, Seq<PlaylistTrack>)>) -> Seq<
    (Seq<char>, Seq<char>),
>
    decreases playlists.len(),
{
    if playlists.len() == 0 {
        Seq::empty()
    } else {
        spec_path_pairs(playlists.drop_last()) + playlists.last().1.map_values(
            |t: PlaylistTrack| (spec_normalized(t.path@), playlists.last().0.name@),
        )
    }
}

/// Build the path-to-playlist lookup: one pair per track of every
/// playlist, with paths normalized; a later pair overrides an earlier
/// one with the same path.
pub fn build_path_to_playlist_map(playlists: &Vec<(Playlist, Vec<PlaylistTrack>)>) -> (r: Vec<
    (String, String),
>)
    ensures
        r@.len() == spec_path_pairs(
            playlists@.map_values(|e: (Playlist, Vec<PlaylistTrack>)| (e.0, e.1@)),
        ).len(),
        forall|i: int|
            0 <= i < r@.len() ==> ((#[trigger] r@[i]).0@, r@[i].1@) == spec_path_pairs(
                playlists@.map_values(|e: (Playlist, Vec<PlaylistTrack>)| (e.0, e.1@)),
            )[i],
{
    let ghost model = playlists@.map_values(|e: (Playlist, Vec<PlaylistTrack>)| (e.0, e.1@));
    let mut r: Vec<(String, String)> = Vec::new();
    let mut p: usize = 0;
    while p < playlists.len()
        invariant
            p <= playlists@.len(),
            model == playlists@.map_values(|e: (Playlist, Vec<PlaylistTrack>)| (e.0, e.1@)),
            r@.len() == spec_path_pairs(model.subrange(0, p as int)).len(),
            forall|i: int|
                0 <= i < r@.len() ==> ((#[trigger] r@[i]).0@, r@[i].1@) == spec_path_pairs(
                    model.subrange(0, p as int),
                )[i],
        decreases playlists@.len() - p,
    {
        let ghost prefix = model.subrange(0, p as int);
        let ghost before = spec_path_pairs(prefix);
        let entry = &playlists[p];
        let n = entry.1.len();
        let mut j: usize = 0;
        while j < n
            invariant
                j <= n,
                p < playlists@.len(),
                model == playlists@.map_values(|e: (Playlist, Vec<PlaylistTrack>)| (e.0, e.1@)),
                entry == &playlists@[p as int],
                n == playlists@[p as int].1@.len(),
                before == spec_path_pairs(model.subrange(0, p as int)),
                r@.len() == before.len() + j,
                forall|i: int|
                    0 <= i < before.len() ==> ((#[trigger] r@[i]).0@, r@[i].1@) == before[i],
                forall|k: int|
                    0 <= k < j ==> ((#[trigger] r@[before.len() + k]).0@, r@[before.len() + k].1@)
                        == (
                        spec_normalized(playlists@[p as int].1@[k].path@),
                        playlists@[p as int].0.name@,
                    ),
            decreases n - j,
        {
            let path = normalize_path(entry.1[j].path.as_str());
            let name = entry.0.name.clone();
            r.push((path, name));
            j = j + 1;
        }
        p = p + 1;
        proof {
            let now = model.subrange(0, p as int);
            assert(now.drop_last() =~= prefix);
            assert(now.last() == model[p as int - 1]);
            let f = |t: PlaylistTrack| (spec_normalized(t.path@), model[p as int - 1].0.name@);
            assert(spec_path_pairs(now) == before + model[p as int - 1].1.map_values(f));
            assert(model[p as int - 1].1 == playlists@[p as int - 1].1@);
            assert forall|i: int| 0 <= i < r@.len() implies ((#[trigger] r@[i]).0@, r@[i].1@)
                == spec_path_pairs(now)[i] by {
                if i >= before.len() {
                    let k = i - before.len();
                    assert(((#[trigger] r@[before.len() + k]).0@, r@[before.len() + k].1@) == (
                        spec_normalized(playlists@[p as int - 1].1@[k].path@),
                        playlists@[p as int - 1].0.name@,
                    ));
                    assert(model[p as int - 1].0 == playlists@[p as int - 1].0);
                }
            }
        }
    }
    proof {
        assert(model.subrange(0, model.len() as int) =~= model);
    }
    r
}

} // verus!
