//! Self-consistency checks over an emitted database file.
//!
//! The validator reads page zero for the page size, the table count and
//! the high-water page index, checks every table pointer, and walks each
//! populated table's page chain counting rows. Header-level problems
//! make the file invalid; oddities inside single pages are reported as
//! warnings only.

use vstd::prelude::*;

use crate::bytes::rd3;
use crate::bytes::rd4;

verus! {

/// Row counts found while walking a database file.
#[derive(Debug, Clone, Copy)]
pub struct PdbStats {
    /// The high-water page index from the header.
    pub total_pages: u32,
    /// Rows in the track table.
    pub track_count: u32,
    /// Rows in the artist table.
    pub artist_count: u32,
    /// Rows in the album table.
    pub album_count: u32,
    /// Rows in the genre table.
    pub genre_count: u32,
    /// Rows in the key table.
    pub key_count: u32,
    /// Rows in the playlist tree.
    pub playlist_count: u32,
    /// Rows in the playlist entry table.
    pub playlist_entry_count: u32,
}

/// The outcome of validating a file.
#[derive(Debug)]
pub struct ValidationResult {
    /// Whether the file passed every header-level check.
    pub valid: bool,
    /// The row counts found.
    pub stats: PdbStats,
    /// What made the file invalid; empty exactly when it is valid.
    pub errors: Vec<String>,
    /// Oddities that do not make the file invalid.
    pub warnings: Vec<String>,
}

/// The page count of a byte buffer.
pub open spec fn spec_npages(d: Seq<u8>) -> int {
    d.len() as int / 4096
}

/// The row count a data page header stores: the low eleven of the upper
/// thirteen bits of the packed field at `0x18`.
pub open spec fn spec_page_rows(d: Seq<u8>, p: int) -> u32 {
    (rd3(d, p * 4096 + 0x18) >> 13) & 0x7FF
}

/// The rows collected along a page chain, following the next-page field
/// for at most `fuel` hops and stopping at any out-of-range page.
pub open spec fn spec_chain_rows(d: Seq<u8>, p: u32, fuel: nat) -> int
    decreases fuel,
{
    if fuel == 0 {
        0
    } else if !(p < spec_npages(d)) {
        0
    } else {
        spec_page_rows(d, p as int) + spec_chain_rows(d, rd4(d, p as int * 4096 + 8), (fuel - 1) as nat)
    }
}

/// The row total of the last table pointer among the first `upto` whose
/// type is `ty` and whose index page lies inside the file, walking from
/// the data page its index page names.
pub open spec fn spec_stat(d: Seq<u8>, ty: u32, upto: int) -> u32
    decreases upto,
{
    if upto <= 0 {
        0u32
    } else {
        let t = upto - 1;
        let ip = rd4(d, 0x10 + 16 * t + 4);
        if rd4(d, 0x10 + 16 * t + 12) == ty && 0 < ip && ip < spec_npages(d) {
            let start = rd4(d, ip as int * 4096 + 0x2C);
            let total = spec_chain_rows(d, start, spec_npages(d) as nat);
            if total > 0xFFFF_FFFF {
                0xFFFF_FFFFu32
            } else {
                total as u32
            }
        } else {
            spec_stat(d, ty, t)
        }
    }
}

/// One table pointer's page references lie inside the file (or are
/// absent).
pub open spec fn spec_pointer_ok(d: Seq<u8>, t: int) -> bool {
    let n = spec_npages(d);
    &&& (rd4(d, 0x10 + 16 * t + 4) == 0 || rd4(d, 0x10 + 16 * t + 4) < n)
    &&& (rd4(d, 0x10 + 16 * t + 8) == 0 || rd4(d, 0x10 + 16 * t + 8) < n)
}

/// Every header-level check the validator runs: the file holds whole
/// pages, page zero declares the fixed page size, the high-water page
/// index does not pass the end, the pointer array fits in page zero,
/// and every pointer's pages lie inside the file.
pub open spec fn spec_pdb_valid(d: Seq<u8>) -> bool {
    &&& d.len() >= 4096
    &&& d.len() % 4096 == 0
    &&& rd4(d, 4) == 4096
    &&& rd4(d, 12) <= spec_npages(d)
    &&& rd4(d, 8) <= 254
    &&& forall|t: int| 0 <= t < rd4(d, 8) ==> spec_pointer_ok(d, t)
}

/// Count the rows of the chain starting at `first_page`, following the
/// next-page pointers for at most one hop per page of the file.
pub fn count_table_rows(data: &[u8], first_page: u32, max_pages: u32) -> (r: u32)
    requires
        data@.len() == max_pages * 4096,
        max_pages <= 0x0010_0000,
    ensures
        r as int == spec_chain_rows(data@, first_page, max_pages as nat),
{
    let mut total: u32 = 0;
    let mut current = first_page;
    let mut fuel = max_pages;
    proof {
        assert(spec_npages(data@) == max_pages) by (nonlinear_arith)
            requires
                data@.len() == max_pages * 4096,
        ;
    }
    while fuel > 0 && current < max_pages
        invariant
            data@.len() == max_pages * 4096,
            max_pages <= 0x0010_0000,
            spec_npages(data@) == max_pages,
            fuel <= max_pages,
            total as int + spec_chain_rows(data@, current, fuel as nat) == spec_chain_rows(
                data@,
                first_page,
                max_pages as nat,
            ),
            total as int <= 0x800 * (max_pages - fuel),
        decreases fuel,
    {
        let off = (current as usize) * 4096;
        proof {
            assert(off + 4096 <= data@.len()) by (nonlinear_arith)
                requires
                    off == current * 4096 && current < max_pages && data@.len() == max_pages
                        * 4096,
            ;
            let packed = rd3(data@, off as int + 0x18);
            assert(((packed >> 13) & 0x7FF) <= 0x7FF) by (bit_vector);
        }
        let packed = crate::bytes::slice_u24_le_at(data, off + 0x18);
        let rows = (packed >> 13) & 0x7FF;
        total = total + rows;
        current = crate::bytes::slice_u32_le_at(data, off + 8);
        fuel = fuel - 1;
    }
    proof {
        if fuel > 0 {
            assert(spec_chain_rows(data@, current, fuel as nat) == 0);
        }
    }
    total
}

/// Validate a database file: check its size and header fields, every
/// table pointer, and collect per-table row counts; per-page oddities
/// become warnings. The result is valid exactly when every header-level
/// check passes, and the error list is empty exactly then.
#[verifier::rlimit(100)]
pub fn validate_pdb(data: &[u8]) -> (r: ValidationResult)
    requires
        data@.len() <= 0x1_0000_0000,
    ensures
        r.valid == spec_pdb_valid(data@),
        (r.errors@.len() == 0) == r.valid,
        r.valid ==> r.stats.total_pages == rd4(data@, 12),
        r.valid ==> r.stats.track_count == spec_stat(data@, 0, rd4(data@, 8) as int),
        r.valid ==> r.stats.genre_count == spec_stat(data@, 1, rd4(data@, 8) as int),
        r.valid ==> r.stats.artist_count == spec_stat(data@, 2, rd4(data@, 8) as int),
        r.valid ==> r.stats.album_count == spec_stat(data@, 3, rd4(data@, 8) as int),
        r.valid ==> r.stats.key_count == spec_stat(data@, 5, rd4(data@, 8) as int),
        r.valid ==> r.stats.playlist_count == spec_stat(data@, 7, rd4(data@, 8) as int),
        r.valid ==> r.stats.playlist_entry_count == spec_stat(data@, 8, rd4(data@, 8) as int),
{
    let mut stats = PdbStats {
        total_pages: 0,
        track_count: 0,
        artist_count: 0,
        album_count: 0,
        genre_count: 0,
        key_count: 0,
        playlist_count: 0,
        playlist_entry_count: 0,
    };
    let mut errors: Vec<String> = Vec::new();
    let mut warnings: Vec<String> = Vec::new();
    if data.len() < 4096 {
        errors.push(String::from_str("file too small: shorter than one header page"));
        return ValidationResult { valid: false, stats, errors, warnings };
    }
    if data.len() % 4096 != 0 {
        errors.push(String::from_str("file size is not a multiple of the page size"));
        return ValidationResult { valid: false, stats, errors, warnings };
    }
    let actual_pages = (data.len() / 4096) as u32;
    proof {
        assert(data@.len() / 4096 <= 0x0010_0000);
        assert(actual_pages * 4096 == data@.len()) by (nonlinear_arith)
            requires
                data@.len() % 4096 == 0 && actual_pages == data@.len() / 4096,
        ;
    }
    let page_size = crate::bytes::slice_u32_le_at(data, 4);
    if page_size != 4096 {
        errors.push(String::from_str("invalid page_size in header"));
        return ValidationResult { valid: false, stats, errors, warnings };
    }
    let num_tables = crate::bytes::slice_u32_le_at(data, 8);
    if num_tables > 20 {
        warnings.push(String::from_str("unusually high table count"));
    }
    let next_unused = crate::bytes::slice_u32_le_at(data, 12);
    stats.total_pages = next_unused;
    let mut ok = true;
    if next_unused > actual_pages {
        errors.push(String::from_str("header next_unused_page exceeds the page count"));
        ok = false;
    }
    if num_tables > 254 {
        errors.push(String::from_str("table pointers extend beyond the header page"));
        ok = false;
    } else {
        let mut t: u32 = 0;
        while t < num_tables
            invariant
                num_tables <= 254,
                num_tables == rd4(data@, 8),
                t <= num_tables,
                actual_pages * 4096 == data@.len(),
                actual_pages <= 0x0010_0000,
                data@.len() >= 4096,
                data@.len() % 4096 == 0,
                spec_npages(data@) == actual_pages,
                ok ==> forall|j: int| 0 <= j < t ==> spec_pointer_ok(data@, j),
                ok ==> rd4(data@, 12) <= spec_npages(data@),
                !ok ==> !spec_pdb_valid(data@),
                errors@.len() == 0 <==> ok,
                stats.total_pages == rd4(data@, 12),
                stats.track_count == spec_stat(data@, 0, t as int),
                stats.genre_count == spec_stat(data@, 1, t as int),
                stats.artist_count == spec_stat(data@, 2, t as int),
                stats.album_count == spec_stat(data@, 3, t as int),
                stats.key_count == spec_stat(data@, 5, t as int),
                stats.playlist_count == spec_stat(data@, 7, t as int),
                stats.playlist_entry_count == spec_stat(data@, 8, t as int),
            decreases num_tables - t,
        {
            let ptr_off = 0x10 + 16 * (t as usize);
            let table_type = crate::bytes::slice_u32_le_at(data, ptr_off + 12);
            let index_page = crate::bytes::slice_u32_le_at(data, ptr_off + 4);
            let last_page = crate::bytes::slice_u32_le_at(data, ptr_off + 8);
            if index_page != 0 && index_page >= actual_pages {
                errors.push(String::from_str("table index_page exceeds the page count"));
                ok = false;
                proof {
                    assert(!spec_pointer_ok(data@, t as int));
                }
            }
            if last_page != 0 && last_page >= actual_pages {
                errors.push(String::from_str("table last_data_page exceeds the page count"));
                ok = false;
                proof {
                    assert(!spec_pointer_ok(data@, t as int));
                }
            }
            if index_page > 0 && index_page < actual_pages {
                proof {
                    assert(index_page as int * 4096 + 4096 <= data@.len()) by (nonlinear_arith)
                        requires
                            index_page < actual_pages && actual_pages * 4096 == data@.len(),
                    ;
                }
                let start = crate::bytes::slice_u32_le_at(
                    data,
                    (index_page as usize) * 4096 + 0x2C,
                );
                let rows = count_table_rows(data, start, actual_pages);
                if table_type == 0 {
                    stats.track_count = rows;
                } else if table_type == 1 {
                    stats.genre_count = rows;
                } else if table_type == 2 {
                    stats.artist_count = rows;
                } else if table_type == 3 {
                    stats.album_count = rows;
                } else if table_type == 5 {
                    stats.key_count = rows;
                } else if table_type == 7 {
                    stats.playlist_count = rows;
                } else if table_type == 8 {
                    stats.playlist_entry_count = rows;
                }
            }
            t = t + 1;
        }
    }
    // Per-page checks; problems here are warnings only.
    let mut p: u32 = 1;
    let ghost pre_stats = stats;
    let ghost pre_errors = errors@;
    let ghost pre_ok = ok;
    while p < actual_pages
        invariant
            actual_pages * 4096 == data@.len(),
            actual_pages <= 0x0010_0000,
            stats == pre_stats,
            errors@ == pre_errors,
            ok == pre_ok,
        decreases actual_pages - p,
    {
        let off = (p as usize) * 4096;
        proof {
            assert(off + 4096 <= data@.len()) by (nonlinear_arith)
                requires
                    off == p * 4096 && p < actual_pages && actual_pages * 4096 == data@.len(),
            ;
        }
        let stored = crate::bytes::slice_u32_le_at(data, off + 4);
        if stored != p {
            warnings.push(String::from_str("page index does not match its file position"));
        }
        let flags = data[off + 0x1B];
        if flags != 0x00 && flags != 0x24 && flags != 0x34 && flags != 0x64 {
            warnings.push(String::from_str("unexpected page flags"));
        }
        let used = crate::bytes::slice_u16_le_at(data, off + 0x1E);
        if used > 4096 - 0x28 {
            warnings.push(String::from_str("used size exceeds the heap"));
        }
        p = p + 1;
    }
    proof {
        assert(data@.len() >= 4096);
        assert(data@.len() % 4096 == 0);
        assert(rd4(data@, 4) == 4096);
        assert(spec_npages(data@) == actual_pages);
        assert(ok ==> rd4(data@, 12) <= spec_npages(data@));
        assert(ok ==> rd4(data@, 8) <= 254);
        assert(ok ==> forall|t: int| 0 <= t < rd4(data@, 8) ==> spec_pointer_ok(data@, t));
        assert(ok ==> spec_pdb_valid(data@));
    }
    ValidationResult { valid: ok, stats, errors, warnings }
}

/// Every file the builder emits passes the validator's header checks.
pub proof fn lemma_built_file_validates(out: Seq<u8>)
    requires
        crate::pdb::spec_export_frame(out),
    ensures
        spec_pdb_valid(out),
{
    reveal(crate::pdb::spec_pointer_frame);
    let n = out.len() / 4096;
    assert(out.len() % 4096 == 0) by (nonlinear_arith)
        requires
            out.len() == n * 4096,
    ;
    assert forall|t: int| 0 <= t < rd4(out, 8) implies spec_pointer_ok(out, t) by {
        assert(crate::pdb::spec_pointer_frame(out, t));
    }
}

/// Following the next-page field from any data page of a built file
/// reaches the chain terminator in at most one hop per page.
pub open spec fn spec_chain_terminates(out: Seq<u8>, p: u32, fuel: nat) -> bool
    decreases fuel,
{
    if fuel == 0 {
        false
    } else if !(p < spec_npages(out)) {
        false
    } else {
        let next = rd4(out, p as int * 4096 + 8);
        next == 0xFFFF_FFFF || spec_chain_terminates(out, next, (fuel - 1) as nat)
    }
}

/// In a built file, a populated table's index page names its first
/// data page, and the chain from there ends at `0xFFFFFFFF` within
/// `npages` hops.
pub proof fn lemma_table_chain_terminates(out: Seq<u8>, p: u32)
    requires
        crate::pdb::spec_export_frame(out),
        1 <= p < spec_npages(out),
        out[p as int * 4096 + 0x1B] == 0x64,
        rd4(out, p as int * 4096 + 0x2C) != 0x03FF_FFFF,
    ensures
        spec_chain_terminates(
            out,
            rd4(out, p as int * 4096 + 0x2C),
            (spec_npages(out) - p - 1) as nat,
        ),
{
    reveal(crate::pdb::spec_page_frame);
    assert(crate::pdb::spec_page_frame(out, p as int));
    let link = rd4(out, p as int * 4096 + 0x2C);
    assert(link == p + 1 && (p as int + 2) * 4096 <= out.len() && out[(p as int + 1) * 4096
        + 0x1B] != 0x64);
    assert(out.len() == spec_npages(out) * 4096);
    assert(p + 2 <= spec_npages(out)) by (nonlinear_arith)
        requires
            (p as int + 2) * 4096 <= out.len() && out.len() == spec_npages(out) * 4096,
    ;
    lemma_chain_terminates(out, (p + 1) as u32);
}

/// In a built file, the chain from any data page ends at `0xFFFFFFFF`
/// within `npages` hops: every link goes to the next page, so the hop
/// count is bounded by the pages that remain.
pub proof fn lemma_chain_terminates(out: Seq<u8>, p: u32)
    requires
        crate::pdb::spec_export_frame(out),
        1 <= p < spec_npages(out),
        out[p as int * 4096 + 0x1B] != 0x64,
    ensures
        spec_chain_terminates(out, p, (spec_npages(out) - p) as nat),
    decreases spec_npages(out) - p,
{
    reveal(crate::pdb::spec_page_frame);
    let n = spec_npages(out);
    assert(crate::pdb::spec_page_frame(out, p as int));
    let next = rd4(out, p as int * 4096 + 8);
    if next != 0xFFFF_FFFF {
        assert(next == p + 1 && (p as int + 2) * 4096 <= out.len() && out[(p as int + 1) * 4096
            + 0x1B] != 0x64);
        assert(out.len() == n * 4096);
        assert(p + 2 <= n) by (nonlinear_arith)
            requires
                (p as int + 2) * 4096 <= out.len() && out.len() == n * 4096,
        ;
        lemma_chain_terminates(out, next);
    }
}

} // verus!
