//! Page building for the DeviceSQL database.
//!
//! Pages are 4096 bytes. A data page carries a 40-byte header, a heap
//! that grows forward from offset `0x28`, and a row directory that grows
//! backward from the page end in 36-byte groups of up to sixteen rows.
//! Each table starts with one index page (flag `0x64`) that locates its
//! first data page.

use vstd::prelude::*;

use crate::bytes::concat_bytes;
use crate::bytes::le2;
use crate::bytes::le3;
use crate::bytes::le4;
use crate::bytes::lemma_concat_bytes_push;
use crate::bytes::zeros;
use crate::error::Error;

verus! {

/// Page size in bytes; the format fixes it.
pub const PAGE_SIZE: usize = 4096;

/// Offset where a data page's heap begins.
pub const HEAP_START: usize = 0x28;

/// Size of one row group in the backward-growing row directory.
pub const ROW_GROUP_SIZE: usize = 36;

/// Rows per row group.
pub const ROWS_PER_GROUP: usize = 16;

/// Flag byte of an index page.
pub const PAGE_FLAGS_INDEX: u8 = 0x64;

/// Flag byte of an ordinary data page.
pub const PAGE_FLAGS_DATA: u8 = 0x24;

/// Flag byte of the data pages of the track and history tables.
pub const PAGE_FLAGS_DATA_TRACK: u8 = 0x34;

/// Sentinel written in an empty table's index slot instead of a data
/// page number.
pub const EMPTY_TABLE_MARKER: u32 = 0x03FF_FFFF;

/// The twenty table kinds, in the order their tables appear in the file.
#[derive(Debug, Clone, Copy, PartialEq, Eq, Structural)]
pub enum PageType {
    Tracks,
    Genres,
    Artists,
    Albums,
    Labels,
    Keys,
    Colors,
    PlaylistTree,
    PlaylistEntries,
    Unknown9,
    Unknown10,
    HistoryPlaylists,
    HistoryEntries,
    Artwork,
    Unknown14,
    Unknown15,
    Columns,
    Unknown17,
    Unknown18,
    History,
}

/// The numeric table type stored in page headers and table pointers.
pub open spec fn spec_table_type_id(t: PageType) -> u32 {
    match t {
        PageType::Tracks => 0,
        PageType::Genres => 1,
        PageType::Artists => 2,
        PageType::Albums => 3,
        PageType::Labels => 4,
        PageType::Keys => 5,
        PageType::Colors => 6,
        PageType::PlaylistTree => 7,
        PageType::PlaylistEntries => 8,
        PageType::Unknown9 => 9,
        PageType::Unknown10 => 10,
        PageType::HistoryPlaylists => 11,
        PageType::HistoryEntries => 12,
        PageType::Artwork => 13,
        PageType::Unknown14 => 14,
        PageType::Unknown15 => 15,
        PageType::Columns => 16,
        PageType::Unknown17 => 17,
        PageType::Unknown18 => 18,
        PageType::History => 19,
    }
}

/// The table kind at position `t` of the fixed table order.
pub open spec fn spec_type_of(t: int) -> PageType {
    if t == 0 {
        PageType::Tracks
    } else if t == 1 {
        PageType::Genres
    } else if t == 2 {
        PageType::Artists
    } else if t == 3 {
        PageType::Albums
    } else if t == 4 {
        PageType::Labels
    } else if t == 5 {
        PageType::Keys
    } else if t == 6 {
        PageType::Colors
    } else if t == 7 {
        PageType::PlaylistTree
    } else if t == 8 {
        PageType::PlaylistEntries
    } else if t == 9 {
        PageType::Unknown9
    } else if t == 10 {
        PageType::Unknown10
    } else if t == 11 {
        PageType::HistoryPlaylists
    } else if t == 12 {
        PageType::HistoryEntries
    } else if t == 13 {
        PageType::Artwork
    } else if t == 14 {
        PageType::Unknown14
    } else if t == 15 {
        PageType::Unknown15
    } else if t == 16 {
        PageType::Columns
    } else if t == 17 {
        PageType::Unknown17
    } else if t == 18 {
        PageType::Unknown18
    } else {
        PageType::History
    }
}

/// The flag byte of a data page of this table: track and history pages
/// use `0x34`, every other table `0x24`.
pub open spec fn spec_page_flags(t: PageType) -> u8 {
    match t {
        PageType::Tracks => 0x34,
        PageType::History => 0x34,
        _ => 0x24,
    }
}

impl PageType {
    /// The numeric table type stored in the file.
    pub fn type_id(&self) -> (r: u32)
        ensures
            r == spec_table_type_id(*self),
    {
        match self {
            PageType::Tracks => 0,
            PageType::Genres => 1,
            PageType::Artists => 2,
            PageType::Albums => 3,
            PageType::Labels => 4,
            PageType::Keys => 5,
            PageType::Colors => 6,
            PageType::PlaylistTree => 7,
            PageType::PlaylistEntries => 8,
            PageType::Unknown9 => 9,
            PageType::Unknown10 => 10,
            PageType::HistoryPlaylists => 11,
            PageType::HistoryEntries => 12,
            PageType::Artwork => 13,
            PageType::Unknown14 => 14,
            PageType::Unknown15 => 15,
            PageType::Columns => 16,
            PageType::Unknown17 => 17,
            PageType::Unknown18 => 18,
            PageType::History => 19,
        }
    }

    /// All twenty table kinds, in file order; every export carries each
    /// of them, populated or not.
    pub fn all_types() -> (r: Vec<PageType>)
        ensures
            r@.len() == 20,
            forall|i: int| 0 <= i < 20 ==> spec_table_type_id(#[trigger] r@[i]) == i,
            forall|i: int| 0 <= i < 20 ==> #[trigger] r@[i] == spec_type_of(i),
    {
        let mut r: Vec<PageType> = Vec::new();
        r.push(PageType::Tracks);
        r.push(PageType::Genres);
        r.push(PageType::Artists);
        r.push(PageType::Albums);
        r.push(PageType::Labels);
        r.push(PageType::Keys);
        r.push(PageType::Colors);
        r.push(PageType::PlaylistTree);
        r.push(PageType::PlaylistEntries);
        r.push(PageType::Unknown9);
        r.push(PageType::Unknown10);
        r.push(PageType::HistoryPlaylists);
        r.push(PageType::HistoryEntries);
        r.push(PageType::Artwork);
        r.push(PageType::Unknown14);
        r.push(PageType::Unknown15);
        r.push(PageType::Columns);
        r.push(PageType::Unknown17);
        r.push(PageType::Unknown18);
        r.push(PageType::History);
        r
    }

    /// The tables a minimal export must carry: all of them.
    pub fn required_types() -> (r: Vec<PageType>)
        ensures
            r@.len() == 20,
            forall|i: int| 0 <= i < 20 ==> spec_table_type_id(#[trigger] r@[i]) == i,
            forall|i: int| 0 <= i < 20 ==> #[trigger] r@[i] == spec_type_of(i),
    {
        Self::all_types()
    }
}

/// Bytes set aside for the row directory while the heap holds `nrows`
/// rows: one group per started sixteen, plus one group in hand.
pub open spec fn spec_reserved(nrows: int) -> int {
    36 * ((nrows / 16) + 1)
}

/// Whether writing `add` more heap bytes, with one more row in hand,
/// would run into the row directory.
pub open spec fn spec_would_overflow(heap_len: int, nrows: int, add: int) -> bool {
    0x28 + heap_len + add > 4096 - spec_reserved(nrows + 1)
}

/// How many row groups a finalized page with `nrows` rows carries: one
/// per started sixteen, and one even when the page is empty.
pub open spec fn spec_group_count(nrows: int) -> int {
    if nrows == 0 {
        1
    } else {
        (nrows + 15) / 16
    }
}

/// How many rows fall into group `g`.
pub open spec fn spec_rows_in_group(nrows: int, g: int) -> int {
    if nrows - 16 * g >= 16 {
        16
    } else if nrows - 16 * g >= 0 {
        nrows - 16 * g
    } else {
        0
    }
}

/// The presence bitmap of group `g`: one bit per present row, from bit
/// zero up.
pub open spec fn spec_presence(nrows: int, g: int) -> u16 {
    ((1u32 << spec_rows_in_group(nrows, g)) - 1) as u16
}

/// One 36-byte row group: sixteen row offset slots stored in reverse
/// (slot `15 - i` holds row `i` of the group), then the presence bitmap
/// twice over.
pub open spec fn spec_row_group(rows: Seq<u16>, g: int) -> Seq<u8> {
    concat_bytes(
        Seq::new(
            16,
            |j: int|
                {
                    let idx = 16 * g + (15 - j);
                    le2(
                        if 0 <= idx < rows.len() {
                            rows[idx]
                        } else {
                            0u16
                        },
                    )
                },
        ),
    ) + le2(spec_presence(rows.len() as int, g)) + le2(spec_presence(rows.len() as int, g))
}

/// The whole row directory: groups in file order, which is the highest
/// group first because the directory grows backward from the page end.
pub open spec fn spec_row_directory(rows: Seq<u16>) -> Seq<u8> {
    let groups = spec_group_count(rows.len() as int);
    concat_bytes(Seq::new(groups as nat, |gi: int| spec_row_group(rows, groups - 1 - gi)))
}

/// The packed row counts at offset `0x18`: the slot count (four per
/// row) in the high thirteen bits, the row count in the low eleven.
pub open spec fn spec_packed_row_counts(nrows: int) -> u32 {
    (((4 * nrows) as u32) << 11) | ((nrows as u32) & 0x7FF)
}

/// A complete data page: the 40-byte header, the heap, a zero gap, and
/// the row directory at the end.
pub open spec fn spec_data_page(
    page_index: u32,
    t: PageType,
    next_page: u32,
    heap: Seq<u8>,
    rows: Seq<u16>,
) -> Seq<u8> {
    let nrows = rows.len() as int;
    let groups = spec_group_count(nrows);
    let free = 4096 - 36 * groups - 0x28 - heap.len();
    zeros(4) + le4(page_index) + le4(next_page) + le4((page_index + spec_table_type_id(t)) as u32)
        + le4(nrows as u32) + zeros(4) + le3(spec_packed_row_counts(nrows)) + seq![
        spec_page_flags(t),
    ] + le2(free as u16) + le2(heap.len() as u16) + le2(nrows as u16) + zeros(4) + le2(
        if t is History {
            1u16
        } else {
            0u16
        },
    ) + heap + zeros((4096 - 36 * groups - 0x28 - heap.len()) as nat) + spec_row_directory(rows)
}

/// One data page under construction: its heap contents and the offsets
/// of the rows already placed.
pub struct PageBuilder {
    heap: Vec<u8>,
    row_offsets: Vec<u16>,
    page_index: u32,
    page_type: PageType,
}

impl PageBuilder {
    /// The heap bytes written so far.
    pub closed spec fn heap(&self) -> Seq<u8> {
        self.heap@
    }

    /// The recorded row offsets, relative to the heap start.
    pub closed spec fn rows(&self) -> Seq<u16> {
        self.row_offsets@
    }

    /// This page's position in the file.
    pub closed spec fn idx(&self) -> u32 {
        self.page_index
    }

    /// The table this page belongs to.
    pub closed spec fn ptype(&self) -> PageType {
        self.page_type
    }

    /// The heap has not run into the space reserved for the row
    /// directory.
    pub open spec fn wf(&self) -> bool {
        0x28 + self.heap().len() + spec_reserved(self.rows().len() as int) <= 4096
    }

    /// A fresh, empty data page.
    pub fn new(page_index: u32, page_type: PageType) -> (r: PageBuilder)
        ensures
            r.heap() == Seq::<u8>::empty(),
            r.rows() == Seq::<u16>::empty(),
            r.idx() == page_index,
            r.ptype() == page_type,
            r.wf(),
    {
        PageBuilder { heap: Vec::new(), row_offsets: Vec::new(), page_index, page_type }
    }

    /// A page of zeros, the placeholder form of an unused page.
    pub fn empty_page() -> (r: Vec<u8>)
        ensures
            r@ == zeros(4096),
    {
        let mut r: Vec<u8> = Vec::new();
        crate::bytes::push_zeros(&mut r, 4096);
        proof {
            assert(r@ =~= zeros(4096));
        }
        r
    }

    /// A placeholder page for a given position; placeholder pages carry
    /// no header, so the position does not appear in the bytes.
    pub fn empty_page_with_index(_page_index: u32) -> (r: Vec<u8>)
        ensures
            r@ == zeros(4096),
    {
        Self::empty_page()
    }

    /// Whether writing `data_size` more heap bytes, with one more row in
    /// hand, would run into the row directory.
    pub fn would_overflow(&self, data_size: usize) -> (r: bool)
        requires
            self.wf(),
        ensures
            r == spec_would_overflow(self.heap().len() as int, self.rows().len() as int, data_size as int),
    {
        let reserved: usize = 36 * (((self.row_offsets.len() + 1) / 16) + 1);
        if reserved > 4096 - 0x28 - self.heap.len() {
            true
        } else {
            data_size > 4096 - 0x28 - self.heap.len() - reserved
        }
    }

    /// Append raw bytes to the heap; the returned offset is relative to
    /// the heap start. Fails, changing nothing, when the bytes would
    /// run into the row directory.
    pub fn write_heap(&mut self, data: &Vec<u8>) -> (r: crate::error::Result<u16>)
        requires
            old(self).wf(),
        ensures
            final(self).idx() == old(self).idx() && final(self).ptype() == old(self).ptype(),
            final(self).wf(),
            r is Ok <==> !spec_would_overflow(
                old(self).heap().len() as int,
                old(self).rows().len() as int,
                data@.len() as int,
            ),
            r matches Ok(off) ==> {
                &&& off as int == old(self).heap().len()
                &&& final(self).heap() == old(self).heap() + data@
                &&& final(self).rows() == old(self).rows()
            },
            r is Err ==> *final(self) == *old(self),
            r matches Err(e) ==> e is PageOverflow,
    {
        if self.would_overflow(data.len()) {
            return Err(Error::PageOverflow(String::from_str("row does not fit in the page")));
        }
        let off = self.heap.len() as u16;
        crate::bytes::push_bytes(&mut self.heap, data);
        Ok(off)
    }

    /// Record a row whose bytes already sit in the heap at
    /// `heap_offset`. The page must still have directory space in hand
    /// for the new row.
    pub fn add_row(&mut self, heap_offset: u16) -> (r: crate::error::Result<()>)
        requires
            0x28 + old(self).heap().len() + spec_reserved(old(self).rows().len() as int + 1) <= 4096,
        ensures
            r is Ok,
            final(self).idx() == old(self).idx() && final(self).ptype() == old(self).ptype(),
            final(self).heap() == old(self).heap(),
            final(self).rows() == old(self).rows().push(heap_offset),
            final(self).wf(),
    {
        self.row_offsets.push(heap_offset);
        proof {
            vstd::arithmetic::div_mod::lemma_div_is_ordered(
                old(self).rows().len() as int,
                old(self).rows().len() as int + 1,
                16,
            );
        }
        Ok(())
    }

    /// The heap bytes a finished row occupies: the row itself, then
    /// zero padding to the next four-byte boundary where it still fits.
    pub open spec fn spec_row_heap_bytes(heap_before: Seq<u8>, nrows_before: int, data: Seq<u8>) -> Seq<u8> {
        let unpadded = heap_before.len() as int + data.len() as int;
        let pad = (4 - (unpadded % 4)) % 4;
        if pad > 0 && !spec_would_overflow(unpadded, nrows_before + 1, pad) {
            data + zeros(pad as nat)
        } else {
            data
        }
    }

    /// Write one row: append its bytes, record its offset, and pad the
    /// heap to a four-byte boundary. Fails, changing nothing, when the
    /// row would run into the row directory.
    pub fn write_row(&mut self, data: &Vec<u8>) -> (r: crate::error::Result<u16>)
        requires
            old(self).wf(),
        ensures
            final(self).idx() == old(self).idx() && final(self).ptype() == old(self).ptype(),
            final(self).wf(),
            r is Ok <==> !spec_would_overflow(
                old(self).heap().len() as int,
                old(self).rows().len() as int,
                data@.len() as int,
            ),
            r matches Ok(off) ==> {
                &&& off as int == old(self).heap().len()
                &&& final(self).heap() == old(self).heap() + Self::spec_row_heap_bytes(
                    old(self).heap(),
                    old(self).rows().len() as int,
                    data@,
                )
                &&& final(self).rows() == old(self).rows().push(off)
            },
            r is Err ==> *final(self) == *old(self),
            r matches Err(e) ==> e is PageOverflow,
    {
        let off = match self.write_heap(data) {
            Ok(off) => off,
            Err(e) => {
                return Err(e);
            },
        };
        let res = self.add_row(off);
        proof {
            match res {
                Ok(_) => {},
                Err(_) => {
                    assert(false);
                },
            }
        }
        let unpadded = self.heap.len();
        let pad = (4 - (unpadded % 4)) % 4;
        if pad > 0 && !self.would_overflow(pad) {
            crate::bytes::push_zeros(&mut self.heap, pad);
            proof {
                assert(final(self).heap() =~= old(self).heap() + (data@ + zeros(pad as nat)));
            }
        }
        Ok(off)
    }

    /// The next free heap position, as an absolute page offset.
    pub fn heap_position(&self) -> (r: usize)
        requires
            self.wf(),
        ensures
            r == 0x28 + self.heap().len(),
    {
        HEAP_START + self.heap.len()
    }

    /// How many rows the page holds.
    pub fn row_count(&self) -> (r: usize)
        ensures
            r == self.rows().len(),
    {
        self.row_offsets.len()
    }

    /// This page's position in the file.
    pub fn page_index(&self) -> (r: u32)
        ensures
            r == self.idx(),
    {
        self.page_index
    }

    /// Emit the finished 4096-byte page: header, heap, zero gap, and
    /// the row directory, with `next_page` linking to the successor
    /// (`0xFFFFFFFF` ends the chain).
    #[verifier::rlimit(100)]
    pub fn finalize(self, next_page: u32) -> (r: Vec<u8>)
        requires
            self.wf(),
            self.idx() < 0xF000_0000,
        ensures
            r@ == spec_data_page(self.idx(), self.ptype(), next_page, self.heap(), self.rows()),
            r@.len() == 4096,
    {
        let nrows = self.row_offsets.len();
        let groups: usize = if nrows == 0 {
            1
        } else {
            (nrows + 15) / 16
        };
        proof {
            lemma_group_count_le_reserved(nrows as int);
            assert(spec_reserved(nrows as int) <= 4096 - 0x28);
            assert(nrows < 2048);
        }
        let mut out: Vec<u8> = Vec::new();
        crate::bytes::push_zeros(&mut out, 4);
        crate::bytes::push_u32_le(&mut out, self.page_index);
        crate::bytes::push_u32_le(&mut out, next_page);
        crate::bytes::push_u32_le(&mut out, self.page_index + self.page_type.type_id());
        crate::bytes::push_u32_le(&mut out, nrows as u32);
        crate::bytes::push_zeros(&mut out, 4);
        let packed: u32 = (((4 * nrows) as u32) << 11) | ((nrows as u32) & 0x7FF);
        proof {
            assert(nrows < 2048 ==> ((nrows as u32) & 0x7FF) == nrows as u32) by (bit_vector);
            assert(packed == spec_packed_row_counts(nrows as int));
        }
        crate::bytes::push_u24_le(&mut out, packed);
        let flags: u8 = match self.page_type {
            PageType::Tracks => PAGE_FLAGS_DATA_TRACK,
            PageType::History => PAGE_FLAGS_DATA_TRACK,
            _ => PAGE_FLAGS_DATA,
        };
        out.push(flags);
        let free: usize = 4096 - 36 * groups - 0x28 - self.heap.len();
        crate::bytes::push_u16_le(&mut out, free as u16);
        crate::bytes::push_u16_le(&mut out, self.heap.len() as u16);
        crate::bytes::push_u16_le(&mut out, nrows as u16);
        crate::bytes::push_zeros(&mut out, 4);
        let history: u16 = match self.page_type {
            PageType::History => 1,
            _ => 0,
        };
        crate::bytes::push_u16_le(&mut out, history);
        proof {
            assert(out@.len() == 0x28);
        }
        crate::bytes::push_bytes(&mut out, &self.heap);
        crate::bytes::push_zeros(&mut out, free);
        let ghost before_dir = out@;
        let ghost dir_groups = Seq::new(
            groups as nat,
            |gi: int| spec_row_group(self.row_offsets@, groups - 1 - gi),
        );
        let mut gi: usize = 0;
        while gi < groups
            invariant
                gi <= groups,
                groups == spec_group_count(self.row_offsets@.len() as int),
                groups <= 128,
                self.row_offsets@.len() < 2048,
                out@ == before_dir + concat_bytes(dir_groups.subrange(0, gi as int)),
                dir_groups == Seq::new(
                    groups as nat,
                    |gj: int| spec_row_group(self.row_offsets@, groups - 1 - gj),
                ),
            decreases groups - gi,
        {
            let g = groups - 1 - gi;
            let ghost before = dir_groups.subrange(0, gi as int);
            self.push_row_group(&mut out, g);
            gi = gi + 1;
            proof {
                assert(dir_groups.subrange(0, gi as int) =~= before.push(
                    spec_row_group(self.row_offsets@, groups - gi),
                ));
                lemma_concat_bytes_push(before, spec_row_group(self.row_offsets@, groups - gi));
                assert(out@ =~= before_dir + concat_bytes(dir_groups.subrange(0, gi as int)));
            }
        }
        proof {
            assert(dir_groups.subrange(0, groups as int) =~= dir_groups);
            assert forall|gj: int| 0 <= gj < dir_groups.len() implies (#[trigger] dir_groups[gj]).len()
                == 36 by {
                lemma_row_group_len(self.row_offsets@, groups - 1 - gj);
            }
            crate::bytes::lemma_concat_bytes_len_uniform(dir_groups, 36);
            assert(out@ =~= spec_data_page(
                self.idx(),
                self.ptype(),
                next_page,
                self.heap(),
                self.rows(),
            ));
        }
        out
    }

    /// Append one 36-byte row group.
    fn push_row_group(&self, out: &mut Vec<u8>, g: usize)
        requires
            self.rows().len() < 2048,
            g < 128,
        ensures
            final(out)@ == old(out)@ + spec_row_group(self.rows(), g as int),
    {
        let ghost slots = Seq::new(
            16,
            |j: int|
                {
                    let idx = 16 * (g as int) + (15 - j);
                    le2(
                        if 0 <= idx < self.rows().len() {
                            self.rows()[idx]
                        } else {
                            0u16
                        },
                    )
                },
        );
        let ghost base = old(out)@;
        let mut j: usize = 0;
        while j < 16
            invariant
                j <= 16,
                g < 128,
                self.rows().len() < 2048,
                out@ == base + concat_bytes(slots.subrange(0, j as int)),
                slots == Seq::new(
                    16,
                    |k: int|
                        {
                            let idx = 16 * (g as int) + (15 - k);
                            le2(
                                if 0 <= idx < self.rows().len() {
                                    self.rows()[idx]
                                } else {
                                    0u16
                                },
                            )
                        },
                ),
            decreases 16 - j,
        {
            let ghost before = slots.subrange(0, j as int);
            let slot: u16 = if 16 * g + 15 >= j && 16 * g + 15 - j < self.row_offsets.len() {
                self.row_offsets[16 * g + 15 - j]
            } else {
                0
            };
            crate::bytes::push_u16_le(out, slot);
            j = j + 1;
            proof {
                assert(slots.subrange(0, j as int) =~= before.push(slots[j - 1]));
                lemma_concat_bytes_push(before, slots[j - 1]);
                assert(out@ =~= base + concat_bytes(slots.subrange(0, j as int)));
            }
        }
        let nrows = self.row_offsets.len();
        let in_group: usize = if nrows >= 16 * g + 16 {
            16
        } else if nrows >= 16 * g {
            nrows - 16 * g
        } else {
            0
        };
        proof {
            let k = in_group;
            assert(k <= 16 ==> ((1u32 << k) >= 1 && ((1u32 << k) - 1) <= 0xFFFF)) by (bit_vector);
        }
        let presence: u16 = ((1u32 << in_group) - 1) as u16;
        proof {
            assert(presence == spec_presence(self.rows().len() as int, g as int));
        }
        crate::bytes::push_u16_le(out, presence);
        crate::bytes::push_u16_le(out, presence);
        proof {
            assert(slots.subrange(0, 16) =~= slots);
            assert(final(out)@ =~= old(out)@ + spec_row_group(self.rows(), g as int));
        }
    }
}

/// The fill word repeated over an index page's unused entry slots.
pub open spec fn spec_index_fill(words: int) -> Seq<u8> {
    concat_bytes(Seq::new(words as nat, |i: int| le4(0x1FFF_FFF8)))
}

/// A complete index page. Its body names this page, the table's first
/// data page (or the empty-table sentinel), and one entry holding the
/// table's slot count; the rest is fill pattern and a zero tail.
pub open spec fn spec_index_page(
    page_index: u32,
    data_page_index: u32,
    has_data: bool,
    num_row_offsets: u32,
) -> Seq<u8> {
    zeros(4) + le4(page_index) + le4(page_index / 2) + le4((page_index + 1) as u32) + le4(1)
        + zeros(7) + seq![0x64u8] + zeros(4) + le2(0x1FFF) + le2(0x1FFF) + le2(0x03EC) + le2(
        if has_data {
            1u16
        } else {
            0u16
        },
    ) + le4(page_index) + le4(
        if has_data {
            data_page_index
        } else {
            0x03FF_FFFFu32
        },
    ) + le4(0x03FF_FFFF) + zeros(4) + le2(
        if has_data {
            1u16
        } else {
            0u16
        },
    ) + le2(0x1FFF) + (if has_data {
        le4(num_row_offsets) + spec_index_fill(1003)
    } else {
        spec_index_fill(1004)
    }) + zeros(20)
}

/// Builder for the single index page that starts each table.
pub struct IndexPageBuilder {
    page_index: u32,
    page_type: PageType,
}

impl IndexPageBuilder {
    /// This page's position in the file.
    pub closed spec fn idx(&self) -> u32 {
        self.page_index
    }

    /// The table this index page belongs to.
    pub closed spec fn ptype(&self) -> PageType {
        self.page_type
    }

    /// An index page for the table starting at `page_index`.
    pub fn new(page_index: u32, page_type: PageType) -> (r: IndexPageBuilder)
        ensures
            r.idx() == page_index,
            r.ptype() == page_type,
    {
        IndexPageBuilder { page_index, page_type }
    }

    /// Emit the finished 4096-byte index page. `data_page_index` is the
    /// table's first data page; for an empty table the sentinel is
    /// written instead, and `num_row_offsets` is the table's slot count
    /// (four per row).
    pub fn finalize(self, data_page_index: u32, has_data: bool, num_row_offsets: u32) -> (r: Vec<
        u8,
    >)
        requires
            self.idx() < 0xF000_0000,
        ensures
            r@ == spec_index_page(self.idx(), data_page_index, has_data, num_row_offsets),
            r@.len() == 4096,
    {
        let mut out: Vec<u8> = Vec::new();
        crate::bytes::push_zeros(&mut out, 4);
        crate::bytes::push_u32_le(&mut out, self.page_index);
        crate::bytes::push_u32_le(&mut out, self.page_index / 2);
        crate::bytes::push_u32_le(&mut out, self.page_index + 1);
        crate::bytes::push_u32_le(&mut out, 1);
        crate::bytes::push_zeros(&mut out, 7);
        out.push(PAGE_FLAGS_INDEX);
        crate::bytes::push_zeros(&mut out, 4);
        crate::bytes::push_u16_le(&mut out, 0x1FFF);
        crate::bytes::push_u16_le(&mut out, 0x1FFF);
        crate::bytes::push_u16_le(&mut out, 0x03EC);
        crate::bytes::push_u16_le(
            &mut out,
            if has_data {
                1
            } else {
                0
            },
        );
        crate::bytes::push_u32_le(&mut out, self.page_index);
        crate::bytes::push_u32_le(
            &mut out,
            if has_data {
                data_page_index
            } else {
                EMPTY_TABLE_MARKER
            },
        );
        crate::bytes::push_u32_le(&mut out, EMPTY_TABLE_MARKER);
        crate::bytes::push_zeros(&mut out, 4);
        crate::bytes::push_u16_le(
            &mut out,
            if has_data {
                1
            } else {
                0
            },
        );
        crate::bytes::push_u16_le(&mut out, 0x1FFF);
        let fill_words: usize = if has_data {
            crate::bytes::push_u32_le(&mut out, num_row_offsets);
            1003
        } else {
            1004
        };
        let ghost before_fill = out@;
        let mut w: usize = 0;
        while w < fill_words
            invariant
                w <= fill_words,
                out@ == before_fill + spec_index_fill(w as int),
            decreases fill_words - w,
        {
            let ghost before = Seq::new(w as nat, |i: int| le4(0x1FFF_FFF8u32));
            crate::bytes::push_u32_le(&mut out, 0x1FFF_FFF8);
            w = w + 1;
            proof {
                assert(Seq::new(w as nat, |i: int| le4(0x1FFF_FFF8u32)) =~= before.push(
                    le4(0x1FFF_FFF8u32),
                ));
                lemma_concat_bytes_push(before, le4(0x1FFF_FFF8u32));
                assert(out@ =~= before_fill + spec_index_fill(w as int));
            }
        }
        crate::bytes::push_zeros(&mut out, 20);
        proof {
            lemma_index_fill_len(1003);
            lemma_index_fill_len(1004);
            assert(out@ =~= spec_index_page(
                self.idx(),
                data_page_index,
                has_data,
                num_row_offsets,
            ));
        }
        out
    }
}

/// The fill pattern takes four bytes per word.
proof fn lemma_index_fill_len(words: int)
    requires
        words >= 0,
    ensures
        spec_index_fill(words).len() == 4 * words,
{
    crate::bytes::lemma_concat_bytes_len_uniform(
        Seq::new(words as nat, |i: int| le4(0x1FFF_FFF8u32)),
        4,
    );
}

/// One of the twenty 16-byte table pointers in the file header.
#[derive(Debug, Clone, Copy, PartialEq, Eq, Structural, Default)]
pub struct TablePointer {
    /// Opaque allocation counter.
    pub first: u32,
    /// The table's index page.
    pub index_page: u32,
    /// The table's last data page; for an empty table, its index page.
    pub last_data_page: u32,
    /// The numeric table type.
    pub table_type: u32,
}

/// The sixteen bytes of a table pointer.
pub open spec fn spec_table_pointer_bytes(p: TablePointer) -> Seq<u8> {
    le4(p.first) + le4(p.index_page) + le4(p.last_data_page) + le4(p.table_type)
}

impl TablePointer {
    /// A pointer for table `table_type`, whose index page is
    /// `index_page` and whose last data page is `data_page`.
    pub fn new(table_type: PageType, first: u32, index_page: u32, data_page: u32) -> (r:
        TablePointer)
        ensures
            r == (TablePointer {
                first,
                index_page,
                last_data_page: data_page,
                table_type: spec_table_type_id(table_type),
            }),
    {
        TablePointer {
            first,
            index_page,
            last_data_page: data_page,
            table_type: table_type.type_id(),
        }
    }

    /// The pointer's sixteen bytes.
    pub fn to_bytes(&self) -> (r: Vec<u8>)
        ensures
            r@ == spec_table_pointer_bytes(*self),
            r@.len() == 16,
    {
        let mut r: Vec<u8> = Vec::new();
        crate::bytes::push_u32_le(&mut r, self.first);
        crate::bytes::push_u32_le(&mut r, self.index_page);
        crate::bytes::push_u32_le(&mut r, self.last_data_page);
        crate::bytes::push_u32_le(&mut r, self.table_type);
        proof {
            assert(r@ =~= spec_table_pointer_bytes(*self));
        }
        r
    }
}

/// The file header page: the page size, the table count, the next
/// unused page, then one pointer per table.
pub open spec fn spec_file_header_page(
    page_size: u32,
    num_tables: u32,
    next_unused_page: u32,
    tables: Seq<TablePointer>,
) -> Seq<u8> {
    zeros(4) + le4(page_size) + le4(num_tables) + le4(next_unused_page) + concat_bytes(
        tables.map_values(|p: TablePointer| spec_table_pointer_bytes(p)),
    ) + zeros((4096 - 16 - 16 * tables.len()) as nat)
}

/// Builder for page zero, written last because it names every table's
/// pages and the high-water page index.
pub struct FileHeader {
    /// Page size; always 4096.
    pub page_size: u32,
    /// How many table pointers follow.
    pub num_tables: u32,
    /// The first page index past the file.
    pub next_unused_page: u32,
    /// One pointer per table, in table order.
    pub tables: Vec<TablePointer>,
}

impl FileHeader {
    /// An empty header for a 4096-byte-page file.
    pub fn new() -> (r: FileHeader)
        ensures
            r.page_size == 4096,
            r.num_tables == 0,
            r.next_unused_page == 1,
            r.tables@ == Seq::<TablePointer>::empty(),
    {
        FileHeader { page_size: 4096, num_tables: 0, next_unused_page: 1, tables: Vec::new() }
    }

    /// Append one table pointer.
    pub fn add_table(&mut self, pointer: TablePointer)
        requires
            old(self).tables@.len() < 255,
        ensures
            final(self).tables@ == old(self).tables@.push(pointer),
            final(self).num_tables == final(self).tables@.len(),
            final(self).page_size == old(self).page_size,
            final(self).next_unused_page == old(self).next_unused_page,
    {
        self.tables.push(pointer);
        self.num_tables = self.tables.len() as u32;
    }

    /// Emit the 4096-byte header page.
    pub fn to_page(&self) -> (r: Vec<u8>)
        requires
            self.tables@.len() <= 20,
        ensures
            r@ == spec_file_header_page(
                self.page_size,
                self.num_tables,
                self.next_unused_page,
                self.tables@,
            ),
            r@.len() == 4096,
    {
        let mut out: Vec<u8> = Vec::new();
        crate::bytes::push_zeros(&mut out, 4);
        crate::bytes::push_u32_le(&mut out, self.page_size);
        crate::bytes::push_u32_le(&mut out, self.num_tables);
        crate::bytes::push_u32_le(&mut out, self.next_unused_page);
        let ghost f = |p: TablePointer| spec_table_pointer_bytes(p);
        let ghost header = out@;
        let mut i: usize = 0;
        while i < self.tables.len()
            invariant
                i <= self.tables@.len(),
                self.tables@.len() <= 20,
                header.len() == 16,
                out@ == header + concat_bytes(self.tables@.subrange(0, i as int).map_values(f)),
                out@.len() == 16 + 16 * i,
                f == (|p: TablePointer| spec_table_pointer_bytes(p)),
            decreases self.tables@.len() - i,
        {
            let ghost before = self.tables@.subrange(0, i as int).map_values(f);
            let p = self.tables[i];
            let b = p.to_bytes();
            crate::bytes::push_bytes(&mut out, &b);
            i = i + 1;
            proof {
                assert(self.tables@.subrange(0, i as int).map_values(f) =~= before.push(
                    spec_table_pointer_bytes(p),
                ));
                lemma_concat_bytes_push(before, spec_table_pointer_bytes(p));
                assert(out@ =~= header + concat_bytes(
                    self.tables@.subrange(0, i as int).map_values(f),
                ));
            }
        }
        crate::bytes::push_zeros(&mut out, 4096 - 16 - 16 * self.tables.len());
        proof {
            assert(self.tables@.subrange(0, self.tables@.len() as int) =~= self.tables@);
            assert(out@ =~= spec_file_header_page(
                self.page_size,
                self.num_tables,
                self.next_unused_page,
                self.tables@,
            ));
        }
        out
    }
}

/// How many bits of `x` are set.
pub open spec fn popcount16(x: u16) -> int
    decreases x,
    via popcount16_decreases
{
    if x == 0 {
        0
    } else {
        (x & 1) as int + popcount16(x >> 1)
    }
}

#[via_fn]
proof fn popcount16_decreases(x: u16) {
    assert(x != 0 ==> (x >> 1) < x) by (bit_vector);
}

/// A bitmap of `k` low ones has population count `k`.
proof fn lemma_popcount_ones(k: int)
    requires
        0 <= k <= 16,
    ensures
        popcount16(((1u32 << k) - 1) as u16) == k,
{
    assert((0x1u16 & 1) == 1 && (0x1u16 >> 1) == 0x0u16 && 0x1u16 != 0 && (0x3u16 & 1) == 1 && (0x3u16 >> 1) == 0x1u16 && 0x3u16 != 0 && (0x7u16 & 1) == 1 && (0x7u16 >> 1) == 0x3u16 && 0x7u16 != 0 && (0xFu16 & 1) == 1 && (0xFu16 >> 1) == 0x7u16 && 0xFu16 != 0 && (0x1Fu16 & 1) == 1 && (0x1Fu16 >> 1) == 0xFu16 && 0x1Fu16 != 0 && (0x3Fu16 & 1) == 1 && (0x3Fu16 >> 1) == 0x1Fu16 && 0x3Fu16 != 0 && (0x7Fu16 & 1) == 1 && (0x7Fu16 >> 1) == 0x3Fu16 && 0x7Fu16 != 0 && (0xFFu16 & 1) == 1 && (0xFFu16 >> 1) == 0x7Fu16 && 0xFFu16 != 0 && (0x1FFu16 & 1) == 1 && (0x1FFu16 >> 1) == 0xFFu16 && 0x1FFu16 != 0 && (0x3FFu16 & 1) == 1 && (0x3FFu16 >> 1) == 0x1FFu16 && 0x3FFu16 != 0 && (0x7FFu16 & 1) == 1 && (0x7FFu16 >> 1) == 0x3FFu16 && 0x7FFu16 != 0 && (0xFFFu16 & 1) == 1 && (0xFFFu16 >> 1) == 0x7FFu16 && 0xFFFu16 != 0 && (0x1FFFu16 & 1) == 1 && (0x1FFFu16 >> 1) == 0xFFFu16 && 0x1FFFu16 != 0 && (0x3FFFu16 & 1) == 1 && (0x3FFFu16 >> 1) == 0x1FFFu16 && 0x3FFFu16 != 0 && (0x7FFFu16 & 1) == 1 && (0x7FFFu16 >> 1) == 0x3FFFu16 && 0x7FFFu16 != 0 && (0xFFFFu16 & 1) == 1 && (0xFFFFu16 >> 1) == 0x7FFFu16 && 0xFFFFu16 != 0) by (bit_vector);
    assert(popcount16(0x0u16) == 0);
    assert(popcount16(0x1u16) == 1);
    assert(popcount16(0x3u16) == 2);
    assert(popcount16(0x7u16) == 3);
    assert(popcount16(0xFu16) == 4);
    assert(popcount16(0x1Fu16) == 5);
    assert(popcount16(0x3Fu16) == 6);
    assert(popcount16(0x7Fu16) == 7);
    assert(popcount16(0xFFu16) == 8);
    assert(popcount16(0x1FFu16) == 9);
    assert(popcount16(0x3FFu16) == 10);
    assert(popcount16(0x7FFu16) == 11);
    assert(popcount16(0xFFFu16) == 12);
    assert(popcount16(0x1FFFu16) == 13);
    assert(popcount16(0x3FFFu16) == 14);
    assert(popcount16(0x7FFFu16) == 15);
    assert(popcount16(0xFFFFu16) == 16);
    if k == 0 {
        assert(((1u32 << 0) - 1) as u16 == 0x0u16) by (bit_vector);
    } else if k == 1 {
        assert(((1u32 << 1) - 1) as u16 == 0x1u16) by (bit_vector);
    } else if k == 2 {
        assert(((1u32 << 2) - 1) as u16 == 0x3u16) by (bit_vector);
    } else if k == 3 {
        assert(((1u32 << 3) - 1) as u16 == 0x7u16) by (bit_vector);
    } else if k == 4 {
        assert(((1u32 << 4) - 1) as u16 == 0xFu16) by (bit_vector);
    } else if k == 5 {
        assert(((1u32 << 5) - 1) as u16 == 0x1Fu16) by (bit_vector);
    } else if k == 6 {
        assert(((1u32 << 6) - 1) as u16 == 0x3Fu16) by (bit_vector);
    } else if k == 7 {
        assert(((1u32 << 7) - 1) as u16 == 0x7Fu16) by (bit_vector);
    } else if k == 8 {
        assert(((1u32 << 8) - 1) as u16 == 0xFFu16) by (bit_vector);
    } else if k == 9 {
        assert(((1u32 << 9) - 1) as u16 == 0x1FFu16) by (bit_vector);
    } else if k == 10 {
        assert(((1u32 << 10) - 1) as u16 == 0x3FFu16) by (bit_vector);
    } else if k == 11 {
        assert(((1u32 << 11) - 1) as u16 == 0x7FFu16) by (bit_vector);
    } else if k == 12 {
        assert(((1u32 << 12) - 1) as u16 == 0xFFFu16) by (bit_vector);
    } else if k == 13 {
        assert(((1u32 << 13) - 1) as u16 == 0x1FFFu16) by (bit_vector);
    } else if k == 14 {
        assert(((1u32 << 14) - 1) as u16 == 0x3FFFu16) by (bit_vector);
    } else if k == 15 {
        assert(((1u32 << 15) - 1) as u16 == 0x7FFFu16) by (bit_vector);
    } else if k == 16 {
        assert(((1u32 << 16) - 1) as u16 == 0xFFFFu16) by (bit_vector);
    } else {
        assert(false);
    }
}

/// The presence bitmap of every row group has one bit per row the group
/// holds (its row count modulo sixteen, or sixteen when full), and the
/// byte pair after it repeats the bitmap exactly.
pub proof fn lemma_presence_popcount(rows: Seq<u16>, g: int)
    requires
        0 <= g,
    ensures
        popcount16(spec_presence(rows.len() as int, g)) == spec_rows_in_group(rows.len() as int, g),
        spec_row_group(rows, g).subrange(32, 34) == spec_row_group(rows, g).subrange(34, 36),
{
    lemma_popcount_ones(spec_rows_in_group(rows.len() as int, g));
    let slots = Seq::new(
        16,
        |j: int|
            {
                let idx = 16 * g + (15 - j);
                le2(
                    if 0 <= idx < rows.len() {
                        rows[idx]
                    } else {
                        0u16
                    },
                )
            },
    );
    crate::bytes::lemma_concat_bytes_len_uniform(slots, 2);
    assert(spec_row_group(rows, g).subrange(32, 34) =~= spec_row_group(rows, g).subrange(34, 36));
}

/// The directory of a finalized page fits in the reserved space, and
/// the reservation bounds the row count.
pub proof fn lemma_group_reserve_pub(nrows: int)
    requires
        nrows >= 0,
    ensures
        36 * spec_group_count(nrows) <= spec_reserved(nrows),
        spec_reserved(nrows) <= 4096 - 0x28 ==> nrows < 2048,
        spec_group_count(nrows) >= 1,
{
    lemma_group_count_le_reserved(nrows);
    if nrows > 0 {
        vstd::arithmetic::div_mod::lemma_div_pos_is_pos(nrows + 15, 16);
    }
}

/// A finalized data page is exactly one page long.
pub proof fn lemma_data_page_len(
    page_index: u32,
    t: PageType,
    next_page: u32,
    heap: Seq<u8>,
    rows: Seq<u16>,
)
    requires
        0x28 + heap.len() + spec_reserved(rows.len() as int) <= 4096,
    ensures
        spec_data_page(page_index, t, next_page, heap, rows).len() == 4096,
{
    let nrows = rows.len() as int;
    let groups = spec_group_count(nrows);
    lemma_group_reserve_pub(nrows);
    let dir_groups = Seq::new(groups as nat, |gi: int| spec_row_group(rows, groups - 1 - gi));
    assert forall|gj: int| 0 <= gj < dir_groups.len() implies (#[trigger] dir_groups[gj]).len()
        == 36 by {
        lemma_row_group_len(rows, groups - 1 - gj);
    }
    crate::bytes::lemma_concat_bytes_len_uniform(dir_groups, 36);
    assert(spec_row_directory(rows).len() == 36 * groups);
}

/// A finalized index page is exactly one page long.
pub proof fn lemma_index_page_len(
    page_index: u32,
    data_page_index: u32,
    has_data: bool,
    num_row_offsets: u32,
)
    ensures
        spec_index_page(page_index, data_page_index, has_data, num_row_offsets).len() == 4096,
{
    lemma_index_fill_len(1003);
    lemma_index_fill_len(1004);
}

/// A finalized page's directory fits in the space the builder reserved.
proof fn lemma_group_count_le_reserved(nrows: int)
    requires
        nrows >= 0,
    ensures
        36 * spec_group_count(nrows) <= spec_reserved(nrows),
        nrows > 0 ==> spec_group_count(nrows) == (nrows + 15) / 16,
        spec_reserved(nrows) <= 4096 - 0x28 ==> nrows < 2048,
{
    if nrows > 0 {
        vstd::arithmetic::div_mod::lemma_div_is_ordered(nrows + 15, nrows + 16, 16);
        vstd::arithmetic::div_mod::lemma_div_plus_one(nrows, 16);
    }
    if spec_reserved(nrows) <= 4096 - 0x28 {
        assert(nrows / 16 <= 111);
        assert(nrows <= 16 * (nrows / 16) + 15) by {
            vstd::arithmetic::div_mod::lemma_fundamental_div_mod(nrows, 16);
        }
    }
}

/// Every row group is 36 bytes.
proof fn lemma_row_group_len(rows: Seq<u16>, g: int)
    ensures
        spec_row_group(rows, g).len() == 36,
{
    let slots = Seq::new(
        16,
        |j: int|
            {
                let idx = 16 * g + (15 - j);
                le2(
                    if 0 <= idx < rows.len() {
                        rows[idx]
                    } else {
                        0u16
                    },
                )
            },
    );
    crate::bytes::lemma_concat_bytes_len_uniform(slots, 2);
}

} // verus!
