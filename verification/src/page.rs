//! B-tree pages.  A page is a fixed-size buffer holding a page header, a
//! cell pointer array of big-endian 16-bit offsets, and the cells those
//! offsets point at.  Page 1 is special: its first 100 bytes are the
//! database header, so its page header starts at byte 100, while cell
//! offsets are still measured from byte 0.

use vstd::prelude::*;

use crate::bigendian::{be_val, read_be_u16};
use crate::errors::DbError;
use crate::record::{record_matches, record_parse, Record, RecordModel};

verus! {

/// The four B-tree page kinds, by their type byte.
#[derive(Clone, Copy, Debug, PartialEq, Eq, Structural)]
pub enum BTreeType {
    InteriorIndex,
    InteriorPage,
    LeafIndex,
    LeafPage,
}

/// The page kinds the file format defines; only B-tree pages are decoded
/// here.
#[derive(Clone, Copy, Debug, PartialEq, Eq, Structural)]
pub enum PageType {
    BTree(BTreeType),
    FreeList,
    Overflow,
    PointerMap,
    LockByte,
}

/// The type bytes that name a B-tree page.
pub open spec fn valid_btree_byte(b: u8) -> bool {
    b == 0x02 || b == 0x05 || b == 0x0a || b == 0x0d
}

/// The B-tree kind a valid type byte names.
pub open spec fn btree_type_of(b: u8) -> BTreeType {
    if b == 0x02 {
        BTreeType::InteriorIndex
    } else if b == 0x05 {
        BTreeType::InteriorPage
    } else if b == 0x0a {
        BTreeType::LeafIndex
    } else {
        BTreeType::LeafPage
    }
}

impl BTreeType {
    /// Classify a page-header type byte.
    pub fn new(number_type: u8) -> (r: BTreeType)
        requires
            valid_btree_byte(number_type),
        ensures
            r == btree_type_of(number_type),
    {
        if number_type == 0x02 {
            BTreeType::InteriorIndex
        } else if number_type == 0x05 {
            BTreeType::InteriorPage
        } else if number_type == 0x0a {
            BTreeType::LeafIndex
        } else {
            BTreeType::LeafPage
        }
    }
}

/// A page header: the B-tree type byte followed by the freeblock, cell
/// count, content start and fragment fields, and (for interior pages) the
/// right-most child pointer.
pub struct PageHeader {
    pub btree_type: BTreeType,
    pub start_free: usize,
    pub cell_number: usize,
    pub start_content: usize,
    pub frag_number: u8,
    pub right_most_pointer: usize,
}

/// Where the page header starts: byte 100 on page 1, byte 0 elsewhere.
pub open spec fn header_offset(page_number: int) -> int {
    if page_number == 1 {
        100
    } else {
        0
    }
}

/// The page header's length: 12 bytes on interior pages, 8 on leaves.
pub open spec fn btree_header_size(t: BTreeType) -> int {
    match t {
        BTreeType::InteriorIndex => 12,
        BTreeType::InteriorPage => 12,
        BTreeType::LeafIndex => 8,
        BTreeType::LeafPage => 8,
    }
}

/// Whether the buffer of a page numbered `page_number` decodes: room for
/// the header, a valid type byte, and a cell pointer array that fits.
pub open spec fn page_decodes(b: Seq<u8>, page_number: int) -> bool {
    let hoff = header_offset(page_number);
    &&& hoff + 10 <= b.len()
    &&& valid_btree_byte(b[hoff])
    &&& hoff + btree_header_size(btree_type_of(b[hoff])) + 2 * be_val(b, hoff + 3, 2) <= b.len()
}

/// A loaded page: the raw buffer, its 1-based page number, and the decoded
/// page header.
pub struct Page {
    pub buffer: Vec<u8>,
    pub page_number: usize,
    pub page_header: PageHeader,
}

impl Page {
    /// The decoded header agrees with the buffer and the cell pointer
    /// array lies inside it.
    pub open spec fn wf(self) -> bool {
        let b = self.buffer@;
        let hoff = header_offset(self.page_number as int);
        &&& self.page_number >= 1
        &&& page_decodes(b, self.page_number as int)
        &&& self.page_header.btree_type == btree_type_of(b[hoff])
        &&& self.page_header.start_free == be_val(b, hoff + 1, 2)
        &&& self.page_header.cell_number == be_val(b, hoff + 3, 2)
        &&& self.page_header.start_content == be_val(b, hoff + 5, 2)
        &&& self.page_header.frag_number == b[hoff + 7]
        &&& self.page_header.right_most_pointer == be_val(b, hoff + 8, 2)
    }

    /// Where the cell pointer array starts: just past the page header.
    pub open spec fn cpa_start(self) -> int {
        header_offset(self.page_number as int) + btree_header_size(self.page_header.btree_type)
    }

    /// The `index`-th cell's offset from the start of the buffer, as the
    /// cell pointer array records it.
    pub open spec fn cell_offset_spec(self, index: int) -> int {
        be_val(self.buffer@, self.cpa_start() + 2 * index, 2)
    }

    /// Load a page from its raw buffer.  Fails when the header does not
    /// decode or the cell pointer array runs past the buffer.
    pub fn new(buffer: Vec<u8>, page_number: usize) -> (r: Result<Page, DbError>)
        requires
            page_number >= 1,
        ensures
            match r {
                Ok(p) => {
                    &&& page_decodes(buffer@, page_number as int)
                    &&& p.wf()
                    &&& p.buffer@ == buffer@
                    &&& p.page_number == page_number
                },
                Err(e) => !page_decodes(buffer@, page_number as int) && e
                    == DbError::FormatCorruption,
            },
    {
        let blen = buffer.len();
        let hoff: usize = if page_number == 1 {
            100
        } else {
            0
        };
        if hoff + 10 > blen {
            return Err(DbError::FormatCorruption);
        }
        let type_byte = buffer[hoff];
        if !(type_byte == 0x02 || type_byte == 0x05 || type_byte == 0x0a || type_byte == 0x0d) {
            return Err(DbError::FormatCorruption);
        }
        let btree_type = BTreeType::new(type_byte);
        let hsize: usize = match btree_type {
            BTreeType::InteriorIndex => 12,
            BTreeType::InteriorPage => 12,
            BTreeType::LeafIndex => 8,
            BTreeType::LeafPage => 8,
        };
        let cell_number = read_be_u16(buffer.as_slice(), hoff + 3) as usize;
        if hoff + hsize + 2 * cell_number > blen {
            return Err(DbError::FormatCorruption);
        }
        let page_header = PageHeader {
            btree_type,
            start_free: read_be_u16(buffer.as_slice(), hoff + 1) as usize,
            cell_number,
            start_content: read_be_u16(buffer.as_slice(), hoff + 5) as usize,
            frag_number: buffer[hoff + 7],
            right_most_pointer: read_be_u16(buffer.as_slice(), hoff + 8) as usize,
        };
        Ok(Page { buffer, page_number, page_header })
    }

    /// The database header: the first 100 bytes, present only on page 1.
    pub fn get_db_header(&self) -> (r: Option<&[u8]>)
        requires
            self.wf(),
        ensures
            match r {
                Some(h) => self.page_number == 1 && h@ == self.buffer@.subrange(0, 100),
                None => self.page_number != 1,
            },
    {
        if self.page_number == 1 {
            Some(&self.buffer.as_slice()[0..100])
        } else {
            None
        }
    }

    /// How many cells (and so records) the page holds.
    pub fn get_record_number(&self) -> (r: usize)
        ensures
            r == self.page_header.cell_number,
    {
        self.page_header.cell_number
    }

    /// The raw cell pointer array: two bytes per cell, just past the page
    /// header.
    pub fn get_cell_pointer_array(&self) -> (r: &[u8])
        requires
            self.wf(),
        ensures
            r@ == self.buffer@.subrange(
                self.cpa_start(),
                self.cpa_start() + 2 * self.page_header.cell_number,
            ),
    {
        let hoff: usize = if self.page_number == 1 {
            100
        } else {
            0
        };
        let hsize: usize = match self.page_header.btree_type {
            BTreeType::InteriorIndex => 12,
            BTreeType::InteriorPage => 12,
            BTreeType::LeafIndex => 8,
            BTreeType::LeafPage => 8,
        };
        let blen = self.buffer.len();
        let start = hoff + hsize;
        assert(start + 2 * self.page_header.cell_number <= blen);
        &self.buffer.as_slice()[start..start + 2 * self.page_header.cell_number]
    }

    /// The `index`-th cell's offset from the start of the buffer.
    pub fn cell_offset(&self, index: usize) -> (r: usize)
        requires
            self.wf(),
            index < self.page_header.cell_number,
        ensures
            r == self.cell_offset_spec(index as int),
    {
        let hoff: usize = if self.page_number == 1 {
            100
        } else {
            0
        };
        let hsize: usize = match self.page_header.btree_type {
            BTreeType::InteriorIndex => 12,
            BTreeType::InteriorPage => 12,
            BTreeType::LeafIndex => 8,
            BTreeType::LeafPage => 8,
        };
        let blen = self.buffer.len();
        assert(hoff + hsize + 2 * index + 2 <= blen);
        read_be_u16(self.buffer.as_slice(), hoff + hsize + 2 * index) as usize
    }

    /// A slice of the raw buffer, from `start` to `end` or to the buffer's
    /// end.  Offsets are from byte 0 even on page 1.
    pub fn get_slice(&self, start: usize, end: Option<usize>) -> (r: &[u8])
        requires
            match end {
                Some(e) => start <= e <= self.buffer@.len(),
                None => start <= self.buffer@.len(),
            },
        ensures
            r@ == match end {
                Some(e) => self.buffer@.subrange(start as int, e as int),
                None => self.buffer@.subrange(start as int, self.buffer@.len() as int),
            },
    {
        match end {
            Some(e) => &self.buffer.as_slice()[start..e],
            None => &self.buffer.as_slice()[start..self.buffer.len()],
        }
    }

    /// What decoding the `index`-th cell yields: the record parse of the
    /// bytes from that cell's offset to the end of the page, or a
    /// corruption error when the offset points past the page.
    pub open spec fn nth_record_parse(self, index: int) -> Result<RecordModel, DbError> {
        let off = self.cell_offset_spec(index);
        if off > self.buffer@.len() {
            Err(DbError::FormatCorruption)
        } else {
            record_parse(self.buffer@.subrange(off, self.buffer@.len() as int))
        }
    }

    /// The `index`-th cell decodes, and `rec` is its decoded record.
    pub open spec fn nth_record_ok(self, index: int, rec: Record) -> bool {
        match self.nth_record_parse(index) {
            Ok(m) => record_matches(rec, m),
            Err(_) => false,
        }
    }

    /// Decoding the `index`-th cell raises exactly the error `e`.
    pub open spec fn nth_record_err(self, index: int, e: DbError) -> bool {
        match self.nth_record_parse(index) {
            Ok(_) => false,
            Err(me) => me == e,
        }
    }

    /// Decode the `index`-th record on the page.
    pub fn get_nth_record(&self, index: usize) -> (r: Result<Record, DbError>)
        requires
            self.wf(),
            index < self.page_header.cell_number,
        ensures
            match r {
                Ok(rec) => self.nth_record_parse(index as int) matches Ok(m) && record_matches(
                    rec,
                    m,
                ),
                Err(e) => self.nth_record_parse(index as int) matches Err(me) && me == e,
            },
    {
        let off = self.cell_offset(index);
        let blen = self.buffer.len();
        if off > blen {
            return Err(DbError::FormatCorruption);
        }
        let cell = &self.buffer.as_slice()[off..blen];
        Record::new(cell)
    }

    /// Decode every record on the page, in cell-pointer order.  Succeeds
    /// exactly when every cell decodes.
    pub fn get_all_records(&self) -> (r: Result<Vec<Record>, DbError>)
        requires
            self.wf(),
        ensures
            match r {
                Ok(rows) => {
                    &&& rows@.len() == self.page_header.cell_number
                    &&& forall|i: int|
                        0 <= i < rows@.len() ==> self.nth_record_ok(i, #[trigger] rows@[i])
                },
                Err(e) => exists|i: int|
                    0 <= i < self.page_header.cell_number && #[trigger] self.nth_record_err(i, e),
            },
    {
        let n = self.page_header.cell_number;
        let mut rows: Vec<Record> = Vec::new();
        let mut idx: usize = 0;
        while idx < n
            invariant
                idx <= n,
                n == self.page_header.cell_number,
                self.wf(),
                rows@.len() == idx,
                forall|i: int| 0 <= i < idx ==> self.nth_record_ok(i, #[trigger] rows@[i]),
            decreases n - idx,
        {
            let rec = match self.get_nth_record(idx) {
                Ok(rec) => rec,
                Err(e) => {
                    assert(self.nth_record_err(idx as int, e));
                    return Err(e);
                },
            };
            let ghost old_rows = rows@;
            rows.push(rec);
            proof {
                assert forall|i: int| 0 <= i < idx + 1 implies self.nth_record_ok(
                    i,
                    #[trigger] rows@[i],
                ) by {
                    if i < idx {
                        assert(rows@[i] == old_rows[i]);
                    } else {
                        assert(rows@[i] == rec);
                    }
                }
            }
            idx += 1;
        }
        Ok(rows)
    }
}

/// A file-level well-formedness notion for one page's cells: every cell
/// offset lies in the content area (which starts at or after the cell
/// pointer array's end), each cell's extent stays inside the page, and the
/// extents of distinct cells are separated.
pub open spec fn cells_well_placed(p: Page, extent: Seq<int>) -> bool {
    let n = p.page_header.cell_number as int;
    &&& extent.len() == n
    &&& p.cpa_start() + 2 * n <= p.page_header.start_content
    &&& forall|i: int|
        0 <= i < n ==> p.page_header.start_content <= #[trigger] p.cell_offset_spec(i)
            && p.cell_offset_spec(i) + extent[i] <= p.buffer@.len() && extent[i] >= 0
    &&& forall|i: int, j: int|
        #![trigger extent[i], extent[j]]
        0 <= i < n && 0 <= j < n && i != j ==> (p.cell_offset_spec(i) + extent[i]
            <= p.cell_offset_spec(j) || p.cell_offset_spec(j) + extent[j] <= p.cell_offset_spec(
            i,
        ))
}

/// Page indexing: on a well-formed page whose cells are well placed, every
/// cell offset lies between the header's end and the page's end, and no
/// byte position belongs to two different cells' extents.
pub proof fn lemma_page_indexing(p: Page, extent: Seq<int>)
    requires
        p.wf(),
        cells_well_placed(p, extent),
    ensures
        forall|i: int|
            0 <= i < p.page_header.cell_number ==> p.cpa_start() + 2 * p.page_header.cell_number
                <= #[trigger] p.cell_offset_spec(i) < p.buffer@.len() || extent[i] == 0,
        forall|i: int, j: int|
            #![trigger extent[i], extent[j]]
            0 <= i < p.page_header.cell_number && 0 <= j < p.page_header.cell_number && i != j
                && extent[i] > 0 ==> !(p.cell_offset_spec(j) <= p.cell_offset_spec(i)
                < p.cell_offset_spec(j) + extent[j]),
{
}

/// A page's cell count always fits in 16 bits: it is read from a 2-byte
/// field.
pub proof fn lemma_cell_count_bound(p: Page)
    requires
        p.wf(),
    ensures
        p.page_header.cell_number < 0x10000,
{
    crate::bigendian::lemma_be_val_bound(
        p.buffer@,
        header_offset(p.page_number as int) + 3,
        2,
    );
    vstd::arithmetic::power2::lemma2_to64();
}

} // verus!
