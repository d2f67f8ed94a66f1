//! The schema catalog.  Page 1 of the file is itself a table — the schema
//! table — whose rows `(type, name, tbl_name, rootpage, sql)` describe every
//! table in the database.  Decoding those rows with the ordinary record
//! decoder yields the catalog that meta-commands and queries consult.

use vstd::prelude::*;

use crate::bigendian::be_val;
use crate::db_response::{response_model, row_model, RType, RVal, Response};
use crate::errors::DbError;
use crate::page::Page;
use crate::strutil::{sort_strings, str_eq, strs_sorted, views_of};
use crate::table::{schema_row_ok, table_matches_row, Table};

verus! {

/// A usable page size: a power of two of at least 512, as the database
/// header must record it.
pub open spec fn valid_page_size(n: int) -> bool {
    n == 512 || n == 1024 || n == 2048 || n == 4096 || n == 8192 || n == 16384 || n == 32768
}

/// Read the page size out of the raw 100-byte database header: a
/// big-endian 16-bit value at byte 16.  Rejects sizes the format does not
/// allow.
pub fn header_page_size(header: &[u8]) -> (r: Result<u16, DbError>)
    requires
        header@.len() >= 18,
    ensures
        ({
            let n = be_val(header@, 16, 2);
            if valid_page_size(n) {
                r matches Ok(v) && v == n
            } else {
                r matches Err(e) && e == DbError::FormatCorruption
            }
        }),
{
    let n = crate::bigendian::read_be_u16(header, 16);
    if n == 512 || n == 1024 || n == 2048 || n == 4096 || n == 8192 || n == 16384 || n == 32768 {
        Ok(n)
    } else {
        Err(DbError::FormatCorruption)
    }
}

/// The `tbl_name` keys of a catalog, in build order.
pub open spec fn catalog_keys(schema: Seq<Table>) -> Seq<Seq<char>> {
    schema.map_values(|t: Table| t.tablename@)
}

/// The `tbl_name` key of the `i`-th schema row of the page.
pub open spec fn schema_key(page: Page, i: int) -> Seq<char> {
    match page.nth_record_parse(i) {
        Ok(m) => match m.fields[2] {
            RVal::Str(s) => s,
            _ => Seq::empty(),
        },
        Err(_) => Seq::empty(),
    }
}

/// The catalog entry `t` realises the `i`-th schema row of the page.
pub open spec fn entry_matches(page: Page, i: int, t: Table) -> bool {
    match page.nth_record_parse(i) {
        Ok(m) => table_matches_row(t, m.fields),
        Err(_) => false,
    }
}

/// The `i`-th schema row decodes and has the catalog's required shape.
pub open spec fn schema_cell_ok(page: Page, i: int) -> bool {
    match page.nth_record_parse(i) {
        Ok(m) => schema_row_ok(m.fields),
        Err(_) => false,
    }
}

/// Every cell of the schema page decodes to a well-shaped schema row, and
/// no two rows share a `tbl_name`.
pub open spec fn catalog_buildable(page: Page) -> bool {
    &&& forall|i: int| 0 <= i < page.page_header.cell_number ==> schema_cell_ok(page, i)
    &&& forall|i: int, j: int|
        0 <= i < j < page.page_header.cell_number ==> schema_key(page, i) != schema_key(page, j)
}

/// The catalog `schema` holds exactly one entry per schema row, in order.
pub open spec fn catalog_matches(page: Page, schema: Seq<Table>) -> bool {
    &&& schema.len() == page.page_header.cell_number
    &&& forall|i: int| 0 <= i < schema.len() ==> entry_matches(page, i, schema[i])
}

/// The database metadata: page 1 and the catalog built from it.
pub struct DBMetadata {
    pub page: Page,
    pub schema: Vec<Table>,
}

impl DBMetadata {
    /// The page is a well-formed page 1 and the catalog mirrors its rows.
    pub open spec fn wf(self) -> bool {
        &&& self.page.wf()
        &&& self.page.page_number == 1
        &&& catalog_matches(self.page, self.schema@)
    }

    /// Build the metadata from the loaded page 1.  Succeeds exactly when
    /// every schema row decodes to a well-shaped entry with a fresh
    /// `tbl_name`.
    pub fn new(page: Page) -> (r: Result<DBMetadata, DbError>)
        requires
            page.wf(),
            page.page_number == 1,
        ensures
            match r {
                Ok(m) => m.wf() && m.page == page && catalog_buildable(page),
                Err(_) => !catalog_buildable(page),
            },
    {
        let schema = match DBMetadata::create_table_schema(&page) {
            Ok(s) => s,
            Err(e) => {
                return Err(e);
            },
        };
        Ok(DBMetadata { page, schema })
    }

    /// Decode every schema row into a catalog entry, rejecting duplicate
    /// `tbl_name` keys.
    #[verifier::loop_isolation(false)]
    fn create_table_schema(page: &Page) -> (r: Result<Vec<Table>, DbError>)
        requires
            page.wf(),
        ensures
            match r {
                Ok(v) => catalog_buildable(*page) && catalog_matches(*page, v@),
                Err(_) => !catalog_buildable(*page),
            },
    {
        let n = page.get_record_number();
        let mut schema: Vec<Table> = Vec::new();
        let mut i: usize = 0;
        while i < n
            invariant
                i <= n,
                n == page.page_header.cell_number,
                schema@.len() == i,
                forall|k: int| 0 <= k < i ==> entry_matches(*page, k, #[trigger] schema@[k]),
                forall|p: int, q: int|
                    0 <= p < q < i ==> schema_key(*page, p) != schema_key(*page, q),
            decreases n - i,
        {
            let rec = match page.get_nth_record(i) {
                Ok(r) => r,
                Err(_) => {
                    assert(!schema_cell_ok(*page, i as int));
                    return Err(DbError::SchemaInconsistency);
                },
            };
            let table = match Table::new(&rec) {
                Ok(t) => t,
                Err(e) => {
                    assert(!schema_cell_ok(*page, i as int));
                    return Err(e);
                },
            };
            let mut k: usize = 0;
            while k < schema.len()
                invariant
                    k <= schema@.len(),
                    schema@.len() == i <= n,
                    n == page.page_header.cell_number,
                    entry_matches(*page, i as int, table),
                    forall|m: int| 0 <= m < i ==> entry_matches(*page, m, #[trigger] schema@[m]),
                    forall|m: int| 0 <= m < k ==> schema_key(*page, m) != schema_key(*page, i as int),
                decreases schema@.len() - k,
            {
                if str_eq(schema[k].tablename.as_str(), table.tablename.as_str()) {
                    assert(schema_key(*page, k as int) == schema_key(*page, i as int));
                    return Err(DbError::SchemaInconsistency);
                }
                k += 1;
            }
            schema.push(table);
            i += 1;
        }
        proof {
            assert forall|q: int| 0 <= q < n implies schema_cell_ok(*page, q) by {
                assert(entry_matches(*page, q, schema@[q]));
            }
        }
        Ok(schema)
    }

    /// The page size recorded in the database header: a big-endian 16-bit
    /// value at byte 16 of page 1.
    pub fn get_page_size(&self) -> (r: u16)
        requires
            self.page.wf(),
            self.page.page_number == 1,
        ensures
            r == be_val(self.page.buffer@, 16, 2),
    {
        crate::bigendian::read_be_u16(self.page.buffer.as_slice(), 16)
    }

    /// How many tables the schema page lists: its cell count.
    pub fn get_number_of_table(&self) -> (r: usize)
        ensures
            r == self.page.page_header.cell_number,
    {
        self.page.get_record_number()
    }

    /// The `.dbinfo` answer: the page size and the number of tables, one
    /// labelled row each.
    pub fn get_metadata(&self) -> (r: Result<Option<Response>, DbError>)
        requires
            self.page.wf(),
            self.page.page_number == 1,
        ensures
            r matches Ok(opt) && (opt matches Some(resp) && response_model(resp@) =~= seq![
                seq![
                    RVal::Str("database page size"@),
                    RVal::Num(be_val(self.page.buffer@, 16, 2) as i64),
                ],
                seq![
                    RVal::Str("number of tables"@),
                    RVal::Num(self.page.page_header.cell_number as i64),
                ],
            ]),
    {
        let ps = self.get_page_size();
        let nt = self.get_number_of_table();
        proof {
            crate::bigendian::lemma_be_val_bound(self.page.buffer@, 16, 2);
            crate::bigendian::lemma_be_val_bound(self.page.buffer@, 103, 2);
        }
        let mut row1: Vec<RType> = Vec::new();
        row1.push(RType::Str("database page size".to_owned()));
        row1.push(RType::Num(ps as i64));
        let mut row2: Vec<RType> = Vec::new();
        row2.push(RType::Str("number of tables".to_owned()));
        row2.push(RType::Num(nt as i64));
        let ghost r1 = row1@;
        let ghost r2 = row2@;
        let mut resp: Response = Vec::new();
        resp.push(row1);
        resp.push(row2);
        proof {
            assert(row_model(r1) =~= seq![
                RVal::Str("database page size"@),
                RVal::Num(be_val(self.page.buffer@, 16, 2) as i64),
            ]);
            assert(row_model(r2) =~= seq![
                RVal::Str("number of tables"@),
                RVal::Num(self.page.page_header.cell_number as i64),
            ]);
            assert(response_model(resp@) =~= seq![row_model(r1), row_model(r2)]);
        }
        Ok(Some(resp))
    }

    /// The names a `.tables` answer holds: the strings of a one-row
    /// response.
    pub open spec fn names_of_row(row: Seq<RVal>) -> Seq<Seq<char>> {
        row.map_values(
            |v: RVal|
                match v {
                    RVal::Str(s) => s,
                    _ => Seq::empty(),
                },
        )
    }

    /// The `.tables` answer: one row holding every `tbl_name` of the
    /// catalog, sorted ascending.
    #[verifier::loop_isolation(false)]
    pub fn get_table_names(&self) -> (r: Result<Option<Response>, DbError>)
        ensures
            r matches Ok(opt) && (opt matches Some(resp) && {
                let row = row_model(resp@[0]@);
                &&& resp@.len() == 1
                &&& forall|k: int| 0 <= k < row.len() ==> row[k] is Str
                &&& strs_sorted(Self::names_of_row(row))
                &&& Self::names_of_row(row).to_multiset() == catalog_keys(
                    self.schema@,
                ).to_multiset()
            }),
    {
        let mut names: Vec<String> = Vec::new();
        let n = self.schema.len();
        let mut i: usize = 0;
        while i < n
            invariant
                i <= n,
                n == self.schema@.len(),
                views_of(names@) =~= catalog_keys(self.schema@).take(i as int),
            decreases n - i,
        {
            names.push(self.schema[i].tablename.clone());
            proof {
                assert(views_of(names@) =~= catalog_keys(self.schema@).take(i as int).push(
                    self.schema@[i as int].tablename@,
                ));
                assert(catalog_keys(self.schema@).take(i as int).push(
                    self.schema@[i as int].tablename@,
                ) =~= catalog_keys(self.schema@).take(i as int + 1));
            }
            i += 1;
        }
        proof {
            assert(catalog_keys(self.schema@).take(n as int) =~= catalog_keys(self.schema@));
        }
        let sorted = sort_strings(names);
        let ns = sorted.len();
        let mut row: Vec<RType> = Vec::new();
        let mut k: usize = 0;
        while k < ns
            invariant
                k <= ns,
                ns == sorted@.len(),
                row@.len() == k,
                forall|j: int|
                    0 <= j < k ==> (#[trigger] row@[j] matches RType::Str(s) && s@ == sorted@[j]@),
            decreases ns - k,
        {
            row.push(RType::Str(sorted[k].clone()));
            k += 1;
        }
        proof {
            assert(Self::names_of_row(row_model(row@)) =~= views_of(sorted@));
        }
        let mut resp: Response = Vec::new();
        resp.push(row);
        Ok(Some(resp))
    }

    /// Look up a catalog entry by `tbl_name`, borrowing it.
    #[verifier::loop_isolation(false)]
    pub fn get_table(&self, tablename: &str) -> (r: Option<&Table>)
        ensures
            match r {
                Some(t) => {
                    &&& catalog_keys(self.schema@).contains(tablename@)
                    &&& t.tablename@ == tablename@
                    &&& exists|i: int|
                        0 <= i < self.schema@.len() && *t == #[trigger] self.schema@[i]
                },
                None => !catalog_keys(self.schema@).contains(tablename@),
            },
    {
        let n = self.schema.len();
        let mut i: usize = 0;
        while i < n
            invariant
                i <= n,
                n == self.schema@.len(),
                forall|j: int| 0 <= j < i ==> #[trigger] self.schema@[j].tablename@ != tablename@,
            decreases n - i,
        {
            if str_eq(self.schema[i].tablename.as_str(), tablename) {
                proof {
                    assert(catalog_keys(self.schema@)[i as int] == tablename@);
                }
                return Some(&self.schema[i]);
            }
            i += 1;
        }
        proof {
            assert forall|j: int| 0 <= j < catalog_keys(self.schema@).len() implies catalog_keys(
                self.schema@,
            )[j] != tablename@ by {
                assert(self.schema@[j].tablename@ != tablename@);
            }
        }
        None
    }

    /// Remove and return the catalog entry named `tablename`, the first
    /// one in build order.
    #[verifier::loop_isolation(false)]
    pub fn take_table(&mut self, tablename: &str) -> (r: Option<Table>)
        ensures
            final(self).page == old(self).page,
            match r {
                Some(t) => exists|i: int|
                    {
                        &&& 0 <= i < old(self).schema@.len()
                        &&& t == old(self).schema@[i]
                        &&& t.tablename@ == tablename@
                        &&& (forall|j: int|
                            0 <= j < i ==> (#[trigger] old(self).schema@[j]).tablename@
                                != tablename@)
                        &&& final(self).schema@ == old(self).schema@.remove(i)
                    },
                None => {
                    &&& final(self).schema@ == old(self).schema@
                    &&& !catalog_keys(old(self).schema@).contains(tablename@)
                },
            },
    {
        let n = self.schema.len();
        let mut i: usize = 0;
        while i < n
            invariant
                i <= n,
                n == self.schema@.len(),
                self.schema@ == old(self).schema@,
                self.page == old(self).page,
                forall|j: int| 0 <= j < i ==> #[trigger] self.schema@[j].tablename@ != tablename@,
            decreases n - i,
        {
            if str_eq(self.schema[i].tablename.as_str(), tablename) {
                let t = self.schema.remove(i);
                return Some(t);
            }
            i += 1;
        }
        proof {
            assert forall|j: int| 0 <= j < catalog_keys(self.schema@).len() implies catalog_keys(
                self.schema@,
            )[j] != tablename@ by {
                assert(self.schema@[j].tablename@ != tablename@);
            }
        }
        None
    }
}

/// Catalog closure: in built metadata, every row of the schema page stands
/// behind exactly one catalog entry, in page order; the `.tables` answer
/// then lists exactly the catalog's keys (see [`DBMetadata::get_table_names`]).
pub proof fn lemma_catalog_closure(m: DBMetadata)
    requires
        m.wf(),
    ensures
        m.schema@.len() == m.page.page_header.cell_number,
        forall|i: int|
            0 <= i < m.schema@.len() ==> entry_matches(m.page, i, #[trigger] m.schema@[i]),
{
}

} // verus!
