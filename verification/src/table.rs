//! Tables of the catalog.  A schema row `(type, name, tbl_name, rootpage,
//! sql)` becomes a [`Table`]; its column names are read out of the `CREATE`
//! text between the first `(` and the last `)`, one comma-separated piece
//! each, taking each piece's first word.

use vstd::prelude::*;

use crate::db_response::{row_model, RType, RVal};
use crate::errors::DbError;
use crate::record::Record;
use crate::strutil::{col_name_of, first_word, str_eq, views_of};

verus! {

/// What a schema row describes.
#[derive(Clone, Copy, Debug, PartialEq, Eq, Structural)]
pub enum TableType {
    Table,
    Index,
    View,
    Trigger,
}

/// Declared column types are not read by this engine; the enum is kept for
/// the catalog's shape.
#[derive(Clone, Copy, Debug, PartialEq, Eq, Structural)]
pub enum ColType {
    Unread,
}

/// The schema-row kinds the catalog accepts.
pub open spec fn is_table_type_name(s: Seq<char>) -> bool {
    s == "table"@ || s == "index"@ || s == "view"@ || s == "trigger"@
}

/// The kind a schema-row type string names.
pub open spec fn table_type_of(s: Seq<char>) -> TableType {
    if s == "table"@ {
        TableType::Table
    } else if s == "index"@ {
        TableType::Index
    } else if s == "view"@ {
        TableType::View
    } else {
        TableType::Trigger
    }
}

impl TableType {
    /// Classify a schema-row type string.
    pub fn from_str(s: &str) -> (r: TableType)
        requires
            is_table_type_name(s@),
        ensures
            r == table_type_of(s@),
    {
        if str_eq(s, "table") {
            TableType::Table
        } else if str_eq(s, "index") {
            TableType::Index
        } else if str_eq(s, "view") {
            TableType::View
        } else {
            TableType::Trigger
        }
    }
}

/// Splitting on commas, with `cur` the piece built so far: the pieces of
/// `cur ++ s`, every comma a separator.
pub open spec fn split_commas_acc(s: Seq<char>, cur: Seq<char>) -> Seq<Seq<char>>
    decreases s.len(),
{
    if s.len() == 0 {
        seq![cur]
    } else if s[0] == ',' {
        seq![cur] + split_commas_acc(s.drop_first(), Seq::empty())
    } else {
        split_commas_acc(s.drop_first(), cur.push(s[0]))
    }
}

/// The comma-separated pieces of `s`; one empty piece for empty input.
pub open spec fn split_commas(s: Seq<char>) -> Seq<Seq<char>> {
    split_commas_acc(s, Seq::empty())
}

/// Whether a `CREATE` text has a column list: a `(` somewhere before the
/// last `)`.
pub open spec fn sql_has_cols(sql: Seq<char>) -> bool {
    match (sql.index_of_first('('), sql.index_of_last(')')) {
        (Some(fi), Some(li)) => fi < li,
        _ => false,
    }
}

/// The column names of a `CREATE` text: the region between the first `(`
/// and the last `)`, split on commas, each piece reduced to its first word.
pub open spec fn cols_of_sql(sql: Seq<char>) -> Seq<Seq<char>> {
    match (sql.index_of_first('('), sql.index_of_last(')')) {
        (Some(fi), Some(li)) => split_commas(sql.subrange(fi + 1, li)).map_values(
            |p: Seq<char>| col_name_of(p),
        ),
        _ => Seq::empty(),
    }
}

/// The index of the first occurrence of `c` in `s`.
#[verifier::loop_isolation(false)]
fn find_first_char(s: &str, c: char) -> (r: Option<usize>)
    ensures
        match r {
            Some(i) => s@.index_of_first(c) == Some(i as int),
            None => s@.index_of_first(c) is None,
        },
{
    proof {
        s@.index_of_first_ensures(c);
    }
    let n = s.unicode_len();
    let mut i: usize = 0;
    while i < n
        invariant
            i <= n,
            n == s@.len(),
            forall|j: int| 0 <= j < i ==> s@[j] != c,
        decreases n - i,
    {
        if s.get_char(i) == c {
            return Some(i);
        }
        i += 1;
    }
    proof {
        assert(!s@.contains(c));
    }
    None
}

/// The index of the last occurrence of `c` in `s`.
#[verifier::loop_isolation(false)]
fn find_last_char(s: &str, c: char) -> (r: Option<usize>)
    ensures
        match r {
            Some(i) => s@.index_of_last(c) == Some(i as int),
            None => s@.index_of_last(c) is None,
        },
{
    proof {
        s@.index_of_last_ensures(c);
    }
    let n = s.unicode_len();
    let mut i: usize = n;
    while i > 0
        invariant
            i <= n,
            n == s@.len(),
            forall|j: int| i <= j < n ==> s@[j] != c,
        decreases i,
    {
        i -= 1;
        if s.get_char(i) == c {
            return Some(i);
        }
    }
    proof {
        assert(!s@.contains(c));
    }
    None
}

/// A user table as the catalog knows it: its kind, names, root page, the
/// raw `CREATE` text, and the column names read out of that text.
pub struct Table {
    pub table_type: TableType,
    pub name: String,
    pub tablename: String,
    pub rootpage: usize,
    pub tabledef: String,
    pub cols_name: Vec<String>,
}

/// A decoded schema row of the right shape: five or more fields, strings
/// where the catalog reads strings, a usable root page number, and a
/// `CREATE` text with a column list.
pub open spec fn schema_row_ok(row: Seq<RVal>) -> bool {
    &&& row.len() >= 5
    &&& row[0] matches RVal::Str(ty) && is_table_type_name(ty)
    &&& row[1] is Str
    &&& row[2] is Str
    &&& row[3] matches RVal::Num(n) && 1 <= n <= usize::MAX
    &&& row[4] matches RVal::Str(sql) && sql_has_cols(sql)
}

/// How a [`Table`] realises a decoded schema row.
pub open spec fn table_matches_row(t: Table, row: Seq<RVal>) -> bool {
    &&& schema_row_ok(row)
    &&& (row[0] matches RVal::Str(ty) && t.table_type == table_type_of(ty))
    &&& (row[1] matches RVal::Str(name) && t.name@ == name)
    &&& (row[2] matches RVal::Str(tn) && t.tablename@ == tn)
    &&& (row[3] matches RVal::Num(n) && t.rootpage == n)
    &&& (row[4] matches RVal::Str(sql) && t.tabledef@ == sql && views_of(t.cols_name@)
        == cols_of_sql(sql))
}

impl Table {
    /// Build a catalog entry from a decoded schema row.
    pub fn new(record: &Record) -> (r: Result<Table, DbError>)
        ensures
            match r {
                Ok(t) => table_matches_row(t, row_model(record.fields@)),
                Err(e) => !schema_row_ok(row_model(record.fields@)) && e
                    == DbError::SchemaInconsistency,
            },
    {
        let ghost row = row_model(record.fields@);
        if record.fields.len() < 5 {
            return Err(DbError::SchemaInconsistency);
        }
        let ty_str = match &record.fields[0] {
            RType::Str(s) => s,
            _ => {
                return Err(DbError::SchemaInconsistency);
            },
        };
        if !(str_eq(ty_str.as_str(), "table") || str_eq(ty_str.as_str(), "index") || str_eq(
            ty_str.as_str(),
            "view",
        ) || str_eq(ty_str.as_str(), "trigger")) {
            return Err(DbError::SchemaInconsistency);
        }
        let name = match &record.fields[1] {
            RType::Str(s) => s.clone(),
            _ => {
                return Err(DbError::SchemaInconsistency);
            },
        };
        let tablename = match &record.fields[2] {
            RType::Str(s) => s.clone(),
            _ => {
                return Err(DbError::SchemaInconsistency);
            },
        };
        let rootpage_num = match &record.fields[3] {
            RType::Num(n) => *n,
            _ => {
                return Err(DbError::SchemaInconsistency);
            },
        };
        if rootpage_num < 1 {
            return Err(DbError::SchemaInconsistency);
        }
        let rootpage: usize = match usize::try_from(rootpage_num) {
            Ok(v) => v,
            Err(_) => {
                return Err(DbError::SchemaInconsistency);
            },
        };
        let tabledef = match &record.fields[4] {
            RType::Str(s) => s.clone(),
            _ => {
                return Err(DbError::SchemaInconsistency);
            },
        };
        let cols_name = match Table::get_cols_name(tabledef.as_str()) {
            Ok(v) => v,
            Err(e) => {
                return Err(e);
            },
        };
        let table_type = TableType::from_str(ty_str.as_str());
        Ok(Table { table_type, name, tablename, rootpage, tabledef, cols_name })
    }

    /// The column names of a `CREATE` text, or a schema error when it has
    /// no column list.
    #[verifier::loop_isolation(false)]
    pub fn get_cols_name(tabledef: &str) -> (r: Result<Vec<String>, DbError>)
        ensures
            match r {
                Ok(v) => sql_has_cols(tabledef@) && views_of(v@) == cols_of_sql(tabledef@),
                Err(e) => !sql_has_cols(tabledef@) && e == DbError::SchemaInconsistency,
            },
    {
        let fi = match find_first_char(tabledef, '(') {
            Some(i) => i,
            None => {
                return Err(DbError::SchemaInconsistency);
            },
        };
        let li = match find_last_char(tabledef, ')') {
            Some(i) => i,
            None => {
                return Err(DbError::SchemaInconsistency);
            },
        };
        if fi >= li {
            return Err(DbError::SchemaInconsistency);
        }
        proof {
            tabledef@.index_of_first_ensures('(');
            tabledef@.index_of_last_ensures(')');
        }
        let region = tabledef.substring_char(fi + 1, li);
        let ghost rv = region@;
        let rn = region.unicode_len();
        let mut names: Vec<String> = Vec::new();
        let mut start: usize = 0;
        let mut i: usize = 0;
        proof {
            assert(rv.skip(0) =~= rv);
            assert(rv.subrange(0, 0) =~= Seq::<char>::empty());
            assert(views_of(names@) + split_commas_acc(rv, Seq::empty()).map_values(
                |p: Seq<char>| col_name_of(p),
            ) =~= split_commas(rv).map_values(|p: Seq<char>| col_name_of(p)));
        }
        while i < rn
            invariant
                start <= i <= rn,
                rn == rv.len(),
                split_commas(rv).map_values(|p: Seq<char>| col_name_of(p)) == views_of(names@)
                    + split_commas_acc(rv.skip(i as int), rv.subrange(start as int, i as int)).map_values(
                    |p: Seq<char>| col_name_of(p),
                ),
            decreases rn - i,
        {
            let ghost cur = rv.subrange(start as int, i as int);
            proof {
                assert(rv.skip(i as int)[0] == rv[i as int]);
                assert(rv.skip(i as int).drop_first() =~= rv.skip(i as int + 1));
            }
            if region.get_char(i) == ',' {
                let piece = region.substring_char(start, i);
                let word = first_word(piece);
                let ghost old_names = names@;
                names.push(word);
                proof {
                    assert(split_commas_acc(rv.skip(i as int), cur) == seq![cur]
                        + split_commas_acc(rv.skip(i as int + 1), Seq::empty()));
                    assert(views_of(names@) =~= views_of(old_names).push(col_name_of(cur)));
                    assert((seq![cur] + split_commas_acc(rv.skip(i as int + 1), Seq::empty())).map_values(
                        |p: Seq<char>| col_name_of(p),
                    ) =~= seq![col_name_of(cur)] + split_commas_acc(
                        rv.skip(i as int + 1),
                        Seq::empty(),
                    ).map_values(|p: Seq<char>| col_name_of(p)));
                    assert(views_of(old_names) + (seq![col_name_of(cur)] + split_commas_acc(
                        rv.skip(i as int + 1),
                        Seq::empty(),
                    ).map_values(|p: Seq<char>| col_name_of(p))) =~= views_of(names@)
                        + split_commas_acc(rv.skip(i as int + 1), Seq::empty()).map_values(
                        |p: Seq<char>| col_name_of(p),
                    ));
                    assert(rv.subrange(i as int + 1, i as int + 1) =~= Seq::<char>::empty());
                }
                start = i + 1;
            } else {
                proof {
                    assert(split_commas_acc(rv.skip(i as int), cur) == split_commas_acc(
                        rv.skip(i as int + 1),
                        cur.push(rv[i as int]),
                    ));
                    assert(cur.push(rv[i as int]) =~= rv.subrange(start as int, i as int + 1));
                }
            }
            i += 1;
        }
        proof {
            assert(rv.skip(rn as int).len() == 0);
            assert(split_commas_acc(rv.skip(rn as int), rv.subrange(start as int, rn as int))
                == seq![rv.subrange(start as int, rn as int)]);
        }
        let piece = region.substring_char(start, rn);
        let word = first_word(piece);
        let ghost old_names = names@;
        names.push(word);
        proof {
            let cur = rv.subrange(start as int, rn as int);
            assert(views_of(names@) =~= views_of(old_names).push(col_name_of(cur)));
            assert(seq![cur].map_values(|p: Seq<char>| col_name_of(p)) =~= seq![col_name_of(cur)]);
            assert(views_of(old_names) + seq![col_name_of(cur)] =~= views_of(names@));
        }
        Ok(names)
    }

    /// The first whitespace-delimited word of a column definition piece.
    pub fn trim_column_def(value: &str) -> (r: String)
        ensures
            r@ == col_name_of(value@),
    {
        first_word(value)
    }

    /// The position of `col_name` among this table's columns, or `None`
    /// when no column carries that name.
    #[verifier::loop_isolation(false)]
    pub fn get_col_index(&self, col_name: &str) -> (r: Option<usize>)
        ensures
            match r {
                Some(i) => {
                    &&& i < self.cols_name@.len()
                    &&& self.cols_name@[i as int]@ == col_name@
                    &&& forall|j: int| 0 <= j < i ==> self.cols_name@[j]@ != col_name@
                },
                None => forall|j: int|
                    0 <= j < self.cols_name@.len() ==> self.cols_name@[j]@ != col_name@,
            },
    {
        let n = self.cols_name.len();
        let mut i: usize = 0;
        while i < n
            invariant
                i <= n,
                n == self.cols_name@.len(),
                forall|j: int| 0 <= j < i ==> self.cols_name@[j]@ != col_name@,
            decreases n - i,
    {
            if str_eq(self.cols_name[i].as_str(), col_name) {
                return Some(i);
            }
            i += 1;
        }
        None
    }

    /// The implicit schema table's own descriptor: the five fixed columns
    /// of page 1, kept as ordinary data so that schema rows and user rows
    /// share one code path.
    pub fn schema_table() -> (r: Table)
        ensures
            r.tablename@ == "sqlite_schema"@,
            r.rootpage == 1,
            views_of(r.cols_name@) =~= seq![
                "type"@,
                "name"@,
                "tbl_name"@,
                "rootpage"@,
                "sql"@,
            ],
    {
        let mut cols: Vec<String> = Vec::new();
        cols.push("type".to_owned());
        cols.push("name".to_owned());
        cols.push("tbl_name".to_owned());
        cols.push("rootpage".to_owned());
        cols.push("sql".to_owned());
        Table {
            table_type: TableType::Table,
            name: "sqlite_schema".to_owned(),
            tablename: "sqlite_schema".to_owned(),
            rootpage: 1,
            tabledef: "CREATE TABLE sqlite_schema(type text,name text,tbl_name text,rootpage integer,sql text)".to_owned(),
            cols_name: cols,
        }
    }
}

} // verus!
