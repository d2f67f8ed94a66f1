//! The executor: given a parsed `SELECT` statement, the target table and
//! its loaded root page, plan the projection, walk the page's cells,
//! filter by the `WHERE` predicate and project the selected columns.  The
//! whole run is stated as one spec function, [`exec_select`].
//!
//! Columns always read their stored field: a column named `id` is never
//! substituted by the rowid, even where it holds NULL.

use vstd::prelude::*;

use crate::db_response::{response_model, row_model, RType, RVal, Response};
use crate::errors::DbError;
use crate::function::FuncCall;
use crate::identifier::VType;
use crate::page::{lemma_cell_count_bound, Page};
use crate::record::Record;
use crate::select::{SelectClause, SelectItem, SelectStatement};
use crate::strutil::{str_eq, views_of};
use crate::table::Table;
use crate::token::{Token, TokView};
use crate::where_clause::{
    cmp_vals, compare_values, is_operator_token, operator_of, Operator, Where, WhereV,
};

verus! {

/// A projection list of bare column names, or the first error it raises:
/// anything but a named column is unsupported here.
pub open spec fn names_list(items: Seq<SelectItem>) -> Result<Seq<Seq<char>>, DbError>
    decreases items.len(),
{
    if items.len() == 0 {
        Ok(Seq::empty())
    } else {
        match items[0] {
            SelectItem::Identifier(id) => match id.value {
                VType::Str(s) => match names_list(items.drop_first()) {
                    Ok(rest) => Ok(seq![s@] + rest),
                    Err(e) => Err(e),
                },
                _ => Err(DbError::SemanticError),
            },
            _ => Err(DbError::SemanticError),
        }
    }
}

/// The one projection item the executor answers without scanning:
/// `count(*)`.
pub open spec fn is_count_star(it: SelectItem) -> bool {
    match it {
        SelectItem::Function(f) => f.function_name@ == "count"@ && f.params@.len() == 1
            && f.params@[0] is Star,
        _ => false,
    }
}

/// The projection plan: `None` for `count(*)`, else the column names to
/// project — all of them for `*`.  Mixing `*` or a function with other
/// items, or any function but `count(*)`, is an error.
pub open spec fn plan_of(items: Seq<SelectItem>, cols: Seq<Seq<char>>) -> Result<
    Option<Seq<Seq<char>>>,
    DbError,
> {
    if items.len() == 0 {
        Err(DbError::SemanticError)
    } else if items.len() == 1 && is_count_star(items[0]) {
        Ok(None)
    } else if items.len() == 1 && items[0] is Star {
        Ok(Some(cols))
    } else {
        match names_list(items) {
            Ok(ns) => Ok(Some(ns)),
            Err(e) => Err(e),
        }
    }
}

/// The value an operand token resolves to against one record: a column's
/// field by name, or the literal itself.
pub open spec fn resolve_operand(t: TokView, cols: Seq<Seq<char>>, fields: Seq<RVal>) -> Result<
    RVal,
    DbError,
> {
    match t {
        TokView::Ident(name) => match cols.index_of_first(name) {
            Some(ci) => if ci < fields.len() {
                Ok(fields[ci])
            } else {
                Err(DbError::FormatCorruption)
            },
            None => Err(DbError::SemanticError),
        },
        TokView::Num(n) => Ok(RVal::Num(n)),
        TokView::QIdent(sq) => Ok(RVal::Str(sq)),
        _ => Err(DbError::ParseError),
    }
}

/// Whether one record passes the predicate, by the comparison rules.
pub open spec fn eval_where(w: WhereV, cols: Seq<Seq<char>>, fields: Seq<RVal>) -> Result<
    bool,
    DbError,
> {
    if !is_operator_token(w.op) {
        Err(DbError::ParseError)
    } else {
        match resolve_operand(w.left, cols, fields) {
            Err(e) => Err(e),
            Ok(l) => match resolve_operand(w.right, cols, fields) {
                Err(e) => Err(e),
                Ok(rr) => Ok(cmp_vals(operator_of(w.op), l, rr)),
            },
        }
    }
}

/// The row one record projects to under a list of column names.
pub open spec fn project_fields(
    fields: Seq<RVal>,
    cols: Seq<Seq<char>>,
    names: Seq<Seq<char>>,
) -> Result<Seq<RVal>, DbError>
    decreases names.len(),
{
    if names.len() == 0 {
        Ok(Seq::empty())
    } else {
        match cols.index_of_first(names[0]) {
            None => Err(DbError::SemanticError),
            Some(ci) => if ci < fields.len() {
                match project_fields(fields, cols, names.drop_first()) {
                    Ok(rest) => Ok(seq![fields[ci]] + rest),
                    Err(e) => Err(e),
                }
            } else {
                Err(DbError::FormatCorruption)
            },
        }
    }
}

/// The rows of the scan from cell `i` to cell `n`: decode each record,
/// keep it when the predicate holds, and project it.
pub open spec fn scan_rows(
    page: Page,
    cols: Seq<Seq<char>>,
    wv: Option<WhereV>,
    names: Seq<Seq<char>>,
    i: int,
    n: int,
) -> Result<Seq<Seq<RVal>>, DbError>
    decreases n - i,
{
    if i >= n {
        Ok(Seq::empty())
    } else {
        match page.nth_record_parse(i) {
            Err(e) => Err(e),
            Ok(m) => {
                let keep = match wv {
                    None => Ok(true),
                    Some(w) => eval_where(w, cols, m.fields),
                };
                match keep {
                    Err(e) => Err(e),
                    Ok(b) => if b {
                        match project_fields(m.fields, cols, names) {
                            Err(e) => Err(e),
                            Ok(row) => match scan_rows(page, cols, wv, names, i + 1, n) {
                                Err(e) => Err(e),
                                Ok(rest) => Ok(seq![row] + rest),
                            },
                        }
                    } else {
                        scan_rows(page, cols, wv, names, i + 1, n)
                    },
                }
            },
        }
    }
}

/// What running a `SELECT` statement over a table's root page yields: the
/// count row for `count(*)`, else the filtered, projected scan.  Only a
/// LeafTable root is scanned; a table whose tree has interior pages is
/// unsupported rather than silently misread.
pub open spec fn exec_select(stmt: SelectStatement, table: Table, page: Page) -> Result<
    Seq<Seq<RVal>>,
    DbError,
> {
    let cols = views_of(table.cols_name@);
    if !(page.page_header.btree_type is LeafPage) {
        Err(DbError::Unsupported)
    } else {
        match plan_of(stmt.select_clause.items@, cols) {
        Err(e) => Err(e),
        Ok(None) => Ok(seq![seq![RVal::Num(page.page_header.cell_number as i64)]]),
        Ok(Some(names)) => {
            let wv = match stmt.where_clause {
                None => None,
                Some(w) => Some(w@),
            };
            scan_rows(page, cols, wv, names, 0, page.page_header.cell_number as int)
        },
        }
    }
}

/// Exec test for [`is_count_star`].
fn is_count_star_exec(it: &SelectItem) -> (r: bool)
    ensures
        r == is_count_star(*it),
{
    match it {
        SelectItem::Function(f) => {
            if !str_eq(f.function_name.as_str(), "count") {
                return false;
            }
            if f.params.len() != 1 {
                return false;
            }
            match &f.params[0] {
                SelectItem::Star => true,
                _ => false,
            }
        },
        _ => false,
    }
}

/// The index the catalog's column list gives a name, as `index_of_first`
/// sees it.
proof fn lemma_first_index(cols: Seq<Seq<char>>, name: Seq<char>, i: int)
    requires
        0 <= i < cols.len(),
        cols[i] == name,
        forall|j: int| 0 <= j < i ==> cols[j] != name,
    ensures
        cols.index_of_first(name) == Some(i),
{
    cols.index_of_first_ensures(name);
    assert(cols.contains(name));
    match cols.index_of_first(name) {
        Some(idx) => {
            if idx < i {
                assert(cols[idx] != name);
            }
            if idx > i {
                assert(cols[i] != name);
            }
        },
        None => {},
    }
}

/// A name absent from the column list, as `index_of_first` sees it.
proof fn lemma_no_index(cols: Seq<Seq<char>>, name: Seq<char>)
    requires
        forall|j: int| 0 <= j < cols.len() ==> cols[j] != name,
    ensures
        cols.index_of_first(name) is None,
{
    cols.index_of_first_ensures(name);
    if cols.contains(name) {
        let w = choose|k: int| 0 <= k < cols.len() && cols[k] == name;
        assert(cols[w] != name);
    }
}

/// Resolve one operand token against the current record.
fn resolve_operand_exec(t: &Token, table: &Table, record: &Record) -> (r: Result<RType, DbError>)
    ensures
        ({
            let cols = views_of(table.cols_name@);
            let fields = row_model(record.fields@);
            match resolve_operand(t@, cols, fields) {
                Ok(v) => r matches Ok(rv) && rv@ == v,
                Err(e) => r matches Err(e2) && e2 == e,
            }
        }),
{
    let ghost cols = views_of(table.cols_name@);
    match t {
        Token::Ident(name) => {
            match table.get_col_index(name.as_str()) {
                Some(i) => {
                    proof {
                        lemma_first_index(cols, name@, i as int);
                    }
                    if i < record.fields.len() {
                        Ok(record.get_col(i))
                    } else {
                        Err(DbError::FormatCorruption)
                    }
                },
                None => {
                    proof {
                        lemma_no_index(cols, name@);
                    }
                    Err(DbError::SemanticError)
                },
            }
        },
        Token::Num(n) => Ok(RType::Num(*n)),
        Token::QIdent(sq) => Ok(RType::Str(sq.clone())),
        _ => Err(DbError::ParseError),
    }
}

/// Evaluate the predicate against one record.
pub fn apply_where_clause(w: &Where, table: &Table, record: &Record) -> (r: Result<bool, DbError>)
    ensures
        ({
            let cols = views_of(table.cols_name@);
            let fields = row_model(record.fields@);
            match eval_where(w@, cols, fields) {
                Ok(b) => r matches Ok(b2) && b2 == b,
                Err(e) => r matches Err(e2) && e2 == e,
            }
        }),
{
    let op_ok = match &w.operator {
        Token::Equal => true,
        Token::NotEq => true,
        Token::GT => true,
        Token::LT => true,
        Token::GTEQ => true,
        Token::LTEQ => true,
        _ => false,
    };
    if !op_ok {
        return Err(DbError::ParseError);
    }
    let l = match resolve_operand_exec(&w.left, table, record) {
        Ok(v) => v,
        Err(e) => {
            return Err(e);
        },
    };
    let rr = match resolve_operand_exec(&w.right, table, record) {
        Ok(v) => v,
        Err(e) => {
            return Err(e);
        },
    };
    let op = Operator::from_token(&w.operator);
    Ok(compare_values(&op, &l, &rr))
}

/// The selected column names: none for `count(*)`, every column for `*`,
/// else the named columns.
#[verifier::loop_isolation(false)]
pub fn get_selected_colname(select_clause: &SelectClause, table: &Table) -> (r: Result<
    Vec<String>,
    DbError,
>)
    ensures
        ({
            let cols = views_of(table.cols_name@);
            match plan_of(select_clause.items@, cols) {
                Ok(opt) => match opt {
                    Some(names) => r matches Ok(v) && views_of(v@) == names,
                    None => r matches Ok(v) && v@.len() == 0,
                },
                Err(e) => r matches Err(e2) && e2 == e,
            }
        }),
{
    let ghost cols = views_of(table.cols_name@);
    let items = &select_clause.items;
    let n = items.len();
    if n == 0 {
        return Err(DbError::SemanticError);
    }
    if n == 1 && is_count_star_exec(&items[0]) {
        return Ok(Vec::new());
    }
    if n == 1 {
        if let SelectItem::Star = &items[0] {
            let mut v: Vec<String> = Vec::new();
            let cn = table.cols_name.len();
            let mut k: usize = 0;
            while k < cn
                invariant
                    k <= cn,
                    cn == table.cols_name@.len(),
                    views_of(v@) =~= cols.take(k as int),
                decreases cn - k,
            {
                v.push(table.cols_name[k].clone());
                proof {
                    assert(views_of(v@) =~= cols.take(k as int).push(cols[k as int]));
                    assert(cols.take(k as int).push(cols[k as int]) =~= cols.take(k as int + 1));
                }
                k += 1;
            }
            proof {
                assert(cols.take(cn as int) =~= cols);
            }
            return Ok(v);
        }
    }
    let mut names: Vec<String> = Vec::new();
    let mut i: usize = 0;
    proof {
        assert(items@.skip(0) =~= items@);
    }
    while i < n
        invariant
            i <= n,
            n == items@.len(),
            names_list(items@) == (match names_list(items@.skip(i as int)) {
                Ok(rest) => Ok::<Seq<Seq<char>>, DbError>(views_of(names@) + rest),
                Err(e) => Err::<Seq<Seq<char>>, DbError>(e),
            }),
        decreases n - i,
    {
        proof {
            assert(items@.skip(i as int)[0] == items@[i as int]);
            assert(items@.skip(i as int).drop_first() =~= items@.skip(i as int + 1));
        }
        match &items[i] {
            SelectItem::Identifier(id) => match &id.value {
                VType::Str(nm) => {
                    let ghost old_names = names@;
                    names.push(nm.clone());
                    proof {
                        match names_list(items@.skip(i as int + 1)) {
                            Ok(rest) => {
                                assert(views_of(names@) =~= views_of(old_names).push(nm@));
                                assert(views_of(old_names) + (seq![nm@] + rest) =~= views_of(
                                    names@,
                                ) + rest);
                            },
                            Err(_) => {},
                        }
                    }
                },
                _ => {
                    return Err(DbError::SemanticError);
                },
            },
            _ => {
                return Err(DbError::SemanticError);
            },
        }
        i += 1;
    }
    proof {
        assert(items@.skip(n as int).len() == 0);
        assert(names_list(items@.skip(n as int)) == Ok::<Seq<Seq<char>>, DbError>(Seq::empty()));
        assert(views_of(names@) + Seq::<Seq<char>>::empty() =~= views_of(names@));
    }
    Ok(names)
}

/// Project one record to a row under the selected column names.
#[verifier::loop_isolation(false)]
fn project_record(record: &Record, table: &Table, names: &Vec<String>) -> (r: Result<
    Vec<RType>,
    DbError,
>)
    ensures
        ({
            let cols = views_of(table.cols_name@);
            let fields = row_model(record.fields@);
            match project_fields(fields, cols, views_of(names@)) {
                Ok(rowv) => r matches Ok(row) && row_model(row@) == rowv,
                Err(e) => r matches Err(e2) && e2 == e,
            }
        }),
{
    let ghost cols = views_of(table.cols_name@);
    let ghost fields = row_model(record.fields@);
    let ghost nv = views_of(names@);
    let n = names.len();
    let mut row: Vec<RType> = Vec::new();
    let mut i: usize = 0;
    proof {
        assert(nv.skip(0) =~= nv);
    }
    while i < n
        invariant
            i <= n,
            n == names@.len(),
            project_fields(fields, cols, nv) == (match project_fields(
                fields,
                cols,
                nv.skip(i as int),
            ) {
                Ok(rest) => Ok::<Seq<RVal>, DbError>(row_model(row@) + rest),
                Err(e) => Err::<Seq<RVal>, DbError>(e),
            }),
        decreases n - i,
    {
        proof {
            assert(nv.skip(i as int)[0] == nv[i as int]);
            assert(nv.skip(i as int).drop_first() =~= nv.skip(i as int + 1));
        }
        let ci = match table.get_col_index(names[i].as_str()) {
            Some(ci) => {
                proof {
                    lemma_first_index(cols, nv[i as int], ci as int);
                }
                ci
            },
            None => {
                proof {
                    lemma_no_index(cols, nv[i as int]);
                }
                return Err(DbError::SemanticError);
            },
        };
        if ci >= record.fields.len() {
            return Err(DbError::FormatCorruption);
        }
        let val = record.get_col(ci);
        let ghost old_row = row@;
        row.push(val);
        proof {
            match project_fields(fields, cols, nv.skip(i as int + 1)) {
                Ok(rest) => {
                    assert(row_model(row@) =~= row_model(old_row).push(val@));
                    assert(row_model(old_row) + (seq![fields[ci as int]] + rest) =~= row_model(
                        row@,
                    ) + rest);
                },
                Err(_) => {},
            }
        }
        i += 1;
    }
    proof {
        assert(nv.skip(n as int).len() == 0);
        assert(project_fields(fields, cols, nv.skip(n as int)) == Ok::<Seq<RVal>, DbError>(
            Seq::empty(),
        ));
        assert(row_model(row@) + Seq::<RVal>::empty() =~= row_model(row@));
    }
    Ok(row)
}

/// The `count(*)` answer: one row holding the page's cell count.
pub fn execute_function(page: &Page, func: &FuncCall) -> (r: Vec<RType>)
    requires
        page.wf(),
    ensures
        func.function_name@ == "count"@ ==> row_model(r@) =~= seq![
            RVal::Num(page.page_header.cell_number as i64),
        ],
        func.function_name@ != "count"@ ==> r@.len() == 0,
{
    proof {
        lemma_cell_count_bound(*page);
    }
    if str_eq(func.function_name.as_str(), "count") {
        let mut row: Vec<RType> = Vec::new();
        row.push(RType::Num(page.get_record_number() as i64));
        row
    } else {
        Vec::new()
    }
}

/// Run a `SELECT` statement over its table's root page.
#[verifier::loop_isolation(false)]
#[verifier::rlimit(60)]
pub fn execute_select_statement(query: &SelectStatement, table: &Table, page: &Page) -> (r: Result<
    Response,
    DbError,
>)
    requires
        page.wf(),
    ensures
        match exec_select(*query, *table, *page) {
            Ok(rows) => r matches Ok(resp) && response_model(resp@) == rows,
            Err(e) => r matches Err(e2) && e2 == e,
        },
{
    let ghost cols = views_of(table.cols_name@);
    proof {
        lemma_cell_count_bound(*page);
    }
    match page.page_header.btree_type {
        crate::page::BTreeType::LeafPage => {},
        _ => {
            return Err(DbError::Unsupported);
        },
    }
    let items_len = query.select_clause.items.len();
    if items_len == 0 {
        return Err(DbError::SemanticError);
    }
    if items_len == 1 && is_count_star_exec(&query.select_clause.items[0]) {
        let mut row: Vec<RType> = Vec::new();
        row.push(RType::Num(page.get_record_number() as i64));
        let ghost rowg = row@;
        let mut resp: Response = Vec::new();
        resp.push(row);
        proof {
            assert(row_model(rowg) =~= seq![
                RVal::Num(page.page_header.cell_number as i64),
            ]);
            assert(response_model(resp@) =~= seq![row_model(rowg)]);
        }
        return Ok(resp);
    }
    let names = match get_selected_colname(&query.select_clause, table) {
        Ok(v) => v,
        Err(e) => {
            return Err(e);
        },
    };
    let ghost nv = views_of(names@);
    let ghost wv: Option<WhereV> = match &query.where_clause {
        None => None,
        Some(w) => Some(w@),
    };
    let n = page.get_record_number();
    let mut resp: Response = Vec::new();
    let mut i: usize = 0;
    while i < n
        invariant
            i <= n,
            n == page.page_header.cell_number,
            scan_rows(*page, cols, wv, nv, 0, n as int) == (match scan_rows(
                *page,
                cols,
                wv,
                nv,
                i as int,
                n as int,
            ) {
                Ok(rest) => Ok::<Seq<Seq<RVal>>, DbError>(response_model(resp@) + rest),
                Err(e) => Err::<Seq<Seq<RVal>>, DbError>(e),
            }),
        decreases n - i,
    {
        let rec = match page.get_nth_record(i) {
            Ok(rec) => rec,
            Err(e) => {
                return Err(e);
            },
        };
        let keep = match &query.where_clause {
            None => true,
            Some(w) => match apply_where_clause(w, table, &rec) {
                Ok(b) => b,
                Err(e) => {
                    return Err(e);
                },
            },
        };
        if keep {
            let row = match project_record(&rec, table, &names) {
                Ok(row) => row,
                Err(e) => {
                    return Err(e);
                },
            };
            let ghost rowg = row@;
            let ghost old_resp = resp@;
            resp.push(row);
            proof {
                match scan_rows(*page, cols, wv, nv, i as int + 1, n as int) {
                    Ok(rest) => {
                        assert(response_model(resp@) =~= response_model(old_resp).push(
                            row_model(rowg),
                        ));
                        assert(response_model(old_resp) + (seq![row_model(rowg)] + rest) =~=
                            response_model(resp@) + rest);
                    },
                    Err(_) => {},
                }
            }
        }
        i += 1;
    }
    proof {
        assert(scan_rows(*page, cols, wv, nv, n as int, n as int) == Ok::<
            Seq<Seq<RVal>>,
            DbError,
        >(Seq::empty()));
        assert(response_model(resp@) + Seq::<Seq<RVal>>::empty() =~= response_model(resp@));
    }
    Ok(resp)
}

/// Every projected row is as wide as the list of selected names; for
/// `SELECT *` that is the table's column count.
pub proof fn lemma_scan_row_widths(
    page: Page,
    cols: Seq<Seq<char>>,
    wv: Option<WhereV>,
    names: Seq<Seq<char>>,
    i: int,
    n: int,
)
    ensures
        scan_rows(page, cols, wv, names, i, n) matches Ok(rows) ==> forall|k: int|
            0 <= k < rows.len() ==> (#[trigger] rows[k]).len() == names.len(),
    decreases n - i,
{
    if i < n {
        lemma_scan_row_widths(page, cols, wv, names, i + 1, n);
        match page.nth_record_parse(i) {
            Ok(m) => {
                lemma_project_len(m.fields, cols, names);
            },
            Err(_) => {},
        }
    }
}

/// A successful projection yields exactly one value per selected name.
proof fn lemma_project_len(fields: Seq<RVal>, cols: Seq<Seq<char>>, names: Seq<Seq<char>>)
    ensures
        project_fields(fields, cols, names) matches Ok(row) ==> row.len() == names.len(),
    decreases names.len(),
{
    if names.len() > 0 {
        lemma_project_len(fields, cols, names.drop_first());
    }
}

/// `SELECT * FROM t` produces rows whose column count equals the table's,
/// for every row the scan returns.
pub proof fn lemma_projection_star(stmt: SelectStatement, table: Table, page: Page)
    requires
        stmt.select_clause.items@.len() == 1,
        stmt.select_clause.items@[0] is Star,
    ensures
        exec_select(stmt, table, page) matches Ok(rows) ==> forall|k: int|
            0 <= k < rows.len() ==> (#[trigger] rows[k]).len() == table.cols_name@.len(),
{
    let cols = views_of(table.cols_name@);
    assert(!is_count_star(stmt.select_clause.items@[0]));
    let wv: Option<WhereV> = match stmt.where_clause {
        None => None,
        Some(w) => Some(w@),
    };
    if page.page_header.btree_type is LeafPage {
        lemma_scan_row_widths(page, cols, wv, cols, 0, page.page_header.cell_number as int);
    }
}

/// `SELECT count(*) FROM t` returns exactly one row holding the root
/// page's cell count.
pub proof fn lemma_count_law(stmt: SelectStatement, table: Table, page: Page)
    requires
        stmt.select_clause.items@.len() == 1,
        is_count_star(stmt.select_clause.items@[0]),
        page.page_header.btree_type is LeafPage,
    ensures
        exec_select(stmt, table, page) == Ok::<Seq<Seq<RVal>>, DbError>(
            seq![seq![RVal::Num(page.page_header.cell_number as i64)]],
        ),
{
}

/// One sequence occurs inside another in order.
pub open spec fn is_subsequence<A>(a: Seq<A>, b: Seq<A>) -> bool
    decreases a.len() + b.len(),
{
    if a.len() == 0 {
        true
    } else if b.len() == 0 {
        false
    } else {
        (a[0] == b[0] && is_subsequence(a.drop_first(), b.drop_first())) || is_subsequence(
            a,
            b.drop_first(),
        )
    }
}

/// Prepending the same head keeps the subsequence relation.
proof fn lemma_subseq_cons<A>(x: A, a: Seq<A>, b: Seq<A>)
    requires
        is_subsequence(a, b),
    ensures
        is_subsequence(seq![x] + a, seq![x] + b),
{
    let xa = seq![x] + a;
    let xb = seq![x] + b;
    assert(xa[0] == xb[0]);
    assert(xa.drop_first() =~= a);
    assert(xb.drop_first() =~= b);
}

/// Skipping the head of the longer side keeps the subsequence relation.
proof fn lemma_subseq_skip<A>(x: A, a: Seq<A>, b: Seq<A>)
    requires
        is_subsequence(a, b),
    ensures
        is_subsequence(a, seq![x] + b),
    decreases a.len(),
{
    let xb = seq![x] + b;
    if a.len() == 0 {
    } else {
        assert(xb.drop_first() =~= b);
        if a[0] == xb[0] {
            assert(is_subsequence(a, xb.drop_first()));
        }
    }
}

/// Filter monotonicity: when both scans succeed, the rows a `WHERE`
/// predicate lets through are a subsequence of the unfiltered rows.
pub proof fn lemma_filter_monotone(
    page: Page,
    cols: Seq<Seq<char>>,
    w: WhereV,
    names: Seq<Seq<char>>,
    i: int,
    n: int,
)
    requires
        scan_rows(page, cols, Some(w), names, i, n) is Ok,
        scan_rows(page, cols, None, names, i, n) is Ok,
    ensures
        ({
            let filtered = match scan_rows(page, cols, Some(w), names, i, n) {
                Ok(rows) => rows,
                Err(_) => Seq::empty(),
            };
            let all = match scan_rows(page, cols, None, names, i, n) {
                Ok(rows) => rows,
                Err(_) => Seq::empty(),
            };
            is_subsequence(filtered, all)
        }),
    decreases n - i,
{
    if i >= n {
    } else {
        lemma_filter_monotone(page, cols, w, names, i + 1, n);
        let filtered_rest = match scan_rows(page, cols, Some(w), names, i + 1, n) {
            Ok(rows) => rows,
            Err(_) => Seq::empty(),
        };
        let all_rest = match scan_rows(page, cols, None, names, i + 1, n) {
            Ok(rows) => rows,
            Err(_) => Seq::empty(),
        };
        match page.nth_record_parse(i) {
            Ok(m) => {
                match project_fields(m.fields, cols, names) {
                    Ok(row) => {
                        match eval_where(w, cols, m.fields) {
                            Ok(b) => {
                                if b {
                                    lemma_subseq_cons(row, filtered_rest, all_rest);
                                } else {
                                    lemma_subseq_skip(row, filtered_rest, all_rest);
                                }
                            },
                            Err(_) => {},
                        }
                    },
                    Err(_) => {},
                }
            },
            Err(_) => {},
        }
    }
}

/// The whole filter law at the statement level: a `SELECT` with a `WHERE`
/// returns a subsequence of the same `SELECT` without it, whenever both
/// succeed.
pub proof fn lemma_filter_law(stmt: SelectStatement, bare: SelectStatement, table: Table, page: Page)
    requires
        stmt.select_clause.items@ == bare.select_clause.items@,
        stmt.where_clause is Some,
        bare.where_clause is None,
        exec_select(stmt, table, page) is Ok,
        exec_select(bare, table, page) is Ok,
    ensures
        ({
            let filtered = match exec_select(stmt, table, page) {
                Ok(rows) => rows,
                Err(_) => Seq::empty(),
            };
            let all = match exec_select(bare, table, page) {
                Ok(rows) => rows,
                Err(_) => Seq::empty(),
            };
            is_subsequence(filtered, all)
        }),
{
    let cols = views_of(table.cols_name@);
    match plan_of(stmt.select_clause.items@, cols) {
        Ok(opt) => match opt {
            Some(names) => if page.page_header.btree_type is LeafPage {
                let w = match stmt.where_clause {
                    Some(w) => w@,
                    None => WhereV {
                        left: TokView::Star,
                        op: TokView::Star,
                        right: TokView::Star,
                    },
                };
                lemma_filter_monotone(
                    page,
                    cols,
                    w,
                    names,
                    0,
                    page.page_header.cell_number as int,
                );
            },
            None => {
                assert(exec_select(stmt, table, page) == exec_select(bare, table, page));
                let rows = match exec_select(stmt, table, page) {
                    Ok(rows) => rows,
                    Err(_) => Seq::empty(),
                };
                lemma_subseq_refl(rows);
            },
        },
        Err(_) => {},
    }
}

/// Every sequence is a subsequence of itself.
proof fn lemma_subseq_refl<A>(a: Seq<A>)
    ensures
        is_subsequence(a, a),
    decreases a.len(),
{
    if a.len() > 0 {
        lemma_subseq_refl(a.drop_first());
    }
}

} // verus!
