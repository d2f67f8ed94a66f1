use sqlite_reader::db_response::RType;
use sqlite_reader::dbmetadata::DBMetadata;
use sqlite_reader::errors::DbError;
use sqlite_reader::executor::execute_select_statement;
use sqlite_reader::page::{BTreeType, Page};
use sqlite_reader::parser::parse_command;
use sqlite_reader::record::{ColSerialType, Record, RecordHeader};
use sqlite_reader::statement::Statement;
use sqlite_reader::table::{Table, TableType};

/// A record cell for one schema row `(type, name, tbl_name, rootpage, sql)`.
fn schema_cell(ty: &str, name: &str, tbl: &str, rootpage: u8, sql: &str) -> Vec<u8> {
    let mut record: Vec<u8> = Vec::new();
    record.push(6); // header size, counting itself
    record.push((13 + 2 * ty.len()) as u8);
    record.push((13 + 2 * name.len()) as u8);
    record.push((13 + 2 * tbl.len()) as u8);
    record.push(1); // rootpage: one-byte integer
    record.push((13 + 2 * sql.len()) as u8);
    record.extend_from_slice(ty.as_bytes());
    record.extend_from_slice(name.as_bytes());
    record.extend_from_slice(tbl.as_bytes());
    record.push(rootpage);
    record.extend_from_slice(sql.as_bytes());

    let mut cell: Vec<u8> = Vec::new();
    cell.push(record.len() as u8); // payload size varint
    cell.push(1); // rowid varint
    cell.extend_from_slice(&record);
    cell
}

/// A record cell for one `(id integer, name text, color text)` row.
fn apple_cell(id: u8, name: &str, color: &str) -> Vec<u8> {
    let mut record: Vec<u8> = Vec::new();
    record.push(4);
    record.push(1); // id: one-byte integer
    record.push((13 + 2 * name.len()) as u8);
    record.push((13 + 2 * color.len()) as u8);
    record.push(id);
    record.extend_from_slice(name.as_bytes());
    record.extend_from_slice(color.as_bytes());

    let mut cell: Vec<u8> = Vec::new();
    cell.push(record.len() as u8);
    cell.push(id);
    cell.extend_from_slice(&record);
    cell
}

/// A leaf-table page of the given size holding the cells, with the page
/// header and cell pointer array in place.
fn leaf_page(cells: &[Vec<u8>], page_number: usize, page_size: usize) -> Vec<u8> {
    let hoff = if page_number == 1 { 100 } else { 0 };
    let mut buf = vec![0u8; page_size];
    buf[hoff] = 0x0d;
    buf[hoff + 3] = (cells.len() >> 8) as u8;
    buf[hoff + 4] = (cells.len() & 0xff) as u8;
    let mut pos = page_size;
    let mut offsets: Vec<usize> = Vec::new();
    for cell in cells {
        pos -= cell.len();
        buf[pos..pos + cell.len()].copy_from_slice(cell);
        offsets.push(pos);
    }
    buf[hoff + 5] = (pos >> 8) as u8;
    buf[hoff + 6] = (pos & 0xff) as u8;
    for (k, off) in offsets.iter().enumerate() {
        buf[hoff + 8 + 2 * k] = (off >> 8) as u8;
        buf[hoff + 8 + 2 * k + 1] = (off & 0xff) as u8;
    }
    buf
}

/// Page 1 of a database with three user tables, page size 4096.
fn three_table_schema_page() -> Vec<u8> {
    let cells = vec![
        schema_cell("table", "fruits", "fruits", 2, "CREATE TABLE fruits(id integer, name text)"),
        schema_cell(
            "table",
            "vegetables",
            "vegetables",
            3,
            "CREATE TABLE vegetables(id integer, name text)",
        ),
        schema_cell("table", "berries", "berries", 4, "CREATE TABLE berries(id integer, name text)"),
    ];
    let mut buf = leaf_page(&cells, 1, 4096);
    buf[16] = 0x10;
    buf[17] = 0x00;
    buf
}

/// Page 1 describing only the `apples` table.
fn apples_schema_page() -> Vec<u8> {
    let cells = vec![schema_cell(
        "table",
        "apples",
        "apples",
        2,
        "CREATE TABLE apples(id integer, name text, color text)",
    )];
    let mut buf = leaf_page(&cells, 1, 4096);
    buf[16] = 0x10;
    buf[17] = 0x00;
    buf
}

/// The `apples` root page with its four rows.
fn apples_root_page() -> Vec<u8> {
    let cells = vec![
        apple_cell(1, "Granny Smith", "Light Green"),
        apple_cell(2, "Fuji", "Red"),
        apple_cell(3, "Honeycrisp", "Blush Red"),
        apple_cell(4, "Golden Delicious", "Yellow"),
    ];
    leaf_page(&cells, 2, 4096)
}

fn apples_metadata() -> DBMetadata {
    let page = Page::new(apples_schema_page(), 1).unwrap();
    DBMetadata::new(page).unwrap()
}

fn run_select(meta: &DBMetadata, command: &str) -> Result<Vec<Vec<RType>>, DbError> {
    let stmt = parse_command(command)?.expect("a statement");
    match stmt {
        Statement::Select(ss) => {
            let table = match meta.get_table(ss.from_clause.as_str()) {
                Some(t) => t,
                None => return Err(DbError::SemanticError),
            };
            let page = Page::new(apples_root_page(), table.rootpage)?;
            execute_select_statement(&ss, table, &page)
        },
        _ => panic!("expected a select statement"),
    }
}

#[test]
fn dbinfo_reports_page_size_and_table_count() {
    let page = Page::new(three_table_schema_page(), 1).unwrap();
    let meta = DBMetadata::new(page).unwrap();
    let resp = meta.get_metadata().unwrap().unwrap();
    assert_eq!(resp.len(), 2);
    assert_eq!(resp[0][0], RType::Str("database page size".to_string()));
    assert_eq!(resp[0][1], RType::Num(4096));
    assert_eq!(resp[1][0], RType::Str("number of tables".to_string()));
    assert_eq!(resp[1][1], RType::Num(3));
}

#[test]
fn tables_lists_names_sorted_ascending() {
    let page = Page::new(three_table_schema_page(), 1).unwrap();
    let meta = DBMetadata::new(page).unwrap();
    let resp = meta.get_table_names().unwrap().unwrap();
    assert_eq!(resp.len(), 1);
    assert_eq!(
        resp[0],
        vec![
            RType::Str("berries".to_string()),
            RType::Str("fruits".to_string()),
            RType::Str("vegetables".to_string()),
        ]
    );
}

#[test]
fn count_star_returns_the_cell_count() {
    let meta = apples_metadata();
    let rows = run_select(&meta, "SELECT count(*) FROM apples").unwrap();
    assert_eq!(rows, vec![vec![RType::Num(4)]]);
}

#[test]
fn projection_returns_name_and_color_in_order() {
    let meta = apples_metadata();
    let rows = run_select(&meta, "SELECT name, color FROM apples").unwrap();
    assert_eq!(
        rows,
        vec![
            vec![
                RType::Str("Granny Smith".to_string()),
                RType::Str("Light Green".to_string()),
            ],
            vec![RType::Str("Fuji".to_string()), RType::Str("Red".to_string())],
            vec![
                RType::Str("Honeycrisp".to_string()),
                RType::Str("Blush Red".to_string()),
            ],
            vec![
                RType::Str("Golden Delicious".to_string()),
                RType::Str("Yellow".to_string()),
            ],
        ]
    );
}

#[test]
fn where_filters_to_the_yellow_apple() {
    let meta = apples_metadata();
    let rows = run_select(&meta, "SELECT name FROM apples WHERE color = 'Yellow'").unwrap();
    assert_eq!(rows, vec![vec![RType::Str("Golden Delicious".to_string())]]);
}

#[test]
fn star_projects_every_column_in_schema_order() {
    let meta = apples_metadata();
    let rows = run_select(&meta, "SELECT * FROM apples").unwrap();
    assert_eq!(rows.len(), 4);
    for row in &rows {
        assert_eq!(row.len(), 3);
    }
    assert_eq!(
        rows[1],
        vec![
            RType::Num(2),
            RType::Str("Fuji".to_string()),
            RType::Str("Red".to_string()),
        ]
    );
}

#[test]
fn filtered_rows_are_a_subsequence_of_the_full_scan() {
    let meta = apples_metadata();
    let all = run_select(&meta, "SELECT name FROM apples").unwrap();
    let filtered = run_select(&meta, "SELECT name FROM apples WHERE color != 'Red'").unwrap();
    assert_eq!(filtered.len(), 3);
    let mut it = all.iter();
    for row in &filtered {
        assert!(it.any(|r| r == row));
    }
}

#[test]
fn unknown_column_is_a_semantic_error() {
    let meta = apples_metadata();
    assert_eq!(run_select(&meta, "SELECT crunchiness FROM apples"), Err(DbError::SemanticError));
    assert_eq!(
        run_select(&meta, "SELECT name FROM apples WHERE crunchiness = 1"),
        Err(DbError::SemanticError)
    );
}

#[test]
fn unknown_table_is_reported() {
    let meta = apples_metadata();
    assert!(meta.get_table("pears").is_none());
}

#[test]
fn count_of_a_column_is_an_unsupported_function() {
    let meta = apples_metadata();
    assert_eq!(run_select(&meta, "SELECT count(name) FROM apples"), Err(DbError::SemanticError));
}

#[test]
fn record_decodes_one_field_per_serial_type() {
    let cell = apple_cell(4, "Golden Delicious", "Yellow");
    let rec = Record::new(&cell).unwrap();
    assert_eq!(rec.fields.len(), rec.header.col_serial_types.len());
    assert_eq!(rec.fields.len(), 3);
    assert_eq!(rec.rowid, 4);
    assert_eq!(rec.get_col(0), RType::Num(4));
    assert_eq!(rec.get_col(1), RType::Str("Golden Delicious".to_string()));
}

#[test]
fn take_field_moves_values_out_in_order() {
    let cell = apple_cell(2, "Fuji", "Red");
    let mut rec = Record::new(&cell).unwrap();
    assert_eq!(rec.take_field(), RType::Num(2));
    assert_eq!(rec.take_field(), RType::Str("Fuji".to_string()));
    let rest = rec.take_fields();
    assert_eq!(rest, vec![RType::Str("Red".to_string())]);
}

#[test]
fn serial_types_classify_and_size() {
    assert_eq!(ColSerialType::new(0), ColSerialType::Null);
    assert_eq!(ColSerialType::new(1), ColSerialType::Vu8);
    assert_eq!(ColSerialType::new(2), ColSerialType::Vu16);
    assert_eq!(ColSerialType::new(3), ColSerialType::Vu24);
    assert_eq!(ColSerialType::new(4), ColSerialType::Vu32);
    assert_eq!(ColSerialType::new(9), ColSerialType::V1);
    assert_eq!(ColSerialType::new(12), ColSerialType::Blob(0));
    assert_eq!(ColSerialType::new(13), ColSerialType::Str(0));
    assert_eq!(ColSerialType::new(25), ColSerialType::Str(6));
    assert_eq!(ColSerialType::new(2).size(), 2);
    assert_eq!(ColSerialType::new(6).size(), 8);
    assert_eq!(ColSerialType::new(25).size(), 6);
}

#[test]
fn record_header_reads_declared_serial_types() {
    // Header of size 4 counting itself, then serial types 1, 25, 0.
    let buffer = vec![4u8, 1, 25, 0];
    let header = RecordHeader::new(&buffer).unwrap();
    assert_eq!(header.size, 4);
    assert_eq!(
        header.col_serial_types,
        vec![ColSerialType::Vu8, ColSerialType::Str(6), ColSerialType::Null]
    );
}

#[test]
fn float_and_six_byte_fields_are_unsupported() {
    // A one-field record with serial type 7 (8-byte float).
    let mut cell = vec![10u8, 1, 2, 7];
    cell.extend_from_slice(&[0u8; 8]);
    assert!(matches!(Record::new(&cell), Err(DbError::Unsupported)));
    // Serial type 5: the 6-byte integer form.
    let mut cell6 = vec![8u8, 1, 2, 5];
    cell6.extend_from_slice(&[0u8; 6]);
    assert!(matches!(Record::new(&cell6), Err(DbError::Unsupported)));
}

#[test]
fn invalid_text_bytes_are_corruption() {
    // A one-field record with a 1-character text holding an invalid byte.
    let cell = vec![3u8, 1, 2, 15, 0xFF];
    assert!(matches!(Record::new(&cell), Err(DbError::FormatCorruption)));
}

#[test]
fn bad_page_type_byte_is_corruption() {
    let mut buf = vec![0u8; 512];
    buf[0] = 0x99;
    assert!(matches!(Page::new(buf, 2), Err(DbError::FormatCorruption)));
}

#[test]
fn page_exposes_header_and_cell_pointers() {
    let page = Page::new(apples_root_page(), 2).unwrap();
    assert_eq!(page.page_header.btree_type, BTreeType::LeafPage);
    assert_eq!(page.get_record_number(), 4);
    assert!(page.get_db_header().is_none());
    let cpa = page.get_cell_pointer_array();
    assert_eq!(cpa.len(), 8);
    let first = ((cpa[0] as usize) << 8) | cpa[1] as usize;
    assert_eq!(page.cell_offset(0), first);
    let rows = page.get_all_records().unwrap();
    assert_eq!(rows.len(), 4);
    assert_eq!(rows[3].get_col(2), RType::Str("Yellow".to_string()));
}

#[test]
fn schema_page_exposes_db_header() {
    let page = Page::new(three_table_schema_page(), 1).unwrap();
    let header = page.get_db_header().unwrap();
    assert_eq!(header.len(), 100);
    assert_eq!(header[16], 0x10);
    let slice = page.get_slice(16, Some(18));
    assert_eq!(slice, &[0x10, 0x00]);
}

#[test]
fn duplicate_table_names_are_a_schema_error() {
    let cells = vec![
        schema_cell("table", "fruits", "fruits", 2, "CREATE TABLE fruits(id integer)"),
        schema_cell("table", "fruits2", "fruits", 3, "CREATE TABLE fruits(id integer)"),
    ];
    let mut buf = leaf_page(&cells, 1, 4096);
    buf[16] = 0x10;
    let page = Page::new(buf, 1).unwrap();
    assert_eq!(DBMetadata::new(page).err(), Some(DbError::SchemaInconsistency));
}

#[test]
fn table_columns_come_from_the_create_text() {
    let cols = Table::get_cols_name("CREATE TABLE apples(id integer, name text, color text)")
        .unwrap();
    assert_eq!(cols, vec!["id".to_string(), "name".to_string(), "color".to_string()]);
    assert_eq!(Table::trim_column_def("  name text"), "name".to_string());
    assert_eq!(Table::trim_column_def("id"), "id".to_string());
    assert!(Table::get_cols_name("CREATE TABLE nothing").is_err());
}

#[test]
fn table_lookup_finds_columns_by_name() {
    let meta = apples_metadata();
    let table = meta.get_table("apples").unwrap();
    assert_eq!(table.get_col_index("color"), Some(2));
    assert_eq!(table.get_col_index("taste"), None);
    assert_eq!(table.rootpage, 2);
    assert_eq!(table.table_type, TableType::Table);
}

#[test]
fn take_table_removes_the_entry() {
    let mut meta = apples_metadata();
    let t = meta.take_table("apples").unwrap();
    assert_eq!(t.tablename, "apples".to_string());
    assert!(meta.take_table("apples").is_none());
}

#[test]
fn schema_table_descriptor_names_the_five_columns() {
    let t = Table::schema_table();
    assert_eq!(t.get_col_index("tbl_name"), Some(2));
    assert_eq!(t.get_col_index("sql"), Some(4));
    assert_eq!(t.rootpage, 1);
}

#[test]
fn table_type_classifies_schema_rows() {
    assert_eq!(TableType::from_str("table"), TableType::Table);
    assert_eq!(TableType::from_str("index"), TableType::Index);
    assert_eq!(TableType::from_str("view"), TableType::View);
    assert_eq!(TableType::from_str("trigger"), TableType::Trigger);
}

#[test]
fn execute_function_answers_count() {
    let page = Page::new(apples_root_page(), 2).unwrap();
    let call = sqlite_reader::function::FuncCall::new(
        "count".to_string(),
        vec![sqlite_reader::select::SelectItem::Star],
    );
    let row = sqlite_reader::executor::execute_function(&page, &call);
    assert_eq!(row, vec![RType::Num(4)]);
    let other = sqlite_reader::function::FuncCall::new("max".to_string(), vec![]);
    assert!(sqlite_reader::executor::execute_function(&page, &other).is_empty());
}

#[test]
fn btree_type_classifies_type_bytes() {
    assert_eq!(BTreeType::new(0x02), BTreeType::InteriorIndex);
    assert_eq!(BTreeType::new(0x05), BTreeType::InteriorPage);
    assert_eq!(BTreeType::new(0x0a), BTreeType::LeafIndex);
    assert_eq!(BTreeType::new(0x0d), BTreeType::LeafPage);
}

#[test]
fn nth_record_reads_cells_in_pointer_order() {
    let page = Page::new(apples_root_page(), 2).unwrap();
    let rec = page.get_nth_record(2).unwrap();
    assert_eq!(rec.get_col(1), RType::Str("Honeycrisp".to_string()));
}

#[test]
fn interior_root_page_is_unsupported() {
    let mut buf = vec![0u8; 512];
    buf[0] = 0x05; // an interior table page: the engine does not traverse it
    let page = Page::new(buf, 2).unwrap();
    let meta = apples_metadata();
    let table = meta.get_table("apples").unwrap();
    let stmt = parse_command("SELECT name FROM apples").unwrap().unwrap();
    match stmt {
        Statement::Select(ss) => {
            assert!(matches!(
                execute_select_statement(&ss, table, &page),
                Err(DbError::Unsupported)
            ));
        },
        _ => panic!("expected a select statement"),
    }
}

#[test]
fn cell_with_truncated_varint_is_corruption() {
    // A payload-size varint cut off at the cell's end.
    assert!(matches!(Record::new(&vec![0xFF]), Err(DbError::FormatCorruption)));
    // A record header whose size varint never terminates.
    assert!(matches!(RecordHeader::new(&vec![0x81]), Err(DbError::FormatCorruption)));
    assert!(matches!(RecordHeader::new(&vec![]), Err(DbError::FormatCorruption)));
}
