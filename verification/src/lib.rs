//! A read-only query engine over SQLite-format database files.
//!
//! The library decodes the on-disk layout (pages, cells, records, varints),
//! builds a catalog of the tables found on the schema page, and answers a
//! small subset of SQL (`SELECT ... FROM ... [WHERE ...]`, with `COUNT(*)`)
//! over a table's root page.  All file and console I/O stays outside: callers
//! hand the library raw page buffers and command strings and get rows of
//! plain values back.

pub mod bigendian;
pub mod db_response;
pub mod dbmetadata;
pub mod errors;
pub mod executor;
pub mod function;
pub mod identifier;
pub mod page;
pub mod parser;
pub mod record;
pub mod select;
pub mod statement;
pub mod strutil;
pub mod table;
pub mod token;
pub mod tokenizer;
pub mod types;
pub mod where_clause;
