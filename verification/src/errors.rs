//! Failure kinds the engine reports.  Every component returns one of these;
//! nothing in the library panics.

use vstd::prelude::*;

verus! {

/// The kinds of failure a query can end in.
#[derive(Clone, Copy, Debug, PartialEq, Eq, Structural)]
pub enum DbError {
    /// The on-disk bytes do not decode: a bad page-header type byte, a
    /// truncated structure, a reserved serial type in use, invalid UTF-8 in
    /// a text field, or an out-of-range offset.
    FormatCorruption,
    /// A schema row is not shaped like `(type, name, tbl_name, rootpage,
    /// sql)`, or two rows share a `tbl_name`.
    SchemaInconsistency,
    /// The command string does not tokenize.
    LexError,
    /// The token stream does not parse as a supported statement.
    ParseError,
    /// The statement names an unknown table or column, or an unsupported
    /// function.
    SemanticError,
    /// A file feature the engine deliberately does not read: 6-byte and
    /// floating-point fields, and tables that span more than one page.
    Unsupported,
}

} // verus!
