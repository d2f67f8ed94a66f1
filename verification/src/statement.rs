//! A parsed command: a `SELECT` statement or a meta-command.

use vstd::prelude::*;

use crate::select::{
    items_renderable, render_select_spec, select_matches, SelectStatement, SelectStmtV,
};
use crate::token::{render_command, Command};

verus! {

/// One parsed statement.
#[derive(Debug)]
pub enum Statement {
    Select(SelectStatement),
    Command(Command),
}

/// The model of a parsed statement.
pub enum StmtV {
    Select(SelectStmtV),
    Command(Command),
}

/// How a parsed statement realises its model.
pub open spec fn stmt_matches(s: Statement, v: StmtV) -> bool {
    match (s, v) {
        (Statement::Select(st), StmtV::Select(sv)) => select_matches(st, sv),
        (Statement::Command(c), StmtV::Command(cv)) => c == cv,
        _ => false,
    }
}

impl Statement {
    /// The display form of a statement.
    pub fn render(&self) -> (r: String)
        ensures
            match self {
                Statement::Select(st) => items_renderable(st.select_clause.items@) ==> r@
                    == render_select_spec(*st),
                Statement::Command(c) => r@ == render_command(*c),
            },
    {
        match self {
            Statement::Select(st) => st.render(),
            Statement::Command(c) => c.render(),
        }
    }
}

} // verus!
