//! The recursive-descent parser for the `SELECT` grammar.  The grammar is
//! stated as spec functions over the command string's characters, driven
//! by [`scan_token`]; each parser method produces exactly the statement
//! those functions describe, or the error they raise.

use vstd::prelude::*;

use crate::errors::DbError;
use crate::function::FuncCall;
use crate::identifier::{Identifier, VType};
use crate::select::{
    item_matches, items_match, select_matches, SelItemV, SelectClause, SelectItem,
    SelectStatement, SelectStmtV,
};
use crate::statement::{stmt_matches, Statement, StmtV};
use crate::strutil::str_eq;
use crate::token::{token_eq, Token, TokView};
use crate::tokenizer::{lemma_scan_token_advances, scan_token, Tokenizer};
use crate::where_clause::{is_operand_token, is_operator_token, Where, WhereV};

verus! {

/// A parse position strictly after `i`, capped at the input's end: the
/// scanned position `p` when it advanced, else the next character.
/// Successful scans always advance and stay inside the input, so the
/// clamping only serves the termination argument.
pub open spec fn adv(s: Seq<char>, i: int, p: int) -> int {
    if i < p && p <= s.len() {
        p
    } else if i + 1 <= s.len() {
        i + 1
    } else {
        s.len() as int
    }
}

/// The projection list starting at `i`: one item — `*`, a column name, or
/// a `count` call — then further items after each comma.
pub open spec fn sp_values(s: Seq<char>, i: int) -> Result<(Seq<SelItemV>, int), DbError>
    decreases s.len() - i, 1int,
{
    match scan_token(s, i) {
        Err(e) => Err(e),
        Ok(None) => Err(DbError::ParseError),
        Ok(Some((tv, p0))) => if !(0 <= i < s.len()) {
            Err(DbError::ParseError)
        } else {
            let p = adv(s, i, p0);
            let item_res = match tv {
                TokView::Star => Ok((SelItemV::Star, p)),
                TokView::Ident(name) => if name == "count"@ {
                    sp_function(s, p, name)
                } else {
                    Ok((SelItemV::Ident(name), p))
                },
                _ => Err(DbError::ParseError),
            };
            match item_res {
                Err(e) => Err(e),
                Ok((item, pi)) => match scan_token(s, pi) {
                    Ok(Some((tc, pc0))) => if tc == TokView::Coma {
                        match sp_values(s, adv(s, i, adv(s, pi, pc0))) {
                            Err(e) => Err(e),
                            Ok((rest, pe)) => Ok((seq![item] + rest, pe)),
                        }
                    } else {
                        Ok((seq![item], pi))
                    },
                    _ => Ok((seq![item], pi)),
                },
            }
        },
    }
}

/// A function call's tail after its name: `(`, an argument list, `)`.
pub open spec fn sp_function(s: Seq<char>, i: int, name: Seq<char>) -> Result<
    (SelItemV, int),
    DbError,
>
    decreases s.len() - i, 0int,
{
    match scan_token(s, i) {
        Err(e) => Err(e),
        Ok(None) => Err(DbError::ParseError),
        Ok(Some((tl, pl0))) => if !(0 <= i < s.len()) {
            Err(DbError::ParseError)
        } else if tl == TokView::LParen {
            match sp_values(s, adv(s, i, pl0)) {
                Err(e) => Err(e),
                Ok((params, p2)) => match scan_token(s, p2) {
                    Err(e) => Err(e),
                    Ok(None) => Err(DbError::ParseError),
                    Ok(Some((tr, pr0))) => if tr == TokView::RParen {
                        Ok(
                            (
                                SelItemV::Func(
                                    name,
                                    params.len() == 1 && params[0] is Star,
                                    params.len() as int,
                                ),
                                adv(s, p2, pr0),
                            ),
                        )
                    } else {
                        Err(DbError::ParseError)
                    },
                },
            }
        } else {
            Err(DbError::ParseError)
        },
    }
}

/// The statement's tail after `FROM <table>`: nothing, a semicolon, or a
/// `WHERE` predicate of three tokens.
pub open spec fn sp_where_tail(s: Seq<char>, i: int, items: Seq<SelItemV>, from: Seq<char>) -> Result<
    (SelectStmtV, int),
    DbError,
> {
    match scan_token(s, i) {
        Err(e) => Err(e),
        Ok(None) => Ok((SelectStmtV { items, from, wh: None }, i)),
        Ok(Some((t, p0))) => {
            let p = adv(s, i, p0);
            if t == TokView::SemiColon {
                Ok((SelectStmtV { items, from, wh: None }, p))
            } else if t == TokView::Where {
                match scan_token(s, p) {
                    Err(e) => Err(e),
                    Ok(None) => Err(DbError::ParseError),
                    Ok(Some((l, p1))) => {
                        let q1 = adv(s, p, p1);
                        match scan_token(s, q1) {
                            Err(e) => Err(e),
                            Ok(None) => Err(DbError::ParseError),
                            Ok(Some((o, p2))) => {
                                let q2 = adv(s, q1, p2);
                                match scan_token(s, q2) {
                                    Err(e) => Err(e),
                                    Ok(None) => Err(DbError::ParseError),
                                    Ok(Some((rr, p3))) => {
                                        let q3 = adv(s, q2, p3);
                                        if is_operand_token(l) && is_operator_token(o)
                                            && is_operand_token(rr) {
                                            Ok(
                                                (
                                                    SelectStmtV {
                                                        items,
                                                        from,
                                                        wh: Some(
                                                            WhereV { left: l, op: o, right: rr },
                                                        ),
                                                    },
                                                    q3,
                                                ),
                                            )
                                        } else {
                                            Err(DbError::ParseError)
                                        }
                                    },
                                }
                            },
                        }
                    },
                }
            } else {
                Err(DbError::ParseError)
            }
        },
    }
}

/// The statement's tail after the projection list: nothing, a semicolon,
/// or `FROM <table>` followed by the `WHERE` tail.
pub open spec fn sp_from_tail(s: Seq<char>, i: int, items: Seq<SelItemV>) -> Result<
    (SelectStmtV, int),
    DbError,
> {
    match scan_token(s, i) {
        Err(e) => Err(e),
        Ok(None) => Ok((SelectStmtV { items, from: Seq::empty(), wh: None }, i)),
        Ok(Some((t, p0))) => {
            let p = adv(s, i, p0);
            if t == TokView::SemiColon {
                Ok((SelectStmtV { items, from: Seq::empty(), wh: None }, p))
            } else if t == TokView::From {
                match scan_token(s, p) {
                    Err(e) => Err(e),
                    Ok(None) => Err(DbError::ParseError),
                    Ok(Some((tn, p2))) => match tn {
                        TokView::Ident(fname) => sp_where_tail(s, adv(s, p, p2), items, fname),
                        _ => Err(DbError::ParseError),
                    },
                }
            } else {
                Err(DbError::ParseError)
            }
        },
    }
}

/// A whole `SELECT` statement after its keyword.
pub open spec fn sp_select_statement(s: Seq<char>, i: int) -> Result<(SelectStmtV, int), DbError> {
    match sp_values(s, i) {
        Err(e) => Err(e),
        Ok((items, p1)) => sp_from_tail(s, p1, items),
    }
}

/// One statement of the input: nothing at its end, a meta-command, or a
/// `SELECT` statement.
pub open spec fn sp_statement(s: Seq<char>, i: int) -> Result<Option<(StmtV, int)>, DbError> {
    match scan_token(s, i) {
        Err(e) => Err(e),
        Ok(None) => Ok(None),
        Ok(Some((tv, p0))) => {
            let p = adv(s, i, p0);
            match tv {
                TokView::Select => match sp_select_statement(s, p) {
                    Err(e) => Err(e),
                    Ok((sv, p2)) => Ok(Some((StmtV::Select(sv), p2))),
                },
                TokView::Command(c) => Ok(Some((StmtV::Command(c), p))),
                _ => Err(DbError::ParseError),
            }
        },
    }
}

/// The whole command string as one statement: a single statement, an
/// optional trailing semicolon, then the end of the input; anything after
/// that is a parse error.
pub open spec fn sp_command(s: Seq<char>) -> Result<Option<StmtV>, DbError> {
    match sp_statement(s, 0) {
        Err(e) => Err(e),
        Ok(None) => Ok(None),
        Ok(Some((st, p))) => match scan_token(s, p) {
            Err(e) => Err(e),
            Ok(None) => Ok(Some(st)),
            Ok(Some((t, q))) => if t == TokView::SemiColon {
                match scan_token(s, adv(s, p, q)) {
                    Err(e) => Err(e),
                    Ok(None) => Ok(Some(st)),
                    Ok(Some(_)) => Err(DbError::ParseError),
                }
            } else {
                Err(DbError::ParseError)
            },
        },
    }
}

/// The recursive-descent parser over a token stream.
pub struct Parser<'a> {
    pub tokenizer: Tokenizer<'a>,
}

impl<'a> Parser<'a> {
    /// The input being parsed.
    pub open spec fn src(self) -> Seq<char> {
        self.tokenizer.buffer@
    }

    /// The current parse position.
    pub open spec fn pos(self) -> int {
        self.tokenizer.lpos()
    }

    /// The token stream is in a usable state.
    pub open spec fn pwf(self) -> bool {
        &&& self.tokenizer.twf()
        &&& 0 <= self.tokenizer.lpos() <= self.tokenizer.buffer@.len()
    }

    /// A parser at the start of the command string.
    pub fn new(query_str: &'a str) -> (r: Parser<'a>)
        ensures
            r.pwf(),
            r.src() == query_str@,
            r.pos() == 0,
    {
        Parser { tokenizer: Tokenizer::new(query_str) }
    }

    /// Consume the next token, demanding that it equals `expected_token`.
    fn expect_token(&mut self, expected_token: Token) -> (r: Result<Token, DbError>)
        requires
            old(self).pwf(),
        ensures
            final(self).pwf(),
            final(self).src() == old(self).src(),
            match scan_token(old(self).src(), old(self).pos()) {
                Err(e) => r matches Err(e2) && e2 == e && final(self).pos() == old(self).pos(),
                Ok(None) => r matches Err(e2) && e2 == DbError::ParseError && final(self).pos()
                    == old(self).pos(),
                Ok(Some(tp)) => {
                    &&& final(self).pos() == tp.1
                    &&& if tp.0 == expected_token@ {
                        r matches Ok(t) && t@ == tp.0
                    } else {
                        r matches Err(e2) && e2 == DbError::ParseError
                    }
                },
            },
    {
        proof {
            lemma_scan_token_advances(self.src(), self.pos());
        }
        match self.tokenizer.next() {
            Ok(Some(t)) => {
                if token_eq(&t, &expected_token) {
                    Ok(t)
                } else {
                    Err(DbError::ParseError)
                }
            },
            Ok(None) => Err(DbError::ParseError),
            Err(e) => Err(e),
        }
    }

    /// Check the next token against `expected_token` without consuming it.
    fn expect_token_peek(&mut self, expected_token: Token) -> (r: Result<(), DbError>)
        requires
            old(self).pwf(),
        ensures
            final(self).pwf(),
            final(self).src() == old(self).src(),
            final(self).pos() == old(self).pos(),
            match scan_token(old(self).src(), old(self).pos()) {
                Err(e) => r matches Err(e2) && e2 == e,
                Ok(None) => r matches Err(e2) && e2 == DbError::ParseError,
                Ok(Some(tp)) => if tp.0 == expected_token@ {
                    r is Ok
                } else {
                    r matches Err(e2) && e2 == DbError::ParseError
                },
            },
    {
        match self.tokenizer.peek() {
            Ok(Some(t)) => {
                if token_eq(t, &expected_token) {
                    Ok(())
                } else {
                    Err(DbError::ParseError)
                }
            },
            Ok(None) => Err(DbError::ParseError),
            Err(e) => Err(e),
        }
    }

    /// Whether a projection word names a recognised function.
    fn is_function(&self, function_name: &str) -> (r: bool)
        ensures
            r == (function_name@ == "count"@),
    {
        str_eq(function_name, "count")
    }

    /// Parse the parenthesised argument list of a function call named
    /// `function_name`.
    fn parse_function(&mut self, function_name: String) -> (r: Result<SelectItem, DbError>)
        requires
            old(self).pwf(),
        ensures
            final(self).pwf(),
            final(self).src() == old(self).src(),
            final(self).pos() >= old(self).pos(),
            match sp_function(old(self).src(), old(self).pos(), function_name@) {
                Ok(vp) => (r matches Ok(item) && item_matches(item, vp.0)) && final(self).pos()
                    == vp.1,
                Err(e) => r matches Err(e2) && e2 == e,
            },
        decreases old(self).src().len() - old(self).pos(), 0int,
    {
        let ghost s = self.src();
        let ghost i0 = self.pos();
        proof {
            lemma_scan_token_advances(s, i0);
        }
        match self.expect_token(Token::LParen) {
            Ok(_) => {},
            Err(e) => {
                return Err(e);
            },
        }
        let ghost after_lparen = self.pos();
        let items = match self.parse_select_values() {
            Ok(v) => v,
            Err(e) => {
                return Err(e);
            },
        };
        let ghost p2 = self.pos();
        let ghost ps = match sp_values(s, after_lparen) {
            Ok(vp) => vp.0,
            Err(_) => Seq::empty(),
        };
        proof {
            lemma_scan_token_advances(s, p2);
        }
        match self.expect_token(Token::RParen) {
            Ok(_) => {},
            Err(e) => {
                return Err(e);
            },
        }
        proof {
            if items@.len() >= 1 && ps.len() >= 1 {
                assert(item_matches(items@[0], ps[0]));
            }
        }
        Ok(SelectItem::Function(FuncCall::new(function_name, items)))
    }

    /// Parse the comma-separated projection items.
    #[verifier::rlimit(100)]
    fn parse_select_values(&mut self) -> (r: Result<Vec<SelectItem>, DbError>)
        requires
            old(self).pwf(),
        ensures
            final(self).pwf(),
            final(self).src() == old(self).src(),
            final(self).pos() >= old(self).pos(),
            match sp_values(old(self).src(), old(self).pos()) {
                Ok(vp) => (r matches Ok(items) && items_match(items@, vp.0)) && final(self).pos()
                    == vp.1,
                Err(e) => r matches Err(e2) && e2 == e,
            },
        decreases old(self).src().len() - old(self).pos(), 1int,
    {
        let ghost s = self.src();
        let ghost pos0 = self.pos();
        proof {
            lemma_scan_token_advances(s, pos0);
        }
        let tok = match self.tokenizer.next() {
            Ok(Some(t)) => t,
            Ok(None) => {
                return Err(DbError::ParseError);
            },
            Err(e) => {
                return Err(e);
            },
        };
        let ghost after_first = self.pos();
        let (item, itemv): (SelectItem, Ghost<SelItemV>) = match tok {
            Token::Star => (SelectItem::Star, Ghost(SelItemV::Star)),
            Token::Ident(value) => {
                if self.is_function(value.as_str()) {
                    let ghost name = value@;
                    let f = match self.parse_function(value) {
                        Ok(it) => it,
                        Err(e) => {
                            return Err(e);
                        },
                    };
                    let ghost fv = match sp_function(s, after_first, name) {
                        Ok(vp) => vp.0,
                        Err(_) => SelItemV::Star,
                    };
                    (f, Ghost(fv))
                } else {
                    let ghost name = value@;
                    (
                        SelectItem::Identifier(Identifier { value: VType::Str(value) }),
                        Ghost(SelItemV::Ident(name)),
                    )
                }
            },
            _ => {
                return Err(DbError::ParseError);
            },
        };
        let ghost pi = self.pos();
        proof {
            lemma_scan_token_advances(s, pi);
        }
        match self.expect_token_peek(Token::Coma) {
            Ok(_) => {},
            Err(_) => {
                let mut single: Vec<SelectItem> = Vec::new();
                single.push(item);
                proof {
                    assert(items_match(single@, seq![itemv@])) by {
                        assert(single@[0] == item);
                        assert(seq![itemv@][0] == itemv@);
                    }
                }
                return Ok(single);
            },
        }
        let _ = match self.tokenizer.next() {
            Ok(t) => t,
            Err(e) => {
                return Err(e);
            },
        };
        let ghost nxt = self.pos();
        let mut rest = match self.parse_select_values() {
            Ok(v) => v,
            Err(e) => {
                return Err(e);
            },
        };
        let ghost old_rest = rest@;
        let mut out: Vec<SelectItem> = Vec::new();
        out.push(item);
        out.append(&mut rest);
        proof {
            assert(out@ =~= seq![item] + old_rest);
            assert(adv(s, pos0, after_first) == after_first);
            assert(adv(s, pi, nxt) == nxt);
            match sp_values(s, nxt) {
                Ok(vp2) => {
                    assert(sp_values(s, pos0) == Ok::<(Seq<SelItemV>, int), DbError>(
                        (seq![itemv@] + vp2.0, vp2.1),
                    ));
                    assert forall|k: int| 0 <= k < out@.len() implies #[trigger] item_matches(
                        out@[k],
                        (seq![itemv@] + vp2.0)[k],
                    ) by {
                        if k == 0 {
                            assert(out@[0] == item);
                            assert((seq![itemv@] + vp2.0)[0] == itemv@);
                        } else {
                            assert(out@[k] == old_rest[k - 1]);
                            assert((seq![itemv@] + vp2.0)[k] == vp2.0[k - 1]);
                            assert(item_matches(old_rest[k - 1], vp2.0[k - 1]));
                        }
                    }
                },
                Err(_) => {},
            }
        }
        Ok(out)
    }

    /// Parse the projection list into a clause opened by `token`.
    fn parse_select_clause(&mut self, token: Token) -> (r: Result<SelectClause, DbError>)
        requires
            old(self).pwf(),
        ensures
            final(self).pwf(),
            final(self).src() == old(self).src(),
            final(self).pos() >= old(self).pos(),
            match sp_values(old(self).src(), old(self).pos()) {
                Ok(vp) => (r matches Ok(sc) && sc.token == token && items_match(sc.items@, vp.0))
                    && final(self).pos() == vp.1,
                Err(e) => r matches Err(e2) && e2 == e,
            },
    {
        let items = match self.parse_select_values() {
            Ok(v) => v,
            Err(e) => {
                return Err(e);
            },
        };
        Ok(SelectClause { token, items })
    }

    /// Whether the statement ends here: at the input's end, or at a
    /// semicolon, which is consumed.
    fn is_statement_end(&mut self) -> (r: Result<bool, DbError>)
        requires
            old(self).pwf(),
        ensures
            final(self).pwf(),
            final(self).src() == old(self).src(),
            final(self).pos() >= old(self).pos(),
            match scan_token(old(self).src(), old(self).pos()) {
                Err(e) => r matches Err(e2) && e2 == e && final(self).pos() == old(self).pos(),
                Ok(None) => r matches Ok(b) && b == true && final(self).pos() == old(self).pos(),
                Ok(Some(tp)) => if tp.0 == TokView::SemiColon {
                    (r matches Ok(b) && b == true) && final(self).pos() == tp.1
                } else {
                    (r matches Ok(b) && b == false) && final(self).pos() == old(self).pos()
                },
            },
    {
        proof {
            lemma_scan_token_advances(self.src(), self.pos());
        }
        let is_semi = match self.tokenizer.peek() {
            Ok(Some(t)) => match t {
                Token::SemiColon => true,
                _ => false,
            },
            Ok(None) => {
                return Ok(true);
            },
            Err(e) => {
                return Err(e);
            },
        };
        if is_semi {
            let _ = match self.tokenizer.next() {
                Ok(t) => t,
                Err(e) => {
                    return Err(e);
                },
            };
            Ok(true)
        } else {
            Ok(false)
        }
    }

    /// Parse the rest of a `SELECT` statement after its keyword `token`:
    /// the projection list, then optionally `FROM <table>` and a `WHERE`
    /// predicate, ending at a semicolon or the input's end.
    #[verifier::rlimit(100)]
    #[verifier::spinoff_prover]
    pub fn parse_select_statement(&mut self, token: Token) -> (r: Result<Statement, DbError>)
        requires
            old(self).pwf(),
        ensures
            final(self).pwf(),
            final(self).src() == old(self).src(),
            match sp_select_statement(old(self).src(), old(self).pos()) {
                Ok(vp) => (r matches Ok(st) && (st matches Statement::Select(ss)
                    && select_matches(ss, vp.0))) && final(self).pos() == vp.1,
                Err(e) => r matches Err(e2) && e2 == e,
            },
    {
        let ghost s = self.src();
        let select_clause = match self.parse_select_clause(token) {
            Ok(sc) => sc,
            Err(e) => {
                return Err(e);
            },
        };
        let ghost items = match sp_values(s, old(self).pos()) {
            Ok(vp) => vp.0,
            Err(_) => Seq::empty(),
        };
        let mut select_statement = SelectStatement::new(select_clause, "".to_owned(), None);
        proof {
            reveal_strlit("");
            assert(""@ =~= Seq::<char>::empty());
        }
        let ghost p1 = self.pos();
        proof {
            lemma_scan_token_advances(s, p1);
        }
        let ended = match self.is_statement_end() {
            Ok(b) => b,
            Err(e) => {
                return Err(e);
            },
        };
        if ended {
            return Ok(Statement::Select(select_statement));
        }
        let tok = match self.tokenizer.next() {
            Ok(Some(t)) => t,
            Ok(None) => {
                return Err(DbError::ParseError);
            },
            Err(e) => {
                return Err(e);
            },
        };
        match tok {
            Token::From => {},
            _ => {
                return Err(DbError::ParseError);
            },
        }
        let ghost p2 = self.pos();
        proof {
            lemma_scan_token_advances(s, p2);
        }
        let name_tok = match self.tokenizer.next() {
            Ok(Some(t)) => t,
            Ok(None) => {
                return Err(DbError::ParseError);
            },
            Err(e) => {
                return Err(e);
            },
        };
        match name_tok {
            Token::Ident(value) => {
                select_statement.add_from(value);
            },
            _ => {
                return Err(DbError::ParseError);
            },
        }
        self.parse_where_tail(select_statement, Ghost(items))
    }

    /// Parse the statement's tail after `FROM <table>`: its end, or a
    /// `WHERE` predicate of three tokens.
    #[verifier::rlimit(100)]
    fn parse_where_tail(
        &mut self,
        select_statement: SelectStatement,
        Ghost(items): Ghost<Seq<SelItemV>>,
    ) -> (r: Result<Statement, DbError>)
        requires
            old(self).pwf(),
            items_match(select_statement.select_clause.items@, items),
            select_statement.where_clause is None,
        ensures
            final(self).pwf(),
            final(self).src() == old(self).src(),
            match sp_where_tail(
                old(self).src(),
                old(self).pos(),
                items,
                select_statement.from_clause@,
            ) {
                Ok(vp) => (r matches Ok(st) && (st matches Statement::Select(ss)
                    && select_matches(ss, vp.0))) && final(self).pos() == vp.1,
                Err(e) => r matches Err(e2) && e2 == e,
            },
    {
        let ghost s = self.src();
        let mut select_statement = select_statement;
        let ghost p3 = self.pos();
        proof {
            lemma_scan_token_advances(s, p3);
        }
        let ended2 = match self.is_statement_end() {
            Ok(b) => b,
            Err(e) => {
                return Err(e);
            },
        };
        if ended2 {
            return Ok(Statement::Select(select_statement));
        }
        let wtok = match self.tokenizer.next() {
            Ok(Some(t)) => t,
            Ok(None) => {
                return Err(DbError::ParseError);
            },
            Err(e) => {
                return Err(e);
            },
        };
        match wtok {
            Token::Where => {},
            _ => {
                return Err(DbError::ParseError);
            },
        }
        let ghost p4 = self.pos();
        proof {
            lemma_scan_token_advances(s, p4);
        }
        let left = match self.tokenizer.next() {
            Ok(Some(t)) => t,
            Ok(None) => {
                return Err(DbError::ParseError);
            },
            Err(e) => {
                return Err(e);
            },
        };
        let ghost p5 = self.pos();
        proof {
            lemma_scan_token_advances(s, p5);
        }
        let operator = match self.tokenizer.next() {
            Ok(Some(t)) => t,
            Ok(None) => {
                return Err(DbError::ParseError);
            },
            Err(e) => {
                return Err(e);
            },
        };
        let ghost p6 = self.pos();
        proof {
            lemma_scan_token_advances(s, p6);
        }
        let right = match self.tokenizer.next() {
            Ok(Some(t)) => t,
            Ok(None) => {
                return Err(DbError::ParseError);
            },
            Err(e) => {
                return Err(e);
            },
        };
        let w = match Where::new(left, operator, right) {
            Ok(w) => w,
            Err(e) => {
                return Err(e);
            },
        };
        select_statement.where_clause = Some(w);
        Ok(Statement::Select(select_statement))
    }

    /// Parse the next statement of the input: `None` at its end.
    #[verifier::rlimit(100)]
    pub fn next(&mut self) -> (r: Result<Option<Statement>, DbError>)
        requires
            old(self).pwf(),
        ensures
            final(self).pwf(),
            final(self).src() == old(self).src(),
            match sp_statement(old(self).src(), old(self).pos()) {
                Ok(opt) => match opt {
                    Some(vp) => (r matches Ok(ro) && (ro matches Some(st) && stmt_matches(
                        st,
                        vp.0,
                    ))) && final(self).pos() == vp.1,
                    None => r matches Ok(ro) && ro is None,
                },
                Err(e) => r matches Err(e2) && e2 == e,
            },
    {
        let ghost s = self.src();
        proof {
            lemma_scan_token_advances(s, self.pos());
        }
        let tok = match self.tokenizer.next() {
            Ok(Some(t)) => t,
            Ok(None) => {
                return Ok(None);
            },
            Err(e) => {
                return Err(e);
            },
        };
        match tok {
            Token::Select => {
                let st = match self.parse_select_statement(Token::Select) {
                    Ok(st) => st,
                    Err(e) => {
                        return Err(e);
                    },
                };
                Ok(Some(st))
            },
            Token::Command(c) => Ok(Some(Statement::Command(c))),
            _ => Err(DbError::ParseError),
        }
    }
}

/// Parse a whole command string as one statement, demanding nothing after
/// it but an optional semicolon.
#[verifier::rlimit(100)]
pub fn parse_command(command: &str) -> (r: Result<Option<Statement>, DbError>)
    ensures
        match sp_command(command@) {
            Ok(opt) => match opt {
                Some(sv) => r matches Ok(ro) && (ro matches Some(st) && stmt_matches(st, sv)),
                None => r matches Ok(ro) && ro is None,
            },
            Err(e) => r matches Err(e2) && e2 == e,
        },
{
    let mut parser = Parser::new(command);
    let ghost s = command@;
    let st = match parser.next() {
        Ok(Some(st)) => st,
        Ok(None) => {
            return Ok(None);
        },
        Err(e) => {
            return Err(e);
        },
    };
    let ghost p = parser.pos();
    proof {
        lemma_scan_token_advances(s, p);
    }
    match parser.tokenizer.next() {
        Ok(None) => Ok(Some(st)),
        Ok(Some(t)) => match t {
            Token::SemiColon => {
                proof {
                    lemma_scan_token_advances(s, parser.pos());
                }
                match parser.tokenizer.next() {
                    Ok(None) => Ok(Some(st)),
                    Ok(Some(_)) => Err(DbError::ParseError),
                    Err(e) => Err(e),
                }
            },
            _ => Err(DbError::ParseError),
        },
        Err(e) => Err(e),
    }
}


} // verus!
