//! The `WHERE` predicate: one comparison between two operands, and the
//! comparison rules over decoded values.  `=` and `!=` are exact between
//! like-typed values; integers and text order among themselves; every
//! comparison against NULL or across types is false (`!=` across types is
//! true).

use vstd::prelude::*;

use crate::db_response::{RType, RVal};
use crate::errors::DbError;
use crate::strutil::{
    lemma_seq_lt_connected, lemma_seq_lt_irrefl, lemma_seq_lt_trans, seq_le, seq_lt, str_eq,
    str_lt,
};
use crate::token::{Token, TokView};

verus! {

/// The comparison operators a predicate can use.
#[derive(Clone, Copy, Debug, PartialEq, Eq, Structural)]
pub enum Operator {
    Eq,
    NotEq,
    LT,
    GT,
    LTE,
    GTE,
}

/// Whether a token names a comparison operator.
pub open spec fn is_operator_token(t: TokView) -> bool {
    t == TokView::Equal || t == TokView::NotEq || t == TokView::GT || t == TokView::LT || t
        == TokView::GTEQ || t == TokView::LTEQ
}

/// The operator a comparison token names.
pub open spec fn operator_of(t: TokView) -> Operator {
    if t == TokView::Equal {
        Operator::Eq
    } else if t == TokView::NotEq {
        Operator::NotEq
    } else if t == TokView::GT {
        Operator::GT
    } else if t == TokView::LT {
        Operator::LT
    } else if t == TokView::GTEQ {
        Operator::GTE
    } else {
        Operator::LTE
    }
}

impl Operator {
    /// The operator a comparison token names.
    pub fn from_token(token: &Token) -> (r: Operator)
        requires
            is_operator_token(token@),
        ensures
            r == operator_of(token@),
    {
        match token {
            Token::Equal => Operator::Eq,
            Token::NotEq => Operator::NotEq,
            Token::GT => Operator::GT,
            Token::LT => Operator::LT,
            Token::GTEQ => Operator::GTE,
            _ => Operator::LTE,
        }
    }
}

/// Exact equality between like-typed values; false across types.
pub open spec fn eq_vals(a: RVal, b: RVal) -> bool {
    match (a, b) {
        (RVal::Num(x), RVal::Num(y)) => x == y,
        (RVal::Str(x), RVal::Str(y)) => x == y,
        (RVal::Blob(x), RVal::Blob(y)) => x == y,
        _ => false,
    }
}

/// The predicate comparison rules: NULL on either side is false for every
/// operator; `=` and `!=` are exact on like-typed values (`!=` is true
/// across types); only integers and text are ordered, among themselves.
pub open spec fn cmp_vals(op: Operator, a: RVal, b: RVal) -> bool {
    if a is Null || b is Null {
        false
    } else {
        match op {
            Operator::Eq => eq_vals(a, b),
            Operator::NotEq => !eq_vals(a, b),
            Operator::LT => match (a, b) {
                (RVal::Num(x), RVal::Num(y)) => x < y,
                (RVal::Str(x), RVal::Str(y)) => seq_lt(x, y),
                _ => false,
            },
            Operator::GT => match (a, b) {
                (RVal::Num(x), RVal::Num(y)) => x > y,
                (RVal::Str(x), RVal::Str(y)) => seq_lt(y, x),
                _ => false,
            },
            Operator::LTE => match (a, b) {
                (RVal::Num(x), RVal::Num(y)) => x <= y,
                (RVal::Str(x), RVal::Str(y)) => seq_le(x, y),
                _ => false,
            },
            Operator::GTE => match (a, b) {
                (RVal::Num(x), RVal::Num(y)) => x >= y,
                (RVal::Str(x), RVal::Str(y)) => seq_le(y, x),
                _ => false,
            },
        }
    }
}

/// Whether two byte vectors hold the same bytes.
#[verifier::loop_isolation(false)]
pub fn bytes_eq(a: &Vec<u8>, b: &Vec<u8>) -> (r: bool)
    ensures
        r == (a@ == b@),
{
    let na = a.len();
    if na != b.len() {
        proof {
            assert(a@ != b@);
        }
        return false;
    }
    let mut i: usize = 0;
    while i < na
        invariant
            i <= na,
            na == a@.len(),
            na == b@.len(),
            forall|j: int| 0 <= j < i ==> a@[j] == b@[j],
        decreases na - i,
    {
        if a[i] != b[i] {
            return false;
        }
        i += 1;
    }
    proof {
        assert(a@ =~= b@);
    }
    true
}

/// Compare two decoded values under one operator, by the predicate rules.
pub fn compare_values(op: &Operator, a: &RType, b: &RType) -> (r: bool)
    ensures
        r == cmp_vals(*op, a@, b@),
{
    if rtype_is_null(a) || rtype_is_null(b) {
        return false;
    }
    match op {
        Operator::Eq => rtype_eq(a, b),
        Operator::NotEq => !rtype_eq(a, b),
        Operator::LT => match (a, b) {
            (RType::Num(x), RType::Num(y)) => *x < *y,
            (RType::Str(x), RType::Str(y)) => str_lt(x.as_str(), y.as_str()),
            _ => false,
        },
        Operator::GT => match (a, b) {
            (RType::Num(x), RType::Num(y)) => *x > *y,
            (RType::Str(x), RType::Str(y)) => str_lt(y.as_str(), x.as_str()),
            _ => false,
        },
        Operator::LTE => match (a, b) {
            (RType::Num(x), RType::Num(y)) => *x <= *y,
            (RType::Str(x), RType::Str(y)) => {
                let lt_yx = str_lt(y.as_str(), x.as_str());
                proof {
                    lemma_seq_lt_connected(x@, y@);
                    lemma_seq_lt_irrefl(x@);
                    if seq_lt(x@, y@) && seq_lt(y@, x@) {
                        lemma_seq_lt_trans(x@, y@, x@);
                    }
                }
                !lt_yx
            },
            _ => false,
        },
        Operator::GTE => match (a, b) {
            (RType::Num(x), RType::Num(y)) => *x >= *y,
            (RType::Str(x), RType::Str(y)) => {
                let lt_xy = str_lt(x.as_str(), y.as_str());
                proof {
                    lemma_seq_lt_connected(y@, x@);
                    lemma_seq_lt_irrefl(y@);
                    if seq_lt(y@, x@) && seq_lt(x@, y@) {
                        lemma_seq_lt_trans(y@, x@, y@);
                    }
                }
                !lt_xy
            },
            _ => false,
        },
    }
}

/// Whether a value is NULL.
fn rtype_is_null(a: &RType) -> (r: bool)
    ensures
        r == (a@ is Null),
{
    match a {
        RType::Null => true,
        _ => false,
    }
}

/// Exact equality of two decoded values, false across types.
pub fn rtype_eq(a: &RType, b: &RType) -> (r: bool)
    ensures
        r == eq_vals(a@, b@),
{
    match (a, b) {
        (RType::Num(x), RType::Num(y)) => *x == *y,
        (RType::Str(x), RType::Str(y)) => str_eq(x.as_str(), y.as_str()),
        (RType::Blob(x), RType::Blob(y)) => bytes_eq(x, y),
        _ => false,
    }
}

/// The value a literal token stands for.
pub open spec fn literal_val(t: TokView) -> RVal {
    match t {
        TokView::Num(n) => RVal::Num(n),
        TokView::QIdent(s) => RVal::Str(s),
        _ => RVal::Null,
    }
}

/// A token usable as a predicate operand: a column name or a literal.
pub open spec fn is_operand_token(t: TokView) -> bool {
    t is Ident || t is QIdent || t is Num
}

/// The model of a predicate: its three tokens.
pub struct WhereV {
    pub left: TokView,
    pub op: TokView,
    pub right: TokView,
}

/// A parsed predicate: `left operator right`.
#[derive(Debug)]
pub struct Where {
    pub left: Token,
    pub operator: Token,
    pub right: Token,
}

impl View for Where {
    type V = WhereV;

    open spec fn view(&self) -> WhereV {
        WhereV { left: self.left@, op: self.operator@, right: self.right@ }
    }
}

impl Where {
    /// Build a predicate, rejecting tokens outside the grammar: operands
    /// are names or literals, the operator one of the six comparisons.
    pub fn new(left: Token, operator: Token, right: Token) -> (r: Result<Where, DbError>)
        ensures
            ({
                if is_operand_token(left@) && is_operator_token(operator@) && is_operand_token(
                    right@,
                ) {
                    r matches Ok(w) && w.left@ == left@ && w.operator@ == operator@ && w.right@
                        == right@
                } else {
                    r matches Err(e) && e == DbError::ParseError
                }
            }),
    {
        let left_ok = match &left {
            Token::Ident(_) => true,
            Token::QIdent(_) => true,
            Token::Num(_) => true,
            _ => false,
        };
        let right_ok = match &right {
            Token::Ident(_) => true,
            Token::QIdent(_) => true,
            Token::Num(_) => true,
            _ => false,
        };
        let op_ok = match &operator {
            Token::Equal => true,
            Token::NotEq => true,
            Token::GT => true,
            Token::LT => true,
            Token::GTEQ => true,
            Token::LTEQ => true,
            _ => false,
        };
        if left_ok && op_ok && right_ok {
            Ok(Where { left, operator, right })
        } else {
            Err(DbError::ParseError)
        }
    }

    /// The column name the predicate mentions: the right operand when it
    /// is a bare name, else the left one.
    pub fn get_identifier(&self) -> (r: Option<&str>)
        ensures
            match r {
                Some(s) => {
                    &&& (self.right@ is Ident || self.left@ is Ident)
                    &&& (self.right@ matches TokView::Ident(n) ==> s@ == n)
                    &&& (!(self.right@ is Ident) ==> (self.left@ matches TokView::Ident(n) ==> s@
                        == n))
                },
                None => !(self.right@ is Ident) && !(self.left@ is Ident),
            },
    {
        if let Token::Ident(ident) = &self.right {
            return Some(ident.as_str());
        }
        if let Token::Ident(ident) = &self.left {
            return Some(ident.as_str());
        }
        None
    }

    /// Evaluate the predicate under its stored operator, by the comparison
    /// rules.  With a row value, that value stands for the left operand and
    /// is compared against the right-hand literal; without one, both
    /// operands are taken as literals (a bare name then reads as NULL, so
    /// every comparison on it is false).
    pub fn evaluate(&self, value: Option<&RType>) -> (r: bool)
        requires
            is_operator_token(self.operator@),
        ensures
            ({
                let op = operator_of(self.operator@);
                match value {
                    Some(v) => r == cmp_vals(op, v@, literal_val(self.right@)),
                    None => r == cmp_vals(op, literal_val(self.left@), literal_val(self.right@)),
                }
            }),
    {
        let op = Operator::from_token(&self.operator);
        let rhs = literal_of(&self.right);
        match value {
            Some(v) => compare_values(&op, v, &rhs),
            None => {
                let lhs = literal_of(&self.left);
                compare_values(&op, &lhs, &rhs)
            },
        }
    }
}

/// The value a literal token stands for; a non-literal reads as NULL.
fn literal_of(t: &Token) -> (r: RType)
    ensures
        r@ == literal_val(t@),
{
    match t {
        Token::Num(n) => RType::Num(*n),
        Token::QIdent(s) => RType::Str(s.clone()),
        _ => RType::Null,
    }
}

} // verus!
