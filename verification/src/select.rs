//! The `SELECT` statement's shape: the projection list, the `FROM` table
//! and the optional `WHERE` predicate, with the mathematical models the
//! parser's contracts speak of.

use vstd::prelude::*;

use crate::errors::DbError;
use crate::function::FuncCall;
use crate::identifier::{Identifier, VType};
use crate::strutil::{i64_digits, push_char, to_upper, upper_seq};
use crate::token::{render_token, Token};
use crate::where_clause::{Where, WhereV};

verus! {

/// One item of the projection list.
#[derive(Debug)]
pub enum SelectItem {
    Function(FuncCall),
    Identifier(Identifier),
    Star,
}

/// The model of a projection item.  A function call is summarised by its
/// name, whether its argument list is exactly `*`, and how many arguments
/// it has.
pub enum SelItemV {
    Star,
    Ident(Seq<char>),
    Func(Seq<char>, bool, int),
}

/// How a projection item realises its model.
pub open spec fn item_matches(it: SelectItem, v: SelItemV) -> bool {
    match v {
        SelItemV::Star => it is Star,
        SelItemV::Ident(name) => match it {
            SelectItem::Identifier(id) => match id.value {
                VType::Str(s) => s@ == name,
                _ => false,
            },
            _ => false,
        },
        SelItemV::Func(name, star_only, np) => match it {
            SelectItem::Function(f) => {
                &&& f.function_name@ == name
                &&& f.params@.len() == np
                &&& (star_only <==> (f.params@.len() == 1 && f.params@[0] is Star))
            },
            _ => false,
        },
    }
}

/// Item-by-item realisation of a projection list.
pub open spec fn items_match(its: Seq<SelectItem>, vs: Seq<SelItemV>) -> bool {
    &&& its.len() == vs.len()
    &&& forall|k: int| 0 <= k < its.len() ==> #[trigger] item_matches(its[k], vs[k])
}

/// The projection list with the keyword that opened it.
#[derive(Debug)]
pub struct SelectClause {
    pub token: Token,
    pub items: Vec<SelectItem>,
}

impl SelectClause {
    /// An empty projection list.
    pub fn new(token: Token) -> (r: SelectClause)
        ensures
            r.token == token,
            r.items@.len() == 0,
    {
        SelectClause { token, items: Vec::new() }
    }

    /// Append one projection item.
    pub fn push_item(&mut self, item: SelectItem)
        ensures
            final(self).items@ == old(self).items@.push(item),
            final(self).token == old(self).token,
    {
        self.items.push(item);
    }

    /// A projection list that mixes a function or `*` with further items
    /// is rejected.
    pub fn check_select_clause(&self) -> (r: Result<(), DbError>)
        ensures
            ({
                let bad = self.items@.len() > 1 && (self.items@[0] is Function || self.items@[0]
                    is Star);
                if bad {
                    r matches Err(e) && e == DbError::SemanticError
                } else {
                    r is Ok
                }
            }),
    {
        if self.items.len() > 1 {
            match &self.items[0] {
                SelectItem::Function(_) => {
                    return Err(DbError::SemanticError);
                },
                SelectItem::Star => {
                    return Err(DbError::SemanticError);
                },
                _ => {},
            }
        }
        Ok(())
    }
}

/// The model of a whole `SELECT` statement.
pub struct SelectStmtV {
    pub items: Seq<SelItemV>,
    pub from: Seq<char>,
    pub wh: Option<WhereV>,
}

/// A parsed `SELECT` statement.
#[derive(Debug)]
pub struct SelectStatement {
    pub select_clause: SelectClause,
    pub from_clause: String,
    pub where_clause: Option<Where>,
}

/// How a parsed statement realises its model.
pub open spec fn select_matches(st: SelectStatement, v: SelectStmtV) -> bool {
    &&& items_match(st.select_clause.items@, v.items)
    &&& st.from_clause@ == v.from
    &&& match (st.where_clause, v.wh) {
        (Option::None, Option::None) => true,
        (Option::Some(w), Option::Some(wv)) => w@ == wv,
        _ => false,
    }
}

/// A projection item whose display form is determined one level deep: a
/// star, an identifier or literal, or a call whose arguments are exactly
/// `*`.
pub open spec fn item_renderable(it: SelectItem) -> bool {
    match it {
        SelectItem::Star => true,
        SelectItem::Identifier(_) => true,
        SelectItem::Function(f) => f.params@.len() == 1 && f.params@[0] is Star,
    }
}

/// The display form of one renderable projection item.
pub open spec fn render_item_spec(it: SelectItem) -> Seq<char> {
    match it {
        SelectItem::Star => "*"@,
        SelectItem::Identifier(id) => match id.value {
            VType::Num(n) => i64_digits(n as int),
            VType::Str(s) => s@,
            VType::Null => "NULL"@,
        },
        SelectItem::Function(f) => upper_seq(f.function_name@) + "("@ + "*"@ + ")"@,
    }
}

/// Every item of the projection list is renderable.
pub open spec fn items_renderable(items: Seq<SelectItem>) -> bool {
    forall|k: int| 0 <= k < items.len() ==> item_renderable(#[trigger] items[k])
}

/// The first `i` projection items joined with `", "`.
pub open spec fn render_items_prefix(items: Seq<SelectItem>, i: int) -> Seq<char>
    decreases i,
{
    if i <= 0 {
        Seq::empty()
    } else if i == 1 {
        render_item_spec(items[0])
    } else {
        render_items_prefix(items, i - 1) + ", "@ + render_item_spec(items[i - 1])
    }
}

/// The display form of the projection list with its keyword.
pub open spec fn render_clause_spec(sc: SelectClause) -> Seq<char> {
    render_token(sc.token@) + seq![' '] + render_items_prefix(sc.items@, sc.items@.len() as int)
}

/// The display form of the predicate.
pub open spec fn render_where_spec(w: Where) -> Seq<char> {
    "WHERE "@ + render_token(w.left@) + seq![' '] + render_token(w.operator@) + seq![' ']
        + render_token(w.right@)
}

/// The display form of a whole `SELECT` statement with renderable items.
pub open spec fn render_select_spec(st: SelectStatement) -> Seq<char> {
    render_clause_spec(st.select_clause) + (if st.from_clause@.len() > 0 {
        " FROM "@ + st.from_clause@
    } else {
        Seq::empty()
    }) + (match st.where_clause {
        Some(w) => seq![' '] + render_where_spec(w),
        None => Seq::empty(),
    })
}

impl SelectStatement {
    /// Pack the three clauses into a statement.
    pub fn new(
        select_clause: SelectClause,
        from_clause: String,
        where_clause: Option<Where>,
    ) -> (r: SelectStatement)
        ensures
            r.select_clause == select_clause,
            r.from_clause == from_clause,
            r.where_clause == where_clause,
    {
        SelectStatement { select_clause, from_clause, where_clause }
    }

    /// Record the `FROM` table.
    pub fn add_from(&mut self, value: String)
        ensures
            final(self).from_clause == value,
            final(self).select_clause == old(self).select_clause,
            final(self).where_clause == old(self).where_clause,
    {
        self.from_clause = value;
    }

    /// The display form of the statement.
    pub fn render(&self) -> (r: String)
        ensures
            items_renderable(self.select_clause.items@) ==> r@ == render_select_spec(*self),
    {
        proof {
            reveal_strlit(" ");
        }
        let mut out = self.select_clause.render();
        if self.from_clause.as_str().unicode_len() > 0 {
            out.append(" FROM ");
            out.append(self.from_clause.as_str());
        }
        if let Some(w) = &self.where_clause {
            out.append(" ");
            proof {
                assert(" "@ =~= seq![' ']);
            }
            out.append(w.render().as_str());
        }
        out
    }
}

impl SelectClause {
    /// The display form of the projection list.
    #[verifier::loop_isolation(false)]
    pub fn render(&self) -> (r: String)
        ensures
            items_renderable(self.items@) ==> r@ == render_clause_spec(*self),
    {
        let ghost renderable = items_renderable(self.items@);
        let mut out = self.token.render();
        push_char(&mut out, ' ');
        proof {
            assert(out@ =~= render_token(self.token@) + seq![' ']);
            assert(out@ + Seq::<char>::empty() =~= out@);
        }
        let ghost base = out@;
        let n = self.items.len();
        let mut i: usize = 0;
        while i < n
            invariant
                i <= n,
                n == self.items@.len(),
                renderable ==> out@ == base + render_items_prefix(self.items@, i as int),
            decreases n - i,
        {
            if i > 0 {
                out.append(", ");
            }
            let piece = self.items[i].render();
            out.append(piece.as_str());
            proof {
                if renderable {
                    assert(item_renderable(self.items@[i as int]));
                    if i == 0 {
                        assert(base + Seq::<char>::empty() + piece@ =~= base
                            + render_items_prefix(self.items@, 1));
                    } else {
                        assert(base + render_items_prefix(self.items@, i as int) + ", "@ + piece@
                            =~= base + render_items_prefix(self.items@, i as int + 1));
                    }
                }
            }
            i += 1;
        }
        out
    }
}

impl SelectItem {
    /// The display form of one projection item.
    pub fn render(&self) -> (r: String)
        ensures
            item_renderable(*self) ==> r@ == render_item_spec(*self),
        decreases *self,
    {
        match self {
            SelectItem::Function(f) => f.render(),
            SelectItem::Identifier(id) => match &id.value {
                VType::Num(n) => crate::strutil::i64_to_string(*n),
                VType::Str(s) => s.clone(),
                VType::Null => "NULL".to_owned(),
            },
            SelectItem::Star => "*".to_owned(),
        }
    }
}

impl FuncCall {
    /// The display form of a call: its name uppercased, its arguments
    /// joined with commas.
    #[verifier::loop_isolation(false)]
    pub fn render(&self) -> (r: String)
        ensures
            self.params@.len() == 1 && self.params@[0] is Star ==> r@ == upper_seq(
                self.function_name@,
            ) + "("@ + "*"@ + ")"@,
        decreases *self,
    {
        proof {
            reveal_strlit("(");
            reveal_strlit(")");
            reveal_strlit("*");
        }
        let ghost starcase = self.params@.len() == 1 && self.params@[0] is Star;
        let mut out = to_upper(self.function_name.as_str());
        push_char(&mut out, '(');
        let ghost base = out@;
        let n = self.params.len();
        let mut i: usize = 0;
        while i < n
            invariant
                i <= n,
                n == self.params@.len(),
                starcase ==> out@ == (if i == 0 {
                    base
                } else {
                    base + "*"@
                }),
            decreases n - i,
        {
            if i > 0 {
                out.append(", ");
            }
            let piece = self.params[i].render();
            out.append(piece.as_str());
            proof {
                if starcase {
                    assert(self.params@[0] is Star);
                    assert(piece@ == "*"@);
                }
            }
            i += 1;
        }
        push_char(&mut out, ')');
        proof {
            if starcase {
                assert(out@ =~= upper_seq(self.function_name@) + "("@ + "*"@ + ")"@);
            }
        }
        out
    }
}

impl Where {
    /// The display form of the predicate.
    pub fn render(&self) -> (r: String)
        ensures
            r@ == render_where_spec(*self),
    {
        let mut out = "WHERE ".to_owned();
        out.append(self.left.render().as_str());
        push_char(&mut out, ' ');
        out.append(self.operator.render().as_str());
        push_char(&mut out, ' ');
        out.append(self.right.render().as_str());
        proof {
            assert(out@ =~= render_where_spec(*self));
        }
        out
    }
}

} // verus!
