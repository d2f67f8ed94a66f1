//! Tokens of the query language, and the classification of one raw word
//! into a token: keywords case-insensitively, numbers, dot-commands,
//! quoted strings, and bare identifiers (lowercased).

use vstd::prelude::*;

use crate::errors::DbError;
use crate::strutil::{i64_digits, i64_to_string, lower_seq, push_char, str_eq, to_lower};

verus! {

/// A meta-command token.
#[derive(Clone, Copy, Debug, PartialEq, Eq, Structural)]
pub enum Command {
    DBinfo,
    Tables,
}

/// One token of the query language.
#[derive(Debug, PartialEq)]
pub enum Token {
    Illegal(String),
    Select,
    From,
    Where,
    Null,
    Not,
    Like,
    ILike,
    Ident(String),
    QIdent(String),
    Num(i64),
    Coma,
    SemiColon,
    RParen,
    LParen,
    Star,
    Equal,
    NotEq,
    GT,
    LT,
    GTEQ,
    LTEQ,
    Plus,
    Minus,
    Div,
    Command(Command),
}

/// The mathematical model of a token.
pub enum TokView {
    Illegal(Seq<char>),
    Select,
    From,
    Where,
    Null,
    Not,
    Like,
    ILike,
    Ident(Seq<char>),
    QIdent(Seq<char>),
    Num(i64),
    Coma,
    SemiColon,
    RParen,
    LParen,
    Star,
    Equal,
    NotEq,
    GT,
    LT,
    GTEQ,
    LTEQ,
    Plus,
    Minus,
    Div,
    Command(Command),
}

impl View for Token {
    type V = TokView;

    open spec fn view(&self) -> TokView {
        match self {
            Token::Illegal(s) => TokView::Illegal(s@),
            Token::Select => TokView::Select,
            Token::From => TokView::From,
            Token::Where => TokView::Where,
            Token::Null => TokView::Null,
            Token::Not => TokView::Not,
            Token::Like => TokView::Like,
            Token::ILike => TokView::ILike,
            Token::Ident(s) => TokView::Ident(s@),
            Token::QIdent(s) => TokView::QIdent(s@),
            Token::Num(n) => TokView::Num(*n),
            Token::Coma => TokView::Coma,
            Token::SemiColon => TokView::SemiColon,
            Token::RParen => TokView::RParen,
            Token::LParen => TokView::LParen,
            Token::Star => TokView::Star,
            Token::Equal => TokView::Equal,
            Token::NotEq => TokView::NotEq,
            Token::GT => TokView::GT,
            Token::LT => TokView::LT,
            Token::GTEQ => TokView::GTEQ,
            Token::LTEQ => TokView::LTEQ,
            Token::Plus => TokView::Plus,
            Token::Minus => TokView::Minus,
            Token::Div => TokView::Div,
            Token::Command(c) => TokView::Command(*c),
        }
    }
}

/// A decimal digit.
pub open spec fn is_digit(c: char) -> bool {
    '0' <= c && c <= '9'
}

/// Every character a decimal digit.
pub open spec fn all_digits(s: Seq<char>) -> bool {
    forall|i: int| 0 <= i < s.len() ==> is_digit(s[i])
}

/// The numeric value of a digit string, most significant digit first.
pub open spec fn digits_value(s: Seq<char>) -> int
    decreases s.len(),
{
    if s.len() == 0 {
        0
    } else {
        digits_value(s.drop_last()) * 10 + (s.last() as int - '0' as int)
    }
}

/// The input without leading and trailing runs of single quotes.
pub open spec fn trim_quotes_left(s: Seq<char>) -> Seq<char>
    decreases s.len(),
{
    if s.len() == 0 {
        s
    } else if s[0] == '\'' {
        trim_quotes_left(s.drop_first())
    } else {
        s
    }
}

pub open spec fn trim_quotes_right(s: Seq<char>) -> Seq<char>
    decreases s.len(),
{
    if s.len() == 0 {
        s
    } else if s.last() == '\'' {
        trim_quotes_right(s.drop_last())
    } else {
        s
    }
}

pub open spec fn trim_quotes(s: Seq<char>) -> Seq<char> {
    trim_quotes_right(trim_quotes_left(s))
}

/// A character a bare identifier may hold.
pub open spec fn is_word_char(c: char) -> bool {
    ('a' <= c && c <= 'z') || ('0' <= c && c <= '9') || c == '_'
}

/// A lowered word shaped like an identifier: word characters only, not
/// starting with a digit.
pub open spec fn is_ident_word(l: Seq<char>) -> bool {
    l.len() > 0 && !is_digit(l[0]) && (forall|i: int| 0 <= i < l.len() ==> is_word_char(l[i]))
}

/// The token one raw word classifies as: keywords case-insensitively;
/// then numbers, dot-commands and quoted strings by their first character;
/// bare identifiers (lowercased); and anything else `Illegal`.
pub open spec fn token_of_word(w: Seq<char>) -> Result<TokView, DbError> {
    let l = lower_seq(w);
    if l == "where"@ {
        Ok(TokView::Where)
    } else if l == "select"@ {
        Ok(TokView::Select)
    } else if l == "from"@ {
        Ok(TokView::From)
    } else if l == "null"@ {
        Ok(TokView::Null)
    } else if l == "not"@ {
        Ok(TokView::Not)
    } else if l == "like"@ {
        Ok(TokView::Like)
    } else if l == "ilike"@ {
        Ok(TokView::ILike)
    } else if w.len() == 0 {
        Err(DbError::LexError)
    } else if is_digit(l[0]) {
        if all_digits(l) && digits_value(l) <= i64::MAX {
            Ok(TokView::Num(digits_value(l) as i64))
        } else {
            Err(DbError::LexError)
        }
    } else if l[0] == '.' {
        if l == ".dbinfo"@ {
            Ok(TokView::Command(Command::DBinfo))
        } else if l == ".tables"@ {
            Ok(TokView::Command(Command::Tables))
        } else {
            Err(DbError::LexError)
        }
    } else if l[0] == '\'' {
        Ok(TokView::QIdent(trim_quotes(w)))
    } else if is_ident_word(l) {
        Ok(TokView::Ident(l))
    } else {
        Ok(TokView::Illegal(w))
    }
}

/// Parse the decimal number a lowered word holds.
#[verifier::loop_isolation(false)]
fn parse_number(low: &str) -> (r: Result<i64, DbError>)
    requires
        low@.len() > 0,
    ensures
        match r {
            Ok(v) => all_digits(low@) && digits_value(low@) <= i64::MAX && v == digits_value(
                low@,
            ),
            Err(e) => (!all_digits(low@) || digits_value(low@) > i64::MAX) && e
                == DbError::LexError,
        },
{
    let n = low.unicode_len();
    let mut acc: i64 = 0;
    let mut i: usize = 0;
    while i < n
        invariant
            i <= n,
            n == low@.len(),
            all_digits(low@.take(i as int)),
            acc == digits_value(low@.take(i as int)),
            acc >= 0,
        decreases n - i,
    {
        let c = low.get_char(i);
        if !('0' <= c && c <= '9') {
            proof {
                assert(!is_digit(low@[i as int]));
            }
            return Err(DbError::LexError);
        }
        let d: i64 = (c as u32) as i64 - 48;
        let acc10 = match acc.checked_mul(10) {
            Some(v) => v,
            None => {
                proof {
                    lemma_digits_value_extend(low@, i as int);
                }
                return Err(DbError::LexError);
            },
        };
        let acc2 = match acc10.checked_add(d) {
            Some(v) => v,
            None => {
                proof {
                    lemma_digits_value_extend(low@, i as int);
                }
                return Err(DbError::LexError);
            },
        };
        proof {
            assert(low@.take(i as int + 1).drop_last() =~= low@.take(i as int));
            assert(low@.take(i as int + 1).last() == low@[i as int]);
        }
        acc = acc2;
        i += 1;
    }
    proof {
        assert(low@.take(n as int) =~= low@);
    }
    Ok(acc)
}

/// Extending a digit prefix never shrinks its value: the full string's
/// value is at least the value after one more digit.
proof fn lemma_digits_value_extend(s: Seq<char>, i: int)
    requires
        0 <= i < s.len(),
        all_digits(s.take(i)),
        is_digit(s[i]),
    ensures
        digits_value(s) >= digits_value(s.take(i)) * 10 + (s[i] as int - '0' as int) || !all_digits(
            s,
        ),
{
    if all_digits(s) {
        assert(s.take(i + 1).drop_last() =~= s.take(i));
        assert(s.take(i + 1).last() == s[i]);
        lemma_digits_value_mono(s, i + 1);
    }
}

/// For an all-digit string, the value of a prefix is at most the whole
/// value.
proof fn lemma_digits_value_mono(s: Seq<char>, i: int)
    requires
        0 <= i <= s.len(),
        all_digits(s),
    ensures
        digits_value(s.take(i)) <= digits_value(s),
        digits_value(s.take(i)) >= 0,
    decreases s.len() - i,
{
    lemma_digits_value_nonneg(s.take(i));
    if i == s.len() {
        assert(s.take(i) =~= s);
    } else {
        assert(s.take(i + 1).drop_last() =~= s.take(i));
        assert(s.take(i + 1).last() == s[i]);
        assert(is_digit(s[i]));
        lemma_digits_value_mono(s, i + 1);
        assert(digits_value(s.take(i)) * 10 >= digits_value(s.take(i))) by (nonlinear_arith)
            requires
                digits_value(s.take(i)) >= 0,
        ;
    }
}

proof fn lemma_digits_value_nonneg(s: Seq<char>)
    requires
        all_digits(s),
    ensures
        digits_value(s) >= 0,
    decreases s.len(),
{
    if s.len() > 0 {
        assert(all_digits(s.drop_last())) by {
            assert(forall|k: int| 0 <= k < s.len() - 1 ==> s.drop_last()[k] == s[k]);
        }
        lemma_digits_value_nonneg(s.drop_last());
        assert(is_digit(s.last()));
        assert(digits_value(s.drop_last()) * 10 >= 0) by (nonlinear_arith)
            requires
                digits_value(s.drop_last()) >= 0,
        ;
    }
}

/// Strip leading and trailing single quotes from a word.
#[verifier::loop_isolation(false)]
fn strip_quotes(s: &str) -> (r: String)
    ensures
        r@ == trim_quotes(s@),
{
    let n = s.unicode_len();
    proof {
        assert(s@.skip(0) =~= s@);
    }
    let mut a: usize = 0;
    while a < n && s.get_char(a) == '\''
        invariant
            a <= n,
            n == s@.len(),
            trim_quotes_left(s@) == trim_quotes_left(s@.skip(a as int)),
        decreases n - a,
    {
        proof {
            assert(s@.skip(a as int)[0] == s@[a as int]);
            assert(s@.skip(a as int).drop_first() =~= s@.skip(a as int + 1));
        }
        a += 1;
    }
    proof {
        if a < n {
            assert(trim_quotes_left(s@.skip(a as int)) == s@.skip(a as int));
        } else {
            assert(s@.skip(a as int).len() == 0);
            assert(trim_quotes_left(s@.skip(a as int)) =~= s@.skip(a as int));
        }
    }
    proof {
        assert(s@.skip(a as int).take(n - a) =~= s@.skip(a as int));
    }
    let mut b: usize = n;
    while b > a && s.get_char(b - 1) == '\''
        invariant
            a <= b <= n,
            n == s@.len(),
            trim_quotes_right(s@.skip(a as int)) == trim_quotes_right(
                s@.skip(a as int).take(b - a),
            ),
        decreases b,
    {
        proof {
            let t = s@.skip(a as int).take(b - a);
            assert(t.last() == s@[b as int - 1]);
            assert(t.drop_last() =~= s@.skip(a as int).take(b - 1 - a));
        }
        b -= 1;
    }
    proof {
        let t = s@.skip(a as int).take(b - a);
        if b > a {
            assert(t.last() == s@[b as int - 1]);
            assert(trim_quotes_right(t) == t);
        } else {
            assert(t.len() == 0);
            assert(trim_quotes_right(t) =~= t);
        }
        assert(t =~= s@.subrange(a as int, b as int));
    }
    s.substring_char(a, b).to_owned()
}

/// The display form of a token, as the statement printer writes it.
pub open spec fn render_token(t: TokView) -> Seq<char> {
    match t {
        TokView::Select => "SELECT"@,
        TokView::Where => "WHERE"@,
        TokView::From => "FROM"@,
        TokView::Not => "NOT"@,
        TokView::Like => "LIKE"@,
        TokView::ILike => "ILIKE"@,
        TokView::RParen => "("@,
        TokView::LParen => ")"@,
        TokView::Coma => ","@,
        TokView::SemiColon => ";"@,
        TokView::Ident(value) => value,
        TokView::QIdent(value) => seq!['\''] + value + seq!['\''],
        TokView::Num(value) => i64_digits(value as int),
        TokView::Star => "*"@,
        TokView::Null => "NULL"@,
        TokView::Equal => "="@,
        TokView::NotEq => "!="@,
        TokView::GT => ">"@,
        TokView::LT => "<"@,
        TokView::GTEQ => ">="@,
        TokView::LTEQ => "<="@,
        TokView::Plus => "+"@,
        TokView::Minus => "-"@,
        TokView::Div => "/"@,
        TokView::Illegal(value) => "Illegal token: "@ + value,
        TokView::Command(c) => render_command(c),
    }
}

/// The display form of a meta-command.
pub open spec fn render_command(c: Command) -> Seq<char> {
    match c {
        Command::DBinfo => ".dbinfo"@,
        Command::Tables => ".tables"@,
    }
}

impl Token {
    /// Classify one raw word into a token.
    #[verifier::loop_isolation(false)]
    pub fn from_str(s: &str) -> (r: Result<Token, DbError>)
        ensures
            match token_of_word(s@) {
                Ok(tv) => r matches Ok(t) && t@ == tv,
                Err(e) => r matches Err(e2) && e2 == e,
            },
    {
        let low = to_lower(s);
        if str_eq(low.as_str(), "where") {
            return Ok(Token::Where);
        }
        if str_eq(low.as_str(), "select") {
            return Ok(Token::Select);
        }
        if str_eq(low.as_str(), "from") {
            return Ok(Token::From);
        }
        if str_eq(low.as_str(), "null") {
            return Ok(Token::Null);
        }
        if str_eq(low.as_str(), "not") {
            return Ok(Token::Not);
        }
        if str_eq(low.as_str(), "like") {
            return Ok(Token::Like);
        }
        if str_eq(low.as_str(), "ilike") {
            return Ok(Token::ILike);
        }
        if low.as_str().unicode_len() == 0 {
            return Err(DbError::LexError);
        }
        let c0 = low.as_str().get_char(0);
        if '0' <= c0 && c0 <= '9' {
            let v = match parse_number(low.as_str()) {
                Ok(v) => v,
                Err(e) => {
                    return Err(e);
                },
            };
            return Ok(Token::Num(v));
        }
        if c0 == '.' {
            let c = match Command::from_str(low.as_str()) {
                Ok(c) => c,
                Err(e) => {
                    return Err(e);
                },
            };
            return Ok(Token::Command(c));
        }
        if c0 == '\'' {
            return Ok(Token::QIdent(strip_quotes(s)));
        }
        let nl = low.as_str().unicode_len();
        let mut k: usize = 0;
        while k < nl
            invariant
                k <= nl,
                nl == low@.len(),
                forall|j: int| 0 <= j < k ==> is_word_char(low@[j]),
            decreases nl - k,
        {
            let c = low.as_str().get_char(k);
            if !(('a' <= c && c <= 'z') || ('0' <= c && c <= '9') || c == '_') {
                proof {
                    assert(!is_word_char(low@[k as int]));
                }
                return Ok(Token::Illegal(s.to_owned()));
            }
            k += 1;
        }
        proof {
            assert(is_ident_word(low@));
        }
        Ok(Token::Ident(low))
    }

    /// The result value a literal token stands for in a predicate.
    pub fn into_rtype(&self) -> (r: crate::db_response::RType)
        requires
            self matches Token::Num(_) || self matches Token::QIdent(_),
        ensures
            match self {
                Token::Num(n) => r matches crate::db_response::RType::Num(m) && m == n,
                Token::QIdent(s) => (r matches crate::db_response::RType::Str(t) && t@ == s@),
                _ => false,
            },
    {
        match self {
            Token::Num(n) => crate::db_response::RType::Num(*n),
            Token::QIdent(s) => crate::db_response::RType::Str(s.clone()),
            _ => crate::db_response::RType::Null,
        }
    }

    /// The display form of a token, as the statement printer writes it.
    pub fn render(&self) -> (r: String)
        ensures
            r@ == render_token(self@),
    {
        match self {
            Token::Select => "SELECT".to_owned(),
            Token::Where => "WHERE".to_owned(),
            Token::From => "FROM".to_owned(),
            Token::Not => "NOT".to_owned(),
            Token::Like => "LIKE".to_owned(),
            Token::ILike => "ILIKE".to_owned(),
            Token::RParen => "(".to_owned(),
            Token::LParen => ")".to_owned(),
            Token::Coma => ",".to_owned(),
            Token::SemiColon => ";".to_owned(),
            Token::Ident(value) => value.clone(),
            Token::QIdent(value) => {
                let mut out = String::new();
                push_char(&mut out, '\'');
                out.append(value.as_str());
                push_char(&mut out, '\'');
                proof {
                    assert(out@ =~= seq!['\''] + value@ + seq!['\'']);
                }
                out
            },
            Token::Num(value) => i64_to_string(*value),
            Token::Star => "*".to_owned(),
            Token::Null => "NULL".to_owned(),
            Token::Equal => "=".to_owned(),
            Token::NotEq => "!=".to_owned(),
            Token::GT => ">".to_owned(),
            Token::LT => "<".to_owned(),
            Token::GTEQ => ">=".to_owned(),
            Token::LTEQ => "<=".to_owned(),
            Token::Plus => "+".to_owned(),
            Token::Minus => "-".to_owned(),
            Token::Div => "/".to_owned(),
            Token::Illegal(value) => {
                let mut out = String::from_str("Illegal token: ");
                out.append(value.as_str());
                out
            },
            Token::Command(c) => c.render(),
        }
    }
}

/// Whether two tokens are equal, payloads included.
pub fn token_eq(a: &Token, b: &Token) -> (r: bool)
    ensures
        r == (a@ == b@),
{
    match (a, b) {
        (Token::Illegal(x), Token::Illegal(y)) => str_eq(x.as_str(), y.as_str()),
        (Token::Select, Token::Select) => true,
        (Token::From, Token::From) => true,
        (Token::Where, Token::Where) => true,
        (Token::Null, Token::Null) => true,
        (Token::Not, Token::Not) => true,
        (Token::Like, Token::Like) => true,
        (Token::ILike, Token::ILike) => true,
        (Token::Ident(x), Token::Ident(y)) => str_eq(x.as_str(), y.as_str()),
        (Token::QIdent(x), Token::QIdent(y)) => str_eq(x.as_str(), y.as_str()),
        (Token::Num(x), Token::Num(y)) => *x == *y,
        (Token::Coma, Token::Coma) => true,
        (Token::SemiColon, Token::SemiColon) => true,
        (Token::RParen, Token::RParen) => true,
        (Token::LParen, Token::LParen) => true,
        (Token::Star, Token::Star) => true,
        (Token::Equal, Token::Equal) => true,
        (Token::NotEq, Token::NotEq) => true,
        (Token::GT, Token::GT) => true,
        (Token::LT, Token::LT) => true,
        (Token::GTEQ, Token::GTEQ) => true,
        (Token::LTEQ, Token::LTEQ) => true,
        (Token::Plus, Token::Plus) => true,
        (Token::Minus, Token::Minus) => true,
        (Token::Div, Token::Div) => true,
        (Token::Command(x), Token::Command(y)) => *x == *y,
        _ => false,
    }
}

/// The dot-commands a word can name.
pub open spec fn command_of_word(l: Seq<char>) -> Result<Command, DbError> {
    if l == ".dbinfo"@ {
        Ok(Command::DBinfo)
    } else if l == ".tables"@ {
        Ok(Command::Tables)
    } else {
        Err(DbError::LexError)
    }
}

impl Command {
    /// Recognise a meta-command word.
    pub fn from_str(command: &str) -> (r: Result<Command, DbError>)
        ensures
            r == command_of_word(command@),
    {
        if str_eq(command, ".dbinfo") {
            Ok(Command::DBinfo)
        } else if str_eq(command, ".tables") {
            Ok(Command::Tables)
        } else {
            Err(DbError::LexError)
        }
    }

    /// The display form of a meta-command.
    pub fn render(&self) -> (r: String)
        ensures
            r@ == render_command(*self),
    {
        match self {
            Command::DBinfo => ".dbinfo".to_owned(),
            Command::Tables => ".tables".to_owned(),
        }
    }
}

} // verus!
