//! The tokenizer: a single pass over the command string that skips runs of
//! spaces and produces one token at a time — punctuation, one- and
//! two-character operators, quoted strings, and bare words classified by
//! [`crate::token::token_of_word`].  `peek` fills a one-token lookahead
//! that the next `next` call drains.

use vstd::prelude::*;

use crate::errors::DbError;
use crate::token::{token_of_word, Token, TokView};

verus! {

/// Characters that end a bare word.
pub open spec fn is_stop_char(c: char) -> bool {
    c == ';' || c == '(' || c == ')' || c == ',' || c == ' ' || c == '*' || c == '=' || c == '<'
        || c == '!' || c == '>' || c == '+' || c == '-'
}

/// Exec test for [`is_stop_char`].
pub fn is_stop_identifier(c: char) -> (r: bool)
    ensures
        r == is_stop_char(c),
{
    c == ';' || c == '(' || c == ')' || c == ',' || c == ' ' || c == '*' || c == '=' || c == '<'
        || c == '!' || c == '>' || c == '+' || c == '-'
}

/// The first position at or after `i` holding no space.
pub open spec fn skip_spaces(s: Seq<char>, i: int) -> int
    decreases s.len() - i,
{
    if 0 <= i < s.len() && s[i] == ' ' {
        skip_spaces(s, i + 1)
    } else {
        i
    }
}

/// The first stop character at or after `i`, or the end of the input.
pub open spec fn word_end(s: Seq<char>, i: int) -> int
    decreases s.len() - i,
{
    if 0 <= i < s.len() && !is_stop_char(s[i]) {
        word_end(s, i + 1)
    } else {
        i
    }
}

/// The first closing quote at or after `i`, if any.
pub open spec fn quote_close(s: Seq<char>, i: int) -> Option<int>
    decreases s.len() - i,
{
    if i < 0 || i >= s.len() {
        None
    } else if s[i] == '\'' {
        Some(i)
    } else {
        quote_close(s, i + 1)
    }
}

/// The next token of `s` at or after position `i0`, with the position just
/// past it: `Ok(None)` at the end of the input, a lexical error on an
/// unterminated quoted string or an unusable word.
pub open spec fn scan_token(s: Seq<char>, i0: int) -> Result<Option<(TokView, int)>, DbError> {
    let i = skip_spaces(s, i0);
    if i >= s.len() {
        Ok(None)
    } else {
        let c = s[i];
        if c == ';' {
            Ok(Some((TokView::SemiColon, i + 1)))
        } else if c == ',' {
            Ok(Some((TokView::Coma, i + 1)))
        } else if c == '(' {
            Ok(Some((TokView::LParen, i + 1)))
        } else if c == ')' {
            Ok(Some((TokView::RParen, i + 1)))
        } else if c == '+' {
            Ok(Some((TokView::Plus, i + 1)))
        } else if c == '-' {
            Ok(Some((TokView::Minus, i + 1)))
        } else if c == '/' {
            Ok(Some((TokView::Div, i + 1)))
        } else if c == '*' {
            Ok(Some((TokView::Star, i + 1)))
        } else if c == '=' {
            Ok(Some((TokView::Equal, i + 1)))
        } else if c == '!' {
            if i + 1 < s.len() && s[i + 1] == '=' {
                Ok(Some((TokView::NotEq, i + 2)))
            } else {
                Ok(Some((TokView::Illegal("!"@), i + 1)))
            }
        } else if c == '>' {
            if i + 1 < s.len() && s[i + 1] == '=' {
                Ok(Some((TokView::GTEQ, i + 2)))
            } else {
                Ok(Some((TokView::GT, i + 1)))
            }
        } else if c == '<' {
            if i + 1 < s.len() && s[i + 1] == '=' {
                Ok(Some((TokView::LTEQ, i + 2)))
            } else {
                Ok(Some((TokView::LT, i + 1)))
            }
        } else if c == '\'' {
            match quote_close(s, i + 1) {
                Some(j) => Ok(Some((TokView::QIdent(s.subrange(i + 1, j)), j + 1))),
                None => Err(DbError::LexError),
            }
        } else {
            let j = word_end(s, i + 1);
            match token_of_word(s.subrange(i, j)) {
                Ok(tv) => Ok(Some((tv, j))),
                Err(e) => Err(e),
            }
        }
    }
}

pub proof fn lemma_skip_spaces_bounds(s: Seq<char>, i: int)
    requires
        0 <= i <= s.len(),
    ensures
        i <= skip_spaces(s, i) <= s.len(),
    decreases s.len() - i,
{
    if i < s.len() && s[i] == ' ' {
        lemma_skip_spaces_bounds(s, i + 1);
    }
}

pub proof fn lemma_word_end_bounds(s: Seq<char>, i: int)
    requires
        0 <= i <= s.len(),
    ensures
        i <= word_end(s, i) <= s.len(),
    decreases s.len() - i,
{
    if i < s.len() && !is_stop_char(s[i]) {
        lemma_word_end_bounds(s, i + 1);
    }
}

pub proof fn lemma_quote_close_bounds(s: Seq<char>, i: int)
    requires
        0 <= i,
    ensures
        match quote_close(s, i) {
            Some(j) => i <= j < s.len(),
            None => true,
        },
    decreases s.len() - i,
{
    if 0 <= i < s.len() && s[i] != '\'' {
        lemma_quote_close_bounds(s, i + 1);
    }
}

/// A successful scan always advances and never runs past the input.
pub proof fn lemma_scan_token_advances(s: Seq<char>, i: int)
    requires
        0 <= i <= s.len(),
    ensures
        match scan_token(s, i) {
            Ok(opt) => match opt {
                Some(tp) => i < tp.1 <= s.len(),
                None => true,
            },
            Err(_) => true,
        },
{
    lemma_skip_spaces_bounds(s, i);
    let p = skip_spaces(s, i);
    if p < s.len() {
        lemma_word_end_bounds(s, p + 1);
        lemma_quote_close_bounds(s, p + 1);
    }
}

/// Advance past a run of spaces.
#[verifier::loop_isolation(false)]
fn trim_space(buffer: &str, pos: usize) -> (r: usize)
    requires
        pos <= buffer@.len(),
    ensures
        r == skip_spaces(buffer@, pos as int),
        pos <= r <= buffer@.len(),
{
    let n = buffer.unicode_len();
    let mut i = pos;
    while i < n && buffer.get_char(i) == ' '
        invariant
            pos <= i <= n,
            n == buffer@.len(),
            skip_spaces(buffer@, pos as int) == skip_spaces(buffer@, i as int),
        decreases n - i,
    {
        i += 1;
    }
    i
}

/// Scan the token at or after `pos`.
#[verifier::loop_isolation(false)]
pub fn scan_once(buffer: &str, pos: usize) -> (r: Result<Option<(Token, usize)>, DbError>)
    requires
        pos <= buffer@.len(),
    ensures
        match scan_token(buffer@, pos as int) {
            Ok(opt) => match opt {
                Some(tp) => r matches Ok(ro) && (ro matches Some(q) && q.0@ == tp.0 && q.1 == tp.1),
                None => r matches Ok(ro) && ro is None,
            },
            Err(e) => r matches Err(e2) && e2 == e,
        },
{
    let n = buffer.unicode_len();
    let i = trim_space(buffer, pos);
    if i >= n {
        return Ok(None);
    }
    let c = buffer.get_char(i);
    if c == ';' {
        Ok(Some((Token::SemiColon, i + 1)))
    } else if c == ',' {
        Ok(Some((Token::Coma, i + 1)))
    } else if c == '(' {
        Ok(Some((Token::LParen, i + 1)))
    } else if c == ')' {
        Ok(Some((Token::RParen, i + 1)))
    } else if c == '+' {
        Ok(Some((Token::Plus, i + 1)))
    } else if c == '-' {
        Ok(Some((Token::Minus, i + 1)))
    } else if c == '/' {
        Ok(Some((Token::Div, i + 1)))
    } else if c == '*' {
        Ok(Some((Token::Star, i + 1)))
    } else if c == '=' {
        Ok(Some((Token::Equal, i + 1)))
    } else if c == '!' {
        if i + 1 < n && buffer.get_char(i + 1) == '=' {
            Ok(Some((Token::NotEq, i + 2)))
        } else {
            Ok(Some((Token::Illegal("!".to_owned()), i + 1)))
        }
    } else if c == '>' {
        if i + 1 < n && buffer.get_char(i + 1) == '=' {
            Ok(Some((Token::GTEQ, i + 2)))
        } else {
            Ok(Some((Token::GT, i + 1)))
        }
    } else if c == '<' {
        if i + 1 < n && buffer.get_char(i + 1) == '=' {
            Ok(Some((Token::LTEQ, i + 2)))
        } else {
            Ok(Some((Token::LT, i + 1)))
        }
    } else if c == '\'' {
        let mut j = i + 1;
        while j < n && buffer.get_char(j) != '\''
            invariant
                i + 1 <= j <= n,
                quote_close(buffer@, i as int + 1) == quote_close(buffer@, j as int),
            decreases n - j,
        {
            j += 1;
        }
        if j >= n {
            return Err(DbError::LexError);
        }
        let content = buffer.substring_char(i + 1, j).to_owned();
        Ok(Some((Token::QIdent(content), j + 1)))
    } else {
        let mut j = i + 1;
        while j < n && !is_stop_identifier(buffer.get_char(j))
            invariant
                i + 1 <= j <= n,
                word_end(buffer@, i as int + 1) == word_end(buffer@, j as int),
            decreases n - j,
        {
            j += 1;
        }
        let word = buffer.substring_char(i, j);
        match Token::from_str(word) {
            Ok(t) => Ok(Some((t, j))),
            Err(e) => Err(e),
        }
    }
}

/// The token stream over a command string: the input, the scan position,
/// and an optional one-token lookahead.  `back_pos` remembers where the
/// lookahead was scanned from, so the stream's logical position is
/// well-defined with or without a lookahead.
pub struct Tokenizer<'a> {
    pub buffer: &'a str,
    pub pos: usize,
    pub peeked: Option<Token>,
    pub back_pos: Ghost<int>,
}

impl<'a> Tokenizer<'a> {
    /// The logical position: where the next unconsumed token starts.
    pub open spec fn lpos(self) -> int {
        match self.peeked {
            Some(_) => self.back_pos@,
            None => self.pos as int,
        }
    }

    /// The lookahead, when present, is exactly the token scanned at
    /// `back_pos`, ending at `pos`.
    pub open spec fn twf(self) -> bool {
        &&& self.pos <= self.buffer@.len()
        &&& match self.peeked {
            Some(t) => {
                &&& 0 <= self.back_pos@ <= self.buffer@.len()
                &&& scan_token(self.buffer@, self.back_pos@) == Ok::<
                    Option<(TokView, int)>,
                    DbError,
                >(Some((t@, self.pos as int)))
            },
            None => true,
        }
    }

    /// A fresh stream at the start of the input.
    pub fn new(query_str: &'a str) -> (r: Tokenizer<'a>)
        ensures
            r.buffer@ == query_str@,
            r.twf(),
            r.lpos() == 0,
            r.peeked is None,
    {
        Tokenizer { buffer: query_str, pos: 0, peeked: None, back_pos: Ghost(0) }
    }

    /// Consume and return the next token: the lookahead if one is filled,
    /// else the token scanned at the current position.
    pub fn next(&mut self) -> (r: Result<Option<Token>, DbError>)
        requires
            old(self).twf(),
        ensures
            final(self).twf(),
            final(self).buffer@ == old(self).buffer@,
            match scan_token(old(self).buffer@, old(self).lpos()) {
                Ok(opt) => match opt {
                    Some(tp) => (r matches Ok(ro) && (ro matches Some(t) && t@ == tp.0))
                        && final(self).lpos() == tp.1 && final(self).peeked is None,
                    None => (r matches Ok(ro) && ro is None) && final(self).lpos() == old(
                        self,
                    ).lpos() && final(self).peeked is None,
                },
                Err(e) => r matches Err(e2) && e2 == e && final(self).lpos() == old(self).lpos()
                    && final(self).peeked is None,
            },
    {
        let mut tmp: Option<Token> = None;
        core::mem::swap(&mut self.peeked, &mut tmp);
        match tmp {
            Some(t) => Ok(Some(t)),
            None => {
                match scan_once(self.buffer, self.pos) {
                    Ok(Some((t, p))) => {
                        proof {
                            lemma_scan_token_advances(self.buffer@, self.pos as int);
                        }
                        self.pos = p;
                        Ok(Some(t))
                    },
                    Ok(None) => Ok(None),
                    Err(e) => Err(e),
                }
            },
        }
    }

    /// Fill (if needed) and return the lookahead without consuming it.
    pub fn peek(&mut self) -> (r: Result<Option<&Token>, DbError>)
        requires
            old(self).twf(),
        ensures
            final(self).twf(),
            final(self).buffer@ == old(self).buffer@,
            final(self).lpos() == old(self).lpos(),
            match scan_token(old(self).buffer@, old(self).lpos()) {
                Ok(opt) => match opt {
                    Some(tp) => (r matches Ok(ro) && (ro matches Some(t) && t@ == tp.0)) && (final(
                        self
                    ).peeked matches Some(pt) && pt@ == tp.0),
                    None => (r matches Ok(ro) && ro is None) && final(self).peeked is None,
                },
                Err(e) => r matches Err(e2) && e2 == e,
            },
    {
        if self.peeked.is_some() {
            return Ok(self.peeked.as_ref());
        }
        match scan_once(self.buffer, self.pos) {
            Ok(Some((t, p))) => {
                proof {
                    lemma_scan_token_advances(self.buffer@, self.pos as int);
                }
                self.back_pos = Ghost(self.pos as int);
                self.pos = p;
                self.peeked = Some(t);
                Ok(self.peeked.as_ref())
            },
            Ok(None) => Ok(None),
            Err(e) => Err(e),
        }
    }
}

} // verus!
