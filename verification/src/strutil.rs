//! Character-level text helpers: equality and ordering of strings, ASCII
//! lowercasing, trimming, and decimal rendering and parsing of 64-bit
//! integers.  Everything is stated over the `Seq<char>` views of strings.

use vstd::multiset::Multiset;
use vstd::prelude::*;

verus! {

/// ASCII whitespace, as trimming and token splitting understand it.
pub open spec fn is_space(c: char) -> bool {
    c == ' ' || c == '\t' || c == '\n' || c == '\r'
}

/// Exec test for [`is_space`].
pub fn is_space_char(c: char) -> (r: bool)
    ensures
        r == is_space(c),
{
    c == ' ' || c == '\t' || c == '\n' || c == '\r'
}

/// Whether two strings hold the same characters.
#[verifier::loop_isolation(false)]
pub fn str_eq(a: &str, b: &str) -> (r: bool)
    ensures
        r == (a@ == b@),
{
    let na = a.unicode_len();
    let nb = b.unicode_len();
    if na != nb {
        proof {
            assert(a@ != b@);
        }
        return false;
    }
    let mut i: usize = 0;
    while i < na
        invariant
            i <= na,
            na == a@.len(),
            na == b@.len(),
            forall|j: int| 0 <= j < i ==> a@[j] == b@[j],
        decreases na - i,
    {
        if a.get_char(i) != b.get_char(i) {
            proof {
                assert(a@[i as int] != b@[i as int]);
            }
            return false;
        }
        i += 1;
    }
    proof {
        assert(a@ =~= b@);
    }
    true
}

/// Strict lexicographic order on character sequences: the order Rust's own
/// string comparison gives for ASCII text.
pub open spec fn seq_lt(a: Seq<char>, b: Seq<char>) -> bool
    decreases a.len(),
{
    if b.len() == 0 {
        false
    } else if a.len() == 0 {
        true
    } else if a[0] != b[0] {
        (a[0] as int) < (b[0] as int)
    } else {
        seq_lt(a.drop_first(), b.drop_first())
    }
}

/// Lexicographic order, allowing equality.
pub open spec fn seq_le(a: Seq<char>, b: Seq<char>) -> bool {
    seq_lt(a, b) || a == b
}

/// Exec strict lexicographic comparison of two strings.
#[verifier::loop_isolation(false)]
pub fn str_lt(a: &str, b: &str) -> (r: bool)
    ensures
        r == seq_lt(a@, b@),
{
    let na = a.unicode_len();
    let nb = b.unicode_len();
    proof {
        assert(a@.skip(0) =~= a@);
        assert(b@.skip(0) =~= b@);
    }
    let mut i: usize = 0;
    while i < na && i < nb
        invariant
            i <= na,
            i <= nb,
            na == a@.len(),
            nb == b@.len(),
            forall|j: int| 0 <= j < i ==> a@[j] == b@[j],
            seq_lt(a@, b@) == seq_lt(a@.skip(i as int), b@.skip(i as int)),
        decreases na - i,
    {
        let ca = a.get_char(i);
        let cb = b.get_char(i);
        proof {
            lemma_seq_lt_step(a@.skip(i as int), b@.skip(i as int));
            assert(a@.skip(i as int)[0] == a@[i as int]);
            assert(b@.skip(i as int)[0] == b@[i as int]);
            assert(a@.skip(i as int).drop_first() =~= a@.skip(i as int + 1));
            assert(b@.skip(i as int).drop_first() =~= b@.skip(i as int + 1));
        }
        if ca != cb {
            return (ca as u32) < (cb as u32);
        }
        i += 1;
    }
    proof {
        if i >= nb {
            assert(b@.skip(i as int).len() == 0);
        } else {
            assert(a@.skip(i as int).len() == 0);
            assert(b@.skip(i as int).len() > 0);
        }
    }
    i < nb
}

/// One unfolding of [`seq_lt`], spelled out for the comparison loops.
proof fn lemma_seq_lt_step(a: Seq<char>, b: Seq<char>)
    requires
        a.len() > 0,
        b.len() > 0,
    ensures
        a[0] != b[0] ==> seq_lt(a, b) == ((a[0] as int) < (b[0] as int)),
        a[0] == b[0] ==> seq_lt(a, b) == seq_lt(a.drop_first(), b.drop_first()),
{
}

/// ASCII lowercasing of one character; everything outside `A`..`Z` is left
/// alone.
pub open spec fn lower_char(c: char) -> char {
    if 'A' <= c && c <= 'Z' {
        ((c as u32) + 32) as char
    } else {
        c
    }
}

/// The ASCII-lowercased form of a character sequence.
pub open spec fn lower_seq(s: Seq<char>) -> Seq<char> {
    s.map_values(|c: char| lower_char(c))
}

/// Exec ASCII lowercasing of one character.
pub fn lower_char_exec(c: char) -> (r: char)
    ensures
        r == lower_char(c),
{
    match c {
        'A' => 'a',
        'B' => 'b',
        'C' => 'c',
        'D' => 'd',
        'E' => 'e',
        'F' => 'f',
        'G' => 'g',
        'H' => 'h',
        'I' => 'i',
        'J' => 'j',
        'K' => 'k',
        'L' => 'l',
        'M' => 'm',
        'N' => 'n',
        'O' => 'o',
        'P' => 'p',
        'Q' => 'q',
        'R' => 'r',
        'S' => 's',
        'T' => 't',
        'U' => 'u',
        'V' => 'v',
        'W' => 'w',
        'X' => 'x',
        'Y' => 'y',
        'Z' => 'z',
        _ => c,
    }
}

/// ASCII uppercasing of one character; everything outside `a`..`z` is
/// left alone.
pub open spec fn upper_char(c: char) -> char {
    if 'a' <= c && c <= 'z' {
        ((c as u32) - 32) as char
    } else {
        c
    }
}

/// The ASCII-uppercased form of a character sequence.
pub open spec fn upper_seq(s: Seq<char>) -> Seq<char> {
    s.map_values(|c: char| upper_char(c))
}

/// Exec ASCII uppercasing of one character.
pub fn upper_char_exec(c: char) -> (r: char)
    ensures
        r == upper_char(c),
{
    match c {
        'a' => 'A',
        'b' => 'B',
        'c' => 'C',
        'd' => 'D',
        'e' => 'E',
        'f' => 'F',
        'g' => 'G',
        'h' => 'H',
        'i' => 'I',
        'j' => 'J',
        'k' => 'K',
        'l' => 'L',
        'm' => 'M',
        'n' => 'N',
        'o' => 'O',
        'p' => 'P',
        'q' => 'Q',
        'r' => 'R',
        's' => 'S',
        't' => 'T',
        'u' => 'U',
        'v' => 'V',
        'w' => 'W',
        'x' => 'X',
        'y' => 'Y',
        'z' => 'Z',
        _ => c,
    }
}

/// The ASCII-uppercased copy of a string.
#[verifier::loop_isolation(false)]
pub fn to_upper(s: &str) -> (r: String)
    ensures
        r@ == upper_seq(s@),
{
    let n = s.unicode_len();
    let mut out = String::new();
    let mut i: usize = 0;
    while i < n
        invariant
            i <= n,
            n == s@.len(),
            out@ == upper_seq(s@.take(i as int)),
        decreases n - i,
    {
        let c = upper_char_exec(s.get_char(i));
        push_char(&mut out, c);
        proof {
            assert(upper_seq(s@.take(i as int)).push(upper_char(s@[i as int])) =~= upper_seq(
                s@.take(i as int + 1),
            ));
        }
        i += 1;
    }
    proof {
        assert(s@.take(n as int) =~= s@);
    }
    out
}

/// Relies on `String::push`: appends exactly one character.
#[verifier::external_body]
pub(crate) fn push_char(s: &mut String, c: char)
    ensures
        final(s)@ == old(s)@.push(c),
{
    s.push(c);
}

/// The ASCII-lowercased copy of a string.
#[verifier::loop_isolation(false)]
pub fn to_lower(s: &str) -> (r: String)
    ensures
        r@ == lower_seq(s@),
{
    let n = s.unicode_len();
    let mut out = String::new();
    let mut i: usize = 0;
    while i < n
        invariant
            i <= n,
            n == s@.len(),
            out@ == lower_seq(s@.take(i as int)),
        decreases n - i,
    {
        let c = lower_char_exec(s.get_char(i));
        push_char(&mut out, c);
        proof {
            assert(lower_seq(s@.take(i as int)).push(lower_char(s@[i as int])) =~= lower_seq(
                s@.take(i as int + 1),
            ));
        }
        i += 1;
    }
    proof {
        assert(s@.take(n as int) =~= s@);
    }
    out
}

/// The input without its leading whitespace.
pub open spec fn trim_left_spec(s: Seq<char>) -> Seq<char>
    decreases s.len(),
{
    if s.len() == 0 {
        s
    } else if is_space(s[0]) {
        trim_left_spec(s.drop_first())
    } else {
        s
    }
}

/// The run of non-whitespace characters at the front of the input.
pub open spec fn token_prefix(s: Seq<char>) -> Seq<char>
    decreases s.len(),
{
    if s.len() == 0 || is_space(s[0]) {
        Seq::empty()
    } else {
        seq![s[0]] + token_prefix(s.drop_first())
    }
}

/// The column name a piece of a column list yields: the first
/// whitespace-delimited word after leading whitespace.
pub open spec fn col_name_of(piece: Seq<char>) -> Seq<char> {
    token_prefix(trim_left_spec(piece))
}

/// The first whitespace-delimited word of `value`, with leading whitespace
/// dropped: `"name text"` yields `"name"`.
#[verifier::loop_isolation(false)]
pub fn first_word(value: &str) -> (r: String)
    ensures
        r@ == col_name_of(value@),
{
    let n = value.unicode_len();
    proof {
        assert(value@.skip(0) =~= value@);
    }
    let mut a: usize = 0;
    while a < n && is_space_char(value.get_char(a))
        invariant
            a <= n,
            n == value@.len(),
            trim_left_spec(value@) == trim_left_spec(value@.skip(a as int)),
        decreases n - a,
    {
        proof {
            assert(value@.skip(a as int)[0] == value@[a as int]);
            assert(value@.skip(a as int).drop_first() =~= value@.skip(a as int + 1));
        }
        a += 1;
    }
    proof {
        if a < n {
            assert(trim_left_spec(value@.skip(a as int)) == value@.skip(a as int));
        } else {
            assert(value@.skip(a as int).len() == 0);
        }
    }
    let mut b: usize = a;
    while b < n && !is_space_char(value.get_char(b))
        invariant
            a <= b <= n,
            n == value@.len(),
            token_prefix(value@.skip(a as int)) == value@.subrange(a as int, b as int)
                + token_prefix(value@.skip(b as int)),
        decreases n - b,
    {
        proof {
            assert(value@.skip(b as int)[0] == value@[b as int]);
            assert(value@.skip(b as int).drop_first() =~= value@.skip(b as int + 1));
            assert(token_prefix(value@.skip(b as int)) == seq![value@[b as int]] + token_prefix(
                value@.skip(b as int + 1),
            ));
            assert(value@.subrange(a as int, b as int) + (seq![value@[b as int]] + token_prefix(
                value@.skip(b as int + 1),
            )) =~= value@.subrange(a as int, b as int + 1) + token_prefix(
                value@.skip(b as int + 1),
            ));
        }
        b += 1;
    }
    proof {
        if b < n {
            assert(token_prefix(value@.skip(b as int)) =~= Seq::<char>::empty());
        } else {
            assert(value@.skip(b as int).len() == 0);
        }
        assert(value@.subrange(a as int, b as int) + Seq::<char>::empty() =~= value@.subrange(
            a as int,
            b as int,
        ));
    }
    value.substring_char(a, b).to_owned()
}

/// The digit character for one decimal digit.
pub open spec fn digit_char(d: int) -> char {
    if d == 0 {
        '0'
    } else if d == 1 {
        '1'
    } else if d == 2 {
        '2'
    } else if d == 3 {
        '3'
    } else if d == 4 {
        '4'
    } else if d == 5 {
        '5'
    } else if d == 6 {
        '6'
    } else if d == 7 {
        '7'
    } else if d == 8 {
        '8'
    } else {
        '9'
    }
}

/// The decimal digits of a non-negative number, most significant first.
pub open spec fn dec_digits(n: int) -> Seq<char>
    decreases n,
{
    if n < 10 {
        seq![digit_char(n)]
    } else {
        dec_digits(n / 10).push(digit_char(n % 10))
    }
}

/// The decimal rendering of a signed 64-bit value.
pub open spec fn i64_digits(n: int) -> Seq<char> {
    if n < 0 {
        seq!['-'] + dec_digits(-n)
    } else {
        dec_digits(n)
    }
}

/// Exec digit character.
fn digit_char_exec(d: u64) -> (r: char)
    requires
        d < 10,
    ensures
        r == digit_char(d as int),
{
    match d {
        0 => '0',
        1 => '1',
        2 => '2',
        3 => '3',
        4 => '4',
        5 => '5',
        6 => '6',
        7 => '7',
        8 => '8',
        _ => '9',
    }
}

/// Render a signed 64-bit value in decimal.
pub fn i64_to_string(n: i64) -> (r: String)
    ensures
        r@ == i64_digits(n as int),
{
    let neg = n < 0;
    let mut m: u64 = if n < 0 {
        ((-(n + 1)) as u64) + 1
    } else {
        n as u64
    };
    let ghost m0 = m as int;
    let mut digits: Vec<char> = Vec::new();
    loop
        invariant_except_break
            dec_digits(m0) == dec_digits(m as int) + digits@.reverse(),
        ensures
            dec_digits(m0) == digits@.reverse(),
        decreases m,
    {
        let d = m % 10;
        let ghost old_digits = digits@;
        let ghost mo = m as int;
        digits.push(digit_char_exec(d));
        proof {
            assert(digits@ == old_digits.push(digit_char(d as int)));
            assert(digits@.reverse() =~= seq![digit_char(d as int)] + old_digits.reverse());
            if mo >= 10 {
                assert(dec_digits(mo) == dec_digits(mo / 10).push(digit_char(mo % 10)));
                assert(dec_digits(mo / 10).push(digit_char(d as int)) + old_digits.reverse() =~=
                    dec_digits(mo / 10) + digits@.reverse());
            } else {
                assert(dec_digits(mo) == seq![digit_char(d as int)]);
                assert(seq![digit_char(d as int)] + old_digits.reverse() =~= digits@.reverse());
            }
        }
        m = m / 10;
        if m == 0 {
            break;
        }
    }
    let mut out = String::new();
    if neg {
        push_char(&mut out, '-');
        proof {
            assert(out@ =~= seq!['-']);
        }
    }
    let ghost prefix = out@;
    let nd = digits.len();
    let mut k: usize = nd;
    while k > 0
        invariant
            k <= nd,
            nd == digits@.len(),
            out@ == prefix + digits@.reverse().take(nd - k),
        decreases k,
    {
        k -= 1;
        push_char(&mut out, digits[k]);
        proof {
            assert(digits@.reverse()[nd - k - 1] == digits@[k as int]);
            assert((prefix + digits@.reverse().take(nd - k - 1)).push(digits@[k as int]) =~= prefix
                + digits@.reverse().take(nd - k));
        }
    }
    proof {
        assert(digits@.reverse().take(nd as int) =~= digits@.reverse());
        if n < 0 {
            assert(prefix + dec_digits(m0) =~= i64_digits(n as int));
        } else {
            assert(prefix + dec_digits(m0) =~= dec_digits(m0));
        }
    }
    out
}


/// The views of a vector of strings.
pub open spec fn views_of(v: Seq<String>) -> Seq<Seq<char>> {
    v.map_values(|s: String| s@)
}

/// Of two character sequences, one is strictly smaller or they are equal.
pub proof fn lemma_seq_lt_connected(a: Seq<char>, b: Seq<char>)
    ensures
        seq_lt(a, b) || seq_lt(b, a) || a == b,
    decreases a.len(),
{
    if b.len() == 0 {
        if a.len() == 0 {
            assert(a =~= b);
        }
    } else if a.len() == 0 {
    } else if a[0] != b[0] {
    } else {
        lemma_seq_lt_connected(a.drop_first(), b.drop_first());
        if !seq_lt(a.drop_first(), b.drop_first()) && !seq_lt(b.drop_first(), a.drop_first()) {
            assert(a.drop_first() == b.drop_first());
            assert forall|i: int| 0 <= i < a.len() implies a[i] == b[i] by {
                if i > 0 {
                    assert(a.drop_first()[i - 1] == b.drop_first()[i - 1]);
                }
            }
            assert(a =~= b);
        }
    }
}

/// Lexicographic order is transitive.
pub proof fn lemma_seq_lt_trans(a: Seq<char>, b: Seq<char>, c: Seq<char>)
    requires
        seq_lt(a, b),
        seq_lt(b, c),
    ensures
        seq_lt(a, c),
    decreases a.len(),
{
    if a.len() == 0 {
    } else {
        if a[0] == b[0] && b[0] == c[0] {
            lemma_seq_lt_trans(a.drop_first(), b.drop_first(), c.drop_first());
        }
    }
}

/// No sequence is strictly below itself.
pub proof fn lemma_seq_lt_irrefl(a: Seq<char>)
    ensures
        !seq_lt(a, a),
    decreases a.len(),
{
    if a.len() > 0 {
        lemma_seq_lt_irrefl(a.drop_first());
    }
}

/// The weak order is transitive too.
pub proof fn lemma_seq_le_trans(a: Seq<char>, b: Seq<char>, c: Seq<char>)
    requires
        seq_le(a, b),
        seq_le(b, c),
    ensures
        seq_le(a, c),
{
    if a == b || b == c {
    } else {
        lemma_seq_lt_trans(a, b, c);
    }
}

/// Every earlier element is at most every later one.
pub open spec fn strs_sorted(v: Seq<Seq<char>>) -> bool {
    forall|i: int, j: int| 0 <= i < j < v.len() ==> seq_le(v[i], v[j])
}

/// Sort strings ascending in lexicographic order.  The result holds exactly
/// the input strings, rearranged.
#[verifier::loop_isolation(false)]
pub fn sort_strings(input: Vec<String>) -> (r: Vec<String>)
    ensures
        strs_sorted(views_of(r@)),
        views_of(r@).to_multiset() == views_of(input@).to_multiset(),
{
    broadcast use vstd::seq_lib::group_to_multiset_ensures;

    let mut rest = input;
    let mut out: Vec<String> = Vec::new();
    proof {
        assert(views_of(out@).to_multiset() =~= Multiset::<Seq<char>>::empty());
        assert(views_of(out@).to_multiset().add(views_of(rest@).to_multiset()) =~= views_of(
            rest@,
        ).to_multiset());
    }
    while rest.len() > 0
        invariant
            views_of(out@).to_multiset().add(views_of(rest@).to_multiset()) == views_of(
                input@,
            ).to_multiset(),
            strs_sorted(views_of(out@)),
            forall|p: int, q: int|
                #![trigger out@[p], rest@[q]]
                0 <= p < out@.len() && 0 <= q < rest@.len() ==> seq_le(out@[p]@, rest@[q]@),
        decreases rest@.len(),
    {
        let mut mi: usize = 0;
        let mut k: usize = 1;
        while k < rest.len()
            invariant
                mi < rest@.len(),
                k <= rest@.len(),
                forall|j: int| 0 <= j < k ==> seq_le(rest@[mi as int]@, #[trigger] rest@[j]@),
            decreases rest@.len() - k,
        {
            if str_lt(rest[k].as_str(), rest[mi].as_str()) {
                proof {
                    assert forall|j: int| 0 <= j < k + 1 implies seq_le(
                        rest@[k as int]@,
                        #[trigger] rest@[j]@,
                    ) by {
                        if j < k {
                            lemma_seq_le_trans(rest@[k as int]@, rest@[mi as int]@, rest@[j]@);
                        }
                    }
                }
                mi = k;
            } else {
                proof {
                    lemma_seq_lt_connected(rest@[k as int]@, rest@[mi as int]@);
                }
            }
            k += 1;
        }
        let ghost old_rest = rest@;
        let ghost old_out = out@;
        let x = rest.remove(mi);
        out.push(x);
        proof {
            assert(views_of(old_rest.remove(mi as int)) =~= views_of(old_rest).remove(mi as int));
            assert(views_of(rest@).to_multiset() =~= views_of(old_rest).to_multiset().remove(
                views_of(old_rest)[mi as int],
            ));
            assert(views_of(out@) =~= views_of(old_out).push(x@));
            assert(views_of(out@).to_multiset() =~= views_of(old_out).to_multiset().insert(x@));
            assert(views_of(out@).to_multiset().add(views_of(rest@).to_multiset()) =~= views_of(
                old_out,
            ).to_multiset().add(views_of(old_rest).to_multiset()));
            assert forall|i: int, j: int|
                0 <= i < j < views_of(out@).len() implies seq_le(
                views_of(out@)[i],
                views_of(out@)[j],
            ) by {
                if j < old_out.len() {
                } else {
                    assert(views_of(out@)[j] == x@);
                    assert(seq_le(old_out[i]@, old_rest[mi as int]@));
                }
            }
            assert forall|p: int, q: int|
                #![trigger out@[p], rest@[q]]
                0 <= p < out@.len() && 0 <= q < rest@.len() implies seq_le(out@[p]@, rest@[q]@) by {
                let oq: int = if q < mi { q } else { q + 1 };
                assert(rest@[q] == old_rest[oq]);
                if p < old_out.len() {
                    assert(seq_le(old_out[p]@, old_rest[oq]@));
                } else {
                    assert(out@[p] == x);
                    assert(seq_le(old_rest[mi as int]@, old_rest[oq]@));
                }
            }
        }
    }
    out
}

} // verus!
