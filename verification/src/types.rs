//! Variable-length integers (varints), the low-level encoding used all over
//! the SQLite file format: cell payload sizes, rowids, record header sizes
//! and serial types.
//!
//! A varint is 1 to 9 bytes long.  Each of the first 8 bytes contributes its
//! low 7 bits, most significant first, and a clear high bit terminates the
//! encoding; a 9th byte, when reached, contributes all 8 of its bits.  The
//! assembled bit pattern is read as a signed 64-bit two's-complement value.

use vstd::prelude::*;

use crate::errors::DbError;

verus! {

/// Number of bytes the decoder consumes from `s` when the first `i` bytes
/// have already been consumed (all with their high bit set).  The scan stops
/// at the first byte with a clear high bit, after the 9th byte, or when the
/// input runs out, whichever comes first.
pub open spec fn varint_width_from(s: Seq<u8>, i: nat) -> nat
    decreases 8 - i,
{
    if i >= s.len() {
        i
    } else if i >= 8 {
        9
    } else if s[i as int] < 128 {
        i + 1
    } else {
        varint_width_from(s, i + 1)
    }
}

/// Number of bytes a varint at the start of `s` occupies.
pub open spec fn varint_width(s: Seq<u8>) -> nat {
    varint_width_from(s, 0)
}

/// The accumulator after folding the first `n` bytes of `s`: seven value
/// bits per byte for the first eight bytes, all eight bits for the ninth.
pub open spec fn varint_acc(s: Seq<u8>, n: nat) -> u64
    decreases n,
{
    if n == 0 {
        0u64
    } else if n >= 9 {
        (varint_acc(s, 8) << 8) | (s[8] as u64)
    } else {
        (varint_acc(s, (n - 1) as nat) << 7) | ((s[(n - 1) as int] & 0x7f) as u64)
    }
}

/// The decoded value of the varint at the start of `s`, as a signed 64-bit
/// two's-complement reading of the assembled bits.
pub open spec fn varint_value(s: Seq<u8>) -> i64 {
    varint_acc(s, varint_width(s)) as i64
}

/// A sequence that starts with a complete varint: a terminating byte (high
/// bit clear) occurs among the first eight bytes, or at least nine bytes are
/// present.
pub open spec fn varint_complete(s: Seq<u8>) -> bool {
    (exists|i: int| 0 <= i < 8 && i < s.len() && s[i] < 128) || s.len() >= 9
}

/// A decoded variable-length integer: the value and the number of bytes it
/// occupied on disk.
pub struct Varint {
    pub varint: i64,
    pub size: usize,
}

impl Varint {
    /// Decode the varint at the start of `buffer`.  A slice that ends
    /// before the encoding's terminating byte is a corruption error.
    pub fn new(buffer: &[u8]) -> (r: Result<Varint, DbError>)
        ensures
            match r {
                Ok(v) => {
                    &&& varint_complete(buffer@)
                    &&& v.size == varint_width(buffer@)
                    &&& v.varint == varint_value(buffer@)
                    &&& 1 <= v.size <= 9
                    &&& v.size <= buffer@.len()
                },
                Err(e) => !varint_complete(buffer@) && e == DbError::FormatCorruption,
            },
    {
        proof {
            if buffer@.len() > 0 && buffer@[0] >= 128 {
                lemma_varint_width_ge(buffer@, 1);
            }
        }
        let n: usize = buffer.len();
        let mut w: usize = 0;
        while w < n && w < 8 && buffer[w] >= 128
            invariant
                w <= 8,
                w <= n,
                n == buffer@.len(),
                varint_width_from(buffer@, 0) == varint_width_from(buffer@, w as nat),
                forall|j: int| 0 <= j < w ==> buffer@[j] >= 128,
            decreases 8 - w,
        {
            assert(varint_width_from(buffer@, w as nat) == varint_width_from(
                buffer@,
                (w + 1) as nat,
            ));
            w += 1;
        }
        if w >= n {
            proof {
                assert(!varint_complete(buffer@)) by {
                    assert(forall|j: int| 0 <= j < 8 && j < buffer@.len() ==> buffer@[j] >= 128);
                }
            }
            return Err(DbError::FormatCorruption);
        }
        let width: usize = if w == 8 {
            9
        } else {
            w + 1
        };
        assert(width == varint_width(buffer@));
        proof {
            if w == 8 {
                assert(buffer@.len() >= 9);
            } else {
                assert(buffer@[w as int] < 128);
            }
            assert(varint_complete(buffer@));
        }

        let mut acc: u64 = 0;
        let mut i: usize = 0;
        while i < width
            invariant
                i <= width,
                width == varint_width(buffer@),
                width <= n,
                width <= 9,
                n == buffer@.len(),
                acc == varint_acc(buffer@, i as nat),
            decreases width - i,
        {
            if i == 8 {
                acc = (acc << 8u64) | (buffer[i] as u64);
            } else {
                acc = (acc << 7u64) | ((buffer[i] & 0x7f) as u64);
            }
            i += 1;
            assert(acc == varint_acc(buffer@, i as nat));
        }
        Ok(Varint { varint: #[verifier::truncate] (acc as i64), size: width })
    }
}

/// The decoder consumes exactly the bytes of the varint itself: on any input
/// that starts with a complete varint, the width is between 1 and 9, never
/// past the end, and both the width and the value depend only on the first
/// `width` bytes.
pub proof fn lemma_varint_prefix(s: Seq<u8>)
    requires
        varint_complete(s),
    ensures
        1 <= varint_width(s) <= 9,
        varint_width(s) <= s.len(),
        varint_width(s.subrange(0, varint_width(s) as int)) == varint_width(s),
        varint_value(s.subrange(0, varint_width(s) as int)) == varint_value(s),
{
    lemma_varint_width_bounds(s, 0);
    let w = varint_width(s) as int;
    let p = s.subrange(0, w);
    lemma_varint_width_agree(s, p, 0);
    lemma_varint_acc_agree(s, p, varint_width(s));
}

/// On a complete varint, the width scan starting at any point `i` of the
/// continuation bytes ends within bounds.
proof fn lemma_varint_width_bounds(s: Seq<u8>, i: nat)
    requires
        varint_complete(s),
        i <= 8,
        i <= s.len(),
        forall|j: int| 0 <= j < i ==> s[j] >= 128,
    ensures
        i < varint_width_from(s, i) <= 9,
        varint_width_from(s, i) <= s.len(),
    decreases 8 - i,
{
    if i >= s.len() {
        assert(forall|j: int| 0 <= j < s.len() ==> s[j] >= 128);
        assert(false);
    } else if i >= 8 {
        assert(s.len() >= 9) by {
            if s.len() < 9 {
                assert(forall|j: int| 0 <= j < 8 && j < s.len() ==> s[j] >= 128);
            }
        }
    } else if s[i as int] < 128 {
    } else {
        lemma_varint_width_bounds(s, i + 1);
    }
}

/// Two sequences that agree on the bytes up to the end of the varint give
/// the same width.
proof fn lemma_varint_width_agree(s: Seq<u8>, t: Seq<u8>, i: nat)
    requires
        i <= 8,
        varint_width_from(s, i) <= t.len() <= s.len(),
        forall|j: int| 0 <= j < t.len() ==> s[j] == t[j],
    ensures
        varint_width_from(t, i) == varint_width_from(s, i),
    decreases 8 - i,
{
    if i >= s.len() {
    } else if i >= t.len() {
        lemma_varint_width_ge(s, i);
        assert(varint_width_from(s, i) == i);
        assert(varint_width_from(t, i) == i);
    } else if i >= 8 {
    } else if s[i as int] < 128 {
    } else {
        lemma_varint_width_agree(s, t, i + 1);
    }
}

/// The width scan never reports a position before its starting point.
proof fn lemma_varint_width_ge(s: Seq<u8>, i: nat)
    requires
        i <= 8,
    ensures
        varint_width_from(s, i) >= i,
    decreases 8 - i,
{
    if i >= s.len() {
    } else if i >= 8 {
    } else if s[i as int] < 128 {
    } else {
        lemma_varint_width_ge(s, i + 1);
    }
}

/// Two sequences that agree on their first `n` bytes accumulate to the same
/// value over those bytes.
proof fn lemma_varint_acc_agree(s: Seq<u8>, t: Seq<u8>, n: nat)
    requires
        n <= t.len() <= s.len(),
        forall|j: int| 0 <= j < t.len() ==> s[j] == t[j],
    ensures
        varint_acc(t, n) == varint_acc(s, n),
    decreases n,
{
    if n == 0 {
    } else if n >= 9 {
        lemma_varint_acc_agree(s, t, 8);
    } else {
        lemma_varint_acc_agree(s, t, (n - 1) as nat);
    }
}

} // verus!
