//! Big-endian integer fields.  Every multi-byte integer in the file format
//! is stored most-significant byte first; these readers state the decoded
//! value exactly, as a Horner fold over the bytes.

use vstd::prelude::*;
use vstd::arithmetic::power2::{lemma2_to64, lemma_pow2_adds, pow2};

verus! {

/// The unsigned value of the `k` bytes of `s` starting at `p`, read
/// most-significant first.
pub open spec fn be_val(s: Seq<u8>, p: int, k: nat) -> int
    decreases k,
{
    if k == 0 {
        0
    } else {
        be_val(s, p, (k - 1) as nat) * 256 + s[p + k - 1]
    }
}

/// The signed two's-complement reading of a `k`-byte big-endian field.
pub open spec fn be_signed(s: Seq<u8>, p: int, k: nat) -> int {
    if k == 0 {
        0
    } else {
        let v = be_val(s, p, k);
        if v < pow2((8 * k - 1) as nat) {
            v
        } else {
            v - pow2((8 * k) as nat)
        }
    }
}

pub proof fn lemma_be_val_bound(s: Seq<u8>, p: int, k: nat)
    requires
        k <= 8,
    ensures
        0 <= be_val(s, p, k) < pow2((8 * k) as nat),
    decreases k,
{
    lemma2_to64();
    if k == 0 {
    } else {
        lemma_be_val_bound(s, p, (k - 1) as nat);
        lemma_pow2_adds((8 * (k - 1)) as nat, 8);
        assert(be_val(s, p, (k - 1) as nat) * 256 <= (pow2((8 * (k - 1)) as nat) - 1) * 256)
            by (nonlinear_arith)
            requires
                be_val(s, p, (k - 1) as nat) <= pow2((8 * (k - 1)) as nat) - 1,
        ;
    }
}

/// Reads the `k`-byte big-endian unsigned integer at `pos`.
pub fn read_be_uint(buffer: &[u8], pos: usize, k: usize) -> (r: u64)
    requires
        k <= 8,
        pos + k <= buffer@.len(),
    ensures
        r == be_val(buffer@, pos as int, k as nat),
{
    proof {
        lemma2_to64();
    }
    let blen: usize = buffer.len();
    let mut acc: u64 = 0;
    let mut i: usize = 0;
    while i < k
        invariant
            i <= k,
            k <= 8,
            pos + k <= blen,
            blen == buffer@.len(),
            acc == be_val(buffer@, pos as int, i as nat),
        decreases k - i,
    {
        proof {
            lemma_be_val_bound(buffer@, pos as int, i as nat);
            lemma_pow2_max64(i as nat);
        }
        acc = acc * 256 + (buffer[pos + i] as u64);
        i += 1;
    }
    acc
}

proof fn lemma_pow2_max64(i: nat)
    requires
        i <= 7,
    ensures
        pow2((8 * i) as nat) * 256 <= 0x1_0000_0000_0000_0000,
{
    lemma_pow2_adds((8 * i) as nat, 8);
    if 8 * i + 8 < 64 {
        vstd::arithmetic::power2::lemma_pow2_strictly_increases((8 * i + 8) as nat, 64);
    }
    lemma2_to64();
}

/// Reads the 2-byte big-endian unsigned integer at `pos`.
pub fn read_be_u16(buffer: &[u8], pos: usize) -> (r: u16)
    requires
        pos + 2 <= buffer@.len(),
    ensures
        r == be_val(buffer@, pos as int, 2),
{
    proof {
        reveal_with_fuel(be_val, 3);
    }
    (buffer[pos] as u16) * 256 + (buffer[pos + 1] as u16)
}

/// Reads the `k`-byte big-endian signed integer at `pos`, sign-extended to
/// 64 bits: every width the record format uses except the 6-byte form.
pub fn read_be_int(buffer: &[u8], pos: usize, k: usize) -> (r: i64)
    requires
        k == 1 || k == 2 || k == 3 || k == 4 || k == 8,
        pos + k <= buffer@.len(),
    ensures
        r == be_signed(buffer@, pos as int, k as nat),
{
    let raw = read_be_uint(buffer, pos, k);
    proof {
        lemma_be_val_bound(buffer@, pos as int, k as nat);
        lemma2_to64();
        vstd::arithmetic::power2::lemma2_to64_rest();
    }
    if k == 1 {
        if raw < 0x80 {
            raw as i64
        } else {
            (raw as i64) - 0x100
        }
    } else if k == 2 {
        if raw < 0x8000 {
            raw as i64
        } else {
            (raw as i64) - 0x1_0000
        }
    } else if k == 3 {
        if raw < 0x80_0000 {
            raw as i64
        } else {
            (raw as i64) - 0x100_0000
        }
    } else if k == 4 {
        if raw < 0x8000_0000 {
            raw as i64
        } else {
            (raw as i64) - 0x1_0000_0000
        }
    } else {
        if raw < 0x8000_0000_0000_0000 {
            raw as i64
        } else {
            ((raw - 0x8000_0000_0000_0000) as i64) + (-0x7fff_ffff_ffff_ffff - 1)
        }
    }
}

} // verus!
