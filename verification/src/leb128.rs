//! The mathematical meaning of LEB128, the variable-length integer
//! encoding of DWARF, and the proof that decoding undoes encoding.

use vstd::prelude::*;

verus! {

/// 128 to the power `n`: the weight of the group at index `n`.
pub open spec fn pow128(n: nat) -> nat
    decreases n,
{
    if n == 0 {
        1
    } else {
        128 * pow128((n - 1) as nat)
    }
}

/// The value of the last group of an encoding: all seven bits count for an
/// unsigned number, bit 6 is the sign of a signed one.
pub open spec fn last_group_value(b: u8, signed: bool) -> int {
    if signed && b >= 64 {
        b - 128
    } else {
        b as int
    }
}

/// The number that starts at the front of `s`, and how many bytes it
/// takes, reading at most `groups` bytes. Each byte holds seven bits of the
/// number, the low ones first; its top bit says that another byte follows.
/// `None` where `s` or `groups` runs out before a byte without the top bit.
pub open spec fn leb128_value(s: Seq<u8>, groups: nat, signed: bool) -> Option<(int, nat)>
    decreases groups,
{
    if groups == 0 || s.len() == 0 {
        None
    } else if s[0] < 128 {
        Some((last_group_value(s[0], signed), 1nat))
    } else {
        match leb128_value(s.skip(1), (groups - 1) as nat, signed) {
            Some((v, n)) => Some(((s[0] - 128) + 128 * v, n + 1)),
            None => None,
        }
    }
}

/// The most groups that an encoding of a 64-bit number may take.
pub open spec fn max_groups() -> nat {
    10
}

/// The unsigned 64-bit number at the front of `s` and its length in bytes.
pub open spec fn uleb128_decoding(s: Seq<u8>) -> Option<(u64, nat)> {
    match leb128_value(s, max_groups(), false) {
        Some((v, n)) => if 0 <= v <= u64::MAX {
            Some((v as u64, n))
        } else {
            None
        },
        None => None,
    }
}

/// The signed 64-bit number at the front of `s` and its length in bytes.
pub open spec fn sleb128_decoding(s: Seq<u8>) -> Option<(i64, nat)> {
    match leb128_value(s, max_groups(), true) {
        Some((v, n)) => if i64::MIN <= v <= i64::MAX {
            Some((v as i64, n))
        } else {
            None
        },
        None => None,
    }
}

/// The shortest unsigned encoding of `x`.
pub open spec fn uleb128_encoding(x: nat) -> Seq<u8>
    decreases x,
{
    if x < 128 {
        seq![x as u8]
    } else {
        seq![(x % 128 + 128) as u8] + uleb128_encoding(x / 128)
    }
}

/// The shortest signed encoding of `y`.
pub open spec fn sleb128_encoding(y: int) -> Seq<u8>
    decreases (if y >= 0 { y } else { -y }),
{
    if -64 <= y < 64 {
        seq![(if y < 0 { y + 128 } else { y }) as u8]
    } else {
        seq![(y % 128 + 128) as u8] + sleb128_encoding(y / 128)
    }
}

/// Some powers of 128, and that the powers grow.
pub proof fn lemma_pow128_values()
    ensures
        pow128(0) == 1,
        pow128(1) == 128,
        pow128(8) == 0x100_0000_0000_0000,
        pow128(9) == 0x8000_0000_0000_0000,
        pow128(10) == 0x40_0000_0000_0000_0000,
        forall|i: nat, j: nat| i <= j ==> #[trigger] pow128(i) <= #[trigger] pow128(j),
{
    reveal_with_fuel(pow128, 11);
    assert forall|i: nat, j: nat| i <= j implies #[trigger] pow128(i) <= #[trigger] pow128(j) by {
        lemma_pow128_monotonic(i, j);
    }
}

proof fn lemma_pow128_monotonic(i: nat, j: nat)
    requires
        i <= j,
    ensures
        0 < pow128(i) <= pow128(j),
    decreases j,
{
    if i < j {
        lemma_pow128_monotonic(i, (j - 1) as nat);
    } else if i > 0 {
        lemma_pow128_monotonic((i - 1) as nat, (j - 1) as nat);
    }
}

/// A number takes at least one byte, and no more bytes than there are or
/// than may be read.
pub proof fn lemma_leb128_length(s: Seq<u8>, groups: nat, signed: bool)
    requires
        leb128_value(s, groups, signed) is Some,
    ensures
        1 <= leb128_value(s, groups, signed)->Some_0.1 <= s.len(),
        leb128_value(s, groups, signed)->Some_0.1 <= groups,
    decreases groups,
{
    if s[0] >= 128 {
        lemma_leb128_length(s.skip(1), (groups - 1) as nat, signed);
    }
}

proof fn lemma_uleb128_fits(x: nat, groups: nat)
    requires
        groups >= 1,
        x < pow128(groups),
    ensures
        leb128_value(uleb128_encoding(x), groups, false) == Some(
            (x as int, uleb128_encoding(x).len()),
        ),
        1 <= uleb128_encoding(x).len() <= groups,
    decreases x,
{
    let enc = uleb128_encoding(x);
    if x >= 128 {
        let rest = uleb128_encoding(x / 128);
        assert(groups >= 2) by {
            reveal_with_fuel(pow128, 2);
        }
        lemma_uleb128_fits(x / 128, (groups - 1) as nat);
        assert(enc.skip(1) =~= rest);
        assert(enc[0] == (x % 128 + 128) as u8);
    }
}

proof fn lemma_sleb128_fits(y: int, groups: nat)
    requires
        groups >= 1,
        -(pow128(groups) as int) <= 2 * y < pow128(groups),
    ensures
        leb128_value(sleb128_encoding(y), groups, true) == Some((y, sleb128_encoding(y).len())),
        1 <= sleb128_encoding(y).len() <= groups,
    decreases (if y >= 0 { y } else { -y }),
{
    let enc = sleb128_encoding(y);
    if !(-64 <= y < 64) {
        let rest = sleb128_encoding(y / 128);
        assert(groups >= 2) by {
            reveal_with_fuel(pow128, 2);
        }
        lemma_sleb128_fits(y / 128, (groups - 1) as nat);
        assert(enc.skip(1) =~= rest);
        assert(enc[0] == (y % 128 + 128) as u8);
    }
}

/// Decoding undoes encoding: the shortest unsigned encoding of any 64-bit
/// number decodes to that number and is consumed whole.
pub proof fn lemma_uleb128_roundtrip(x: u64)
    ensures
        uleb128_decoding(uleb128_encoding(x as nat)) == Some(
            (x, uleb128_encoding(x as nat).len()),
        ),
{
    lemma_pow128_values();
    lemma_uleb128_fits(x as nat, 10);
}

/// Decoding undoes encoding: the shortest signed encoding of any 64-bit
/// number decodes to that number and is consumed whole.
pub proof fn lemma_sleb128_roundtrip(y: i64)
    ensures
        sleb128_decoding(sleb128_encoding(y as int)) == Some(
            (y, sleb128_encoding(y as int).len()),
        ),
{
    lemma_pow128_values();
    lemma_sleb128_fits(y as int, 10);
}

/// The shortest unsigned encoding of `x`.
pub fn encode_uleb128(x: u64) -> (r: Vec<u8>)
    ensures
        r@ == uleb128_encoding(x as nat),
{
    let mut out: Vec<u8> = Vec::new();
    let mut cur: u64 = x;
    while cur >= 128
        invariant
            uleb128_encoding(x as nat) == out@ + uleb128_encoding(cur as nat),
        decreases cur,
    {
        let b: u8 = (cur % 128 + 128) as u8;
        proof {
            let rest = uleb128_encoding((cur / 128) as nat);
            assert(out@ + (seq![b] + rest) =~= out@.push(b) + rest);
        }
        out.push(b);
        cur = cur / 128;
    }
    proof {
        assert(out@ + seq![cur as u8] =~= out@.push(cur as u8));
    }
    out.push(cur as u8);
    out
}

/// The shortest signed encoding of `y`.
pub fn encode_sleb128(y: i64) -> (r: Vec<u8>)
    ensures
        r@ == sleb128_encoding(y as int),
{
    let mut out: Vec<u8> = Vec::new();
    let mut cur: i64 = y;
    while cur < -64 || cur >= 64
        invariant
            sleb128_encoding(y as int) == out@ + sleb128_encoding(cur as int),
        decreases (if cur >= 0 { cur as int } else { -(cur as int) }),
    {
        let quotient: i64 = if cur >= 0 {
            cur / 128
        } else {
            -((-(cur + 1)) / 128) - 1
        };
        let low: i64 = cur - quotient * 128;
        assert(quotient == (cur as int) / 128 && low == (cur as int) % 128);
        let b: u8 = (low + 128) as u8;
        proof {
            let rest = sleb128_encoding(quotient as int);
            assert(out@ + (seq![b] + rest) =~= out@.push(b) + rest);
        }
        out.push(b);
        cur = quotient;
    }
    let last: u8 = if cur < 0 {
        (cur + 128) as u8
    } else {
        cur as u8
    };
    proof {
        assert(out@ + seq![last] =~= out@.push(last));
    }
    out.push(last);
    out
}

} // verus!
