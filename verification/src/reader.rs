//! A cursor over a byte slice that never reads past its end.

use crate::error::CfiError;
use crate::leb128::{
    leb128_value, lemma_leb128_length, lemma_pow128_values, max_groups, pow128,
    sleb128_decoding, uleb128_decoding,
};
use vstd::prelude::*;

verus! {

/// A position in a byte slice, bounded by the slice's end. Its view is the
/// bytes that are still to be read.
pub struct ByteCursor<'a> {
    data: &'a [u8],
}

impl<'a> View for ByteCursor<'a> {
    type V = Seq<u8>;

    closed spec fn view(&self) -> Seq<u8> {
        self.data@
    }
}

/// 256 to the power `n`.
pub open spec fn pow256(n: nat) -> nat
    decreases n,
{
    if n == 0 {
        1
    } else {
        256 * pow256((n - 1) as nat)
    }
}

/// The number that the bytes of `s` spell, least significant byte first.
pub open spec fn le_value(s: Seq<u8>) -> nat
    decreases s.len(),
{
    if s.len() == 0 {
        0
    } else {
        s[0] as nat + 256 * le_value(s.skip(1))
    }
}

/// The index of the first zero byte of `s` at or after `from`.
pub open spec fn zero_from(s: Seq<u8>, from: nat) -> Option<nat>
    decreases s.len() - from,
{
    if from >= s.len() {
        None
    } else if s[from as int] == 0 {
        Some(from)
    } else {
        zero_from(s, from + 1)
    }
}

/// What reading one byte from `s` gives, and what is left.
pub open spec fn take_u8(s: Seq<u8>) -> Result<(u8, Seq<u8>), CfiError> {
    if s.len() >= 1 {
        Ok((s[0], s.skip(1)))
    } else {
        Err(CfiError::UnexpectedEof)
    }
}

/// What reading a little-endian number of `width` bytes from `s` gives,
/// and what is left.
pub open spec fn take_uint(s: Seq<u8>, width: nat) -> Result<(nat, Seq<u8>), CfiError> {
    if s.len() >= width {
        Ok((le_value(s.take(width as int)), s.skip(width as int)))
    } else {
        Err(CfiError::UnexpectedEof)
    }
}

/// What reading `n` bytes from `s` gives, and what is left.
pub open spec fn take_bytes(s: Seq<u8>, n: nat) -> Result<(Seq<u8>, Seq<u8>), CfiError> {
    if s.len() >= n {
        Ok((s.take(n as int), s.skip(n as int)))
    } else {
        Err(CfiError::UnexpectedEof)
    }
}

/// What reading a zero-terminated byte string from `s` gives (without the
/// zero), and what is left (after the zero).
pub open spec fn take_cstr(s: Seq<u8>) -> Result<(Seq<u8>, Seq<u8>), CfiError> {
    match zero_from(s, 0) {
        Some(n) => Ok((s.take(n as int), s.skip((n + 1) as int))),
        None => Err(CfiError::UnexpectedEof),
    }
}

/// What reading an unsigned LEB128 number from `s` gives, and what is left.
pub open spec fn take_uleb128(s: Seq<u8>) -> Result<(u64, Seq<u8>), CfiError> {
    match uleb128_decoding(s) {
        Some((v, n)) => Ok((v, s.skip(n as int))),
        None => Err(CfiError::MalformedEncoding),
    }
}

/// What reading a signed LEB128 number from `s` gives, and what is left.
pub open spec fn take_sleb128(s: Seq<u8>) -> Result<(i64, Seq<u8>), CfiError> {
    match sleb128_decoding(s) {
        Some((v, n)) => Ok((v, s.skip(n as int))),
        None => Err(CfiError::MalformedEncoding),
    }
}

/// A partial sum `acc`, made of `i` groups of weight below `scale`, put in
/// front of the value of the groups that follow.
spec fn lift(acc: int, scale: int, i: nat, rest: Option<(int, nat)>) -> Option<(int, nat)> {
    match rest {
        Some((v, n)) => Some((acc + scale * v, n + i)),
        None => None,
    }
}

proof fn lemma_lift_step(acc: int, scale: int, d: int, i: nat, rest: Option<(int, nat)>)
    ensures
        lift(
            acc,
            scale,
            i,
            match rest {
                Some((v, n)) => Some((d + 128 * v, n + 1)),
                None => None,
            },
        ) == lift(acc + scale * d, scale * 128, i + 1, rest),
{
    match rest {
        Some((v, n)) => {
            assert(acc + scale * (d + 128 * v) == (acc + scale * d) + (scale * 128) * v)
                by (nonlinear_arith);
        },
        None => {},
    }
}

proof fn lemma_zero_from(s: Seq<u8>, from: nat)
    requires
        from <= s.len(),
    ensures
        match zero_from(s, from) {
            Some(n) => from <= n < s.len() && s[n as int] == 0 && forall|j: int|
                from <= j < n ==> s[j] != 0,
            None => forall|j: int| from <= j < s.len() ==> s[j] != 0,
        },
    decreases s.len() - from,
{
    if from < s.len() && s[from as int] != 0 {
        lemma_zero_from(s, from + 1);
    }
}

/// A number of `n` bytes is below 256 to the power `n`.
pub proof fn lemma_le_value_bound(s: Seq<u8>)
    ensures
        le_value(s) < pow256(s.len()),
    decreases s.len(),
{
    if s.len() > 0 {
        lemma_le_value_bound(s.skip(1));
    }
}

/// Reading a LEB128 number takes at least one byte away.
pub proof fn lemma_leb128_reads_shrink(s: Seq<u8>)
    ensures
        take_uleb128(s) is Ok ==> take_uleb128(s)->Ok_0.1.len() < s.len(),
        take_sleb128(s) is Ok ==> take_sleb128(s)->Ok_0.1.len() < s.len(),
{
    if leb128_value(s, max_groups(), false) is Some {
        lemma_leb128_length(s, max_groups(), false);
    }
    if leb128_value(s, max_groups(), true) is Some {
        lemma_leb128_length(s, max_groups(), true);
    }
}

/// The value and the length of the LEB128 number at the front of `data`.
fn scan_leb128(data: &[u8], signed: bool) -> (r: Option<(i128, usize)>)
    ensures
        match r {
            Some((v, n)) => leb128_value(data@, max_groups(), signed) == Some((v as int, n as nat))
                && n <= data@.len(),
            None => leb128_value(data@, max_groups(), signed) is None,
        },
{
    let mut acc: i128 = 0;
    let mut scale: i128 = 1;
    let mut i: usize = 0;
    proof {
        lemma_pow128_values();
        assert(data@.skip(0) =~= data@);
    }
    while i < 10 && i < data.len()
        invariant
            i <= 10,
            i <= data@.len(),
            scale == pow128(i as nat),
            0 <= acc < scale,
            leb128_value(data@, 10, signed) == lift(
                acc as int,
                scale as int,
                i as nat,
                leb128_value(data@.skip(i as int), (10 - i) as nat, signed),
            ),
        decreases 10 - i,
    {
        let b = data[i];
        proof {
            lemma_pow128_values();
            assert(pow128(i as nat) <= pow128(9));
            assert(data@.skip(i as int)[0] == b);
            assert(data@.skip(i as int).skip(1) =~= data@.skip(i + 1));
        }
        if b < 128 {
            let last: i128 = if signed && b >= 64 {
                b as i128 - 128
            } else {
                b as i128
            };
            assert(-128 * scale <= scale * last <= 128 * scale) by (nonlinear_arith)
                requires
                    -128 <= last <= 128,
                    scale > 0,
            ;
            let v = acc + scale * last;
            return Some((v, i + 1));
        }
        let d: i128 = (b - 128) as i128;
        assert(0 <= scale * d <= 127 * scale) by (nonlinear_arith)
            requires
                0 <= d <= 127,
                scale > 0,
        ;
        proof {
            lemma_lift_step(
                acc as int,
                scale as int,
                d as int,
                i as nat,
                leb128_value(data@.skip(i + 1), (10 - i - 1) as nat, signed),
            );
        }
        acc = acc + scale * d;
        scale = scale * 128;
        i += 1;
    }
    None
}

impl<'a> ByteCursor<'a> {
    /// A cursor at the start of `data`.
    pub fn new(data: &'a [u8]) -> (r: Self)
        ensures
            r@ == data@,
    {
        ByteCursor { data }
    }

    /// How many bytes are left.
    pub fn remaining(&self) -> (n: usize)
        ensures
            n == self@.len(),
    {
        self.data.len()
    }

    /// Reads one byte.
    pub fn read_u8(&mut self) -> (r: Result<u8, CfiError>)
        ensures
            match r {
                Ok(b) => old(self)@.len() >= 1 && b == old(self)@[0] && final(self)@ == old(self)@.skip(1),
                Err(e) => e == CfiError::UnexpectedEof && old(self)@.len() == 0 && final(self)@
                    == old(self)@,
            },
    {
        let n = self.data.len();
        if n == 0 {
            return Err(CfiError::UnexpectedEof);
        }
        let b = self.data[0];
        self.data = vstd::slice::slice_subrange(self.data, 1, n);
        Ok(b)
    }

    /// Reads an unsigned LEB128 number. Fails, and reads nothing, where
    /// the number does not end within ten bytes and within the cursor, or
    /// does not fit in 64 bits.
    pub fn read_uleb128(&mut self) -> (r: Result<u64, CfiError>)
        ensures
            match take_uleb128(old(self)@) {
                Ok((v, rest)) => r == Ok::<u64, CfiError>(v) && final(self)@ == rest,
                Err(e) => r == Err::<u64, CfiError>(e) && final(self)@ == old(self)@,
            },
            final(self)@.len() <= old(self)@.len(),
    {
        match scan_leb128(self.data, false) {
            Some((v, n)) => {
                if 0 <= v && v <= 0xffff_ffff_ffff_ffff {
                    self.data = vstd::slice::slice_subrange(self.data, n, self.data.len());
                    Ok(v as u64)
                } else {
                    Err(CfiError::MalformedEncoding)
                }
            },
            None => Err(CfiError::MalformedEncoding),
        }
    }

    /// Reads a signed LEB128 number. Fails, and reads nothing, where the
    /// number does not end within ten bytes and within the cursor, or does
    /// not fit in 64 bits.
    pub fn read_sleb128(&mut self) -> (r: Result<i64, CfiError>)
        ensures
            match take_sleb128(old(self)@) {
                Ok((v, rest)) => r == Ok::<i64, CfiError>(v) && final(self)@ == rest,
                Err(e) => r == Err::<i64, CfiError>(e) && final(self)@ == old(self)@,
            },
            final(self)@.len() <= old(self)@.len(),
    {
        match scan_leb128(self.data, true) {
            Some((v, n)) => {
                if -0x8000_0000_0000_0000 <= v && v <= 0x7fff_ffff_ffff_ffff {
                    self.data = vstd::slice::slice_subrange(self.data, n, self.data.len());
                    Ok(v as i64)
                } else {
                    Err(CfiError::MalformedEncoding)
                }
            },
            None => Err(CfiError::MalformedEncoding),
        }
    }

    /// Reads a little-endian number of `width` bytes, for a width of at
    /// most eight. Reads nothing where fewer bytes are left.
    pub fn read_uint(&mut self, width: usize) -> (r: Result<u64, CfiError>)
        requires
            width <= 8,
        ensures
            match take_uint(old(self)@, width as nat) {
                Ok((v, rest)) => r == Ok::<u64, CfiError>(v as u64) && v < pow256(width as nat)
                    && v <= u64::MAX && final(self)@ == rest,
                Err(e) => r == Err::<u64, CfiError>(e) && final(self)@ == old(self)@,
            },
    {
        let n = self.data.len();
        if n < width {
            return Err(CfiError::UnexpectedEof);
        }
        let mut acc: u64 = 0;
        let mut i: usize = width;
        proof {
            assert(self.data@.subrange(width as int, width as int) =~= Seq::<u8>::empty());
        }
        while i > 0
            invariant
                i <= width <= 8,
                width <= self.data@.len(),
                acc == le_value(self.data@.subrange(i as int, width as int)),
            decreases i,
        {
            i -= 1;
            proof {
                let cur = self.data@.subrange(i as int, width as int);
                assert(cur.skip(1) =~= self.data@.subrange(i + 1, width as int));
                lemma_le_value_bound(cur.skip(1));
                reveal_with_fuel(pow256, 9);
                let k = cur.skip(1).len();
                assert(k == 0 || k == 1 || k == 2 || k == 3 || k == 4 || k == 5 || k == 6 || k
                    == 7);
                assert(pow256(k) <= 0x100_0000_0000_0000);
            }
            acc = acc * 256 + self.data[i] as u64;
        }
        proof {
            assert(self.data@.subrange(0, width as int) =~= self.data@.take(width as int));
            lemma_le_value_bound(self.data@.take(width as int));
        }
        self.data = vstd::slice::slice_subrange(self.data, width, n);
        Ok(acc)
    }

    /// Reads a little-endian 32-bit number.
    pub fn read_u32(&mut self) -> (r: Result<u32, CfiError>)
        ensures
            match take_uint(old(self)@, 4) {
                Ok((v, rest)) => r == Ok::<u32, CfiError>(v as u32) && v <= u32::MAX && final(self)@ == rest,
                Err(e) => r == Err::<u32, CfiError>(e) && final(self)@ == old(self)@,
            },
    {
        proof {
            reveal_with_fuel(pow256, 5);
        }
        match self.read_uint(4) {
            Ok(v) => Ok(v as u32),
            Err(e) => Err(e),
        }
    }

    /// Reads a little-endian 64-bit number.
    pub fn read_u64(&mut self) -> (r: Result<u64, CfiError>)
        ensures
            match take_uint(old(self)@, 8) {
                Ok((v, rest)) => r == Ok::<u64, CfiError>(v as u64) && v <= u64::MAX && final(self)@ == rest,
                Err(e) => r == Err::<u64, CfiError>(e) && final(self)@ == old(self)@,
            },
    {
        self.read_uint(8)
    }

    /// Reads the bytes up to the next zero byte, and steps over that zero.
    /// Reads nothing where no zero byte is left.
    pub fn read_utf8(&mut self) -> (r: Result<Vec<u8>, CfiError>)
        ensures
            match take_cstr(old(self)@) {
                Ok((bytes, rest)) => r is Ok && r->Ok_0@ == bytes && final(self)@ == rest,
                Err(e) => r == Err::<Vec<u8>, CfiError>(e) && final(self)@ == old(self)@,
            },
            match r {
                Ok(v) => v@.len() < old(self)@.len() && old(self)@[v@.len() as int] == 0
                    && v@ == old(self)@.take(v@.len() as int) && forall|j: int|
                    0 <= j < v@.len() ==> v@[j] != 0,
                Err(_) => forall|j: int| 0 <= j < old(self)@.len() ==> old(self)@[j] != 0,
            },
    {
        let n = self.data.len();
        let mut i: usize = 0;
        proof {
            lemma_zero_from(self.data@, 0);
        }
        while i < n
            invariant
                i <= n,
                n == self.data@.len(),
                *self == *old(self),
                zero_from(self.data@, 0) == zero_from(self.data@, i as nat),
            decreases n - i,
        {
            if self.data[i] == 0 {
                proof {
                    lemma_zero_from(self.data@, 0);
                    assert(self.data@.subrange(0, i as int) =~= self.data@.take(i as int));
                    assert(self.data@.subrange(i + 1, n as int) =~= self.data@.skip(i + 1));
                }
                let bytes = vstd::slice::slice_to_vec(vstd::slice::slice_subrange(self.data, 0, i));
                self.data = vstd::slice::slice_subrange(self.data, i + 1, n);
                return Ok(bytes);
            }
            i += 1;
        }
        proof {
            lemma_zero_from(self.data@, 0);
        }
        Err(CfiError::UnexpectedEof)
    }

    /// Reads the next `n` bytes. Reads nothing where fewer are left.
    pub fn read_bytes(&mut self, n: u64) -> (r: Result<Vec<u8>, CfiError>)
        ensures
            match take_bytes(old(self)@, n as nat) {
                Ok((bytes, rest)) => r is Ok && r->Ok_0@ == bytes && final(self)@ == rest,
                Err(e) => r == Err::<Vec<u8>, CfiError>(e) && final(self)@ == old(self)@,
            },
    {
        let len = self.data.len();
        if n > len as u64 {
            return Err(CfiError::UnexpectedEof);
        }
        let k = n as usize;
        let bytes = vstd::slice::slice_to_vec(vstd::slice::slice_subrange(self.data, 0, k));
        self.data = vstd::slice::slice_subrange(self.data, k, len);
        Ok(bytes)
    }

    /// Reads all the bytes that are left.
    pub fn read_to_end(&mut self) -> (r: Vec<u8>)
        ensures
            r@ == old(self)@,
            final(self)@ == Seq::<u8>::empty(),
    {
        let len = self.data.len();
        let bytes = vstd::slice::slice_to_vec(self.data);
        self.data = vstd::slice::slice_subrange(self.data, len, len);
        bytes
    }

    /// Splits off a cursor over exactly the next `n` bytes and steps over
    /// them. Fails, and reads nothing, where fewer are left.
    pub fn take(&mut self, n: u64) -> (r: Result<ByteCursor<'a>, CfiError>)
        ensures
            match take_bytes(old(self)@, n as nat) {
                Ok((bytes, rest)) => r is Ok && r->Ok_0@ == bytes && final(self)@ == rest,
                Err(e) => r is Err && r->Err_0 == e && final(self)@ == old(self)@,
            },
    {
        let len = self.data.len();
        if n > len as u64 {
            return Err(CfiError::UnexpectedEof);
        }
        let k = n as usize;
        let sub = ByteCursor { data: vstd::slice::slice_subrange(self.data, 0, k) };
        self.data = vstd::slice::slice_subrange(self.data, k, len);
        Ok(sub)
    }
}

} // verus!
