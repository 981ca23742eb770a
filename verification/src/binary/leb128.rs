use vstd::prelude::*;
use vstd::arithmetic::div_mod::{lemma_mod_multiples_vanish, lemma_small_mod};
use crate::binary::error::{cut_short, extends, DecodeError, Read};

verus! {

/// Two to the power 32.
pub open spec fn width_32() -> int {
    0x1_0000_0000
}

/// Two to the power 64.
pub open spec fn width_64() -> int {
    0x1_0000_0000_0000_0000
}

/// The longest LEB128 encoding of a 32-bit number, in bytes.
pub const MAX_LEN_32: usize = 5;

/// The longest LEB128 encoding of a 64-bit number, in bytes.
pub const MAX_LEN_64: usize = 10;

/// Scans for the byte that ends an encoding: the least `n` with
/// `from < n <= max` and `n <= s.len()` such that `s[n - 1]` has its
/// continuation bit clear while every byte from `from` up to it has it set.
pub open spec fn leb_end(s: Seq<u8>, from: nat, max: nat) -> Option<nat>
    decreases max - from,
{
    if from >= max || from >= s.len() {
        None
    } else if s[from as int] < 0x80 {
        Some(from + 1)
    } else {
        leb_end(s, from + 1, max)
    }
}

/// The number of bytes of the LEB128 encoding at the front of `s`, if one
/// of the first `max` bytes ends it.
pub open spec fn leb_len(s: Seq<u8>, max: nat) -> Option<nat> {
    leb_end(s, 0, max)
}

/// The weight of the seven-bit group number `i`: 128 to the power `i`.
pub open spec fn group_weight(i: nat) -> nat
    decreases i,
{
    if i == 0 {
        1
    } else {
        128 * group_weight((i - 1) as nat)
    }
}

/// The number that the low seven bits of the first `n` bytes of `s` spell,
/// least significant group first.
pub open spec fn leb_payload(s: Seq<u8>, n: nat) -> nat
    decreases n,
{
    if n == 0 {
        0
    } else {
        leb_payload(s, (n - 1) as nat) + (s[n - 1] % 128) as nat * group_weight((n - 1) as nat)
    }
}

/// The payload of an `n`-byte encoding read as a two's complement number
/// of `7 * n` bits: bit 6 of the last byte is the sign.
pub open spec fn leb_signed(s: Seq<u8>, n: nat) -> int {
    if n > 0 && s[n - 1] % 128 >= 64 {
        leb_payload(s, n) - group_weight(n)
    } else {
        leb_payload(s, n) as int
    }
}

/// `x` reduced modulo `width` and read as a two's complement number:
/// the upper half of the range stands for the negative numbers.
pub open spec fn wrap_signed(x: int, width: int) -> int {
    let w = x % width;
    if 2 * w >= width {
        w - width
    } else {
        w
    }
}

/// The error of an encoding that does not end within `max` bytes, where
/// `eof` is the error of a read that finds no byte at all.
pub open spec fn leb_failure(s: Seq<u8>, max: nat, eof: DecodeError) -> DecodeError {
    if s.len() == 0 {
        eof
    } else if s.len() < max {
        DecodeError::UnterminatedVarint
    } else {
        DecodeError::IntegerTooLarge
    }
}

/// An unsigned 32-bit LEB128 number.
pub open spec fn spec_leb_u32(s: Seq<u8>, eof: DecodeError) -> Read<u32> {
    match leb_len(s, MAX_LEN_32 as nat) {
        None => Err(leb_failure(s, MAX_LEN_32 as nat, eof)),
        Some(n) => if leb_payload(s, n) < width_32() {
            Ok((leb_payload(s, n) as u32, s.skip(n as int)))
        } else {
            Err(DecodeError::IntegerTooLarge)
        },
    }
}

/// An unsigned 64-bit LEB128 number.
pub open spec fn spec_leb_u64(s: Seq<u8>, eof: DecodeError) -> Read<u64> {
    match leb_len(s, MAX_LEN_64 as nat) {
        None => Err(leb_failure(s, MAX_LEN_64 as nat, eof)),
        Some(n) => if leb_payload(s, n) < width_64() {
            Ok((leb_payload(s, n) as u64, s.skip(n as int)))
        } else {
            Err(DecodeError::IntegerTooLarge)
        },
    }
}

/// A signed 32-bit LEB128 number.
pub open spec fn spec_leb_i32(s: Seq<u8>, eof: DecodeError) -> Read<i32> {
    match leb_len(s, MAX_LEN_32 as nat) {
        None => Err(leb_failure(s, MAX_LEN_32 as nat, eof)),
        Some(n) => if -width_32() <= 2 * leb_signed(s, n) < width_32() {
            Ok((leb_signed(s, n) as i32, s.skip(n as int)))
        } else {
            Err(DecodeError::IntegerTooLarge)
        },
    }
}

/// A signed 64-bit LEB128 number.
pub open spec fn spec_leb_i64(s: Seq<u8>, eof: DecodeError) -> Read<i64> {
    match leb_len(s, MAX_LEN_64 as nat) {
        None => Err(leb_failure(s, MAX_LEN_64 as nat, eof)),
        Some(n) => if -width_64() <= 2 * leb_signed(s, n) < width_64() {
            Ok((leb_signed(s, n) as i64, s.skip(n as int)))
        } else {
            Err(DecodeError::IntegerTooLarge)
        },
    }
}

/// Where a scan ends, the encoding lies inside the buffer and inside the
/// limit, and its last byte is the first one without a continuation bit.
pub proof fn lemma_leb_end(s: Seq<u8>, from: nat, max: nat)
    ensures
        match leb_end(s, from, max) {
            Some(n) => from < n <= max && n <= s.len() && s[n - 1] < 0x80 && forall|i: int|
                from <= i < n - 1 ==> s[i] >= 0x80,
            None => forall|i: int| from <= i < max && i < s.len() ==> s[i] >= 0x80,
        },
    decreases max - from,
{
    if from >= max || from >= s.len() {
    } else if s[from as int] < 0x80 {
    } else {
        lemma_leb_end(s, from + 1, max);
    }
}

/// A scan looks at no byte after the one that ends the encoding.
pub proof fn lemma_leb_end_prefix(s: Seq<u8>, t: Seq<u8>, from: nat, max: nat)
    requires
        leb_end(s, from, max) is Some,
        t.len() >= leb_end(s, from, max).unwrap(),
        forall|i: int| 0 <= i < leb_end(s, from, max).unwrap() ==> t[i] == s[i],
    ensures
        leb_end(t, from, max) == leb_end(s, from, max),
    decreases max - from,
{
    lemma_leb_end(s, from, max);
    if s[from as int] < 0x80 {
    } else {
        lemma_leb_end_prefix(s, t, from + 1, max);
    }
}

/// The payload depends on the first `n` bytes alone.
pub proof fn lemma_leb_payload_prefix(s: Seq<u8>, t: Seq<u8>, n: nat)
    requires
        forall|i: int| 0 <= i < n ==> t[i] == s[i],
    ensures
        leb_payload(t, n) == leb_payload(s, n),
    decreases n,
{
    if n > 0 {
        lemma_leb_payload_prefix(s, t, (n - 1) as nat);
    }
}

/// `n` groups of seven bits spell a number below 128 to the power `n`.
pub proof fn lemma_leb_payload_bound(s: Seq<u8>, n: nat)
    ensures
        leb_payload(s, n) < group_weight(n),
    decreases n,
{
    if n > 0 {
        lemma_leb_payload_bound(s, (n - 1) as nat);
        let w = group_weight((n - 1) as nat);
        let b = (s[n - 1] % 128) as nat;
        assert(b * w <= 127 * w) by (nonlinear_arith)
            requires
                b <= 127,
        ;
    }
}

/// The weights of the groups that a 64-bit encoding can have.
pub proof fn lemma_group_weights()
    ensures
        group_weight(0) == 1,
        group_weight(1) == 0x80,
        group_weight(2) == 0x4000,
        group_weight(3) == 0x20_0000,
        group_weight(4) == 0x1000_0000,
        group_weight(5) == 0x8_0000_0000,
        group_weight(6) == 0x400_0000_0000,
        group_weight(7) == 0x2_0000_0000_0000,
        group_weight(8) == 0x100_0000_0000_0000,
        group_weight(9) == 0x8000_0000_0000_0000,
        group_weight(10) == 0x40_0000_0000_0000_0000,
{
    reveal_with_fuel(group_weight, 11);
}

/// A later group weighs at least as much as an earlier one.
pub proof fn lemma_group_weight_monotonic(i: nat, j: nat)
    requires
        i <= j,
    ensures
        1 <= group_weight(i) <= group_weight(j),
    decreases j,
{
    if j == 0 {
    } else if i < j {
        lemma_group_weight_monotonic(i, (j - 1) as nat);
    } else {
        lemma_group_weight_monotonic(0, (j - 1) as nat);
    }
}

/// Every encoding shorter than five bytes holds a 32-bit number, signed
/// or unsigned. One of five bytes holds an unsigned one exactly when its
/// last byte is at most `0x0f`, and a signed one exactly when the last
/// byte is at most `0x07` or at least `0x78`.
pub proof fn lemma_leb_fits_32(s: Seq<u8>, n: nat)
    requires
        leb_len(s, MAX_LEN_32 as nat) == Some(n),
    ensures
        n < 5 ==> leb_payload(s, n) < width_32(),
        n < 5 ==> -width_32() <= 2 * leb_signed(s, n) < width_32(),
        n == 5 ==> (leb_payload(s, n) < width_32() <==> s[4] <= 0x0f),
        n == 5 ==> (-width_32() <= 2 * leb_signed(s, n) < width_32() <==> (s[4] <= 0x07 || s[4]
            >= 0x78)),
        leb_payload(s, n) < width_32() ==> leb_payload(s, n) % (width_32() as nat) == leb_payload(
            s,
            n,
        ),
        n == 5 && (s[4] <= 0x07 || s[4] >= 0x78) ==> wrap_signed(
            leb_payload(s, n) as int,
            width_32(),
        ) == leb_signed(s, n),
{
    lemma_leb_end(s, 0, MAX_LEN_32 as nat);
    lemma_group_weights();
    lemma_leb_payload_bound(s, n);
    lemma_leb_payload_bound(s, (n - 1) as nat);
    if n < 5 {
        lemma_group_weight_monotonic(n, 4);
    } else {
        let p = leb_payload(s, 4);
        let b = s[4] as nat;
        assert(leb_payload(s, 5) == p + (b % 128) * group_weight(4));
        assert(b % 128 == b);
        assert(leb_payload(s, 5) == p + b * 0x1000_0000);
        if b >= 0x78 {
            let x = leb_payload(s, 5) as int;
            let y = x - 7 * 0x1_0000_0000;
            lemma_mod_multiples_vanish(7, y, 0x1_0000_0000);
            lemma_small_mod(y as nat, 0x1_0000_0000);
            assert(x % 0x1_0000_0000 == y);
        }
    }
    if leb_payload(s, n) < width_32() {
        lemma_small_mod(leb_payload(s, n), width_32() as nat);
    }
}

/// Every encoding shorter than ten bytes holds a 64-bit number, signed or
/// unsigned. One of ten bytes holds an unsigned one exactly when its last
/// byte is at most `0x01`, and a signed one exactly when the last byte is
/// `0x00` or `0x7f`.
pub proof fn lemma_leb_fits_64(s: Seq<u8>, n: nat)
    requires
        leb_len(s, MAX_LEN_64 as nat) == Some(n),
    ensures
        n < 10 ==> leb_payload(s, n) < width_64(),
        n < 10 ==> -width_64() <= 2 * leb_signed(s, n) < width_64(),
        n == 10 ==> (leb_payload(s, n) < width_64() <==> s[9] <= 0x01),
        n == 10 ==> (-width_64() <= 2 * leb_signed(s, n) < width_64() <==> (s[9] == 0x00 || s[9]
            == 0x7f)),
        leb_payload(s, n) < width_64() ==> leb_payload(s, n) % (width_64() as nat) == leb_payload(
            s,
            n,
        ),
        n == 10 && (s[9] == 0x00 || s[9] == 0x7f) ==> wrap_signed(
            leb_payload(s, n) as int,
            width_64(),
        ) == leb_signed(s, n),
{
    lemma_leb_end(s, 0, MAX_LEN_64 as nat);
    lemma_group_weights();
    lemma_leb_payload_bound(s, n);
    lemma_leb_payload_bound(s, (n - 1) as nat);
    if n < 10 {
        lemma_group_weight_monotonic(n, 9);
    } else {
        let p = leb_payload(s, 9);
        let b = s[9] as nat;
        assert(leb_payload(s, 10) == p + (b % 128) * group_weight(9));
        assert(b % 128 == b);
        assert(leb_payload(s, 10) == p + b * 0x8000_0000_0000_0000);
        if b == 0x7f {
            let x = leb_payload(s, 10) as int;
            let y = x - 63 * 0x1_0000_0000_0000_0000;
            lemma_mod_multiples_vanish(63, y, 0x1_0000_0000_0000_0000);
            lemma_small_mod(y as nat, 0x1_0000_0000_0000_0000);
            assert(x % 0x1_0000_0000_0000_0000 == y);
        }
    }
    if leb_payload(s, n) < width_64() {
        lemma_small_mod(leb_payload(s, n), width_64() as nat);
    }
}

/// An encoding that ends within `s` is read in the same way when `t`
/// follows `s`.
/// Cut short, the read can fail only by running out of bytes.
pub proof fn lemma_leb_extends(s: Seq<u8>, t: Seq<u8>, max: nat)
    requires
        leb_len(s, max) is Some,
    ensures
        leb_len(s + t, max) == leb_len(s, max),
        leb_payload(s + t, leb_len(s, max).unwrap()) == leb_payload(s, leb_len(s, max).unwrap()),
        leb_signed(s + t, leb_len(s, max).unwrap()) == leb_signed(s, leb_len(s, max).unwrap()),
        (s + t).skip(leb_len(s, max).unwrap() as int) == s.skip(leb_len(s, max).unwrap() as int)
            + t,
{
    let n = leb_len(s, max).unwrap();
    lemma_leb_end(s, 0, max);
    lemma_leb_end_prefix(s, s + t, 0, max);
    lemma_leb_payload_prefix(s, s + t, n);
    assert((s + t).skip(n as int) =~= s.skip(n as int) + t);
}

/// An encoding that ends within `s + t` but not within `s` is cut by the
/// end of `s` before the limit of its length.
pub proof fn lemma_leb_cut(s: Seq<u8>, t: Seq<u8>, max: nat)
    requires
        leb_len(s + t, max) is Some,
        leb_len(s, max) is None,
    ensures
        s.len() < max,
{
    lemma_leb_end(s + t, 0, max);
    lemma_leb_end(s, 0, max);
    let n = leb_len(s + t, max).unwrap();
    if s.len() >= max {
        assert((s + t)[n - 1] == s[n - 1]);
    }
}

/// Bytes after a 32-bit unsigned number do not change how it is read.
/// Cut short, the read can fail only by running out of bytes.
pub proof fn lemma_leb_u32_extends(s: Seq<u8>, t: Seq<u8>, eof: DecodeError)
    ensures
        extends(spec_leb_u32(s, eof), spec_leb_u32(s + t, eof), t),
        cut_short(spec_leb_u32(s, eof), spec_leb_u32(s + t, eof), eof),
{
    if leb_len(s, MAX_LEN_32 as nat) is Some {
        lemma_leb_extends(s, t, MAX_LEN_32 as nat);
    } else if leb_len(s + t, MAX_LEN_32 as nat) is Some {
        lemma_leb_cut(s, t, MAX_LEN_32 as nat);
    }
}

/// Bytes after a 32-bit signed number do not change how it is read.
/// Cut short, the read can fail only by running out of bytes.
pub proof fn lemma_leb_i32_extends(s: Seq<u8>, t: Seq<u8>, eof: DecodeError)
    ensures
        extends(spec_leb_i32(s, eof), spec_leb_i32(s + t, eof), t),
        cut_short(spec_leb_i32(s, eof), spec_leb_i32(s + t, eof), eof),
{
    if leb_len(s, MAX_LEN_32 as nat) is Some {
        lemma_leb_extends(s, t, MAX_LEN_32 as nat);
    } else if leb_len(s + t, MAX_LEN_32 as nat) is Some {
        lemma_leb_cut(s, t, MAX_LEN_32 as nat);
    }
}

/// Bytes after a 64-bit signed number do not change how it is read.
/// Cut short, the read can fail only by running out of bytes.
pub proof fn lemma_leb_i64_extends(s: Seq<u8>, t: Seq<u8>, eof: DecodeError)
    ensures
        extends(spec_leb_i64(s, eof), spec_leb_i64(s + t, eof), t),
        cut_short(spec_leb_i64(s, eof), spec_leb_i64(s + t, eof), eof),
{
    if leb_len(s, MAX_LEN_64 as nat) is Some {
        lemma_leb_extends(s, t, MAX_LEN_64 as nat);
    } else if leb_len(s + t, MAX_LEN_64 as nat) is Some {
        lemma_leb_cut(s, t, MAX_LEN_64 as nat);
    }
}

} // verus!
