use vstd::prelude::*;
use vstd::utf8::{decode_utf8, valid_utf8};
use crate::binary::leb128::{
    leb_len,
    leb_payload,
    leb_signed,
    wrap_signed,
    width_32,
    width_64,
    MAX_LEN_32,
    MAX_LEN_64,
};

verus! {

/// The number that the first four bytes of `s` spell, least significant
/// byte first.
pub open spec fn le_u32_value(s: Seq<u8>) -> nat {
    (s[0] + 0x100 * s[1] + 0x1_0000 * s[2] + 0x100_0000 * s[3]) as nat
}

/// The number that the first eight bytes of `s` spell, least significant
/// byte first.
pub open spec fn le_u64_value(s: Seq<u8>) -> nat {
    (s[0] + 0x100 * s[1] + 0x1_0000 * s[2] + 0x100_0000 * s[3] + 0x1_0000_0000 * s[4]
        + 0x100_0000_0000 * s[5] + 0x1_0000_0000_0000 * s[6] + 0x100_0000_0000_0000 * s[7]) as nat
}

/// `nom::bytes::complete::tag` on byte slices: succeeds exactly when
/// `pattern` is a prefix of `input`, and then returns the input after the
/// pattern and the matched prefix.
#[verifier::external_body]
pub(crate) fn nom_tag<'a>(input: &'a [u8], pattern: &[u8]) -> (r: Option<(&'a [u8], &'a [u8])>)
    ensures
        match r {
            Some((rest, matched)) => pattern@.is_prefix_of(input@) && matched@ == pattern@
                && rest@ == input@.skip(pattern@.len() as int),
            None => !pattern@.is_prefix_of(input@),
        },
{
    match nom::bytes::complete::tag::<_, _, nom::error::Error<&[u8]>>(pattern)(input) {
        Ok((rest, matched)) => Some((rest, matched)),
        Err(_) => None,
    }
}

/// `nom::number::complete::le_u8`: fails exactly on empty input, and
/// otherwise returns the first byte and the input after it.
#[verifier::external_body]
pub(crate) fn nom_le_u8<'a>(input: &'a [u8]) -> (r: Option<(&'a [u8], u8)>)
    ensures
        match r {
            Some((rest, v)) => input@.len() >= 1 && v == input@[0] && rest@ == input@.skip(1),
            None => input@.len() == 0,
        },
{
    match nom::number::complete::le_u8::<_, nom::error::Error<&[u8]>>(input) {
        Ok((rest, v)) => Some((rest, v)),
        Err(_) => None,
    }
}

/// `nom::number::complete::le_u32`: fails exactly when fewer than four
/// bytes remain, and otherwise returns the little-endian value of the
/// first four bytes and the input after them.
#[verifier::external_body]
pub(crate) fn nom_le_u32<'a>(input: &'a [u8]) -> (r: Option<(&'a [u8], u32)>)
    ensures
        match r {
            Some((rest, v)) => input@.len() >= 4 && v == le_u32_value(input@) && rest@
                == input@.skip(4),
            None => input@.len() < 4,
        },
{
    match nom::number::complete::le_u32::<_, nom::error::Error<&[u8]>>(input) {
        Ok((rest, v)) => Some((rest, v)),
        Err(_) => None,
    }
}

/// `nom::number::complete::le_u64`: fails exactly when fewer than eight
/// bytes remain, and otherwise returns the little-endian value of the
/// first eight bytes and the input after them.
#[verifier::external_body]
pub(crate) fn nom_le_u64<'a>(input: &'a [u8]) -> (r: Option<(&'a [u8], u64)>)
    ensures
        match r {
            Some((rest, v)) => input@.len() >= 8 && v == le_u64_value(input@) && rest@
                == input@.skip(8),
            None => input@.len() < 8,
        },
{
    match nom::number::complete::le_u64::<_, nom::error::Error<&[u8]>>(input) {
        Ok((rest, v)) => Some((rest, v)),
        Err(_) => None,
    }
}

/// `nom_leb128::leb128_u32`: fails exactly when none of the first five
/// bytes ends the encoding. Otherwise it returns the input after the
/// encoding and the low 32 bits of the payload: it does not look at the
/// bits of the fifth byte that lie above bit 31.
#[verifier::external_body]
pub(crate) fn nom_leb128_u32<'a>(input: &'a [u8]) -> (r: Option<(&'a [u8], u32)>)
    ensures
        match r {
            Some((rest, v)) => leb_len(input@, MAX_LEN_32 as nat) matches Some(n) && rest@
                == input@.skip(n as int) && v == leb_payload(input@, n) % (width_32() as nat),
            None => leb_len(input@, MAX_LEN_32 as nat) is None,
        },
{
    match nom_leb128::leb128_u32::<_, nom::error::Error<&[u8]>>(input) {
        Ok((rest, v)) => Some((rest, v)),
        Err(_) => None,
    }
}

/// `nom_leb128::leb128_u64`: fails exactly when none of the first ten
/// bytes ends the encoding. Otherwise it returns the input after the
/// encoding and the low 64 bits of the payload.
#[verifier::external_body]
pub(crate) fn nom_leb128_u64<'a>(input: &'a [u8]) -> (r: Option<(&'a [u8], u64)>)
    ensures
        match r {
            Some((rest, v)) => leb_len(input@, MAX_LEN_64 as nat) matches Some(n) && rest@
                == input@.skip(n as int) && v == leb_payload(input@, n) % (width_64() as nat),
            None => leb_len(input@, MAX_LEN_64 as nat) is None,
        },
{
    match nom_leb128::leb128_u64::<_, nom::error::Error<&[u8]>>(input) {
        Ok((rest, v)) => Some((rest, v)),
        Err(_) => None,
    }
}

/// `nom_leb128::leb128_i32`: fails exactly when none of the first five
/// bytes ends the encoding. An encoding of up to four bytes is sign
/// extended from bit 6 of its last byte. One of five bytes is not: its
/// payload is cut to 32 bits and read as two's complement.
#[verifier::external_body]
pub(crate) fn nom_leb128_i32<'a>(input: &'a [u8]) -> (r: Option<(&'a [u8], i32)>)
    ensures
        match r {
            Some((rest, v)) => leb_len(input@, MAX_LEN_32 as nat) matches Some(n) && rest@
                == input@.skip(n as int) && v == (if 7 * n < 32 {
                leb_signed(input@, n)
            } else {
                wrap_signed(leb_payload(input@, n) as int, width_32())
            }),
            None => leb_len(input@, MAX_LEN_32 as nat) is None,
        },
{
    match nom_leb128::leb128_i32::<_, nom::error::Error<&[u8]>>(input) {
        Ok((rest, v)) => Some((rest, v)),
        Err(_) => None,
    }
}

/// `nom_leb128::leb128_i64`: fails exactly when none of the first ten
/// bytes ends the encoding. An encoding of up to nine bytes is sign
/// extended from bit 6 of its last byte. One of ten bytes is not: its
/// payload is cut to 64 bits and read as two's complement.
#[verifier::external_body]
pub(crate) fn nom_leb128_i64<'a>(input: &'a [u8]) -> (r: Option<(&'a [u8], i64)>)
    ensures
        match r {
            Some((rest, v)) => leb_len(input@, MAX_LEN_64 as nat) matches Some(n) && rest@
                == input@.skip(n as int) && v == (if 7 * n < 64 {
                leb_signed(input@, n)
            } else {
                wrap_signed(leb_payload(input@, n) as int, width_64())
            }),
            None => leb_len(input@, MAX_LEN_64 as nat) is None,
        },
{
    match nom_leb128::leb128_i64::<_, nom::error::Error<&[u8]>>(input) {
        Ok((rest, v)) => Some((rest, v)),
        Err(_) => None,
    }
}

/// `String::from_utf8`: succeeds exactly when the bytes are valid UTF-8,
/// and then the string holds the characters that they encode.
#[verifier::external_body]
pub(crate) fn string_from_utf8(bytes: Vec<u8>) -> (r: Option<String>)
    ensures
        match r {
            Some(s) => valid_utf8(bytes@) && s@ == decode_utf8(bytes@),
            None => !valid_utf8(bytes@),
        },
{
    match String::from_utf8(bytes) {
        Ok(s) => Some(s),
        Err(_) => None,
    }
}

} // verus!
