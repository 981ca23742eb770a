use vstd::prelude::*;
use vstd::slice::{slice_subrange, slice_to_vec};
use vstd::utf8::{decode_utf8, valid_utf8};
use crate::binary::error::{cut_short, extends, overrun, DecodeError, Read};
use crate::binary::leb128::{
    leb_failure,
    leb_len,
    lemma_leb_end,
    lemma_leb_fits_32,
    lemma_leb_fits_64,
    lemma_leb_u32_extends,
    spec_leb_i32,
    spec_leb_i64,
    spec_leb_u32,
    spec_leb_u64,
    MAX_LEN_32,
    MAX_LEN_64,
};
use crate::binary::parsers::{
    le_u32_value,
    le_u64_value,
    nom_le_u32,
    nom_le_u64,
    nom_le_u8,
    nom_leb128_i32,
    nom_leb128_i64,
    nom_leb128_u32,
    nom_leb128_u64,
    nom_tag,
    string_from_utf8,
};

verus! {

/// A view over the bytes that are still to be read, which knows what it
/// means to run out of them. Reading never changes a cursor: each read
/// returns the value together with the cursor that stands after it.
///
/// At the top level of an input, and inside a `block`, `loop` or `if`
/// that is still open, a read that finds too few bytes fails with
/// `UnexpectedEof`. Inside a payload that was framed by its length, a
/// read that finds too few bytes has run over the frame, and fails with
/// `SectionLengthMismatch`.
#[derive(Clone, Copy, Debug)]
pub struct Cursor<'a> {
    bytes: &'a [u8],
    eof: DecodeError,
}

impl<'a> View for Cursor<'a> {
    type V = Seq<u8>;

    closed spec fn view(&self) -> Seq<u8> {
        self.bytes@
    }
}

/// Whether `next` stands at `rest` and fails at its end as `cur` does:
/// what every read returns beside its value.
pub open spec fn follows<'a>(next: Cursor<'a>, cur: Cursor<'a>, rest: Seq<u8>) -> bool {
    next@ == rest && next.eof_kind() == cur.eof_kind()
}

/// What an executable read from `cur` returned, against what the model
/// says of the bytes it was given.
pub open spec fn read_is<'a, T>(
    r: Result<(T, Cursor<'a>), DecodeError>,
    cur: Cursor<'a>,
    model: Read<T>,
) -> bool {
    match model {
        Ok((v, rest)) => r matches Ok((rv, rc)) && rv == v && follows(rc, cur, rest),
        Err(e) => r matches Err(re) && re == e,
    }
}

/// As `read_is`, for a value that is compared by its deep view.
pub open spec fn read_as<'a, T: DeepView>(
    r: Result<(T, Cursor<'a>), DecodeError>,
    cur: Cursor<'a>,
    model: Read<T::V>,
) -> bool {
    match model {
        Ok((v, rest)) => r matches Ok((rv, rc)) && rv.deep_view() == v && follows(rc, cur, rest),
        Err(e) => r matches Err(re) && re == e,
    }
}

/// A successful read leaves fewer bytes than it was given.
pub open spec fn advances<'a, T>(r: Result<(T, Cursor<'a>), DecodeError>, input: Seq<u8>) -> bool {
    r matches Ok((_, rc)) ==> rc@.len() < input.len()
}

/// One byte. Here and below, `eof` is the error of a read that finds
/// too few bytes.
pub open spec fn spec_u8(s: Seq<u8>, eof: DecodeError) -> Read<u8> {
    if s.len() == 0 {
        Err(eof)
    } else {
        Ok((s[0], s.skip(1)))
    }
}

/// The next `n` bytes.
pub open spec fn spec_bytes(s: Seq<u8>, n: nat, eof: DecodeError) -> Read<Seq<u8>> {
    if s.len() < n {
        Err(eof)
    } else {
        Ok((s.take(n as int), s.skip(n as int)))
    }
}

/// Four bytes as a little-endian number.
pub open spec fn spec_u32_le(s: Seq<u8>, eof: DecodeError) -> Read<u32> {
    if s.len() < 4 {
        Err(eof)
    } else {
        Ok((le_u32_value(s) as u32, s.skip(4)))
    }
}

/// Eight bytes as a little-endian number.
pub open spec fn spec_u64_le(s: Seq<u8>, eof: DecodeError) -> Read<u64> {
    if s.len() < 8 {
        Err(eof)
    } else {
        Ok((le_u64_value(s) as u64, s.skip(8)))
    }
}

/// A name: a byte length, then that many bytes of UTF-8.
pub open spec fn spec_name(s: Seq<u8>, eof: DecodeError) -> Read<Seq<char>> {
    match spec_leb_u32(s, eof) {
        Err(e) => Err(e),
        Ok((n, rest)) => if rest.len() < n {
            Err(eof)
        } else if !valid_utf8(rest.take(n as int)) {
            Err(DecodeError::InvalidUtf8)
        } else {
            Ok((decode_utf8(rest.take(n as int)), rest.skip(n as int)))
        },
    }
}

impl<'a> Cursor<'a> {
    /// A cursor at the start of `bytes`.
    pub fn new(bytes: &'a [u8]) -> (c: Cursor<'a>)
        ensures
            c@ == bytes@,
            c.eof_kind() == DecodeError::UnexpectedEof,
    {
        Cursor { bytes, eof: DecodeError::UnexpectedEof }
    }

    /// The error of a read that finds too few bytes.
    pub closed spec fn eof_kind(&self) -> DecodeError {
        self.eof
    }

    /// The error of a read that finds too few bytes.
    pub fn eof(&self) -> (e: DecodeError)
        ensures
            e == self.eof_kind(),
    {
        self.eof
    }

    /// The same bytes, with `eof` as the error of a read that finds too
    /// few of them.
    pub fn with_eof(self, eof: DecodeError) -> (c: Cursor<'a>)
        ensures
            c@ == self@,
            c.eof_kind() == eof,
    {
        Cursor { bytes: self.bytes, eof }
    }

    /// How many bytes are left.
    pub fn remaining(&self) -> (n: usize)
        ensures
            n == self@.len(),
    {
        self.bytes.len()
    }

    /// Whether no byte is left.
    pub fn is_empty(&self) -> (b: bool)
        ensures
            b == (self@.len() == 0),
    {
        self.bytes.len() == 0
    }

    /// The bytes that are left, without reading them.
    pub fn as_bytes(&self) -> (b: &'a [u8])
        ensures
            b@ == self@,
    {
        self.bytes
    }

    /// Steps over `pattern` if the remaining bytes start with it.
    pub fn strip_prefix(self, pattern: &[u8]) -> (r: Option<Cursor<'a>>)
        ensures
            match r {
                Some(c) => pattern@.is_prefix_of(self@) && follows(
                    c,
                    self,
                    self@.skip(pattern@.len() as int),
                ),
                None => !pattern@.is_prefix_of(self@),
            },
    {
        match nom_tag(self.bytes, pattern) {
            Some((rest, _)) => Some(Cursor { bytes: rest, eof: self.eof }),
            None => None,
        }
    }

    /// Reads one byte.
    pub fn read_u8(self) -> (r: Result<(u8, Cursor<'a>), DecodeError>)
        ensures
            read_is(r, self, spec_u8(self@, self.eof_kind())),
    {
        match nom_le_u8(self.bytes) {
            Some((rest, v)) => Ok((v, Cursor { bytes: rest, eof: self.eof })),
            None => Err(self.eof),
        }
    }

    /// Reads the next `n` bytes as they are.
    pub fn read_bytes(self, n: usize) -> (r: Result<(&'a [u8], Cursor<'a>), DecodeError>)
        ensures
            match spec_bytes(self@, n as nat, self.eof_kind()) {
                Ok((v, rest)) => r matches Ok((rv, rc)) && rv@ == v && follows(rc, self, rest),
                Err(e) => r matches Err(re) && re == e,
            },
    {
        if self.bytes.len() < n {
            Err(self.eof)
        } else {
            let taken = slice_subrange(self.bytes, 0, n);
            let rest = slice_subrange(self.bytes, n, self.bytes.len());
            Ok((taken, Cursor { bytes: rest, eof: self.eof }))
        }
    }

    /// Frames the next `declared` bytes: splits off a cursor that is
    /// bounded to them, and that fails with `SectionLengthMismatch` where
    /// a read runs over them. Fails as any read does where fewer than
    /// `declared` bytes are left.
    pub fn slice(self, declared: u32) -> (r: Result<(Cursor<'a>, Cursor<'a>), DecodeError>)
        ensures
            match spec_bytes(self@, declared as nat, self.eof_kind()) {
                Ok((v, rest)) => r matches Ok((inner, rc)) && inner@ == v && inner.eof_kind()
                    == overrun(declared) && follows(rc, self, rest),
                Err(e) => r matches Err(re) && re == e,
            },
    {
        match self.read_bytes(declared as usize) {
            Ok((taken, rest)) => Ok(
                (
                    Cursor {
                        bytes: taken,
                        eof: DecodeError::SectionLengthMismatch { declared, consumed: declared },
                    },
                    rest,
                ),
            ),
            Err(e) => Err(e),
        }
    }

    /// Reads four bytes as a little-endian number: the version field, or
    /// the bits of a 32-bit float.
    pub fn read_u32_le(self) -> (r: Result<(u32, Cursor<'a>), DecodeError>)
        ensures
            read_is(r, self, spec_u32_le(self@, self.eof_kind())),
    {
        match nom_le_u32(self.bytes) {
            Some((rest, v)) => Ok((v, Cursor { bytes: rest, eof: self.eof })),
            None => Err(self.eof),
        }
    }

    /// Reads eight bytes as a little-endian number: the bits of a 64-bit
    /// float.
    pub fn read_u64_le(self) -> (r: Result<(u64, Cursor<'a>), DecodeError>)
        ensures
            read_is(r, self, spec_u64_le(self@, self.eof_kind())),
    {
        match nom_le_u64(self.bytes) {
            Some((rest, v)) => Ok((v, Cursor { bytes: rest, eof: self.eof })),
            None => Err(self.eof),
        }
    }

    /// The error of a variable-length integer that does not end within
    /// `max` bytes.
    fn varint_failure(&self, max: usize) -> (e: DecodeError)
        ensures
            e == leb_failure(self@, max as nat, self.eof_kind()),
    {
        if self.bytes.len() == 0 {
            self.eof
        } else if self.bytes.len() < max {
            DecodeError::UnterminatedVarint
        } else {
            DecodeError::IntegerTooLarge
        }
    }

    /// Reads an unsigned LEB128 number of at most five bytes that fits
    /// 32 bits.
    pub fn read_leb128_u32(self) -> (r: Result<(u32, Cursor<'a>), DecodeError>)
        ensures
            read_is(r, self, spec_leb_u32(self@, self.eof_kind())),
            advances(r, self@),
    {
        match nom_leb128_u32(self.bytes) {
            None => Err(self.varint_failure(MAX_LEN_32)),
            Some((rest, v)) => {
                proof {
                    let n = leb_len(self@, MAX_LEN_32 as nat).unwrap();
                    lemma_leb_end(self@, 0, MAX_LEN_32 as nat);
                    lemma_leb_fits_32(self@, n);
                }
                let n = self.bytes.len() - rest.len();
                if n == MAX_LEN_32 && self.bytes[4] > 0x0f {
                    Err(DecodeError::IntegerTooLarge)
                } else {
                    Ok((v, Cursor { bytes: rest, eof: self.eof }))
                }
            },
        }
    }

    /// Reads an unsigned LEB128 number of at most ten bytes that fits
    /// 64 bits.
    pub fn read_leb128_u64(self) -> (r: Result<(u64, Cursor<'a>), DecodeError>)
        ensures
            read_is(r, self, spec_leb_u64(self@, self.eof_kind())),
            advances(r, self@),
    {
        match nom_leb128_u64(self.bytes) {
            None => Err(self.varint_failure(MAX_LEN_64)),
            Some((rest, v)) => {
                proof {
                    let n = leb_len(self@, MAX_LEN_64 as nat).unwrap();
                    lemma_leb_end(self@, 0, MAX_LEN_64 as nat);
                    lemma_leb_fits_64(self@, n);
                }
                let n = self.bytes.len() - rest.len();
                if n == MAX_LEN_64 && self.bytes[9] > 0x01 {
                    Err(DecodeError::IntegerTooLarge)
                } else {
                    Ok((v, Cursor { bytes: rest, eof: self.eof }))
                }
            },
        }
    }

    /// Reads a signed LEB128 number of at most five bytes that fits
    /// 32 bits.
    pub fn read_leb128_i32(self) -> (r: Result<(i32, Cursor<'a>), DecodeError>)
        ensures
            read_is(r, self, spec_leb_i32(self@, self.eof_kind())),
            advances(r, self@),
    {
        match nom_leb128_i32(self.bytes) {
            None => Err(self.varint_failure(MAX_LEN_32)),
            Some((rest, v)) => {
                proof {
                    let n = leb_len(self@, MAX_LEN_32 as nat).unwrap();
                    lemma_leb_end(self@, 0, MAX_LEN_32 as nat);
                    lemma_leb_fits_32(self@, n);
                }
                let n = self.bytes.len() - rest.len();
                if n == MAX_LEN_32 && self.bytes[4] > 0x07 && self.bytes[4] < 0x78 {
                    Err(DecodeError::IntegerTooLarge)
                } else {
                    Ok((v, Cursor { bytes: rest, eof: self.eof }))
                }
            },
        }
    }

    /// Reads a signed LEB128 number of at most ten bytes that fits
    /// 64 bits.
    pub fn read_leb128_i64(self) -> (r: Result<(i64, Cursor<'a>), DecodeError>)
        ensures
            read_is(r, self, spec_leb_i64(self@, self.eof_kind())),
            advances(r, self@),
    {
        match nom_leb128_i64(self.bytes) {
            None => Err(self.varint_failure(MAX_LEN_64)),
            Some((rest, v)) => {
                proof {
                    let n = leb_len(self@, MAX_LEN_64 as nat).unwrap();
                    lemma_leb_end(self@, 0, MAX_LEN_64 as nat);
                    lemma_leb_fits_64(self@, n);
                }
                let n = self.bytes.len() - rest.len();
                if n == MAX_LEN_64 && self.bytes[9] != 0x00 && self.bytes[9] != 0x7f {
                    Err(DecodeError::IntegerTooLarge)
                } else {
                    Ok((v, Cursor { bytes: rest, eof: self.eof }))
                }
            },
        }
    }

    /// Reads a name: a byte length and that many bytes, which must be
    /// valid UTF-8.
    pub fn read_utf8_string(self) -> (r: Result<(String, Cursor<'a>), DecodeError>)
        ensures
            match spec_name(self@, self.eof_kind()) {
                Ok((v, rest)) => r matches Ok((rv, rc)) && rv@ == v && follows(rc, self, rest),
                Err(e) => r matches Err(re) && re == e,
            },
            advances(r, self@),
    {
        let (n, after_len) = match self.read_leb128_u32() {
            Ok(x) => x,
            Err(e) => { return Err(e); },
        };
        let (raw, rest) = match after_len.read_bytes(n as usize) {
            Ok(x) => x,
            Err(e) => { return Err(e); },
        };
        match string_from_utf8(slice_to_vec(raw)) {
            Some(s) => Ok((s, rest)),
            None => Err(DecodeError::InvalidUtf8),
        }
    }
}

/// Bytes after a byte do not change how it is read.
/// Cut short, the read can fail only by running out of bytes.
pub proof fn lemma_u8_extends(s: Seq<u8>, t: Seq<u8>, eof: DecodeError)
    ensures
        extends(spec_u8(s, eof), spec_u8(s + t, eof), t),
        cut_short(spec_u8(s, eof), spec_u8(s + t, eof), eof),
{
    if s.len() > 0 {
        assert((s + t).skip(1) =~= s.skip(1) + t);
    }
}

/// Bytes after a run of `n` bytes do not change how it is read.
/// Cut short, the read can fail only by running out of bytes.
pub proof fn lemma_bytes_extends(s: Seq<u8>, t: Seq<u8>, n: nat, eof: DecodeError)
    ensures
        extends(spec_bytes(s, n, eof), spec_bytes(s + t, n, eof), t),
        cut_short(spec_bytes(s, n, eof), spec_bytes(s + t, n, eof), eof),
{
    if s.len() >= n {
        assert((s + t).take(n as int) =~= s.take(n as int));
        assert((s + t).skip(n as int) =~= s.skip(n as int) + t);
    }
}

/// Bytes after a little-endian 32-bit number do not change how it is
/// read.
/// Cut short, the read can fail only by running out of bytes.
pub proof fn lemma_u32_le_extends(s: Seq<u8>, t: Seq<u8>, eof: DecodeError)
    ensures
        extends(spec_u32_le(s, eof), spec_u32_le(s + t, eof), t),
        cut_short(spec_u32_le(s, eof), spec_u32_le(s + t, eof), eof),
{
    if s.len() >= 4 {
        assert((s + t).skip(4) =~= s.skip(4) + t);
    }
}

/// Bytes after a little-endian 64-bit number do not change how it is
/// read.
/// Cut short, the read can fail only by running out of bytes.
pub proof fn lemma_u64_le_extends(s: Seq<u8>, t: Seq<u8>, eof: DecodeError)
    ensures
        extends(spec_u64_le(s, eof), spec_u64_le(s + t, eof), t),
        cut_short(spec_u64_le(s, eof), spec_u64_le(s + t, eof), eof),
{
    if s.len() >= 8 {
        assert((s + t).skip(8) =~= s.skip(8) + t);
    }
}

/// Bytes after a name do not change how it is read.
/// Cut short, the read can fail only by running out of bytes.
pub proof fn lemma_name_extends(s: Seq<u8>, t: Seq<u8>, eof: DecodeError)
    ensures
        extends(spec_name(s, eof), spec_name(s + t, eof), t),
        cut_short(spec_name(s, eof), spec_name(s + t, eof), eof),
{
    lemma_leb_u32_extends(s, t, eof);
    if spec_leb_u32(s, eof) is Ok {
        let n = spec_leb_u32(s, eof).unwrap().0;
        let rest = spec_leb_u32(s, eof).unwrap().1;
        lemma_bytes_extends(rest, t, n as nat, eof);
    }
}

} // verus!
