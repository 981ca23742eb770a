use vstd::prelude::*;
use crate::binary::section::SectionCode;

verus! {

/// Why a byte sequence is not a module.
#[derive(Debug, Clone, Copy, PartialEq, Eq)]
pub enum DecodeError {
    /// The first four bytes are not `\0asm`.
    BadMagic,
    /// The version field is not 1.
    UnsupportedVersion,
    /// A read needed more bytes than remain, at the top level of the
    /// input or inside a `block`, `loop` or `if` that is still open.
    UnexpectedEof,
    /// A variable-length integer still had its continuation bit set on the
    /// last byte of the buffer.
    UnterminatedVarint,
    /// A variable-length integer encodes a value outside the target width.
    IntegerTooLarge,
    /// The section code is not one of the defined codes.
    UnknownSectionCode(u8),
    /// A length-framed payload was not consumed exactly. `consumed` is
    /// less than `declared` where the decoder was done before the payload
    /// ended, and equal to it where the payload ended before the decoder
    /// was done.
    SectionLengthMismatch { declared: u32, consumed: u32 },
    /// A non-custom section repeats or comes after a later kind.
    SectionOutOfOrder,
    /// A type, kind, flag or mode tag byte is not in its table.
    UnknownTypeTag(u8),
    /// A function type does not start with `0x60`.
    InvalidFunctionTypeTag,
    /// A name is not valid UTF-8.
    InvalidUtf8,
    /// The opcode byte is not in the opcode table.
    UnknownOpcode(u8),
    /// Blocks nest deeper than `MAX_NESTING_DEPTH`.
    NestingTooDeep,
    /// An index refers past the end of the collection it names.
    IndexOutOfRange,
    /// The function and code sections declare different counts.
    CountMismatch,
}

/// What a read returns in the model: the value and the bytes after it.
pub type Read<T> = Result<(T, Seq<u8>), DecodeError>;

/// Whether a read that succeeds on some bytes succeeds in the same way
/// when `t` follows them: `short` is the read of the bytes alone and
/// `long` the read of the bytes with `t` after them.
pub open spec fn extends<T, E>(
    short: Result<(T, Seq<u8>), E>,
    long: Result<(T, Seq<u8>), E>,
    t: Seq<u8>,
) -> bool {
    short matches Ok((v, rest)) ==> long matches Ok((w, longer)) && w == v && longer == rest + t
}

/// The failure of a payload of `declared` bytes that ends before its
/// decoder is done: all of it was consumed, and more was asked for.
pub open spec fn overrun(declared: u32) -> DecodeError {
    DecodeError::SectionLengthMismatch { declared, consumed: declared }
}

/// Whether `e` is a failure of running out of bytes, where `eof` is the
/// error of a read that finds too few of them: `eof` itself, or
/// `UnexpectedEof` inside a block that is still open, or
/// `UnterminatedVarint` inside a number.
pub open spec fn runs_out(e: DecodeError, eof: DecodeError) -> bool {
    e == eof || e == DecodeError::UnexpectedEof || e == DecodeError::UnterminatedVarint
}

/// Whether a read that succeeds on some bytes can only run out of bytes
/// on a prefix of them, if it fails there: `long` is the read of the
/// bytes and `short` the read of the prefix.
pub open spec fn cut_short<T>(short: Read<T>, long: Read<T>, eof: DecodeError) -> bool {
    long is Ok ==> match short {
        Ok(_) => true,
        Err(e) => runs_out(e, eof),
    }
}

/// As `cut_short`, for a counted read.
pub open spec fn cut_short_many<T>(
    short: Result<(Seq<T>, Seq<u8>), Failure>,
    long: Result<(Seq<T>, Seq<u8>), Failure>,
    eof: DecodeError,
) -> bool {
    long is Ok ==> match short {
        Ok(_) => true,
        Err(f) => runs_out(f.kind, eof),
    }
}

/// Whether `r` is the failure `e`.
pub open spec fn fails_with<T, E>(r: Result<T, E>, e: E) -> bool {
    r matches Err(x) && x == e
}

/// A failure inside a counted vector, with the position of the element
/// that failed. `index` is `None` when the count prefix itself failed.
#[derive(Debug, Clone, Copy, PartialEq, Eq)]
pub struct Failure {
    pub kind: DecodeError,
    pub index: Option<u32>,
}

impl Failure {
    pub open spec fn plain(kind: DecodeError) -> Failure {
        Failure { kind, index: None }
    }

    pub open spec fn at(kind: DecodeError, index: u32) -> Failure {
        Failure { kind, index: Some(index) }
    }
}

/// A failure of a whole decode: the kind of the first error, unchanged,
/// and where it happened.
#[derive(Debug, Clone, Copy, PartialEq, Eq)]
pub struct ModuleError {
    pub kind: DecodeError,
    /// The byte offset at which the failing item starts: 0 for the
    /// preamble, the offset of its code byte for a section, the length of
    /// the input for a check across sections.
    pub offset: usize,
    /// The kind of the failing section, once its code was read.
    pub section: Option<SectionCode>,
    /// The position of the failing entry in the section's vector.
    pub entry: Option<u32>,
}

} // verus!
