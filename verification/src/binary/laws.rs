use vstd::prelude::*;
use vstd::utf8::{encode_utf8, is_ascii_chars, is_ascii_chars_encode_utf8};
use crate::binary::cursor::spec_u32_le;
use crate::binary::decode::{elements_overrun, lemma_elements_overrun, spec_vector, Decode};
use crate::binary::error::{
    fails_with,
    overrun,
    runs_out,
    DecodeError,
    Failure,
    ModuleError,
};
use crate::binary::instr::{
    operand_shape,
    spec_instr,
    spec_instr_seq,
    spec_nested,
    BlockType,
    Terminator,
    MAX_NESTING_DEPTH,
    OP_ELSE,
    OP_END,
};
use crate::binary::leb128::{
    leb_len,
    lemma_leb_end,
    lemma_leb_end_prefix,
    lemma_leb_payload_prefix,
    spec_leb_u32,
    MAX_LEN_32,
};
use crate::binary::module::{
    in_order,
    magic_bytes,
    next_last,
    section_error,
    spec_module,
    spec_preamble,
    spec_section,
    spec_section_header,
    spec_sections,
    ModuleView,
    PREAMBLE_LEN,
};
use crate::binary::section::{section_code_of, spec_payload, SectionCode, SectionView};
use crate::binary::segments::{
    consumed_of,
    lemma_body_extends,
    spec_body,
    spec_body_frame,
    FunctionBody,
    FunctionBodyView,
};
use crate::binary::types::Local;

verus! {

/// A 32-bit LEB128 number reads the same when bytes after it are taken
/// away from the end of the buffer.
pub proof fn lemma_leb_u32_truncated(s: Seq<u8>, eof: DecodeError)
    requires
        spec_leb_u32(s, eof) is Ok,
        spec_leb_u32(s, eof).unwrap().1.len() >= 1,
    ensures
        spec_leb_u32(s.drop_last(), eof) == Ok::<(u32, Seq<u8>), DecodeError>(
            (spec_leb_u32(s, eof).unwrap().0, spec_leb_u32(s, eof).unwrap().1.drop_last()),
        ),
{
    let t = s.drop_last();
    let n = leb_len(s, MAX_LEN_32 as nat).unwrap();
    lemma_leb_end(s, 0, MAX_LEN_32 as nat);
    lemma_leb_end_prefix(s, t, 0, MAX_LEN_32 as nat);
    lemma_leb_payload_prefix(s, t, n);
    assert(t.skip(n as int) =~= s.skip(n as int).drop_last());
}

/// No section has an empty payload.
pub proof fn lemma_payload_not_empty(code: SectionCode, payload: Seq<u8>, eof: DecodeError)
    requires
        spec_payload(code, payload, eof) is Ok,
    ensures
        payload.len() >= 1,
{
}

/// The magic text of a module, `\0asm`, is what its magic bytes spell.
pub proof fn law_magic_text()
    ensures
        encode_utf8("\0asm"@) == magic_bytes(),
{
    reveal_strlit("\0asm");
    let chars = "\0asm"@;
    assert(is_ascii_chars(chars));
    is_ascii_chars_encode_utf8(chars);
    assert(encode_utf8(chars) =~= magic_bytes());
}

/// An input that is a sound preamble and nothing more decodes to the
/// module with empty collections.
pub proof fn law_preamble_only(s: Seq<u8>)
    requires
        spec_preamble(s) matches Ok(rest) && rest.len() == 0,
    ensures
        spec_module(s) == Ok::<ModuleView, ModuleError>(ModuleView::empty()),
{
}

/// A byte that stands for no section kind, where a section should start,
/// fails the section with `UnknownSectionCode`, whatever follows it.
pub proof fn law_unknown_section_code(s: Seq<u8>, last: u8, offset: nat, eof: DecodeError)
    requires
        s.len() >= 1,
        s[0] > 11,
    ensures
        fails_with(
            spec_section(s, last, offset, eof),
            section_error(DecodeError::UnknownSectionCode(s[0]), offset, None, None),
        ),
{
}

/// A section that is not custom and whose kind does not come after the
/// latest kind before it fails with `SectionOutOfOrder`, whatever its
/// payload holds.
pub proof fn law_section_out_of_order(s: Seq<u8>, last: u8, offset: nat, eof: DecodeError)
    requires
        spec_section_header(s, eof) is Ok,
        spec_section_header(s, eof).unwrap().0.0 != SectionCode::Custom,
        spec_section_header(s, eof).unwrap().0.0.spec_code() <= last,
    ensures
        fails_with(
            spec_section(s, last, offset, eof),
            section_error(
                DecodeError::SectionOutOfOrder,
                offset,
                Some(spec_section_header(s, eof).unwrap().0.0),
                None,
            ),
        ),
{
}

/// A section that decodes takes at least three bytes: its code, its
/// length and a payload that is not empty.
pub proof fn lemma_section_advances(s: Seq<u8>, last: u8, offset: nat, eof: DecodeError)
    requires
        spec_section(s, last, offset, eof) is Ok,
    ensures
        spec_section(s, last, offset, eof).unwrap().1.len() + 3 <= s.len(),
        spec_section_header(s, eof) is Ok,
        spec_section(s, last, offset, eof).unwrap().0.1 == next_last(
            spec_section_header(s, eof).unwrap().0.0,
            last,
        ),
{
    let code = spec_section_header(s, eof).unwrap().0.0;
    let size = spec_section_header(s, eof).unwrap().0.1;
    let r1 = spec_section_header(s, eof).unwrap().1;
    lemma_leb_end(s.skip(1), 0, MAX_LEN_32 as nat);
    lemma_payload_not_empty(code, r1.take(size as int), overrun(size));
}

/// A vector that ends where an entry that its count announced should
/// start fails as a read that finds too few bytes does: inside a frame,
/// with `SectionLengthMismatch`.
pub proof fn law_vector_overrun<T: Decode>(s: Seq<u8>, eof: DecodeError, n: u32, entries: Seq<u8>)
    requires
        spec_leb_u32(s, eof) == Ok::<_, DecodeError>((n, entries)),
        elements_overrun::<T>(entries, n as nat, eof),
    ensures
        spec_vector::<T>(s, eof) matches Err(f) && f.kind == eof,
{
    lemma_elements_overrun::<T>(entries, n as nat, 0, eof);
}

/// A section whose payload ends before its decoder is done, with no
/// `block`, `loop` or `if` open: the decoder fails where it finds too few
/// bytes, and the section fails with `SectionLengthMismatch`, in which
/// all the declared bytes are consumed.
pub proof fn law_section_overrun(
    s: Seq<u8>,
    last: u8,
    offset: nat,
    eof: DecodeError,
    code: SectionCode,
    size: u32,
    after_header: Seq<u8>,
    failure: Failure,
)
    requires
        spec_section_header(s, eof) == Ok::<_, DecodeError>(((code, size), after_header)),
        in_order(code, last),
        after_header.len() >= size,
        fails_with(
            spec_payload(code, after_header.take(size as int), overrun(size)),
            failure,
        ),
        failure.kind == overrun(size),
    ensures
        fails_with(
            spec_section(s, last, offset, eof),
            section_error(
                DecodeError::SectionLengthMismatch { declared: size, consumed: size },
                offset,
                Some(code),
                failure.index,
            ),
        ),
{
}

/// A section whose decoder is done before its payload ends fails with
/// `SectionLengthMismatch`, which says how many bytes were declared and
/// how many the decoder took.
pub proof fn law_section_short(
    s: Seq<u8>,
    last: u8,
    offset: nat,
    eof: DecodeError,
    code: SectionCode,
    size: u32,
    after_header: Seq<u8>,
    section: SectionView,
    left: Seq<u8>,
)
    requires
        spec_section_header(s, eof) == Ok::<_, DecodeError>(((code, size), after_header)),
        in_order(code, last),
        after_header.len() >= size,
        spec_payload(code, after_header.take(size as int), overrun(size)) == Ok::<_, Failure>(
            (section, left),
        ),
        left.len() > 0,
    ensures
        fails_with(
            spec_section(s, last, offset, eof),
            section_error(
                DecodeError::SectionLengthMismatch {
                    declared: size,
                    consumed: consumed_of(size, left),
                },
                offset,
                Some(code),
                None,
            ),
        ),
{
}

/// A section whose payload the input cannot fill fails as a read that
/// finds too few bytes does outside the payload: at the top level of a
/// module, with `UnexpectedEof`.
pub proof fn law_section_unfilled(
    s: Seq<u8>,
    last: u8,
    offset: nat,
    eof: DecodeError,
    code: SectionCode,
    size: u32,
    after_header: Seq<u8>,
)
    requires
        spec_section_header(s, eof) == Ok::<_, DecodeError>(((code, size), after_header)),
        in_order(code, last),
        after_header.len() < size,
    ensures
        fails_with(spec_section(s, last, offset, eof), section_error(eof, offset, Some(code), None)),
{
}

/// How far a decode has come: the bytes that are left, the code byte of
/// the latest section that was not custom, the module so far, and the
/// byte offset of the bytes that are left.
pub struct Progress {
    pub rest: Seq<u8>,
    pub last: u8,
    pub module: ModuleView,
    pub offset: nat,
}

/// Where a decode stands after the preamble of `s`.
pub open spec fn after_preamble(s: Seq<u8>) -> Progress {
    Progress {
        rest: spec_preamble(s).unwrap(),
        last: 0,
        module: ModuleView::empty(),
        offset: PREAMBLE_LEN as nat,
    }
}

/// Where a decode stands after `k` more sections, if they decode.
pub open spec fn after_sections(p: Progress, k: nat) -> Option<Progress>
    decreases k,
{
    if k == 0 {
        Some(p)
    } else if p.rest.len() == 0 {
        None
    } else {
        match spec_section(p.rest, p.last, p.offset, DecodeError::UnexpectedEof) {
            Err(_) => None,
            Ok(((section, last), rest)) => after_sections(
                Progress {
                    rest,
                    last,
                    module: p.module.with_section(section),
                    offset: (p.offset + p.rest.len() - rest.len()) as nat,
                },
                (k - 1) as nat,
            ),
        }
    }
}

/// What the sections decode to from a point is what they decode to from
/// any point that the decode comes to later, and the code byte of the
/// latest section that was not custom never falls.
pub proof fn lemma_sections_from(p: Progress, k: nat)
    requires
        after_sections(p, k) is Some,
    ensures
        spec_sections(p.rest, p.last, p.module, p.offset) == spec_sections(
            after_sections(p, k).unwrap().rest,
            after_sections(p, k).unwrap().last,
            after_sections(p, k).unwrap().module,
            after_sections(p, k).unwrap().offset,
        ),
        after_sections(p, k).unwrap().last >= p.last,
    decreases k,
{
    if k > 0 {
        let section = spec_section(p.rest, p.last, p.offset, DecodeError::UnexpectedEof).unwrap().0.0;
        let last = spec_section(p.rest, p.last, p.offset, DecodeError::UnexpectedEof).unwrap().0.1;
        let rest = spec_section(p.rest, p.last, p.offset, DecodeError::UnexpectedEof).unwrap().1;
        lemma_section_advances(p.rest, p.last, p.offset, DecodeError::UnexpectedEof);
        lemma_sections_from(
            Progress {
                rest,
                last,
                module: p.module.with_section(section),
                offset: (p.offset + p.rest.len() - rest.len()) as nat,
            },
            (k - 1) as nat,
        );
    }
}

/// Wherever in an input a section should start, after any number of
/// sections that decode, a byte that stands for no section kind fails
/// the decode with `UnknownSectionCode` at the offset of that byte.
pub proof fn law_unknown_section_code_anywhere(s: Seq<u8>, k: nat)
    requires
        spec_preamble(s) is Ok,
        after_sections(after_preamble(s), k) is Some,
        after_sections(after_preamble(s), k).unwrap().rest.len() >= 1,
        after_sections(after_preamble(s), k).unwrap().rest[0] > 11,
    ensures
        fails_with(
            spec_module(s),
            section_error(
                DecodeError::UnknownSectionCode(
                    after_sections(after_preamble(s), k).unwrap().rest[0],
                ),
                after_sections(after_preamble(s), k).unwrap().offset,
                None,
                None,
            ),
        ),
{
    let q = after_sections(after_preamble(s), k).unwrap();
    lemma_sections_from(after_preamble(s), k);
    law_unknown_section_code(q.rest, q.last, q.offset, DecodeError::UnexpectedEof);
}

/// Two sections of one kind that is not custom never both decode,
/// however many sections stand before the first and between the two:
/// where all the others decode, the second of the two fails the decode
/// with `SectionOutOfOrder` at its own offset.
pub proof fn law_repeated_kind_anywhere(s: Seq<u8>, before: nat, between: nat)
    requires
        spec_preamble(s) is Ok,
        after_sections(after_preamble(s), before) is Some,
        after_sections(after_preamble(s), before).unwrap().rest.len() >= 1,
        1 <= after_sections(after_preamble(s), before).unwrap().rest[0] <= 11,
        after_sections(after_sections(after_preamble(s), before).unwrap(), 1 + between) is Some,
        spec_section_header(
            after_sections(
                after_sections(after_preamble(s), before).unwrap(),
                1 + between,
            ).unwrap().rest,
            DecodeError::UnexpectedEof,
        ) is Ok,
        after_sections(
            after_sections(after_preamble(s), before).unwrap(),
            1 + between,
        ).unwrap().rest[0] == after_sections(after_preamble(s), before).unwrap().rest[0],
    ensures
        fails_with(
            spec_module(s),
            section_error(
                DecodeError::SectionOutOfOrder,
                after_sections(
                    after_sections(after_preamble(s), before).unwrap(),
                    1 + between,
                ).unwrap().offset,
                section_code_of(after_sections(after_preamble(s), before).unwrap().rest[0]),
                None,
            ),
        ),
{
    let first = after_sections(after_preamble(s), before).unwrap();
    let second = after_sections(first, 1 + between).unwrap();
    lemma_sections_from(after_preamble(s), before);
    lemma_sections_from(first, 1 + between);
    // The state right after the first of the two sections.
    let section = spec_section(first.rest, first.last, first.offset, DecodeError::UnexpectedEof).unwrap().0.0;
    let last = spec_section(first.rest, first.last, first.offset, DecodeError::UnexpectedEof).unwrap().0.1;
    let rest = spec_section(first.rest, first.last, first.offset, DecodeError::UnexpectedEof).unwrap().1;
    let next = Progress {
        rest,
        last,
        module: first.module.with_section(section),
        offset: (first.offset + first.rest.len() - rest.len()) as nat,
    };
    lemma_section_advances(first.rest, first.last, first.offset, DecodeError::UnexpectedEof);
    assert(last == first.rest[0]);
    assert(after_sections(first, 1 + between) == after_sections(next, between));
    lemma_sections_from(next, between);
    law_section_out_of_order(second.rest, second.last, second.offset, DecodeError::UnexpectedEof);
}

/// A section that decodes, with the last byte of the input taken away:
/// where bytes follow the section it decodes as before, and where none
/// does it fails with `UnexpectedEof`.
pub proof fn lemma_truncated_section(s: Seq<u8>, last: u8, offset: nat)
    requires
        spec_section(s, last, offset, DecodeError::UnexpectedEof) is Ok,
    ensures
        spec_section(s, last, offset, DecodeError::UnexpectedEof).unwrap().1.len() == 0 ==> (spec_section(
            s.drop_last(),
            last,
            offset,
            DecodeError::UnexpectedEof,
        ) matches Err(e) && e.kind == DecodeError::UnexpectedEof),
        spec_section(s, last, offset, DecodeError::UnexpectedEof).unwrap().1.len() > 0 ==> (spec_section(
            s.drop_last(),
            last,
            offset,
            DecodeError::UnexpectedEof,
        ) matches Ok((x, rest)) && x == spec_section(s, last, offset, DecodeError::UnexpectedEof).unwrap().0 && rest
            == spec_section(s, last, offset, DecodeError::UnexpectedEof).unwrap().1.drop_last()),
{
    let t = s.drop_last();
    let rest = spec_section(s, last, offset, DecodeError::UnexpectedEof).unwrap().1;
    let code = spec_section_header(s, DecodeError::UnexpectedEof).unwrap().0.0;
    let size = spec_section_header(s, DecodeError::UnexpectedEof).unwrap().0.1;
    let r1 = spec_section_header(s, DecodeError::UnexpectedEof).unwrap().1;
    let payload = r1.take(size as int);
    lemma_section_advances(s, last, offset, DecodeError::UnexpectedEof);
    lemma_payload_not_empty(code, payload, overrun(size));
    assert(t.skip(1) =~= s.skip(1).drop_last());
    lemma_leb_u32_truncated(s.skip(1), DecodeError::UnexpectedEof);
    let t1 = r1.drop_last();
    assert(spec_section_header(t, DecodeError::UnexpectedEof) matches Ok((x, r)) && x == (code, size) && r == t1);
    if rest.len() == 0 {
        assert(t1.len() < size);
    } else {
        assert(t1.take(size as int) =~= payload);
        assert(t1.skip(size as int) =~= rest.drop_last());
    }
}

/// Sections that decode up to the end of the input fail with
/// `UnexpectedEof` once the last byte of the input is taken away.
pub proof fn lemma_truncated_sections(s: Seq<u8>, last: u8, m: ModuleView, offset: nat)
    requires
        s.len() >= 1,
        spec_sections(s, last, m, offset) is Ok,
    ensures
        spec_sections(s.drop_last(), last, m, offset) matches Err(e) && e.kind
            == DecodeError::UnexpectedEof,
    decreases s.len(),
{
    let rest = spec_section(s, last, offset, DecodeError::UnexpectedEof).unwrap().1;
    let section = spec_section(s, last, offset, DecodeError::UnexpectedEof).unwrap().0.0;
    let new_last = spec_section(s, last, offset, DecodeError::UnexpectedEof).unwrap().0.1;
    lemma_section_advances(s, last, offset, DecodeError::UnexpectedEof);
    lemma_truncated_section(s, last, offset);
    if rest.len() > 0 {
        lemma_truncated_sections(
            rest,
            new_last,
            m.with_section(section),
            (offset + s.len() - rest.len()) as nat,
        );
    }
}

/// An input that decodes to a module fails with `UnexpectedEof` once its
/// last byte is taken away: it never decodes to another module.
pub proof fn law_truncated_module(s: Seq<u8>)
    requires
        spec_module(s) is Ok,
    ensures
        spec_module(s.drop_last()) matches Err(e) && e.kind == DecodeError::UnexpectedEof,
{
    let t = s.drop_last();
    let first = spec_preamble(s).unwrap();
    assert(first == s.skip(4).skip(4));
    assert(t.skip(4) =~= s.skip(4).drop_last());
    if first.len() == 0 {
        assert(t.skip(4).len() < 4);
        assert(spec_u32_le(t.skip(4), DecodeError::UnexpectedEof) is Err);
    } else {
        assert(t.skip(4).skip(4) =~= first.drop_last());
        assert(spec_preamble(t) == Ok::<Seq<u8>, DecodeError>(first.drop_last()));
        lemma_truncated_sections(first, 0, ModuleView::empty(), PREAMBLE_LEN as nat);
    }
}

/// A code entry whose locals and instructions end exactly where its
/// frame ends decodes to them. One whose locals and instructions end
/// before its frame does fails with `SectionLengthMismatch`, which says
/// how many bytes were declared and how many the body took.
pub proof fn law_body_length(
    s: Seq<u8>,
    eof: DecodeError,
    declared: u32,
    frame: Seq<u8>,
    rest: Seq<u8>,
    body: FunctionBodyView,
    left: Seq<u8>,
)
    requires
        spec_body_frame(s, eof) == Ok::<_, DecodeError>(((declared, frame), rest)),
        spec_body(frame, overrun(declared)) == Ok::<_, DecodeError>((body, left)),
    ensures
        left.len() == 0 ==> FunctionBody::spec_decode(s, eof) == Ok::<_, DecodeError>(
            (body, rest),
        ),
        left.len() > 0 ==> fails_with(
            FunctionBody::spec_decode(s, eof),
            DecodeError::SectionLengthMismatch {
                declared,
                consumed: consumed_of(declared, left),
            },
        ),
{
}

/// Where bytes decode to a value and none is left, no shorter prefix of
/// them decodes: a value is never taken for whole before its last byte,
/// and the prefix fails by running out of bytes.
pub proof fn law_prefix_never_decodes<T: Decode>(s: Seq<u8>, k: int, eof: DecodeError)
    requires
        T::spec_decode(s, eof) matches Ok((_, rest)) && rest.len() == 0,
        0 <= k < s.len(),
    ensures
        T::spec_decode(s.take(k), eof) matches Err(e) && runs_out(e, eof),
{
    let front = s.take(k);
    let back = s.skip(k);
    assert(front + back =~= s);
    T::lemma_extends(front, back, eof);
    if T::spec_decode(front, eof) is Ok {
        let left = T::spec_decode(front, eof).unwrap().1;
        assert((left + back).len() == 0);
    }
}

/// An instruction that decodes keeps the opcode that it was decoded
/// from, which is one of the opcode table.
pub proof fn law_decoded_opcode(s: Seq<u8>, depth: nat, eof: DecodeError)
    requires
        spec_instr(s, depth, eof) is Ok,
    ensures
        s.len() >= 1,
        spec_instr(s, depth, eof).unwrap().0.opcode() == s[0],
        operand_shape(s[0]) is Some,
{
}

/// A stream of instructions inside a block that runs out of bytes at the
/// boundary of an instruction, before the `end` that would close it: at
/// this depth, inside a `block`, `loop` or `if` that it opened, or
/// inside the `else` branch of an `if`.
pub open spec fn unterminated(s: Seq<u8>, depth: nat) -> bool
    decreases s.len(), 1nat,
{
    if s.len() == 0 {
        true
    } else if s[0] == OP_END || s[0] == OP_ELSE {
        false
    } else {
        ||| runs_out_after_first(s, depth)
        ||| runs_out_in_block(s, depth)
        ||| runs_out_in_else(s, depth)
    }
}

/// The first instruction of `s` is whole, and what follows it is
/// unterminated.
pub open spec fn runs_out_after_first(s: Seq<u8>, depth: nat) -> bool
    decreases s.len(), 0nat,
{
    match spec_instr(s, depth, DecodeError::UnexpectedEof) {
        Ok((_, rest)) => rest.len() < s.len() && unterminated(rest, depth),
        Err(_) => false,
    }
}

/// `s` opens a `block`, a `loop` or an `if`, and what follows the block
/// type is unterminated one level deeper.
pub open spec fn runs_out_in_block(s: Seq<u8>, depth: nat) -> bool
    decreases s.len(), 0nat,
{
    s.len() >= 1 && (s[0] == 0x02 || s[0] == 0x03 || s[0] == 0x04) && depth < MAX_NESTING_DEPTH
        && match BlockType::spec_decode(s.skip(1), DecodeError::UnexpectedEof) {
        Ok((_, body)) => body.len() < s.len() && unterminated(body, depth + 1),
        Err(_) => false,
    }
}

/// `s` opens an `if` whose first branch ends with `else`, and what
/// follows the `else` is unterminated.
pub open spec fn runs_out_in_else(s: Seq<u8>, depth: nat) -> bool
    decreases s.len(), 0nat,
{
    s.len() >= 1 && s[0] == 0x04 && match spec_nested(s.skip(1), depth) {
        Ok(((_, _, Terminator::Else), branch)) => branch.len() < s.len() && unterminated(
            branch,
            depth + 1,
        ),
        _ => false,
    }
}

/// An unterminated stream of instructions inside a block fails with
/// `UnexpectedEof`.
pub proof fn law_unterminated(s: Seq<u8>, depth: nat)
    requires
        unterminated(s, depth),
    ensures
        fails_with(
            spec_instr_seq(s, depth, DecodeError::UnexpectedEof),
            DecodeError::UnexpectedEof,
        ),
    decreases s.len(),
{
    if s.len() == 0 {
    } else if runs_out_after_first(s, depth) {
        law_unterminated(spec_instr(s, depth, DecodeError::UnexpectedEof).unwrap().1, depth);
    } else if runs_out_in_block(s, depth) {
        law_unterminated(
            BlockType::spec_decode(s.skip(1), DecodeError::UnexpectedEof).unwrap().1,
            depth + 1,
        );
    } else {
        law_unterminated(spec_nested(s.skip(1), depth).unwrap().1, depth + 1);
    }
}

/// A stream of instructions outside any block that is made of whole
/// instructions and then ends, before the `end` that would close it:
/// between two instructions, or inside one that finds too few bytes.
pub open spec fn overruns(s: Seq<u8>, depth: nat, eof: DecodeError) -> bool
    decreases s.len(),
{
    if s.len() == 0 {
        true
    } else if s[0] == OP_END || s[0] == OP_ELSE {
        false
    } else {
        match spec_instr(s, depth, eof) {
            Ok((_, rest)) => rest.len() < s.len() && overruns(rest, depth, eof),
            Err(e) => e == eof,
        }
    }
}

/// A stream of instructions outside any block that is made of whole
/// instructions and then of a `block`, `loop` or `if` whose inside is
/// unterminated.
pub open spec fn ends_in_open_block(s: Seq<u8>, depth: nat, eof: DecodeError) -> bool
    decreases s.len(),
{
    if s.len() == 0 || s[0] == OP_END || s[0] == OP_ELSE {
        false
    } else {
        ||| runs_out_in_block(s, depth)
        ||| runs_out_in_else(s, depth)
        ||| match spec_instr(s, depth, eof) {
            Ok((_, rest)) => rest.len() < s.len() && ends_in_open_block(rest, depth, eof),
            Err(_) => false,
        }
    }
}

/// A stream that ends with no block open, before the `end` that would
/// close it, fails as a read that finds too few bytes does there: inside
/// a frame, with `SectionLengthMismatch`.
pub proof fn law_overrun(s: Seq<u8>, depth: nat, eof: DecodeError)
    requires
        overruns(s, depth, eof),
    ensures
        fails_with(spec_instr_seq(s, depth, eof), eof),
    decreases s.len(),
{
    if s.len() > 0 && spec_instr(s, depth, eof) is Ok {
        law_overrun(spec_instr(s, depth, eof).unwrap().1, depth, eof);
    }
}

/// A `block`, `loop` or `if` that has no matching `end` before its bytes
/// run out fails with `UnexpectedEof`, whatever stands around it: the
/// instructions inside it are not taken for the whole of it.
pub proof fn law_block_without_end(s: Seq<u8>, depth: nat, eof: DecodeError)
    requires
        runs_out_in_block(s, depth) || runs_out_in_else(s, depth),
    ensures
        fails_with(spec_instr(s, depth, eof), DecodeError::UnexpectedEof),
{
    if runs_out_in_block(s, depth) {
        law_unterminated(
            BlockType::spec_decode(s.skip(1), DecodeError::UnexpectedEof).unwrap().1,
            depth + 1,
        );
    } else {
        law_unterminated(spec_nested(s.skip(1), depth).unwrap().1, depth + 1);
    }
}

/// An `if` that has no matching `end` before its bytes run out fails
/// with `UnexpectedEof`.
pub proof fn law_if_without_end(s: Seq<u8>, depth: nat, eof: DecodeError)
    requires
        s.len() >= 1,
        s[0] == 0x04,
        depth < MAX_NESTING_DEPTH,
        BlockType::spec_decode(s.skip(1), DecodeError::UnexpectedEof) is Ok,
        unterminated(
            BlockType::spec_decode(s.skip(1), DecodeError::UnexpectedEof).unwrap().1,
            depth + 1,
        ),
    ensures
        fails_with(spec_instr(s, depth, eof), DecodeError::UnexpectedEof),
        fails_with(spec_instr_seq(s, depth, eof), DecodeError::UnexpectedEof),
{
    assert(BlockType::spec_decode(s.skip(1), DecodeError::UnexpectedEof).unwrap().1.len()
        < s.len());
    law_block_without_end(s, depth, eof);
}

/// A stream that ends inside a `block`, `loop` or `if` that it opened
/// fails with `UnexpectedEof`, whatever stands around the stream.
pub proof fn law_open_block(s: Seq<u8>, depth: nat, eof: DecodeError)
    requires
        ends_in_open_block(s, depth, eof),
    ensures
        fails_with(spec_instr_seq(s, depth, eof), DecodeError::UnexpectedEof),
    decreases s.len(),
{
    if runs_out_in_block(s, depth) || runs_out_in_else(s, depth) {
        law_block_without_end(s, depth, eof);
    } else {
        law_open_block(spec_instr(s, depth, eof).unwrap().1, depth, eof);
    }
}

/// The frame of a code entry holds locals and instructions that run past
/// it with no block open: it ends inside the locals, or the
/// instructions overrun it.
pub open spec fn body_overruns(frame: Seq<u8>, declared: u32) -> bool {
    match spec_vector::<Local>(frame, overrun(declared)) {
        Ok((_, code)) => overruns(code, 0, overrun(declared)),
        Err(f) => f.kind == overrun(declared),
    }
}

/// The frame of a code entry holds its locals and then instructions that
/// end inside a `block`, `loop` or `if` that is still open.
pub open spec fn body_ends_in_open_block(frame: Seq<u8>, declared: u32) -> bool {
    match spec_vector::<Local>(frame, overrun(declared)) {
        Ok((_, code)) => ends_in_open_block(code, 0, overrun(declared)),
        Err(_) => false,
    }
}

/// A code entry whose frame ends while its instructions are still open,
/// with no `block`, `loop` or `if` open: the instructions run past the
/// declared length, and the entry fails with `SectionLengthMismatch`, in
/// which all the declared bytes are consumed.
pub proof fn law_body_overrun(
    s: Seq<u8>,
    eof: DecodeError,
    declared: u32,
    frame: Seq<u8>,
    rest: Seq<u8>,
)
    requires
        spec_body_frame(s, eof) == Ok::<_, DecodeError>(((declared, frame), rest)),
        body_overruns(frame, declared),
    ensures
        fails_with(
            FunctionBody::spec_decode(s, eof),
            DecodeError::SectionLengthMismatch { declared, consumed: declared },
        ),
{
    if spec_vector::<Local>(frame, overrun(declared)) is Ok {
        law_overrun(
            spec_vector::<Local>(frame, overrun(declared)).unwrap().1,
            0,
            overrun(declared),
        );
    }
}

/// A code entry whose frame ends inside a `block`, `loop` or `if` that
/// is still open fails with `UnexpectedEof`, whatever follows the frame.
pub proof fn law_body_open_block(
    s: Seq<u8>,
    eof: DecodeError,
    declared: u32,
    frame: Seq<u8>,
    rest: Seq<u8>,
)
    requires
        spec_body_frame(s, eof) == Ok::<_, DecodeError>(((declared, frame), rest)),
        body_ends_in_open_block(frame, declared),
    ensures
        fails_with(FunctionBody::spec_decode(s, eof), DecodeError::UnexpectedEof),
{
    law_open_block(
        spec_vector::<Local>(frame, overrun(declared)).unwrap().1,
        0,
        overrun(declared),
    );
}

/// A code entry that declares a length and then holds `b`, the exact
/// bytes of a body, and `tail` after them. Where the declared length is
/// that of `b` the entry decodes to the body and leaves `tail`. Where it
/// is longer, and the bytes are there, the entry fails with
/// `SectionLengthMismatch`, which names the declared length and the
/// length of `b`. Where it is shorter the entry never decodes. It fails
/// with `SectionLengthMismatch`, in which all the declared bytes are
/// consumed, or with `UnexpectedEof`, or with `UnterminatedVarint`: the
/// first where the frame ends between instructions with no block open,
/// the second where it ends between instructions inside a block that is
/// still open.
pub proof fn law_body_framing(
    s: Seq<u8>,
    eof: DecodeError,
    declared: u32,
    b: Seq<u8>,
    tail: Seq<u8>,
    body: FunctionBodyView,
)
    requires
        spec_body(b, overrun(declared)) == Ok::<_, DecodeError>((body, Seq::<u8>::empty())),
        spec_leb_u32(s, eof) == Ok::<_, DecodeError>((declared, b + tail)),
    ensures
        declared == b.len() ==> FunctionBody::spec_decode(s, eof) == Ok::<_, DecodeError>(
            (body, tail),
        ),
        b.len() < declared <= b.len() + tail.len() ==> fails_with(
            FunctionBody::spec_decode(s, eof),
            DecodeError::SectionLengthMismatch { declared, consumed: b.len() as u32 },
        ),
        declared < b.len() ==> (FunctionBody::spec_decode(s, eof) matches Err(e) && (e
            == DecodeError::SectionLengthMismatch { declared, consumed: declared } || e
            == DecodeError::UnexpectedEof || e == DecodeError::UnterminatedVarint)),
        declared < b.len() && body_overruns(b.take(declared as int), declared) ==> fails_with(
            FunctionBody::spec_decode(s, eof),
            DecodeError::SectionLengthMismatch { declared, consumed: declared },
        ),
        declared < b.len() && body_ends_in_open_block(b.take(declared as int), declared)
            ==> fails_with(FunctionBody::spec_decode(s, eof), DecodeError::UnexpectedEof),
{
    let r1 = b + tail;
    if declared == b.len() {
        assert(r1.take(declared as int) =~= b);
        assert(r1.skip(declared as int) =~= tail);
    } else if b.len() < declared <= b.len() + tail.len() {
        let extra = tail.take(declared - b.len());
        assert(r1.take(declared as int) =~= b + extra);
        lemma_body_extends(b, extra, overrun(declared));
        assert(Seq::<u8>::empty() + extra =~= extra);
    } else if declared < b.len() {
        let frame = b.take(declared as int);
        let cut = b.skip(declared as int);
        assert(r1.take(declared as int) =~= frame);
        assert(frame + cut =~= b);
        lemma_body_extends(frame, cut, overrun(declared));
        if spec_body(frame, overrun(declared)) is Ok {
            let left = spec_body(frame, overrun(declared)).unwrap().1;
            assert((left + cut).len() == 0);
        }
        if spec_vector::<Local>(frame, overrun(declared)) is Ok {
            let code = spec_vector::<Local>(frame, overrun(declared)).unwrap().1;
            if overruns(code, 0, overrun(declared)) {
                law_overrun(code, 0, overrun(declared));
            }
            if ends_in_open_block(code, 0, overrun(declared)) {
                law_open_block(code, 0, overrun(declared));
            }
        }
    }
}

} // verus!
