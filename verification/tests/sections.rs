use wasm_decode::binary::cursor::Cursor;
use wasm_decode::binary::error::{DecodeError, Failure, ModuleError};
use wasm_decode::binary::instr::Instruction;
use wasm_decode::binary::module::{decode_section, decode_section_header};
use wasm_decode::binary::section::{decode_payload, Section, SectionCode};
use wasm_decode::binary::segments::{
    decode_body, decode_custom, decode_mode, CustomSection, DataSegment, ElementItems,
    ElementSegment, Expr, FunctionBody, Global, SegmentMode,
};
use wasm_decode::binary::types::{FunctionType, GlobalType, Local, RefType, ValType};
use wasm_decode::binary::decode::Decode;

fn i32_const(v: i32) -> Expr {
    Expr { instrs: vec![Instruction::I32Const(v)] }
}

#[test]
fn section_codes() {
    let all = [
        SectionCode::Custom,
        SectionCode::Type,
        SectionCode::Import,
        SectionCode::Function,
        SectionCode::Table,
        SectionCode::Memory,
        SectionCode::Global,
        SectionCode::Export,
        SectionCode::Start,
        SectionCode::Element,
        SectionCode::Code,
        SectionCode::Data,
    ];
    for (i, code) in all.iter().enumerate() {
        assert_eq!(SectionCode::from_u8(i as u8), Some(*code));
        assert_eq!(code.code(), i as u8);
    }
    for b in 12..=255u8 {
        assert_eq!(SectionCode::from_u8(b), None);
    }
}

#[test]
fn section_header_reads_code_and_size() {
    let ((code, size), rest) = decode_section_header(Cursor::new(&[0x01, 0x85, 0x01, 0x60])).unwrap();
    assert_eq!(code, SectionCode::Type);
    assert_eq!(size, 133);
    assert_eq!(rest.as_bytes(), &[0x60u8][..]);
    assert_eq!(
        decode_section_header(Cursor::new(&[0x0c, 0x00])).err(),
        Some(DecodeError::UnknownSectionCode(0x0c))
    );
    assert_eq!(
        decode_section_header(Cursor::new(&[0xff])).err(),
        Some(DecodeError::UnknownSectionCode(0xff))
    );
    assert_eq!(
        decode_section_header(Cursor::new(&[])).err(),
        Some(DecodeError::UnexpectedEof)
    );
    assert_eq!(
        decode_section_header(Cursor::new(&[0x01])).err(),
        Some(DecodeError::UnexpectedEof)
    );
    assert_eq!(
        decode_section_header(Cursor::new(&[0x01, 0x80])).err(),
        Some(DecodeError::UnterminatedVarint)
    );
}

#[test]
fn expression_decodes_to_its_end() {
    let (e, rest) = Expr::decode(Cursor::new(&[0x41, 0x08, 0x0b, 0x02])).unwrap();
    assert_eq!(e, i32_const(8));
    assert_eq!(rest.as_bytes(), &[0x02u8][..]);
}

#[test]
fn global_entry() {
    let (g, rest) = Global::decode(Cursor::new(&[0x7f, 0x01, 0x41, 0x07, 0x0b])).unwrap();
    assert_eq!(
        g,
        Global { ty: GlobalType { value: ValType::I32, mutable: true }, init: i32_const(7) }
    );
    assert!(rest.is_empty());
    assert_eq!(
        Global::decode(Cursor::new(&[0x7f, 0x00, 0x41, 0x07])).err(),
        Some(DecodeError::UnexpectedEof)
    );
}

#[test]
fn segment_modes() {
    let (m, rest) = decode_mode(Cursor::new(&[0x41, 0x00, 0x0b, 0x01]), true, false, false).unwrap();
    assert_eq!(m, SegmentMode::Active { index: 0, offset: i32_const(0) });
    assert_eq!(rest.remaining(), 1);
    let (m, rest) = decode_mode(Cursor::new(&[0x02, 0x41, 0x04, 0x0b]), true, true, false).unwrap();
    assert_eq!(m, SegmentMode::Active { index: 2, offset: i32_const(4) });
    assert!(rest.is_empty());
    let (m, rest) = decode_mode(Cursor::new(&[0x09]), false, false, false).unwrap();
    assert_eq!(m, SegmentMode::Passive);
    assert_eq!(rest.remaining(), 1);
    let (m, rest) = decode_mode(Cursor::new(&[0x09]), false, false, true).unwrap();
    assert_eq!(m, SegmentMode::Declarative);
    assert_eq!(rest.remaining(), 1);
}

#[test]
fn element_segments_by_flag() {
    let (e, _) = ElementSegment::decode(Cursor::new(&[0x00, 0x41, 0x00, 0x0b, 0x02, 0x01, 0x02]))
        .unwrap();
    assert_eq!(
        e,
        ElementSegment {
            mode: SegmentMode::Active { index: 0, offset: i32_const(0) },
            ty: RefType::FuncRef,
            items: ElementItems::Functions(vec![1, 2]),
        }
    );
    let (e, _) = ElementSegment::decode(Cursor::new(&[0x01, 0x00, 0x01, 0x05])).unwrap();
    assert_eq!(
        e,
        ElementSegment {
            mode: SegmentMode::Passive,
            ty: RefType::FuncRef,
            items: ElementItems::Functions(vec![5]),
        }
    );
    let (e, _) =
        ElementSegment::decode(Cursor::new(&[0x02, 0x03, 0x41, 0x01, 0x0b, 0x00, 0x00])).unwrap();
    assert_eq!(
        e,
        ElementSegment {
            mode: SegmentMode::Active { index: 3, offset: i32_const(1) },
            ty: RefType::FuncRef,
            items: ElementItems::Functions(vec![]),
        }
    );
    let (e, _) = ElementSegment::decode(Cursor::new(&[0x03, 0x00, 0x01, 0x00])).unwrap();
    assert_eq!(
        e,
        ElementSegment {
            mode: SegmentMode::Declarative,
            ty: RefType::FuncRef,
            items: ElementItems::Functions(vec![0]),
        }
    );
    let (e, _) = ElementSegment::decode(Cursor::new(&[
        0x04, 0x41, 0x00, 0x0b, 0x01, 0x41, 0x02, 0x0b,
    ]))
    .unwrap();
    assert_eq!(
        e,
        ElementSegment {
            mode: SegmentMode::Active { index: 0, offset: i32_const(0) },
            ty: RefType::FuncRef,
            items: ElementItems::Expressions(vec![i32_const(2)]),
        }
    );
    let (e, _) = ElementSegment::decode(Cursor::new(&[0x05, 0x6f, 0x00])).unwrap();
    assert_eq!(
        e,
        ElementSegment {
            mode: SegmentMode::Passive,
            ty: RefType::ExternRef,
            items: ElementItems::Expressions(vec![]),
        }
    );
    let (e, _) = ElementSegment::decode(Cursor::new(&[
        0x06, 0x01, 0x41, 0x00, 0x0b, 0x70, 0x01, 0x41, 0x09, 0x0b,
    ]))
    .unwrap();
    assert_eq!(
        e,
        ElementSegment {
            mode: SegmentMode::Active { index: 1, offset: i32_const(0) },
            ty: RefType::FuncRef,
            items: ElementItems::Expressions(vec![i32_const(9)]),
        }
    );
    let (e, _) = ElementSegment::decode(Cursor::new(&[0x07, 0x70, 0x00])).unwrap();
    assert_eq!(
        e,
        ElementSegment {
            mode: SegmentMode::Declarative,
            ty: RefType::FuncRef,
            items: ElementItems::Expressions(vec![]),
        }
    );
}

#[test]
fn element_segment_failures() {
    assert_eq!(
        ElementSegment::decode(Cursor::new(&[0x08, 0x00])).err(),
        Some(DecodeError::UnknownTypeTag(0x08))
    );
    assert_eq!(
        ElementSegment::decode(Cursor::new(&[0x01, 0x01, 0x00])).err(),
        Some(DecodeError::UnknownTypeTag(0x01))
    );
    assert_eq!(
        ElementSegment::decode(Cursor::new(&[0x05, 0x7f, 0x00])).err(),
        Some(DecodeError::UnknownTypeTag(0x7f))
    );
}

#[test]
fn data_segments_by_flag() {
    let (d, rest) =
        DataSegment::decode(Cursor::new(&[0x00, 0x41, 0x08, 0x0b, 0x02, b'h', b'i', 0x77])).unwrap();
    assert_eq!(
        d,
        DataSegment {
            mode: SegmentMode::Active { index: 0, offset: i32_const(8) },
            bytes: b"hi".to_vec(),
        }
    );
    assert_eq!(rest.as_bytes(), &[0x77u8][..]);
    let (d, _) = DataSegment::decode(Cursor::new(&[0x01, 0x01, 0xff])).unwrap();
    assert_eq!(d, DataSegment { mode: SegmentMode::Passive, bytes: vec![0xff] });
    let (d, _) = DataSegment::decode(Cursor::new(&[0x02, 0x01, 0x41, 0x00, 0x0b, 0x00])).unwrap();
    assert_eq!(
        d,
        DataSegment { mode: SegmentMode::Active { index: 1, offset: i32_const(0) }, bytes: vec![] }
    );
    assert_eq!(
        DataSegment::decode(Cursor::new(&[0x03, 0x00])).err(),
        Some(DecodeError::UnknownTypeTag(0x03))
    );
    assert_eq!(
        DataSegment::decode(Cursor::new(&[0x01, 0x03, 0x00, 0x00])).err(),
        Some(DecodeError::UnexpectedEof)
    );
}

#[test]
fn body_payload() {
    let (b, rest) = decode_body(Cursor::new(&[0x01, 0x02, 0x7e, 0x20, 0x00, 0x0b, 0x01])).unwrap();
    assert_eq!(
        b,
        FunctionBody {
            locals: vec![Local { count: 2, ty: ValType::I64 }],
            code: Expr { instrs: vec![Instruction::Indexed { opcode: 0x20, index: 0 }] },
        }
    );
    assert_eq!(rest.as_bytes(), &[0x01u8][..]);
}

#[test]
fn code_entry_that_fills_its_length_decodes() {
    let (b, rest) = FunctionBody::decode(Cursor::new(&[0x03, 0x00, 0x01, 0x0b, 0x99])).unwrap();
    assert_eq!(
        b,
        FunctionBody { locals: vec![], code: Expr { instrs: vec![Instruction::Plain { opcode: 0x01 }] } }
    );
    assert_eq!(rest.as_bytes(), &[0x99u8][..]);
}

#[test]
fn code_entry_that_ends_early_is_a_length_mismatch() {
    assert_eq!(
        FunctionBody::decode(Cursor::new(&[0x04, 0x00, 0x01, 0x0b, 0x99])).err(),
        Some(DecodeError::SectionLengthMismatch { declared: 4, consumed: 3 })
    );
    assert_eq!(
        FunctionBody::decode(Cursor::new(&[0x05, 0x00, 0x0b, 0x01, 0x01, 0x0b])).err(),
        Some(DecodeError::SectionLengthMismatch { declared: 5, consumed: 2 })
    );
}

#[test]
fn code_entry_that_runs_past_its_length_is_a_length_mismatch() {
    assert_eq!(
        FunctionBody::decode(Cursor::new(&[0x02, 0x00, 0x01, 0x0b])).err(),
        Some(DecodeError::SectionLengthMismatch { declared: 2, consumed: 2 })
    );
    assert_eq!(
        FunctionBody::decode(Cursor::new(&[0x01, 0x00, 0x0b])).err(),
        Some(DecodeError::SectionLengthMismatch { declared: 1, consumed: 1 })
    );
    assert_eq!(
        FunctionBody::decode(Cursor::new(&[0x00, 0x00, 0x0b])).err(),
        Some(DecodeError::SectionLengthMismatch { declared: 0, consumed: 0 })
    );
    // The frame ends inside an instruction, with no block open.
    assert_eq!(
        FunctionBody::decode(Cursor::new(&[0x02, 0x00, 0x41, 0x05, 0x0b])).err(),
        Some(DecodeError::SectionLengthMismatch { declared: 2, consumed: 2 })
    );
    // The frame ends inside the locals.
    assert_eq!(
        FunctionBody::decode(Cursor::new(&[0x02, 0x01, 0x03, 0x7f, 0x0b])).err(),
        Some(DecodeError::SectionLengthMismatch { declared: 2, consumed: 2 })
    );
    // An `if` that is closed, and then no `end` for the body.
    assert_eq!(
        FunctionBody::decode(Cursor::new(&[0x04, 0x00, 0x04, 0x40, 0x0b])).err(),
        Some(DecodeError::SectionLengthMismatch { declared: 4, consumed: 4 })
    );
    assert_eq!(
        FunctionBody::decode(Cursor::new(&[0x04, 0x00, 0x04, 0x40, 0x0b, 0x0b, 0x0b])).err(),
        Some(DecodeError::SectionLengthMismatch { declared: 4, consumed: 4 })
    );
}

#[test]
fn code_entry_that_ends_inside_a_number_keeps_that_failure() {
    assert_eq!(
        FunctionBody::decode(Cursor::new(&[0x03, 0x00, 0x41, 0x80, 0x01, 0x0b])).err(),
        Some(DecodeError::UnterminatedVarint)
    );
}

#[test]
fn code_entry_longer_than_the_input() {
    assert_eq!(
        FunctionBody::decode(Cursor::new(&[0x04, 0x00, 0x01, 0x0b])).err(),
        Some(DecodeError::UnexpectedEof)
    );
}

#[test]
fn code_entry_with_an_unclosed_if() {
    assert_eq!(
        FunctionBody::decode(Cursor::new(&[0x03, 0x00, 0x04, 0x40])).err(),
        Some(DecodeError::UnexpectedEof)
    );
    assert_eq!(
        FunctionBody::decode(Cursor::new(&[0x04, 0x00, 0x04, 0x40, 0x01])).err(),
        Some(DecodeError::UnexpectedEof)
    );
    assert_eq!(
        FunctionBody::decode(Cursor::new(&[0x04, 0x00, 0x04, 0x40, 0x01, 0x0b, 0x0b])).err(),
        Some(DecodeError::UnexpectedEof)
    );
    assert_eq!(
        FunctionBody::decode(Cursor::new(&[0x05, 0x00, 0x04, 0x40, 0x01, 0x05, 0x0b])).err(),
        Some(DecodeError::UnexpectedEof)
    );
    assert_eq!(
        FunctionBody::decode(Cursor::new(&[0x02, 0x00, 0x04])).err(),
        Some(DecodeError::UnexpectedEof)
    );
    assert_eq!(
        FunctionBody::decode(Cursor::new(&[0x05, 0x00, 0x01, 0x02, 0x40, 0x03])).err(),
        Some(DecodeError::UnexpectedEof)
    );
    assert!(FunctionBody::decode(Cursor::new(&[0x05, 0x00, 0x04, 0x40, 0x0b, 0x0b])).is_ok());
}

#[test]
fn block_that_closes_restores_the_frame() {
    // After the block the body is open at its outer level again.
    assert_eq!(
        FunctionBody::decode(Cursor::new(&[0x05, 0x00, 0x02, 0x40, 0x0b, 0x01])).err(),
        Some(DecodeError::SectionLengthMismatch { declared: 5, consumed: 5 })
    );
    assert_eq!(
        FunctionBody::decode(Cursor::new(&[0x06, 0x00, 0x04, 0x40, 0x05, 0x0b, 0x20])).err(),
        Some(DecodeError::SectionLengthMismatch { declared: 6, consumed: 6 })
    );
}

#[test]
fn custom_payload_keeps_its_bytes() {
    let (c, rest) = decode_custom(Cursor::new(&[0x02, b'h', b'i', 0x00, 0xff, 0x0b])).unwrap();
    assert_eq!(c, CustomSection { name: "hi".to_string(), data: vec![0x00, 0xff, 0x0b] });
    assert!(rest.is_empty());
    let (c, _) = decode_custom(Cursor::new(&[0x00])).unwrap();
    assert_eq!(c, CustomSection { name: String::new(), data: vec![] });
    assert_eq!(decode_custom(Cursor::new(&[])).err(), Some(DecodeError::UnexpectedEof));
    assert_eq!(
        decode_custom(Cursor::new(&[0x01, 0x80])).err(),
        Some(DecodeError::InvalidUtf8)
    );
}

#[test]
fn payload_by_kind() {
    let (s, rest) = decode_payload(SectionCode::Function, Cursor::new(&[0x02, 0x00, 0x01])).unwrap();
    assert_eq!(s, Section::Function(vec![0, 1]));
    assert!(rest.is_empty());
    let (s, _) = decode_payload(SectionCode::Start, Cursor::new(&[0x05])).unwrap();
    assert_eq!(s, Section::Start(5));
    let (s, rest) = decode_payload(SectionCode::Start, Cursor::new(&[0x05, 0x06])).unwrap();
    assert_eq!(s, Section::Start(5));
    assert_eq!(rest.remaining(), 1);
    let (s, _) = decode_payload(SectionCode::Type, Cursor::new(&[0x01, 0x60, 0x00, 0x00])).unwrap();
    assert_eq!(s, Section::Type(vec![FunctionType { params: vec![], results: vec![] }]));
    assert_eq!(
        decode_payload(SectionCode::Type, Cursor::new(&[0x02, 0x60, 0x00, 0x00, 0x5f])).err(),
        Some(Failure { kind: DecodeError::InvalidFunctionTypeTag, index: Some(1) })
    );
    assert_eq!(
        decode_payload(SectionCode::Start, Cursor::new(&[])).err(),
        Some(Failure { kind: DecodeError::UnexpectedEof, index: None })
    );
}

#[test]
fn framed_section() {
    let bytes = [0x03, 0x02, 0x01, 0x00, 0x07];
    let ((s, last), rest) = decode_section(Cursor::new(&bytes), 1, 8).unwrap();
    assert_eq!(s, Section::Function(vec![0]));
    assert_eq!(last, 3);
    assert_eq!(rest.as_bytes(), &[0x07u8][..]);
    let custom = [0x00, 0x03, 0x01, b'x', 0x09];
    let ((s, last), rest) = decode_section(Cursor::new(&custom), 7, 20).unwrap();
    assert_eq!(s, Section::Custom(CustomSection { name: "x".to_string(), data: vec![0x09] }));
    assert_eq!(last, 7);
    assert!(rest.is_empty());
}

#[test]
fn framed_section_failures() {
    assert_eq!(
        decode_section(Cursor::new(&[0x03, 0x02, 0x01, 0x00]), 3, 8).err(),
        Some(ModuleError {
            kind: DecodeError::SectionOutOfOrder,
            offset: 8,
            section: Some(SectionCode::Function),
            entry: None,
        })
    );
    assert_eq!(
        decode_section(Cursor::new(&[0x03, 0x02, 0x01]), 0, 30).err(),
        Some(ModuleError {
            kind: DecodeError::UnexpectedEof,
            offset: 30,
            section: Some(SectionCode::Function),
            entry: None,
        })
    );
    assert_eq!(
        decode_section(Cursor::new(&[0x03, 0x03, 0x01, 0x00, 0x00]), 0, 8).err(),
        Some(ModuleError {
            kind: DecodeError::SectionLengthMismatch { declared: 3, consumed: 2 },
            offset: 8,
            section: Some(SectionCode::Function),
            entry: None,
        })
    );
    assert_eq!(
        decode_section(Cursor::new(&[0x03, 0x02, 0x02, 0x00]), 0, 8).err(),
        Some(ModuleError {
            kind: DecodeError::SectionLengthMismatch { declared: 2, consumed: 2 },
            offset: 8,
            section: Some(SectionCode::Function),
            entry: Some(1),
        })
    );
    assert_eq!(
        decode_section(Cursor::new(&[0x08, 0x00]), 0, 8).err(),
        Some(ModuleError {
            kind: DecodeError::SectionLengthMismatch { declared: 0, consumed: 0 },
            offset: 8,
            section: Some(SectionCode::Start),
            entry: None,
        })
    );
    assert_eq!(
        decode_section(Cursor::new(&[0x0d, 0x00]), 0, 8).err(),
        Some(ModuleError {
            kind: DecodeError::UnknownSectionCode(0x0d),
            offset: 8,
            section: None,
            entry: None,
        })
    );
}
