use wasm_decode::binary::error::{DecodeError, ModuleError};
use wasm_decode::binary::module::Module;
use wasm_decode::binary::section::SectionCode;
use wasm_decode::binary::types::{FunctionType, ValType};

fn preamble() -> Vec<u8> {
    vec![0x00, 0x61, 0x73, 0x6d, 0x01, 0x00, 0x00, 0x00]
}

fn with_sections(sections: &[&[u8]]) -> Vec<u8> {
    let mut bytes = preamble();
    for s in sections {
        bytes.extend_from_slice(s);
    }
    bytes
}

#[test]
fn decode_simplest_module() {
    let wasm = wat::parse_str("(module)").unwrap();
    let module = Module::new(&wasm).unwrap();
    assert_eq!(module, Module::default());
}

#[test]
fn preamble_alone_is_the_empty_module() {
    let module = Module::new(&preamble()).unwrap();
    assert_eq!(module.magic, "\0asm");
    assert_eq!(module.version, 1);
    assert!(module.types.is_empty());
    assert!(module.imports.is_empty());
    assert!(module.functions.is_empty());
    assert!(module.tables.is_empty());
    assert!(module.memories.is_empty());
    assert!(module.globals.is_empty());
    assert!(module.exports.is_empty());
    assert_eq!(module.start, None);
    assert!(module.elements.is_empty());
    assert!(module.code.is_empty());
    assert!(module.data.is_empty());
    assert!(module.customs.is_empty());
}

#[test]
fn one_function_type_round_trip() {
    let wasm = with_sections(&[&[0x01, 0x07, 0x01, 0x60, 0x02, 0x7f, 0x7f, 0x01, 0x7f]]);
    let module = Module::new(&wasm).unwrap();
    assert_eq!(
        module.types,
        vec![FunctionType {
            params: vec![ValType::I32, ValType::I32],
            results: vec![ValType::I32],
        }]
    );
}

#[test]
fn unknown_section_code_is_an_error() {
    let wasm = with_sections(&[&[0xff, 0x00]]);
    assert_eq!(
        Module::new(&wasm),
        Err(ModuleError {
            kind: DecodeError::UnknownSectionCode(0xff),
            offset: 8,
            section: None,
            entry: None,
        })
    );
}

#[test]
fn two_type_sections_are_out_of_order() {
    let wasm = with_sections(&[&[0x01, 0x01, 0x00], &[0x01, 0x01, 0x00]]);
    assert_eq!(
        Module::new(&wasm),
        Err(ModuleError {
            kind: DecodeError::SectionOutOfOrder,
            offset: 11,
            section: Some(SectionCode::Type),
            entry: None,
        })
    );
}

fn kind_of(bytes: &[u8]) -> DecodeError {
    Module::new(bytes).unwrap_err().kind
}

#[test]
fn default_is_the_empty_module() {
    let m = Module::default();
    assert_eq!(m.magic, "\0asm");
    assert_eq!(m.version, 1);
    assert!(m.types.is_empty() && m.functions.is_empty() && m.code.is_empty());
    assert!(m.customs.is_empty());
    assert_eq!(m.start, None);
}

#[test]
fn decode_returns_no_rest() {
    let wasm = with_sections(&[&[0x01, 0x01, 0x00]]);
    let (rest, module) = Module::decode(&wasm).unwrap();
    assert!(rest.is_empty());
    assert_eq!(module, Module::new(&wasm).unwrap());
}

#[test]
fn short_input_is_an_unexpected_eof() {
    for n in 0..8 {
        assert_eq!(
            Module::new(&preamble()[..n]),
            Err(ModuleError {
                kind: DecodeError::UnexpectedEof,
                offset: 0,
                section: None,
                entry: None,
            })
        );
    }
}

#[test]
fn wrong_magic() {
    assert_eq!(
        Module::new(&[0x00, 0x61, 0x73, 0x6e, 0x01, 0x00, 0x00, 0x00]),
        Err(ModuleError { kind: DecodeError::BadMagic, offset: 0, section: None, entry: None })
    );
    assert_eq!(kind_of(b"\x7fELF\x01\x00\x00\x00"), DecodeError::BadMagic);
    assert_eq!(kind_of(b"wasm"), DecodeError::BadMagic);
}

#[test]
fn wrong_version() {
    assert_eq!(
        Module::new(&[0x00, 0x61, 0x73, 0x6d, 0x02, 0x00, 0x00, 0x00]),
        Err(ModuleError {
            kind: DecodeError::UnsupportedVersion,
            offset: 0,
            section: None,
            entry: None,
        })
    );
    assert_eq!(
        kind_of(&[0x00, 0x61, 0x73, 0x6d, 0x01, 0x00, 0x00, 0x01]),
        DecodeError::UnsupportedVersion
    );
    assert_eq!(
        kind_of(&[0x00, 0x61, 0x73, 0x6d, 0x00, 0x00, 0x00, 0x00]),
        DecodeError::UnsupportedVersion
    );
}

#[test]
fn section_code_twelve_is_unknown() {
    let wasm = with_sections(&[&[0x01, 0x01, 0x00], &[0x0c, 0x01, 0x00]]);
    assert_eq!(
        Module::new(&wasm),
        Err(ModuleError {
            kind: DecodeError::UnknownSectionCode(12),
            offset: 11,
            section: None,
            entry: None,
        })
    );
}

#[test]
fn earlier_kind_after_a_later_one_is_out_of_order() {
    let wasm = with_sections(&[&[0x03, 0x01, 0x00], &[0x01, 0x01, 0x00]]);
    assert_eq!(
        Module::new(&wasm),
        Err(ModuleError {
            kind: DecodeError::SectionOutOfOrder,
            offset: 11,
            section: Some(SectionCode::Type),
            entry: None,
        })
    );
}

#[test]
fn repeated_section_after_a_custom_one_is_out_of_order() {
    let wasm = with_sections(&[
        &[0x05, 0x01, 0x00],
        &[0x00, 0x02, 0x01, b'a'],
        &[0x05, 0x01, 0x00],
    ]);
    assert_eq!(
        Module::new(&wasm),
        Err(ModuleError {
            kind: DecodeError::SectionOutOfOrder,
            offset: 15,
            section: Some(SectionCode::Memory),
            entry: None,
        })
    );
}

#[test]
fn custom_sections_repeat_and_keep_their_order() {
    let wasm = with_sections(&[
        &[0x00, 0x03, 0x01, b'a', 0x01],
        &[0x01, 0x01, 0x00],
        &[0x00, 0x03, 0x01, b'a', 0x02],
        &[0x00, 0x02, 0x01, b'b'],
        &[0x0b, 0x01, 0x00],
        &[0x00, 0x01, 0x00],
    ]);
    let module = Module::new(&wasm).unwrap();
    let seen: Vec<(&str, &[u8])> =
        module.customs.iter().map(|c| (c.name.as_str(), c.data.as_slice())).collect();
    assert_eq!(
        seen,
        vec![("a", &[0x01u8][..]), ("a", &[0x02u8][..]), ("b", &[][..]), ("", &[][..])]
    );
}

#[test]
fn section_that_ends_early_is_a_length_mismatch() {
    let wasm = with_sections(&[&[0x01, 0x02, 0x00, 0x00]]);
    assert_eq!(
        Module::new(&wasm),
        Err(ModuleError {
            kind: DecodeError::SectionLengthMismatch { declared: 2, consumed: 1 },
            offset: 8,
            section: Some(SectionCode::Type),
            entry: None,
        })
    );
    let start = with_sections(&[&[0x08, 0x02, 0x00, 0x00]]);
    assert_eq!(
        kind_of(&start),
        DecodeError::SectionLengthMismatch { declared: 2, consumed: 1 }
    );
}

#[test]
fn empty_payload_is_a_length_mismatch() {
    for code in 0..12u8 {
        let wasm = with_sections(&[&[code, 0x00]]);
        assert_eq!(
            kind_of(&wasm),
            DecodeError::SectionLengthMismatch { declared: 0, consumed: 0 }
        );
    }
}

#[test]
fn payload_that_ends_before_its_entries_is_a_length_mismatch() {
    let wasm = with_sections(&[&[0x01, 0x01, 0x01]]);
    assert_eq!(
        Module::new(&wasm),
        Err(ModuleError {
            kind: DecodeError::SectionLengthMismatch { declared: 1, consumed: 1 },
            offset: 8,
            section: Some(SectionCode::Type),
            entry: Some(0),
        })
    );
    let inside = with_sections(&[&[0x01, 0x03, 0x01, 0x60, 0x02]]);
    assert_eq!(
        Module::new(&inside),
        Err(ModuleError {
            kind: DecodeError::SectionLengthMismatch { declared: 3, consumed: 3 },
            offset: 8,
            section: Some(SectionCode::Type),
            entry: Some(0),
        })
    );
    let name = with_sections(&[&[0x00, 0x02, 0x05, b'a']]);
    assert_eq!(
        kind_of(&name),
        DecodeError::SectionLengthMismatch { declared: 2, consumed: 2 }
    );
}

#[test]
fn payload_that_the_input_cannot_fill_is_an_unexpected_eof() {
    let wasm = with_sections(&[&[0x01, 0x05, 0x01, 0x60, 0x00]]);
    assert_eq!(
        Module::new(&wasm),
        Err(ModuleError {
            kind: DecodeError::UnexpectedEof,
            offset: 8,
            section: Some(SectionCode::Type),
            entry: None,
        })
    );
}

#[test]
fn code_entry_whose_end_lies_past_its_length() {
    let wasm = with_sections(&[
        &[0x01, 0x04, 0x01, 0x60, 0x00, 0x00],
        &[0x03, 0x02, 0x01, 0x00],
        &[0x0a, 0x04, 0x01, 0x01, 0x00, 0x0b],
    ]);
    assert_eq!(
        Module::new(&wasm),
        Err(ModuleError {
            kind: DecodeError::SectionLengthMismatch { declared: 1, consumed: 1 },
            offset: 18,
            section: Some(SectionCode::Code),
            entry: Some(0),
        })
    );
}

#[test]
fn code_entry_that_its_section_cannot_fill() {
    let wasm = with_sections(&[
        &[0x01, 0x04, 0x01, 0x60, 0x00, 0x00],
        &[0x03, 0x02, 0x01, 0x00],
        &[0x0a, 0x03, 0x01, 0x05, 0x00],
    ]);
    assert_eq!(
        Module::new(&wasm),
        Err(ModuleError {
            kind: DecodeError::SectionLengthMismatch { declared: 3, consumed: 3 },
            offset: 18,
            section: Some(SectionCode::Code),
            entry: Some(0),
        })
    );
}

#[test]
fn failing_entry_is_named() {
    let wasm = with_sections(&[&[0x01, 0x08, 0x02, 0x60, 0x00, 0x00, 0x60, 0x01, 0x00, 0x00]]);
    assert_eq!(
        Module::new(&wasm),
        Err(ModuleError {
            kind: DecodeError::UnknownTypeTag(0x00),
            offset: 8,
            section: Some(SectionCode::Type),
            entry: Some(1),
        })
    );
}

#[test]
fn function_without_code_is_a_count_mismatch() {
    let wasm = with_sections(&[&[0x01, 0x04, 0x01, 0x60, 0x00, 0x00], &[0x03, 0x02, 0x01, 0x00]]);
    assert_eq!(
        Module::new(&wasm),
        Err(ModuleError {
            kind: DecodeError::CountMismatch,
            offset: wasm.len(),
            section: None,
            entry: None,
        })
    );
    let code_only = with_sections(&[&[0x0a, 0x04, 0x01, 0x02, 0x00, 0x0b]]);
    assert_eq!(kind_of(&code_only), DecodeError::CountMismatch);
}

#[test]
fn type_index_past_the_types_is_out_of_range() {
    let wasm = with_sections(&[
        &[0x01, 0x04, 0x01, 0x60, 0x00, 0x00],
        &[0x03, 0x02, 0x01, 0x01],
        &[0x0a, 0x04, 0x01, 0x02, 0x00, 0x0b],
    ]);
    assert_eq!(
        Module::new(&wasm),
        Err(ModuleError {
            kind: DecodeError::IndexOutOfRange,
            offset: wasm.len(),
            section: None,
            entry: None,
        })
    );
    let import = with_sections(&[&[0x02, 0x05, 0x01, 0x00, 0x00, 0x00, 0x00]]);
    assert_eq!(kind_of(&import), DecodeError::IndexOutOfRange);
}

#[test]
fn start_index_counts_imported_functions() {
    let types: &[u8] = &[0x01, 0x04, 0x01, 0x60, 0x00, 0x00];
    let import: &[u8] = &[0x02, 0x05, 0x01, 0x00, 0x00, 0x00, 0x00];
    let function: &[u8] = &[0x03, 0x02, 0x01, 0x00];
    let code: &[u8] = &[0x0a, 0x04, 0x01, 0x02, 0x00, 0x0b];
    let ok = with_sections(&[types, import, function, &[0x08, 0x01, 0x01], code]);
    assert_eq!(Module::new(&ok).unwrap().start, Some(1));
    let bad = with_sections(&[types, import, function, &[0x08, 0x01, 0x02], code]);
    assert_eq!(kind_of(&bad), DecodeError::IndexOutOfRange);
    let none = with_sections(&[&[0x08, 0x01, 0x00]]);
    assert_eq!(kind_of(&none), DecodeError::IndexOutOfRange);
}

#[test]
fn code_entry_lengths_in_a_module() {
    let types: &[u8] = &[0x01, 0x04, 0x01, 0x60, 0x00, 0x00];
    let function: &[u8] = &[0x03, 0x02, 0x01, 0x00];
    let exact = with_sections(&[types, function, &[0x0a, 0x05, 0x01, 0x03, 0x00, 0x01, 0x0b]]);
    assert_eq!(Module::new(&exact).unwrap().code.len(), 1);
    let early = with_sections(&[types, function, &[0x0a, 0x06, 0x01, 0x04, 0x00, 0x01, 0x0b, 0x0b]]);
    assert_eq!(
        Module::new(&early),
        Err(ModuleError {
            kind: DecodeError::SectionLengthMismatch { declared: 4, consumed: 3 },
            offset: 18,
            section: Some(SectionCode::Code),
            entry: Some(0),
        })
    );
    let late = with_sections(&[types, function, &[0x0a, 0x05, 0x01, 0x02, 0x00, 0x01, 0x0b]]);
    assert_eq!(
        Module::new(&late),
        Err(ModuleError {
            kind: DecodeError::SectionLengthMismatch { declared: 2, consumed: 2 },
            offset: 18,
            section: Some(SectionCode::Code),
            entry: Some(0),
        })
    );
}

#[test]
fn unclosed_if_in_a_module() {
    let types: &[u8] = &[0x01, 0x04, 0x01, 0x60, 0x00, 0x00];
    let function: &[u8] = &[0x03, 0x02, 0x01, 0x00];
    let wasm = with_sections(&[
        types,
        function,
        &[0x0a, 0x07, 0x01, 0x05, 0x00, 0x41, 0x01, 0x04, 0x40, 0x0b],
    ]);
    assert_eq!(
        Module::new(&wasm),
        Err(ModuleError {
            kind: DecodeError::UnexpectedEof,
            offset: 18,
            section: Some(SectionCode::Code),
            entry: Some(0),
        })
    );
}

#[test]
fn deep_nesting_in_a_module() {
    let mut body = vec![0x00];
    for _ in 0..257 {
        body.extend_from_slice(&[0x02, 0x40]);
    }
    for _ in 0..258 {
        body.push(0x0b);
    }
    let mut code = vec![0x0a, 0x00, 0x00, 0x01, 0x00, 0x00];
    let n = body.len() as u32;
    code[4] = (n & 0x7f) as u8 | 0x80;
    code[5] = (n >> 7) as u8;
    code.extend_from_slice(&body);
    let m = (code.len() - 3) as u32;
    code[1] = (m & 0x7f) as u8 | 0x80;
    code[2] = (m >> 7) as u8;
    let wasm = with_sections(&[
        &[0x01, 0x04, 0x01, 0x60, 0x00, 0x00],
        &[0x03, 0x02, 0x01, 0x00],
        &code,
    ]);
    assert_eq!(kind_of(&wasm), DecodeError::NestingTooDeep);
}

#[test]
fn malformed_lengths_in_a_module() {
    assert_eq!(kind_of(&with_sections(&[&[0x01, 0x80]])), DecodeError::UnterminatedVarint);
    assert_eq!(
        kind_of(&with_sections(&[&[0x01, 0xff, 0xff, 0xff, 0xff, 0x7f]])),
        DecodeError::IntegerTooLarge
    );
    assert_eq!(
        kind_of(&with_sections(&[&[0x00, 0x02, 0x01, 0xff]])),
        DecodeError::InvalidUtf8
    );
    assert_eq!(
        kind_of(&with_sections(&[&[0x01, 0x04, 0x01, 0x61, 0x00, 0x00]])),
        DecodeError::InvalidFunctionTypeTag
    );
    assert_eq!(
        kind_of(&with_sections(&[&[0x06, 0x05, 0x01, 0x7f, 0x00, 0xfe, 0x0b]])),
        DecodeError::UnknownOpcode(0xfe)
    );
}

#[test]
fn truncated_modules_run_out_of_bytes() {
    let sources = [
        "(module)",
        "(module (type (func (param i32 i32) (result i32))))",
        "(module (memory 1) (data (i32.const 0) \"abc\"))",
        "(module (func (param i32) (result i32) local.get 0 i32.const 1 i32.add) (export \"inc\" (func 0)))",
        "(module (import \"env\" \"f\" (func)) (table 2 funcref) (elem (i32.const 0) func 0))",
        "(module (@custom \"note\" \"xyz\"))",
    ];
    for source in sources {
        let wasm = wat::parse_str(source).unwrap();
        assert!(Module::new(&wasm).is_ok(), "{}", source);
        let cut = &wasm[..wasm.len() - 1];
        assert_eq!(kind_of(cut), DecodeError::UnexpectedEof, "{}", source);
    }
}

#[test]
fn every_prefix_of_a_module_is_decided() {
    let wasm = wat::parse_str(
        "(module (func (param i32) (result i32) local.get 0 if (result i32) i32.const 1 else i32.const 2 end))",
    )
    .unwrap();
    assert!(Module::new(&wasm).is_ok());
    let mut accepted = Vec::new();
    for n in 0..wasm.len() {
        match Module::new(&wasm[..n]) {
            Ok(_) => accepted.push(n),
            Err(e) => assert!(e.offset <= n),
        }
    }
    // The preamble alone, and the preamble with the type section.
    assert_eq!(accepted.len(), 2);
    assert_eq!(accepted[0], 8);
}
