use wasm_decode::binary::cursor::Cursor;
use wasm_decode::binary::error::{DecodeError, Failure};
use wasm_decode::binary::types::{
    Export, ExportKind, FunctionType, GlobalType, Import, ImportDesc, Limits, Local, MemoryType,
    RefType, TableType, ValType,
};
use wasm_decode::binary::decode::{vector, Decode};

#[test]
fn value_type_tags() {
    assert_eq!(ValType::from_tag(0x7f), Some(ValType::I32));
    assert_eq!(ValType::from_tag(0x7e), Some(ValType::I64));
    assert_eq!(ValType::from_tag(0x7d), Some(ValType::F32));
    assert_eq!(ValType::from_tag(0x7c), Some(ValType::F64));
    assert_eq!(ValType::from_tag(0x7b), Some(ValType::V128));
    assert_eq!(ValType::from_tag(0x70), Some(ValType::FuncRef));
    assert_eq!(ValType::from_tag(0x6f), Some(ValType::ExternRef));
    assert_eq!(ValType::from_tag(0x00), None);
    assert_eq!(ValType::from_tag(0x40), None);
    assert_eq!(ValType::from_tag(0x80), None);
}

#[test]
fn value_type_decodes_one_byte() {
    let (t, rest) = ValType::decode(Cursor::new(&[0x7e, 0x7f])).unwrap();
    assert_eq!(t, ValType::I64);
    assert_eq!(rest.as_bytes(), &[0x7fu8][..]);
    assert_eq!(
        ValType::decode(Cursor::new(&[0x01])).err(),
        Some(DecodeError::UnknownTypeTag(0x01))
    );
    assert_eq!(
        ValType::decode(Cursor::new(&[])).err(),
        Some(DecodeError::UnexpectedEof)
    );
}

#[test]
fn reference_type_decodes_one_byte() {
    assert_eq!(RefType::decode(Cursor::new(&[0x70])).unwrap().0, RefType::FuncRef);
    assert_eq!(RefType::decode(Cursor::new(&[0x6f])).unwrap().0, RefType::ExternRef);
    assert_eq!(
        RefType::decode(Cursor::new(&[0x7f])).err(),
        Some(DecodeError::UnknownTypeTag(0x7f))
    );
}

#[test]
fn limits_with_and_without_maximum() {
    let (l, rest) = Limits::decode(Cursor::new(&[0x00, 0x01, 0xaa])).unwrap();
    assert_eq!(l, Limits { min: 1, max: None });
    assert_eq!(rest.remaining(), 1);
    let (l, rest) = Limits::decode(Cursor::new(&[0x01, 0x01, 0x80, 0x02])).unwrap();
    assert_eq!(l, Limits { min: 1, max: Some(256) });
    assert!(rest.is_empty());
    assert_eq!(
        Limits::decode(Cursor::new(&[0x02, 0x01])).err(),
        Some(DecodeError::UnknownTypeTag(0x02))
    );
    assert_eq!(
        Limits::decode(Cursor::new(&[0x01, 0x01])).err(),
        Some(DecodeError::UnexpectedEof)
    );
}

#[test]
fn table_memory_and_global_types() {
    let (t, _) = TableType::decode(Cursor::new(&[0x70, 0x01, 0x01, 0x0a])).unwrap();
    assert_eq!(
        t,
        TableType { element: RefType::FuncRef, limits: Limits { min: 1, max: Some(10) } }
    );
    let (m, _) = MemoryType::decode(Cursor::new(&[0x00, 0x02])).unwrap();
    assert_eq!(m, MemoryType { limits: Limits { min: 2, max: None } });
    let (g, _) = GlobalType::decode(Cursor::new(&[0x7f, 0x01])).unwrap();
    assert_eq!(g, GlobalType { value: ValType::I32, mutable: true });
    let (g, _) = GlobalType::decode(Cursor::new(&[0x7c, 0x00])).unwrap();
    assert_eq!(g, GlobalType { value: ValType::F64, mutable: false });
    assert_eq!(
        GlobalType::decode(Cursor::new(&[0x7f, 0x02])).err(),
        Some(DecodeError::UnknownTypeTag(0x02))
    );
}

#[test]
fn function_type_needs_its_tag() {
    let (t, rest) =
        FunctionType::decode(Cursor::new(&[0x60, 0x02, 0x7f, 0x7f, 0x01, 0x7f, 0x55])).unwrap();
    assert_eq!(
        t,
        FunctionType { params: vec![ValType::I32, ValType::I32], results: vec![ValType::I32] }
    );
    assert_eq!(rest.as_bytes(), &[0x55u8][..]);
    let (t, _) = FunctionType::decode(Cursor::new(&[0x60, 0x00, 0x00])).unwrap();
    assert_eq!(t, FunctionType { params: vec![], results: vec![] });
    assert_eq!(
        FunctionType::decode(Cursor::new(&[0x61, 0x00, 0x00])).err(),
        Some(DecodeError::InvalidFunctionTypeTag)
    );
    assert_eq!(
        FunctionType::decode(Cursor::new(&[0x60, 0x01, 0x11, 0x00])).err(),
        Some(DecodeError::UnknownTypeTag(0x11))
    );
    assert_eq!(
        FunctionType::decode(Cursor::new(&[0x60, 0x02, 0x7f])).err(),
        Some(DecodeError::UnexpectedEof)
    );
}

#[test]
fn import_entries() {
    let bytes = [0x03, b'e', b'n', b'v', 0x03, b'l', b'o', b'g', 0x00, 0x02];
    let (i, rest) = Import::decode(Cursor::new(&bytes)).unwrap();
    assert_eq!(
        i,
        Import { module: "env".to_string(), name: "log".to_string(), desc: ImportDesc::Func(2) }
    );
    assert!(rest.is_empty());
    let (d, _) = ImportDesc::decode(Cursor::new(&[0x01, 0x6f, 0x00, 0x00])).unwrap();
    assert_eq!(
        d,
        ImportDesc::Table(TableType {
            element: RefType::ExternRef,
            limits: Limits { min: 0, max: None }
        })
    );
    let (d, _) = ImportDesc::decode(Cursor::new(&[0x02, 0x00, 0x01])).unwrap();
    assert_eq!(d, ImportDesc::Memory(MemoryType { limits: Limits { min: 1, max: None } }));
    let (d, _) = ImportDesc::decode(Cursor::new(&[0x03, 0x7e, 0x00])).unwrap();
    assert_eq!(d, ImportDesc::Global(GlobalType { value: ValType::I64, mutable: false }));
    assert_eq!(
        ImportDesc::decode(Cursor::new(&[0x04, 0x00])).err(),
        Some(DecodeError::UnknownTypeTag(0x04))
    );
    assert_eq!(
        Import::decode(Cursor::new(&[0x01, 0xff, 0x00, 0x00, 0x00])).err(),
        Some(DecodeError::InvalidUtf8)
    );
}

#[test]
fn export_entries() {
    let (e, rest) = Export::decode(Cursor::new(&[0x03, b'a', b'd', b'd', 0x00, 0x01])).unwrap();
    assert_eq!(e, Export { name: "add".to_string(), kind: ExportKind::Func, index: 1 });
    assert!(rest.is_empty());
    assert_eq!(ExportKind::from_tag(0), Some(ExportKind::Func));
    assert_eq!(ExportKind::from_tag(1), Some(ExportKind::Table));
    assert_eq!(ExportKind::from_tag(2), Some(ExportKind::Memory));
    assert_eq!(ExportKind::from_tag(3), Some(ExportKind::Global));
    assert_eq!(ExportKind::from_tag(4), None);
    assert_eq!(
        Export::decode(Cursor::new(&[0x00, 0x09, 0x00])).err(),
        Some(DecodeError::UnknownTypeTag(0x09))
    );
}

#[test]
fn local_entries() {
    let (l, _) = Local::decode(Cursor::new(&[0x03, 0x7f])).unwrap();
    assert_eq!(l, Local { count: 3, ty: ValType::I32 });
}

#[test]
fn vector_reads_count_then_elements() {
    let (v, rest) = vector::<u32>(Cursor::new(&[0x03, 0x01, 0x80, 0x01, 0x02, 0x09])).unwrap();
    assert_eq!(v, vec![1, 128, 2]);
    assert_eq!(rest.as_bytes(), &[0x09u8][..]);
    let (v, rest) = vector::<ValType>(Cursor::new(&[0x00])).unwrap();
    assert!(v.is_empty());
    assert!(rest.is_empty());
}

#[test]
fn vector_failure_keeps_the_index() {
    assert_eq!(
        vector::<ValType>(Cursor::new(&[0x03, 0x7f, 0x7e, 0x01])).err(),
        Some(Failure { kind: DecodeError::UnknownTypeTag(0x01), index: Some(2) })
    );
    assert_eq!(
        vector::<ValType>(Cursor::new(&[0x02, 0x7f])).err(),
        Some(Failure { kind: DecodeError::UnexpectedEof, index: Some(1) })
    );
    assert_eq!(
        vector::<u32>(Cursor::new(&[0x01, 0x80])).err(),
        Some(Failure { kind: DecodeError::UnterminatedVarint, index: Some(0) })
    );
    assert_eq!(
        vector::<u32>(Cursor::new(&[])).err(),
        Some(Failure { kind: DecodeError::UnexpectedEof, index: None })
    );
    assert_eq!(
        vector::<u32>(Cursor::new(&[0xff, 0xff, 0xff, 0xff, 0x7f])).err(),
        Some(Failure { kind: DecodeError::IntegerTooLarge, index: None })
    );
}

#[test]
fn vector_with_a_huge_count_fails_at_the_first_missing_element() {
    assert_eq!(
        vector::<u32>(Cursor::new(&[0xff, 0xff, 0xff, 0xff, 0x0f, 0x01])).err(),
        Some(Failure { kind: DecodeError::UnexpectedEof, index: Some(1) })
    );
}
