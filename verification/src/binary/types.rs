use vstd::prelude::*;
use crate::binary::cursor::{lemma_name_extends, lemma_u8_extends, spec_name, spec_u8, Cursor};
use crate::binary::decode::{lemma_vector_extends, spec_vector, vector, Decode};
use crate::binary::error::{DecodeError, Read};
use crate::binary::leb128::{lemma_leb_u32_extends, spec_leb_u32};

verus! {

/// The type of a value on the stack, in a local or in a global.
#[derive(Debug, Clone, Copy, PartialEq, Eq)]
pub enum ValType {
    I32,
    I64,
    F32,
    F64,
    V128,
    FuncRef,
    ExternRef,
}

/// The value type that a tag byte stands for.
pub open spec fn val_type_of(tag: u8) -> Option<ValType> {
    if tag == 0x7f {
        Some(ValType::I32)
    } else if tag == 0x7e {
        Some(ValType::I64)
    } else if tag == 0x7d {
        Some(ValType::F32)
    } else if tag == 0x7c {
        Some(ValType::F64)
    } else if tag == 0x7b {
        Some(ValType::V128)
    } else if tag == 0x70 {
        Some(ValType::FuncRef)
    } else if tag == 0x6f {
        Some(ValType::ExternRef)
    } else {
        None
    }
}

impl ValType {
    pub fn from_tag(tag: u8) -> (r: Option<ValType>)
        ensures
            r == val_type_of(tag),
    {
        if tag == 0x7f {
            Some(ValType::I32)
        } else if tag == 0x7e {
            Some(ValType::I64)
        } else if tag == 0x7d {
            Some(ValType::F32)
        } else if tag == 0x7c {
            Some(ValType::F64)
        } else if tag == 0x7b {
            Some(ValType::V128)
        } else if tag == 0x70 {
            Some(ValType::FuncRef)
        } else if tag == 0x6f {
            Some(ValType::ExternRef)
        } else {
            None
        }
    }
}

impl DeepView for ValType {
    type V = ValType;

    open spec fn deep_view(&self) -> ValType {
        *self
    }
}

impl Decode for ValType {
    open spec fn spec_decode(s: Seq<u8>, eof: DecodeError) -> Read<ValType> {
        match spec_u8(s, eof) {
            Err(e) => Err(e),
            Ok((tag, rest)) => match val_type_of(tag) {
                Some(t) => Ok((t, rest)),
                None => Err(DecodeError::UnknownTypeTag(tag)),
            },
        }
    }

    fn decode<'a>(cur: Cursor<'a>) -> (r: Result<(ValType, Cursor<'a>), DecodeError>) {
        let (tag, rest) = match cur.read_u8() {
            Ok(x) => x,
            Err(e) => { return Err(e); },
        };
        match ValType::from_tag(tag) {
            Some(t) => Ok((t, rest)),
            None => Err(DecodeError::UnknownTypeTag(tag)),
        }
    }

    proof fn lemma_empty(eof: DecodeError) {
    }

    proof fn lemma_extends(s: Seq<u8>, t: Seq<u8>, eof: DecodeError) {
        lemma_u8_extends(s, t, eof);
    }
}

/// The type of the elements of a table.
#[derive(Debug, Clone, Copy, PartialEq, Eq)]
pub enum RefType {
    FuncRef,
    ExternRef,
}

/// The reference type that a tag byte stands for.
pub open spec fn ref_type_of(tag: u8) -> Option<RefType> {
    if tag == 0x70 {
        Some(RefType::FuncRef)
    } else if tag == 0x6f {
        Some(RefType::ExternRef)
    } else {
        None
    }
}

impl DeepView for RefType {
    type V = RefType;

    open spec fn deep_view(&self) -> RefType {
        *self
    }
}

impl Decode for RefType {
    open spec fn spec_decode(s: Seq<u8>, eof: DecodeError) -> Read<RefType> {
        match spec_u8(s, eof) {
            Err(e) => Err(e),
            Ok((tag, rest)) => match ref_type_of(tag) {
                Some(t) => Ok((t, rest)),
                None => Err(DecodeError::UnknownTypeTag(tag)),
            },
        }
    }

    fn decode<'a>(cur: Cursor<'a>) -> (r: Result<(RefType, Cursor<'a>), DecodeError>) {
        let (tag, rest) = match cur.read_u8() {
            Ok(x) => x,
            Err(e) => { return Err(e); },
        };
        if tag == 0x70 {
            Ok((RefType::FuncRef, rest))
        } else if tag == 0x6f {
            Ok((RefType::ExternRef, rest))
        } else {
            Err(DecodeError::UnknownTypeTag(tag))
        }
    }

    proof fn lemma_empty(eof: DecodeError) {
    }

    proof fn lemma_extends(s: Seq<u8>, t: Seq<u8>, eof: DecodeError) {
        lemma_u8_extends(s, t, eof);
    }
}

/// The size bounds of a table or a memory.
#[derive(Debug, Clone, Copy, PartialEq, Eq)]
pub struct Limits {
    pub min: u32,
    pub max: Option<u32>,
}

impl DeepView for Limits {
    type V = Limits;

    open spec fn deep_view(&self) -> Limits {
        *self
    }
}

impl Decode for Limits {
    /// A flag byte, the minimum, and the maximum if the flag is 1.
    open spec fn spec_decode(s: Seq<u8>, eof: DecodeError) -> Read<Limits> {
        match spec_u8(s, eof) {
            Err(e) => Err(e),
            Ok((flag, r1)) => if flag > 1 {
                Err(DecodeError::UnknownTypeTag(flag))
            } else {
                match spec_leb_u32(r1, eof) {
                    Err(e) => Err(e),
                    Ok((min, r2)) => if flag == 0 {
                        Ok((Limits { min, max: None }, r2))
                    } else {
                        match spec_leb_u32(r2, eof) {
                            Err(e) => Err(e),
                            Ok((max, r3)) => Ok((Limits { min, max: Some(max) }, r3)),
                        }
                    },
                }
            },
        }
    }

    fn decode<'a>(cur: Cursor<'a>) -> (r: Result<(Limits, Cursor<'a>), DecodeError>) {
        let (flag, r1) = match cur.read_u8() {
            Ok(x) => x,
            Err(e) => { return Err(e); },
        };
        if flag > 1 {
            return Err(DecodeError::UnknownTypeTag(flag));
        }
        let (min, r2) = match r1.read_leb128_u32() {
            Ok(x) => x,
            Err(e) => { return Err(e); },
        };
        if flag == 0 {
            return Ok((Limits { min, max: None }, r2));
        }
        match r2.read_leb128_u32() {
            Ok((max, r3)) => Ok((Limits { min, max: Some(max) }, r3)),
            Err(e) => Err(e),
        }
    }

    proof fn lemma_empty(eof: DecodeError) {
    }

    proof fn lemma_extends(s: Seq<u8>, t: Seq<u8>, eof: DecodeError) {
        lemma_u8_extends(s, t, eof);
        if spec_u8(s, eof) is Ok {
            let r1 = spec_u8(s, eof).unwrap().1;
            lemma_leb_u32_extends(r1, t, eof);
            if spec_leb_u32(r1, eof) is Ok {
                lemma_leb_u32_extends(spec_leb_u32(r1, eof).unwrap().1, t, eof);
            }
        }
    }
}

/// The type of a table: what it holds and how large it may be.
#[derive(Debug, Clone, Copy, PartialEq, Eq)]
pub struct TableType {
    pub element: RefType,
    pub limits: Limits,
}

impl DeepView for TableType {
    type V = TableType;

    open spec fn deep_view(&self) -> TableType {
        *self
    }
}

impl Decode for TableType {
    open spec fn spec_decode(s: Seq<u8>, eof: DecodeError) -> Read<TableType> {
        match RefType::spec_decode(s, eof) {
            Err(e) => Err(e),
            Ok((element, r1)) => match Limits::spec_decode(r1, eof) {
                Err(e) => Err(e),
                Ok((limits, r2)) => Ok((TableType { element, limits }, r2)),
            },
        }
    }

    fn decode<'a>(cur: Cursor<'a>) -> (r: Result<(TableType, Cursor<'a>), DecodeError>) {
        let (element, r1) = match RefType::decode(cur) {
            Ok(x) => x,
            Err(e) => { return Err(e); },
        };
        match Limits::decode(r1) {
            Ok((limits, r2)) => Ok((TableType { element, limits }, r2)),
            Err(e) => Err(e),
        }
    }

    proof fn lemma_empty(eof: DecodeError) {
    }

    proof fn lemma_extends(s: Seq<u8>, t: Seq<u8>, eof: DecodeError) {
        RefType::lemma_extends(s, t, eof);
        if RefType::spec_decode(s, eof) is Ok {
            Limits::lemma_extends(RefType::spec_decode(s, eof).unwrap().1, t, eof);
        }
    }
}

/// The type of a memory: how many pages it may have.
#[derive(Debug, Clone, Copy, PartialEq, Eq)]
pub struct MemoryType {
    pub limits: Limits,
}

impl DeepView for MemoryType {
    type V = MemoryType;

    open spec fn deep_view(&self) -> MemoryType {
        *self
    }
}

impl Decode for MemoryType {
    open spec fn spec_decode(s: Seq<u8>, eof: DecodeError) -> Read<MemoryType> {
        match Limits::spec_decode(s, eof) {
            Err(e) => Err(e),
            Ok((limits, rest)) => Ok((MemoryType { limits }, rest)),
        }
    }

    fn decode<'a>(cur: Cursor<'a>) -> (r: Result<(MemoryType, Cursor<'a>), DecodeError>) {
        match Limits::decode(cur) {
            Ok((limits, rest)) => Ok((MemoryType { limits }, rest)),
            Err(e) => Err(e),
        }
    }

    proof fn lemma_empty(eof: DecodeError) {
    }

    proof fn lemma_extends(s: Seq<u8>, t: Seq<u8>, eof: DecodeError) {
        Limits::lemma_extends(s, t, eof);
    }
}

/// The type of a global: what it holds and whether it can be written.
#[derive(Debug, Clone, Copy, PartialEq, Eq)]
pub struct GlobalType {
    pub value: ValType,
    pub mutable: bool,
}

impl DeepView for GlobalType {
    type V = GlobalType;

    open spec fn deep_view(&self) -> GlobalType {
        *self
    }
}

impl Decode for GlobalType {
    /// A value type, then a byte that is 1 for a mutable global and 0
    /// for a constant one.
    open spec fn spec_decode(s: Seq<u8>, eof: DecodeError) -> Read<GlobalType> {
        match ValType::spec_decode(s, eof) {
            Err(e) => Err(e),
            Ok((value, r1)) => match spec_u8(r1, eof) {
                Err(e) => Err(e),
                Ok((flag, r2)) => if flag > 1 {
                    Err(DecodeError::UnknownTypeTag(flag))
                } else {
                    Ok((GlobalType { value, mutable: flag == 1 }, r2))
                },
            },
        }
    }

    fn decode<'a>(cur: Cursor<'a>) -> (r: Result<(GlobalType, Cursor<'a>), DecodeError>) {
        let (value, r1) = match ValType::decode(cur) {
            Ok(x) => x,
            Err(e) => { return Err(e); },
        };
        let (flag, r2) = match r1.read_u8() {
            Ok(x) => x,
            Err(e) => { return Err(e); },
        };
        if flag > 1 {
            Err(DecodeError::UnknownTypeTag(flag))
        } else {
            Ok((GlobalType { value, mutable: flag == 1 }, r2))
        }
    }

    proof fn lemma_empty(eof: DecodeError) {
    }

    proof fn lemma_extends(s: Seq<u8>, t: Seq<u8>, eof: DecodeError) {
        ValType::lemma_extends(s, t, eof);
        if ValType::spec_decode(s, eof) is Ok {
            lemma_u8_extends(ValType::spec_decode(s, eof).unwrap().1, t, eof);
        }
    }
}

/// The signature of a function.
#[derive(Debug, Clone, PartialEq, Eq)]
pub struct FunctionType {
    pub params: Vec<ValType>,
    pub results: Vec<ValType>,
}

/// The model of a `FunctionType`.
pub struct FunctionTypeView {
    pub params: Seq<ValType>,
    pub results: Seq<ValType>,
}

impl DeepView for FunctionType {
    type V = FunctionTypeView;

    open spec fn deep_view(&self) -> FunctionTypeView {
        FunctionTypeView { params: self.params.deep_view(), results: self.results.deep_view() }
    }
}

impl Decode for FunctionType {
    /// The tag `0x60`, the parameter types and the result types.
    open spec fn spec_decode(s: Seq<u8>, eof: DecodeError) -> Read<FunctionTypeView> {
        match spec_u8(s, eof) {
            Err(e) => Err(e),
            Ok((tag, r1)) => if tag != 0x60 {
                Err(DecodeError::InvalidFunctionTypeTag)
            } else {
                match spec_vector::<ValType>(r1, eof) {
                    Err(f) => Err(f.kind),
                    Ok((params, r2)) => match spec_vector::<ValType>(r2, eof) {
                        Err(f) => Err(f.kind),
                        Ok((results, r3)) => Ok((FunctionTypeView { params, results }, r3)),
                    },
                }
            },
        }
    }

    fn decode<'a>(cur: Cursor<'a>) -> (r: Result<(FunctionType, Cursor<'a>), DecodeError>) {
        let (tag, r1) = match cur.read_u8() {
            Ok(x) => x,
            Err(e) => { return Err(e); },
        };
        if tag != 0x60 {
            return Err(DecodeError::InvalidFunctionTypeTag);
        }
        let (params, r2) = match vector::<ValType>(r1) {
            Ok(x) => x,
            Err(f) => { return Err(f.kind); },
        };
        match vector::<ValType>(r2) {
            Ok((results, r3)) => Ok((FunctionType { params, results }, r3)),
            Err(f) => Err(f.kind),
        }
    }

    proof fn lemma_empty(eof: DecodeError) {
    }

    proof fn lemma_extends(s: Seq<u8>, t: Seq<u8>, eof: DecodeError) {
        lemma_u8_extends(s, t, eof);
        if spec_u8(s, eof) is Ok {
            let r1 = spec_u8(s, eof).unwrap().1;
            lemma_vector_extends::<ValType>(r1, t, eof);
            if spec_vector::<ValType>(r1, eof) is Ok {
                lemma_vector_extends::<ValType>(spec_vector::<ValType>(r1, eof).unwrap().1, t, eof);
            }
        }
    }
}

/// What an import brings in.
#[derive(Debug, Clone, Copy, PartialEq, Eq)]
pub enum ImportDesc {
    Func(u32),
    Table(TableType),
    Memory(MemoryType),
    Global(GlobalType),
}

impl DeepView for ImportDesc {
    type V = ImportDesc;

    open spec fn deep_view(&self) -> ImportDesc {
        *self
    }
}

impl Decode for ImportDesc {
    /// A kind byte, then a type index, a table type, a memory type or a
    /// global type.
    open spec fn spec_decode(s: Seq<u8>, eof: DecodeError) -> Read<ImportDesc> {
        match spec_u8(s, eof) {
            Err(e) => Err(e),
            Ok((kind, r1)) => if kind == 0 {
                match spec_leb_u32(r1, eof) {
                    Err(e) => Err(e),
                    Ok((index, r2)) => Ok((ImportDesc::Func(index), r2)),
                }
            } else if kind == 1 {
                match TableType::spec_decode(r1, eof) {
                    Err(e) => Err(e),
                    Ok((t, r2)) => Ok((ImportDesc::Table(t), r2)),
                }
            } else if kind == 2 {
                match MemoryType::spec_decode(r1, eof) {
                    Err(e) => Err(e),
                    Ok((t, r2)) => Ok((ImportDesc::Memory(t), r2)),
                }
            } else if kind == 3 {
                match GlobalType::spec_decode(r1, eof) {
                    Err(e) => Err(e),
                    Ok((t, r2)) => Ok((ImportDesc::Global(t), r2)),
                }
            } else {
                Err(DecodeError::UnknownTypeTag(kind))
            },
        }
    }

    fn decode<'a>(cur: Cursor<'a>) -> (r: Result<(ImportDesc, Cursor<'a>), DecodeError>) {
        let (kind, r1) = match cur.read_u8() {
            Ok(x) => x,
            Err(e) => { return Err(e); },
        };
        if kind == 0 {
            match r1.read_leb128_u32() {
                Ok((index, r2)) => Ok((ImportDesc::Func(index), r2)),
                Err(e) => Err(e),
            }
        } else if kind == 1 {
            match TableType::decode(r1) {
                Ok((t, r2)) => Ok((ImportDesc::Table(t), r2)),
                Err(e) => Err(e),
            }
        } else if kind == 2 {
            match MemoryType::decode(r1) {
                Ok((t, r2)) => Ok((ImportDesc::Memory(t), r2)),
                Err(e) => Err(e),
            }
        } else if kind == 3 {
            match GlobalType::decode(r1) {
                Ok((t, r2)) => Ok((ImportDesc::Global(t), r2)),
                Err(e) => Err(e),
            }
        } else {
            Err(DecodeError::UnknownTypeTag(kind))
        }
    }

    proof fn lemma_empty(eof: DecodeError) {
    }

    proof fn lemma_extends(s: Seq<u8>, t: Seq<u8>, eof: DecodeError) {
        lemma_u8_extends(s, t, eof);
        if spec_u8(s, eof) is Ok {
            let r1 = spec_u8(s, eof).unwrap().1;
            lemma_leb_u32_extends(r1, t, eof);
            TableType::lemma_extends(r1, t, eof);
            MemoryType::lemma_extends(r1, t, eof);
            GlobalType::lemma_extends(r1, t, eof);
        }
    }
}

/// One entry of the import section.
#[derive(Debug, Clone, PartialEq, Eq)]
pub struct Import {
    pub module: String,
    pub name: String,
    pub desc: ImportDesc,
}

/// The model of an `Import`.
pub struct ImportView {
    pub module: Seq<char>,
    pub name: Seq<char>,
    pub desc: ImportDesc,
}

impl DeepView for Import {
    type V = ImportView;

    open spec fn deep_view(&self) -> ImportView {
        ImportView { module: self.module@, name: self.name@, desc: self.desc }
    }
}

impl Decode for Import {
    /// The module name, the item name and the description.
    open spec fn spec_decode(s: Seq<u8>, eof: DecodeError) -> Read<ImportView> {
        match spec_name(s, eof) {
            Err(e) => Err(e),
            Ok((module, r1)) => match spec_name(r1, eof) {
                Err(e) => Err(e),
                Ok((name, r2)) => match ImportDesc::spec_decode(r2, eof) {
                    Err(e) => Err(e),
                    Ok((desc, r3)) => Ok((ImportView { module, name, desc }, r3)),
                },
            },
        }
    }

    fn decode<'a>(cur: Cursor<'a>) -> (r: Result<(Import, Cursor<'a>), DecodeError>) {
        let (module, r1) = match cur.read_utf8_string() {
            Ok(x) => x,
            Err(e) => { return Err(e); },
        };
        let (name, r2) = match r1.read_utf8_string() {
            Ok(x) => x,
            Err(e) => { return Err(e); },
        };
        match ImportDesc::decode(r2) {
            Ok((desc, r3)) => Ok((Import { module, name, desc }, r3)),
            Err(e) => Err(e),
        }
    }

    proof fn lemma_empty(eof: DecodeError) {
    }

    proof fn lemma_extends(s: Seq<u8>, t: Seq<u8>, eof: DecodeError) {
        lemma_name_extends(s, t, eof);
        if spec_name(s, eof) is Ok {
            let r1 = spec_name(s, eof).unwrap().1;
            lemma_name_extends(r1, t, eof);
            if spec_name(r1, eof) is Ok {
                ImportDesc::lemma_extends(spec_name(r1, eof).unwrap().1, t, eof);
            }
        }
    }
}

/// The kind of item that an export names.
#[derive(Debug, Clone, Copy, PartialEq, Eq)]
pub enum ExportKind {
    Func,
    Table,
    Memory,
    Global,
}

/// The export kind that a tag byte stands for.
pub open spec fn export_kind_of(tag: u8) -> Option<ExportKind> {
    if tag == 0 {
        Some(ExportKind::Func)
    } else if tag == 1 {
        Some(ExportKind::Table)
    } else if tag == 2 {
        Some(ExportKind::Memory)
    } else if tag == 3 {
        Some(ExportKind::Global)
    } else {
        None
    }
}

impl ExportKind {
    pub fn from_tag(tag: u8) -> (r: Option<ExportKind>)
        ensures
            r == export_kind_of(tag),
    {
        if tag == 0 {
            Some(ExportKind::Func)
        } else if tag == 1 {
            Some(ExportKind::Table)
        } else if tag == 2 {
            Some(ExportKind::Memory)
        } else if tag == 3 {
            Some(ExportKind::Global)
        } else {
            None
        }
    }
}

/// One entry of the export section.
#[derive(Debug, Clone, PartialEq, Eq)]
pub struct Export {
    pub name: String,
    pub kind: ExportKind,
    pub index: u32,
}

/// The model of an `Export`.
pub struct ExportView {
    pub name: Seq<char>,
    pub kind: ExportKind,
    pub index: u32,
}

impl DeepView for Export {
    type V = ExportView;

    open spec fn deep_view(&self) -> ExportView {
        ExportView { name: self.name@, kind: self.kind, index: self.index }
    }
}

impl Decode for Export {
    /// The name, the kind byte and the index of the exported item.
    open spec fn spec_decode(s: Seq<u8>, eof: DecodeError) -> Read<ExportView> {
        match spec_name(s, eof) {
            Err(e) => Err(e),
            Ok((name, r1)) => match spec_u8(r1, eof) {
                Err(e) => Err(e),
                Ok((tag, r2)) => match export_kind_of(tag) {
                    None => Err(DecodeError::UnknownTypeTag(tag)),
                    Some(kind) => match spec_leb_u32(r2, eof) {
                        Err(e) => Err(e),
                        Ok((index, r3)) => Ok((ExportView { name, kind, index }, r3)),
                    },
                },
            },
        }
    }

    fn decode<'a>(cur: Cursor<'a>) -> (r: Result<(Export, Cursor<'a>), DecodeError>) {
        let (name, r1) = match cur.read_utf8_string() {
            Ok(x) => x,
            Err(e) => { return Err(e); },
        };
        let (tag, r2) = match r1.read_u8() {
            Ok(x) => x,
            Err(e) => { return Err(e); },
        };
        let kind = match ExportKind::from_tag(tag) {
            Some(k) => k,
            None => { return Err(DecodeError::UnknownTypeTag(tag)); },
        };
        match r2.read_leb128_u32() {
            Ok((index, r3)) => Ok((Export { name, kind, index }, r3)),
            Err(e) => Err(e),
        }
    }

    proof fn lemma_empty(eof: DecodeError) {
    }

    proof fn lemma_extends(s: Seq<u8>, t: Seq<u8>, eof: DecodeError) {
        lemma_name_extends(s, t, eof);
        if spec_name(s, eof) is Ok {
            let r1 = spec_name(s, eof).unwrap().1;
            lemma_u8_extends(r1, t, eof);
            if spec_u8(r1, eof) is Ok {
                lemma_leb_u32_extends(spec_u8(r1, eof).unwrap().1, t, eof);
            }
        }
    }
}

/// A run of locals of one type in a function body.
#[derive(Debug, Clone, Copy, PartialEq, Eq)]
pub struct Local {
    pub count: u32,
    pub ty: ValType,
}

impl DeepView for Local {
    type V = Local;

    open spec fn deep_view(&self) -> Local {
        *self
    }
}

impl Decode for Local {
    /// How many locals, then their type.
    open spec fn spec_decode(s: Seq<u8>, eof: DecodeError) -> Read<Local> {
        match spec_leb_u32(s, eof) {
            Err(e) => Err(e),
            Ok((count, r1)) => match ValType::spec_decode(r1, eof) {
                Err(e) => Err(e),
                Ok((ty, r2)) => Ok((Local { count, ty }, r2)),
            },
        }
    }

    fn decode<'a>(cur: Cursor<'a>) -> (r: Result<(Local, Cursor<'a>), DecodeError>) {
        let (count, r1) = match cur.read_leb128_u32() {
            Ok(x) => x,
            Err(e) => { return Err(e); },
        };
        match ValType::decode(r1) {
            Ok((ty, r2)) => Ok((Local { count, ty }, r2)),
            Err(e) => Err(e),
        }
    }

    proof fn lemma_empty(eof: DecodeError) {
    }

    proof fn lemma_extends(s: Seq<u8>, t: Seq<u8>, eof: DecodeError) {
        lemma_leb_u32_extends(s, t, eof);
        if spec_leb_u32(s, eof) is Ok {
            ValType::lemma_extends(spec_leb_u32(s, eof).unwrap().1, t, eof);
        }
    }
}

} // verus!
