use vstd::prelude::*;
use crate::binary::cursor::{follows, Cursor};
use crate::binary::decode::{spec_vector, vector};
use crate::binary::error::{DecodeError, Failure};
use crate::binary::leb128::spec_leb_u32;
use crate::binary::segments::{
    decode_custom,
    spec_custom,
    CustomSection,
    CustomSectionView,
    DataSegment,
    DataSegmentView,
    ElementSegment,
    ElementSegmentView,
    FunctionBody,
    FunctionBodyView,
    Global,
    GlobalView,
};
use crate::binary::types::{
    Export,
    ExportView,
    FunctionType,
    FunctionTypeView,
    Import,
    ImportView,
    MemoryType,
    TableType,
};

verus! {

/// The kind of a section.
#[derive(Debug, Clone, Copy, PartialEq, Eq)]
pub enum SectionCode {
    Custom,
    Type,
    Import,
    Function,
    Table,
    Memory,
    Global,
    Export,
    Start,
    Element,
    Code,
    Data,
}

/// The section kind that a code byte stands for.
pub open spec fn section_code_of(byte: u8) -> Option<SectionCode> {
    if byte == 0 {
        Some(SectionCode::Custom)
    } else if byte == 1 {
        Some(SectionCode::Type)
    } else if byte == 2 {
        Some(SectionCode::Import)
    } else if byte == 3 {
        Some(SectionCode::Function)
    } else if byte == 4 {
        Some(SectionCode::Table)
    } else if byte == 5 {
        Some(SectionCode::Memory)
    } else if byte == 6 {
        Some(SectionCode::Global)
    } else if byte == 7 {
        Some(SectionCode::Export)
    } else if byte == 8 {
        Some(SectionCode::Start)
    } else if byte == 9 {
        Some(SectionCode::Element)
    } else if byte == 10 {
        Some(SectionCode::Code)
    } else if byte == 11 {
        Some(SectionCode::Data)
    } else {
        None
    }
}

impl SectionCode {
    /// The code byte of this kind. The bytes of the kinds other than
    /// `Custom` rise in the order in which their sections must come.
    pub open spec fn spec_code(self) -> u8 {
        match self {
            SectionCode::Custom => 0,
            SectionCode::Type => 1,
            SectionCode::Import => 2,
            SectionCode::Function => 3,
            SectionCode::Table => 4,
            SectionCode::Memory => 5,
            SectionCode::Global => 6,
            SectionCode::Export => 7,
            SectionCode::Start => 8,
            SectionCode::Element => 9,
            SectionCode::Code => 10,
            SectionCode::Data => 11,
        }
    }

    /// The kind that `byte` stands for, or `None` for a byte that stands
    /// for none.
    pub fn from_u8(byte: u8) -> (r: Option<SectionCode>)
        ensures
            r == section_code_of(byte),
            r is None <==> byte > 11,
            r matches Some(c) ==> c.spec_code() == byte,
    {
        if byte == 0 {
            Some(SectionCode::Custom)
        } else if byte == 1 {
            Some(SectionCode::Type)
        } else if byte == 2 {
            Some(SectionCode::Import)
        } else if byte == 3 {
            Some(SectionCode::Function)
        } else if byte == 4 {
            Some(SectionCode::Table)
        } else if byte == 5 {
            Some(SectionCode::Memory)
        } else if byte == 6 {
            Some(SectionCode::Global)
        } else if byte == 7 {
            Some(SectionCode::Export)
        } else if byte == 8 {
            Some(SectionCode::Start)
        } else if byte == 9 {
            Some(SectionCode::Element)
        } else if byte == 10 {
            Some(SectionCode::Code)
        } else if byte == 11 {
            Some(SectionCode::Data)
        } else {
            None
        }
    }

    pub fn code(self) -> (b: u8)
        ensures
            b == self.spec_code(),
            section_code_of(b) == Some(self),
    {
        match self {
            SectionCode::Custom => 0,
            SectionCode::Type => 1,
            SectionCode::Import => 2,
            SectionCode::Function => 3,
            SectionCode::Table => 4,
            SectionCode::Memory => 5,
            SectionCode::Global => 6,
            SectionCode::Export => 7,
            SectionCode::Start => 8,
            SectionCode::Element => 9,
            SectionCode::Code => 10,
            SectionCode::Data => 11,
        }
    }
}

/// A decoded section.
#[derive(Debug, PartialEq, Eq)]
pub enum Section {
    Custom(CustomSection),
    Type(Vec<FunctionType>),
    Import(Vec<Import>),
    Function(Vec<u32>),
    Table(Vec<TableType>),
    Memory(Vec<MemoryType>),
    Global(Vec<Global>),
    Export(Vec<Export>),
    Start(u32),
    Element(Vec<ElementSegment>),
    Code(Vec<FunctionBody>),
    Data(Vec<DataSegment>),
}

/// The model of a `Section`.
pub enum SectionView {
    Custom(CustomSectionView),
    Type(Seq<FunctionTypeView>),
    Import(Seq<ImportView>),
    Function(Seq<u32>),
    Table(Seq<TableType>),
    Memory(Seq<MemoryType>),
    Global(Seq<GlobalView>),
    Export(Seq<ExportView>),
    Start(u32),
    Element(Seq<ElementSegmentView>),
    Code(Seq<FunctionBodyView>),
    Data(Seq<DataSegmentView>),
}

impl DeepView for Section {
    type V = SectionView;

    open spec fn deep_view(&self) -> SectionView {
        match self {
            Section::Custom(c) => SectionView::Custom(c.deep_view()),
            Section::Type(v) => SectionView::Type(v.deep_view()),
            Section::Import(v) => SectionView::Import(v.deep_view()),
            Section::Function(v) => SectionView::Function(v.deep_view()),
            Section::Table(v) => SectionView::Table(v.deep_view()),
            Section::Memory(v) => SectionView::Memory(v.deep_view()),
            Section::Global(v) => SectionView::Global(v.deep_view()),
            Section::Export(v) => SectionView::Export(v.deep_view()),
            Section::Start(f) => SectionView::Start(*f),
            Section::Element(v) => SectionView::Element(v.deep_view()),
            Section::Code(v) => SectionView::Code(v.deep_view()),
            Section::Data(v) => SectionView::Data(v.deep_view()),
        }
    }
}

/// What reading a payload returns in the model.
pub type ReadSection = Result<(SectionView, Seq<u8>), Failure>;

/// Keeps the bytes after a vector and wraps the vector as a section.
pub open spec fn wrap<T>(
    r: Result<(Seq<T>, Seq<u8>), Failure>,
    f: spec_fn(Seq<T>) -> SectionView,
) -> ReadSection {
    match r {
        Err(e) => Err(e),
        Ok((v, rest)) => Ok((f(v), rest)),
    }
}

/// What the payload of a section of kind `code` holds, where `eof` is
/// the error of a read that finds too few bytes. All kinds but `Custom`
/// and `Start` are vectors of entries, and a failure in one keeps the
/// position of the entry.
pub open spec fn spec_payload(code: SectionCode, s: Seq<u8>, eof: DecodeError) -> ReadSection {
    match code {
        SectionCode::Custom => match spec_custom(s, eof) {
            Err(e) => Err(Failure::plain(e)),
            Ok((c, rest)) => Ok((SectionView::Custom(c), rest)),
        },
        SectionCode::Type => wrap(
            spec_vector::<FunctionType>(s, eof),
            |v: Seq<FunctionTypeView>| SectionView::Type(v),
        ),
        SectionCode::Import => wrap(
            spec_vector::<Import>(s, eof),
            |v: Seq<ImportView>| SectionView::Import(v),
        ),
        SectionCode::Function => wrap(
            spec_vector::<u32>(s, eof),
            |v: Seq<u32>| SectionView::Function(v),
        ),
        SectionCode::Table => wrap(
            spec_vector::<TableType>(s, eof),
            |v: Seq<TableType>| SectionView::Table(v),
        ),
        SectionCode::Memory => wrap(
            spec_vector::<MemoryType>(s, eof),
            |v: Seq<MemoryType>| SectionView::Memory(v),
        ),
        SectionCode::Global => wrap(
            spec_vector::<Global>(s, eof),
            |v: Seq<GlobalView>| SectionView::Global(v),
        ),
        SectionCode::Export => wrap(
            spec_vector::<Export>(s, eof),
            |v: Seq<ExportView>| SectionView::Export(v),
        ),
        SectionCode::Start => match spec_leb_u32(s, eof) {
            Err(e) => Err(Failure::plain(e)),
            Ok((f, rest)) => Ok((SectionView::Start(f), rest)),
        },
        SectionCode::Element => wrap(
            spec_vector::<ElementSegment>(s, eof),
            |v: Seq<ElementSegmentView>| SectionView::Element(v),
        ),
        SectionCode::Code => wrap(
            spec_vector::<FunctionBody>(s, eof),
            |v: Seq<FunctionBodyView>| SectionView::Code(v),
        ),
        SectionCode::Data => wrap(
            spec_vector::<DataSegment>(s, eof),
            |v: Seq<DataSegmentView>| SectionView::Data(v),
        ),
    }
}

/// Decodes the payload of a section of kind `code`.
pub fn decode_payload<'a>(code: SectionCode, cur: Cursor<'a>) -> (r: Result<
    (Section, Cursor<'a>),
    Failure,
>)
    ensures
        match spec_payload(code, cur@, cur.eof_kind()) {
            Ok((v, rest)) => r matches Ok((rv, rc)) && rv.deep_view() == v && follows(rc, cur, rest),
            Err(f) => r matches Err(rf) && rf == f,
        },
        r matches Ok((_, rc)) ==> rc@.len() < cur@.len(),
{
    match code {
        SectionCode::Custom => match decode_custom(cur) {
            Ok((c, rest)) => Ok((Section::Custom(c), rest)),
            Err(e) => Err(Failure { kind: e, index: None }),
        },
        SectionCode::Type => match vector::<FunctionType>(cur) {
            Ok((v, rest)) => Ok((Section::Type(v), rest)),
            Err(f) => Err(f),
        },
        SectionCode::Import => match vector::<Import>(cur) {
            Ok((v, rest)) => Ok((Section::Import(v), rest)),
            Err(f) => Err(f),
        },
        SectionCode::Function => match vector::<u32>(cur) {
            Ok((v, rest)) => Ok((Section::Function(v), rest)),
            Err(f) => Err(f),
        },
        SectionCode::Table => match vector::<TableType>(cur) {
            Ok((v, rest)) => Ok((Section::Table(v), rest)),
            Err(f) => Err(f),
        },
        SectionCode::Memory => match vector::<MemoryType>(cur) {
            Ok((v, rest)) => Ok((Section::Memory(v), rest)),
            Err(f) => Err(f),
        },
        SectionCode::Global => match vector::<Global>(cur) {
            Ok((v, rest)) => Ok((Section::Global(v), rest)),
            Err(f) => Err(f),
        },
        SectionCode::Export => match vector::<Export>(cur) {
            Ok((v, rest)) => Ok((Section::Export(v), rest)),
            Err(f) => Err(f),
        },
        SectionCode::Start => match cur.read_leb128_u32() {
            Ok((f, rest)) => Ok((Section::Start(f), rest)),
            Err(e) => Err(Failure { kind: e, index: None }),
        },
        SectionCode::Element => match vector::<ElementSegment>(cur) {
            Ok((v, rest)) => Ok((Section::Element(v), rest)),
            Err(f) => Err(f),
        },
        SectionCode::Code => match vector::<FunctionBody>(cur) {
            Ok((v, rest)) => Ok((Section::Code(v), rest)),
            Err(f) => Err(f),
        },
        SectionCode::Data => match vector::<DataSegment>(cur) {
            Ok((v, rest)) => Ok((Section::Data(v), rest)),
            Err(f) => Err(f),
        },
    }
}

} // verus!
