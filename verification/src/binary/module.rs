use vstd::prelude::*;
use crate::binary::cursor::{follows, read_is, spec_bytes, spec_u32_le, spec_u8, Cursor};
use crate::binary::error::{overrun, DecodeError, ModuleError, Read};
use crate::binary::leb128::spec_leb_u32;
use crate::binary::section::{
    decode_payload,
    section_code_of,
    spec_payload,
    Section,
    SectionCode,
    SectionView,
};
use crate::binary::segments::{
    consumed_of,
    CustomSection,
    CustomSectionView,
    DataSegment,
    DataSegmentView,
    ElementSegment,
    ElementSegmentView,
    FunctionBody,
    FunctionBodyView,
    Global,
    GlobalView,
};
use crate::binary::types::{
    Export,
    ExportView,
    FunctionType,
    FunctionTypeView,
    Import,
    ImportDesc,
    ImportView,
    MemoryType,
    TableType,
};

verus! {

/// The only version of the format that is decoded.
pub const VERSION: u32 = 1;

/// The length of the preamble: the magic bytes and the version.
pub const PREAMBLE_LEN: usize = 8;

/// The four bytes that every module starts with: `\0asm`.
pub open spec fn magic_bytes() -> Seq<u8> {
    seq![0x00u8, 0x61u8, 0x73u8, 0x6du8]
}

/// A decoded module.
#[derive(Debug, PartialEq, Eq)]
pub struct Module {
    pub magic: String,
    pub version: u32,
    pub types: Vec<FunctionType>,
    pub imports: Vec<Import>,
    /// The type index of each function that the module defines.
    pub functions: Vec<u32>,
    pub tables: Vec<TableType>,
    pub memories: Vec<MemoryType>,
    pub globals: Vec<Global>,
    pub exports: Vec<Export>,
    pub start: Option<u32>,
    pub elements: Vec<ElementSegment>,
    pub code: Vec<FunctionBody>,
    pub data: Vec<DataSegment>,
    /// The custom sections, in the order in which they came.
    pub customs: Vec<CustomSection>,
}

/// The model of a `Module`.
pub struct ModuleView {
    pub magic: Seq<char>,
    pub version: u32,
    pub types: Seq<FunctionTypeView>,
    pub imports: Seq<ImportView>,
    pub functions: Seq<u32>,
    pub tables: Seq<TableType>,
    pub memories: Seq<MemoryType>,
    pub globals: Seq<GlobalView>,
    pub exports: Seq<ExportView>,
    pub start: Option<u32>,
    pub elements: Seq<ElementSegmentView>,
    pub code: Seq<FunctionBodyView>,
    pub data: Seq<DataSegmentView>,
    pub customs: Seq<CustomSectionView>,
}

impl ModuleView {
    /// The module that holds nothing but its preamble.
    pub open spec fn empty() -> ModuleView {
        ModuleView {
            magic: "\0asm"@,
            version: VERSION,
            types: Seq::empty(),
            imports: Seq::empty(),
            functions: Seq::empty(),
            tables: Seq::empty(),
            memories: Seq::empty(),
            globals: Seq::empty(),
            exports: Seq::empty(),
            start: None,
            elements: Seq::empty(),
            code: Seq::empty(),
            data: Seq::empty(),
            customs: Seq::empty(),
        }
    }

    /// What holds of every module that the decoder returns: it has the
    /// magic bytes and the version of the format, and nothing is wrong
    /// across its sections.
    pub open spec fn well_formed(self) -> bool {
        &&& self.magic == "\0asm"@
        &&& self.version == VERSION
        &&& spec_check(self) is None
    }

    /// The module with `section` put in its place. A custom section is
    /// added after those that are there, any other takes its field.
    pub open spec fn with_section(self, section: SectionView) -> ModuleView {
        match section {
            SectionView::Custom(c) => ModuleView { customs: self.customs.push(c), ..self },
            SectionView::Type(v) => ModuleView { types: v, ..self },
            SectionView::Import(v) => ModuleView { imports: v, ..self },
            SectionView::Function(v) => ModuleView { functions: v, ..self },
            SectionView::Table(v) => ModuleView { tables: v, ..self },
            SectionView::Memory(v) => ModuleView { memories: v, ..self },
            SectionView::Global(v) => ModuleView { globals: v, ..self },
            SectionView::Export(v) => ModuleView { exports: v, ..self },
            SectionView::Start(f) => ModuleView { start: Some(f), ..self },
            SectionView::Element(v) => ModuleView { elements: v, ..self },
            SectionView::Code(v) => ModuleView { code: v, ..self },
            SectionView::Data(v) => ModuleView { data: v, ..self },
        }
    }
}

impl DeepView for Module {
    type V = ModuleView;

    open spec fn deep_view(&self) -> ModuleView {
        ModuleView {
            magic: self.magic@,
            version: self.version,
            types: self.types.deep_view(),
            imports: self.imports.deep_view(),
            functions: self.functions.deep_view(),
            tables: self.tables.deep_view(),
            memories: self.memories.deep_view(),
            globals: self.globals.deep_view(),
            exports: self.exports.deep_view(),
            start: self.start,
            elements: self.elements.deep_view(),
            code: self.code.deep_view(),
            data: self.data.deep_view(),
            customs: self.customs.deep_view(),
        }
    }
}

impl Default for Module {
    /// The module that holds nothing but its preamble.
    fn default() -> (m: Module)
        ensures
            m.deep_view() == ModuleView::empty(),
    {
        let m = Module {
            magic: "\0asm".to_owned(),
            version: VERSION,
            types: Vec::new(),
            imports: Vec::new(),
            functions: Vec::new(),
            tables: Vec::new(),
            memories: Vec::new(),
            globals: Vec::new(),
            exports: Vec::new(),
            start: None,
            elements: Vec::new(),
            code: Vec::new(),
            data: Vec::new(),
            customs: Vec::new(),
        };
        assert(m.deep_view().types =~= Seq::empty());
        assert(m.deep_view().imports =~= Seq::empty());
        assert(m.deep_view().functions =~= Seq::empty());
        assert(m.deep_view().tables =~= Seq::empty());
        assert(m.deep_view().memories =~= Seq::empty());
        assert(m.deep_view().globals =~= Seq::empty());
        assert(m.deep_view().exports =~= Seq::empty());
        assert(m.deep_view().elements =~= Seq::empty());
        assert(m.deep_view().code =~= Seq::empty());
        assert(m.deep_view().data =~= Seq::empty());
        assert(m.deep_view().customs =~= Seq::empty());
        m
    }
}

/// The preamble: the magic bytes, then the version, which must be 1.
/// Returns the bytes after it.
pub open spec fn spec_preamble(s: Seq<u8>) -> Result<Seq<u8>, DecodeError> {
    if s.len() < 4 {
        Err(DecodeError::UnexpectedEof)
    } else if !magic_bytes().is_prefix_of(s) {
        Err(DecodeError::BadMagic)
    } else {
        match spec_u32_le(s.skip(4), DecodeError::UnexpectedEof) {
            Err(e) => Err(e),
            Ok((version, rest)) => if version != VERSION {
                Err(DecodeError::UnsupportedVersion)
            } else {
                Ok(rest)
            },
        }
    }
}

/// The header of a section: its code byte, which must stand for a kind,
/// and the byte length of its payload.
pub open spec fn spec_section_header(s: Seq<u8>, eof: DecodeError) -> Read<(SectionCode, u32)> {
    match spec_u8(s, eof) {
        Err(e) => Err(e),
        Ok((byte, r1)) => match section_code_of(byte) {
            None => Err(DecodeError::UnknownSectionCode(byte)),
            Some(code) => match spec_leb_u32(r1, eof) {
                Err(e) => Err(e),
                Ok((size, r2)) => Ok(((code, size), r2)),
            },
        },
    }
}

/// Whether a section of kind `code` may follow when `last` is the code
/// byte of the latest section that was not custom, or 0 before the first.
pub open spec fn in_order(code: SectionCode, last: u8) -> bool {
    code == SectionCode::Custom || code.spec_code() > last
}

/// The value of `last` after a section of kind `code`.
pub open spec fn next_last(code: SectionCode, last: u8) -> u8 {
    if code == SectionCode::Custom {
        last
    } else {
        code.spec_code()
    }
}

/// The failure of the section that starts at `offset`.
pub open spec fn section_error(
    kind: DecodeError,
    offset: nat,
    section: Option<SectionCode>,
    entry: Option<u32>,
) -> ModuleError {
    ModuleError { kind, offset: offset as usize, section, entry }
}

/// What reading a section returns in the model: the section, the new
/// value of `last`, and the bytes after the section.
pub type ReadFramed = Result<((SectionView, u8), Seq<u8>), ModuleError>;

/// One framed section at byte offset `offset`: the header, the order
/// check, then a payload that must fill exactly the bytes that the
/// header announced. The payload is read from those bytes alone: where
/// it ends before its decoder is done, and where its decoder is done
/// before it ends, the section fails with `SectionLengthMismatch`.
/// `eof` is the error of a read that finds too few bytes outside the
/// payload: for the header, and for a payload that the input cannot
/// fill.
pub open spec fn spec_section(s: Seq<u8>, last: u8, offset: nat, eof: DecodeError) -> ReadFramed {
    match spec_section_header(s, eof) {
        Err(e) => Err(section_error(e, offset, None, None)),
        Ok(((code, size), r1)) => if !in_order(code, last) {
            Err(section_error(DecodeError::SectionOutOfOrder, offset, Some(code), None))
        } else {
            match spec_bytes(r1, size as nat, eof) {
                Err(e) => Err(section_error(e, offset, Some(code), None)),
                Ok((payload, r2)) => match spec_payload(code, payload, overrun(size)) {
                    Err(f) => Err(section_error(f.kind, offset, Some(code), f.index)),
                    Ok((section, left)) => if left.len() == 0 {
                        Ok(((section, next_last(code, last)), r2))
                    } else {
                        Err(
                            section_error(
                                DecodeError::SectionLengthMismatch {
                                    declared: size,
                                    consumed: consumed_of(size, left),
                                },
                                offset,
                                Some(code),
                                None,
                            ),
                        )
                    },
                },
            }
        },
    }
}

/// The sections from `s` on, put into `m` one after the other, where
/// `offset` is the byte offset of `s` in the input and `last` the code
/// byte of the latest section that was not custom. The first section
/// that fails ends the decode.
pub open spec fn spec_sections(s: Seq<u8>, last: u8, m: ModuleView, offset: nat) -> Result<
    ModuleView,
    ModuleError,
>
    decreases s.len(),
{
    if s.len() == 0 {
        Ok(m)
    } else {
        match spec_section(s, last, offset, DecodeError::UnexpectedEof) {
            Err(e) => Err(e),
            Ok(((section, new_last), rest)) => if rest.len() < s.len() {
                spec_sections(
                    rest,
                    new_last,
                    m.with_section(section),
                    (offset + s.len() - rest.len()) as nat,
                )
            } else {
                Err(section_error(DecodeError::UnexpectedEof, offset, None, None))
            },
        }
    }
}

/// How many of `imports` bring in a function.
pub open spec fn imported_functions(imports: Seq<ImportView>) -> nat
    decreases imports.len(),
{
    if imports.len() == 0 {
        0
    } else {
        imported_functions(imports.drop_last()) + if imports.last().desc is Func {
            1nat
        } else {
            0nat
        }
    }
}

/// Whether every function, imported or defined, names a type that the
/// module has.
pub open spec fn type_indices_in_range(m: ModuleView) -> bool {
    &&& forall|i: int|
        0 <= i < m.imports.len() ==> (#[trigger] m.imports[i].desc matches ImportDesc::Func(t)
            ==> t < m.types.len())
    &&& forall|i: int| 0 <= i < m.functions.len() ==> #[trigger] m.functions[i] < m.types.len()
}

/// What is wrong across the sections of `m`, if anything: the function
/// section and the code section must have one entry each for each
/// function, the type of each function must be one of the module's
/// types, and the start function one of its functions.
pub open spec fn spec_check(m: ModuleView) -> Option<DecodeError> {
    if m.functions.len() != m.code.len() {
        Some(DecodeError::CountMismatch)
    } else if !type_indices_in_range(m) {
        Some(DecodeError::IndexOutOfRange)
    } else if m.start matches Some(f) && f >= imported_functions(m.imports) + m.functions.len() {
        Some(DecodeError::IndexOutOfRange)
    } else {
        None
    }
}

/// What a whole input decodes to: the preamble, the sections up to the
/// end of the input, and the checks across sections.
pub open spec fn spec_module(s: Seq<u8>) -> Result<ModuleView, ModuleError> {
    match spec_preamble(s) {
        Err(e) => Err(section_error(e, 0, None, None)),
        Ok(rest) => match spec_sections(rest, 0, ModuleView::empty(), PREAMBLE_LEN as nat) {
            Err(e) => Err(e),
            Ok(m) => match spec_check(m) {
                Some(e) => Err(section_error(e, s.len(), None, None)),
                None => Ok(m),
            },
        },
    }
}

/// Sections change neither the magic bytes nor the version of the module
/// that they are put into.
pub proof fn lemma_sections_keep_preamble(s: Seq<u8>, last: u8, m: ModuleView, offset: nat)
    requires
        spec_sections(s, last, m, offset) is Ok,
    ensures
        spec_sections(s, last, m, offset).unwrap().magic == m.magic,
        spec_sections(s, last, m, offset).unwrap().version == m.version,
    decreases s.len(),
{
    if s.len() > 0 {
        let rest = spec_section(s, last, offset, DecodeError::UnexpectedEof).unwrap().1;
        let section = spec_section(s, last, offset, DecodeError::UnexpectedEof).unwrap().0.0;
        let new_last = spec_section(s, last, offset, DecodeError::UnexpectedEof).unwrap().0.1;
        lemma_sections_keep_preamble(
            rest,
            new_last,
            m.with_section(section),
            (offset + s.len() - rest.len()) as nat,
        );
    }
}

/// Every module that an input decodes to is well formed.
pub proof fn lemma_decoded_well_formed(s: Seq<u8>)
    ensures
        spec_module(s) matches Ok(m) ==> m.well_formed(),
{
    if spec_module(s) is Ok {
        lemma_sections_keep_preamble(
            spec_preamble(s).unwrap(),
            0,
            ModuleView::empty(),
            PREAMBLE_LEN as nat,
        );
    }
}

/// Reads the header of a section: the kind that its code byte stands
/// for, and the byte length of its payload.
pub fn decode_section_header<'a>(cur: Cursor<'a>) -> (r: Result<
    ((SectionCode, u32), Cursor<'a>),
    DecodeError,
>)
    ensures
        read_is(r, cur, spec_section_header(cur@, cur.eof_kind())),
        r matches Ok((_, rc)) ==> rc@.len() + 2 <= cur@.len(),
{
    let (byte, r1) = match cur.read_u8() {
        Ok(x) => x,
        Err(e) => { return Err(e); },
    };
    let code = match SectionCode::from_u8(byte) {
        Some(c) => c,
        None => { return Err(DecodeError::UnknownSectionCode(byte)); },
    };
    match r1.read_leb128_u32() {
        Ok((size, r2)) => Ok(((code, size), r2)),
        Err(e) => Err(e),
    }
}

/// Decodes the section at the front of `cur`, which stands at byte
/// `offset` of the input, after sections of which `last` was the latest
/// code byte that was not custom. Returns the section and the new value
/// of `last`. The payload is framed by its declared length: a decoder
/// that is done before the payload ends, or that runs over its end,
/// fails the section with `SectionLengthMismatch`.
pub fn decode_section<'a>(cur: Cursor<'a>, last: u8, offset: usize) -> (r: Result<
    ((Section, u8), Cursor<'a>),
    ModuleError,
>)
    ensures
        match spec_section(cur@, last, offset as nat, cur.eof_kind()) {
            Ok(((v, l), rest)) => r matches Ok(((rv, rl), rc)) && rv.deep_view() == v && rl == l
                && follows(rc, cur, rest),
            Err(e) => r matches Err(re) && re == e,
        },
        r matches Ok((_, rc)) ==> rc@.len() + 3 <= cur@.len(),
{
    let ((code, size), r1) = match decode_section_header(cur) {
        Ok(x) => x,
        Err(e) => {
            return Err(ModuleError { kind: e, offset, section: None, entry: None });
        },
    };
    let byte = code.code();
    let custom = byte == 0;
    if !custom && byte <= last {
        return Err(
            ModuleError {
                kind: DecodeError::SectionOutOfOrder,
                offset,
                section: Some(code),
                entry: None,
            },
        );
    }
    let (payload, r2) = match r1.slice(size) {
        Ok(x) => x,
        Err(e) => {
            return Err(ModuleError { kind: e, offset, section: Some(code), entry: None });
        },
    };
    let (section, left) = match decode_payload(code, payload) {
        Ok(x) => x,
        Err(f) => {
            return Err(
                ModuleError { kind: f.kind, offset, section: Some(code), entry: f.index },
            );
        },
    };
    if !left.is_empty() {
        let consumed = size - (left.remaining() as u32);
        return Err(
            ModuleError {
                kind: DecodeError::SectionLengthMismatch { declared: size, consumed },
                offset,
                section: Some(code),
                entry: None,
            },
        );
    }
    let new_last = if custom {
        last
    } else {
        byte
    };
    Ok(((section, new_last), r2))
}

/// A failure in the preamble, which starts at offset 0.
fn preamble_error(kind: DecodeError) -> (e: ModuleError)
    ensures
        e == section_error(kind, 0, None, None),
{
    ModuleError { kind, offset: 0, section: None, entry: None }
}

impl Module {
    /// Puts `section` in its place.
    pub fn with_section(self, section: Section) -> (m: Module)
        ensures
            m.deep_view() == self.deep_view().with_section(section.deep_view()),
    {
        let mut m = self;
        match section {
            Section::Custom(c) => {
                let ghost before = m.customs.deep_view();
                m.customs.push(c);
                assert(m.customs.deep_view() =~= before.push(c.deep_view()));
            },
            Section::Type(v) => { m.types = v; },
            Section::Import(v) => { m.imports = v; },
            Section::Function(v) => { m.functions = v; },
            Section::Table(v) => { m.tables = v; },
            Section::Memory(v) => { m.memories = v; },
            Section::Global(v) => { m.globals = v; },
            Section::Export(v) => { m.exports = v; },
            Section::Start(f) => { m.start = Some(f); },
            Section::Element(v) => { m.elements = v; },
            Section::Code(v) => { m.code = v; },
            Section::Data(v) => { m.data = v; },
        }
        m
    }

    /// Decodes a whole module from `input`, and returns it with the
    /// input that is left, which is empty: the sections run to the end
    /// of the input.
    pub fn decode<'a>(input: &'a [u8]) -> (r: Result<(&'a [u8], Module), ModuleError>)
        ensures
            match spec_module(input@) {
                Ok(m) => r matches Ok((rest, module)) && rest@.len() == 0 && module.deep_view()
                    == m,
                Err(e) => r matches Err(re) && re == e,
            },
            r matches Ok((_, module)) ==> module.deep_view().well_formed(),
    {
        proof {
            lemma_decoded_well_formed(input@);
        }
        let start = Cursor::new(input);
        if input.len() < 4 {
            return Err(preamble_error(DecodeError::UnexpectedEof));
        }
        let magic: [u8; 4] = [0x00, 0x61, 0x73, 0x6d];
        assert(magic@ =~= magic_bytes());
        let after_magic = match start.strip_prefix(magic.as_slice()) {
            Some(c) => c,
            None => { return Err(preamble_error(DecodeError::BadMagic)); },
        };
        let (version, first) = match after_magic.read_u32_le() {
            Ok(x) => x,
            Err(e) => { return Err(preamble_error(e)); },
        };
        if version != VERSION {
            return Err(preamble_error(DecodeError::UnsupportedVersion));
        }
        let mut module = Module::default();
        let mut at = first;
        let mut last: u8 = 0;
        while !at.is_empty()
            invariant
                input@.len() == first@.len() + PREAMBLE_LEN,
                spec_preamble(input@) == Ok::<Seq<u8>, DecodeError>(first@),
                at@.len() <= first@.len(),
                at.eof_kind() == DecodeError::UnexpectedEof,
                spec_sections(
                    at@,
                    last,
                    module.deep_view(),
                    (input@.len() - at@.len()) as nat,
                ) == spec_sections(first@, 0, ModuleView::empty(), PREAMBLE_LEN as nat),
            decreases at@.len(),
        {
            let offset = input.len() - at.remaining();
            match decode_section(at, last, offset) {
                Err(e) => { return Err(e); },
                Ok(((section, new_last), next)) => {
                    module = module.with_section(section);
                    last = new_last;
                    at = next;
                },
            }
        }
        match module.check() {
            Some(e) => Err(
                ModuleError { kind: e, offset: input.len(), section: None, entry: None },
            ),
            None => Ok((at.as_bytes(), module)),
        }
    }

    /// Decodes a whole module from `input`.
    pub fn new(input: &[u8]) -> (r: Result<Module, ModuleError>)
        ensures
            match spec_module(input@) {
                Ok(m) => r matches Ok(module) && module.deep_view() == m,
                Err(e) => r matches Err(re) && re == e,
            },
            r matches Ok(module) ==> module.deep_view().well_formed(),
    {
        match Module::decode(input) {
            Ok((_, module)) => Ok(module),
            Err(e) => Err(e),
        }
    }

    /// Checks what must hold across the sections.
    pub fn check(&self) -> (r: Option<DecodeError>)
        ensures
            r == spec_check(self.deep_view()),
    {
        let ghost mv = self.deep_view();
        if self.functions.len() != self.code.len() {
            return Some(DecodeError::CountMismatch);
        }
        let types = self.types.len();
        let mut imported: usize = 0;
        let mut i: usize = 0;
        while i < self.imports.len()
            invariant
                i <= self.imports.len(),
                mv == self.deep_view(),
                types == self.types.len(),
                self.functions.len() == self.code.len(),
                imported == imported_functions(mv.imports.take(i as int)),
                imported <= i,
                forall|j: int|
                    0 <= j < i ==> (#[trigger] mv.imports[j].desc matches ImportDesc::Func(t)
                        ==> t < types),
            decreases self.imports.len() - i,
        {
            assert(mv.imports[i as int].desc == self.imports[i as int].desc);
            assert(mv.imports.take(i + 1).drop_last() =~= mv.imports.take(i as int));
            match self.imports[i].desc {
                ImportDesc::Func(t) => {
                    if t as usize >= types {
                        return Some(DecodeError::IndexOutOfRange);
                    }
                    imported = imported + 1;
                },
                _ => {},
            }
            i = i + 1;
        }
        assert(mv.imports.take(i as int) =~= mv.imports);
        let mut k: usize = 0;
        while k < self.functions.len()
            invariant
                k <= self.functions.len(),
                mv == self.deep_view(),
                types == self.types.len(),
                self.functions.len() == self.code.len(),
                forall|j: int| 0 <= j < k ==> #[trigger] mv.functions[j] < types,
            decreases self.functions.len() - k,
        {
            assert(mv.functions[k as int] == self.functions[k as int]);
            if self.functions[k] as usize >= types {
                return Some(DecodeError::IndexOutOfRange);
            }
            k = k + 1;
        }
        match self.start {
            Some(f) => {
                let f = f as usize;
                if f >= imported && f - imported >= self.functions.len() {
                    return Some(DecodeError::IndexOutOfRange);
                }
            },
            None => {},
        }
        None
    }
}

} // verus!
