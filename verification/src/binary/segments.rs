use vstd::prelude::*;
use vstd::slice::slice_to_vec;
use crate::binary::cursor::{
    advances,
    follows,
    lemma_bytes_extends,
    lemma_u8_extends,
    spec_bytes,
    spec_name,
    spec_u8,
    Cursor,
};
use crate::binary::decode::{lemma_vector_extends, spec_vector, vector, Decode};
use crate::binary::error::{cut_short, extends, overrun, DecodeError, Read};
use crate::binary::instr::{
    decode_expr,
    instrs_view,
    lemma_expr_extends,
    spec_expr,
    Instruction,
    InstructionView,
};
use crate::binary::leb128::{lemma_leb_u32_extends, spec_leb_u32};
use crate::binary::types::{GlobalType, Local, RefType};

verus! {

/// An expression: a sequence of instructions closed by `end`.
#[derive(Debug, PartialEq, Eq)]
pub struct Expr {
    pub instrs: Vec<Instruction>,
}

impl DeepView for Expr {
    type V = Seq<InstructionView>;

    open spec fn deep_view(&self) -> Seq<InstructionView> {
        instrs_view(self.instrs@)
    }
}

impl Decode for Expr {
    open spec fn spec_decode(s: Seq<u8>, eof: DecodeError) -> Read<Seq<InstructionView>> {
        spec_expr(s, eof)
    }

    fn decode<'a>(cur: Cursor<'a>) -> (r: Result<(Expr, Cursor<'a>), DecodeError>) {
        let r = decode_expr(cur);
        assert(Expr::spec_decode(cur@, cur.eof_kind()) == spec_expr(cur@, cur.eof_kind()));
        match r {
            Ok((instrs, rest)) => Ok((Expr { instrs }, rest)),
            Err(e) => Err(e),
        }
    }

    proof fn lemma_empty(eof: DecodeError) {
    }

    proof fn lemma_extends(s: Seq<u8>, t: Seq<u8>, eof: DecodeError) {
        lemma_expr_extends(s, t, eof);
    }
}

/// A global: its type and the expression that gives its first value.
#[derive(Debug, PartialEq, Eq)]
pub struct Global {
    pub ty: GlobalType,
    pub init: Expr,
}

/// The model of a `Global`.
pub struct GlobalView {
    pub ty: GlobalType,
    pub init: Seq<InstructionView>,
}

impl DeepView for Global {
    type V = GlobalView;

    open spec fn deep_view(&self) -> GlobalView {
        GlobalView { ty: self.ty, init: self.init.deep_view() }
    }
}

impl Decode for Global {
    open spec fn spec_decode(s: Seq<u8>, eof: DecodeError) -> Read<GlobalView> {
        match GlobalType::spec_decode(s, eof) {
            Err(e) => Err(e),
            Ok((ty, r1)) => match spec_expr(r1, eof) {
                Err(e) => Err(e),
                Ok((init, r2)) => Ok((GlobalView { ty, init }, r2)),
            },
        }
    }

    fn decode<'a>(cur: Cursor<'a>) -> (r: Result<(Global, Cursor<'a>), DecodeError>) {
        let (ty, r1) = match GlobalType::decode(cur) {
            Ok(x) => x,
            Err(e) => { return Err(e); },
        };
        match Expr::decode(r1) {
            Ok((init, r2)) => Ok((Global { ty, init }, r2)),
            Err(e) => Err(e),
        }
    }

    proof fn lemma_empty(eof: DecodeError) {
    }

    proof fn lemma_extends(s: Seq<u8>, t: Seq<u8>, eof: DecodeError) {
        GlobalType::lemma_extends(s, t, eof);
        if GlobalType::spec_decode(s, eof) is Ok {
            lemma_expr_extends(GlobalType::spec_decode(s, eof).unwrap().1, t, eof);
        }
    }
}

/// How a segment comes into use.
#[derive(Debug, PartialEq, Eq)]
pub enum SegmentMode {
    /// Copied on demand by an instruction.
    Passive,
    /// Copied at instantiation into the table or memory `index`, at the
    /// position that `offset` computes.
    Active { index: u32, offset: Expr },
    /// Only declares its items: element segments alone.
    Declarative,
}

/// The model of a `SegmentMode`.
pub enum SegmentModeView {
    Passive,
    Active { index: u32, offset: Seq<InstructionView> },
    Declarative,
}

impl DeepView for SegmentMode {
    type V = SegmentModeView;

    open spec fn deep_view(&self) -> SegmentModeView {
        match self {
            SegmentMode::Passive => SegmentModeView::Passive,
            SegmentMode::Active { index, offset } => SegmentModeView::Active {
                index: *index,
                offset: offset.deep_view(),
            },
            SegmentMode::Declarative => SegmentModeView::Declarative,
        }
    }
}

/// The part of a segment that its flag byte announces. An active
/// segment holds an index, if `explicit`, and an offset expression. The
/// others hold nothing here.
pub open spec fn spec_mode(s: Seq<u8>, active: bool, explicit: bool, declarative: bool, eof: DecodeError) -> Read<
    SegmentModeView,
> {
    if !active {
        if declarative {
            Ok((SegmentModeView::Declarative, s))
        } else {
            Ok((SegmentModeView::Passive, s))
        }
    } else if explicit {
        match spec_leb_u32(s, eof) {
            Err(e) => Err(e),
            Ok((index, r1)) => match spec_expr(r1, eof) {
                Err(e) => Err(e),
                Ok((offset, r2)) => Ok((SegmentModeView::Active { index, offset }, r2)),
            },
        }
    } else {
        match spec_expr(s, eof) {
            Err(e) => Err(e),
            Ok((offset, r1)) => Ok((SegmentModeView::Active { index: 0, offset }, r1)),
        }
    }
}

/// Decodes the mode of a segment whose flag byte said `active`,
/// `explicit` and `declarative`.
pub fn decode_mode<'a>(cur: Cursor<'a>, active: bool, explicit: bool, declarative: bool) -> (r:
    Result<(SegmentMode, Cursor<'a>), DecodeError>)
    ensures
        match spec_mode(cur@, active, explicit, declarative, cur.eof_kind()) {
            Ok((v, rest)) => r matches Ok((rv, rc)) && rv.deep_view() == v && follows(rc, cur, rest),
            Err(e) => r matches Err(re) && re == e,
        },
        r matches Ok((_, rc)) ==> rc@.len() <= cur@.len(),
{
    if !active {
        if declarative {
            return Ok((SegmentMode::Declarative, cur));
        }
        return Ok((SegmentMode::Passive, cur));
    }
    if explicit {
        let (index, r1) = match cur.read_leb128_u32() {
            Ok(x) => x,
            Err(e) => { return Err(e); },
        };
        match Expr::decode(r1) {
            Ok((offset, r2)) => Ok((SegmentMode::Active { index, offset }, r2)),
            Err(e) => Err(e),
        }
    } else {
        match Expr::decode(cur) {
            Ok((offset, r1)) => Ok((SegmentMode::Active { index: 0, offset }, r1)),
            Err(e) => Err(e),
        }
    }
}

/// Bytes after the mode of a segment do not change how it is read.
/// Cut short, the read can fail only by running out of bytes.
pub proof fn lemma_mode_extends(
    s: Seq<u8>,
    t: Seq<u8>,
    active: bool,
    explicit: bool,
    declarative: bool,
    eof: DecodeError,
)
    ensures
        extends(
            spec_mode(s, active, explicit, declarative, eof),
            spec_mode(s + t, active, explicit, declarative, eof),
            t,
        ),
        cut_short(
            spec_mode(s, active, explicit, declarative, eof),
            spec_mode(s + t, active, explicit, declarative, eof),
            eof,
        ),
{
    lemma_expr_extends(s, t, eof);
    lemma_leb_u32_extends(s, t, eof);
    if spec_leb_u32(s, eof) is Ok {
        lemma_expr_extends(spec_leb_u32(s, eof).unwrap().1, t, eof);
    }
}

/// What an element segment holds.
#[derive(Debug, PartialEq, Eq)]
pub enum ElementItems {
    /// Function indices.
    Functions(Vec<u32>),
    /// One expression for each element.
    Expressions(Vec<Expr>),
}

/// The model of `ElementItems`.
pub enum ElementItemsView {
    Functions(Seq<u32>),
    Expressions(Seq<Seq<InstructionView>>),
}

impl DeepView for ElementItems {
    type V = ElementItemsView;

    open spec fn deep_view(&self) -> ElementItemsView {
        match self {
            ElementItems::Functions(v) => ElementItemsView::Functions(v.deep_view()),
            ElementItems::Expressions(v) => ElementItemsView::Expressions(v.deep_view()),
        }
    }
}

/// One entry of the element section.
#[derive(Debug, PartialEq, Eq)]
pub struct ElementSegment {
    pub mode: SegmentMode,
    pub ty: RefType,
    pub items: ElementItems,
}

/// The model of an `ElementSegment`.
pub struct ElementSegmentView {
    pub mode: SegmentModeView,
    pub ty: RefType,
    pub items: ElementItemsView,
}

impl DeepView for ElementSegment {
    type V = ElementSegmentView;

    open spec fn deep_view(&self) -> ElementSegmentView {
        ElementSegmentView {
            mode: self.mode.deep_view(),
            ty: self.ty,
            items: self.items.deep_view(),
        }
    }
}

/// The element type of a segment with flag `flag`. Flags 0 and 4 hold
/// none and mean function references. Flags 1 to 3 hold an element kind,
/// which must be 0. Flags 5 to 7 hold a reference type.
pub open spec fn spec_element_type(s: Seq<u8>, flag: u8, eof: DecodeError) -> Read<RefType> {
    if flag == 0 || flag == 4 {
        Ok((RefType::FuncRef, s))
    } else if flag < 4 {
        match spec_u8(s, eof) {
            Err(e) => Err(e),
            Ok((kind, rest)) => if kind == 0 {
                Ok((RefType::FuncRef, rest))
            } else {
                Err(DecodeError::UnknownTypeTag(kind))
            },
        }
    } else {
        RefType::spec_decode(s, eof)
    }
}

/// The items of a segment with flag `flag`: function indices below 4,
/// expressions from 4 on.
pub open spec fn spec_element_items(s: Seq<u8>, flag: u8, eof: DecodeError) -> Read<ElementItemsView> {
    if flag < 4 {
        match spec_vector::<u32>(s, eof) {
            Err(f) => Err(f.kind),
            Ok((v, rest)) => Ok((ElementItemsView::Functions(v), rest)),
        }
    } else {
        match spec_vector::<Expr>(s, eof) {
            Err(f) => Err(f.kind),
            Ok((v, rest)) => Ok((ElementItemsView::Expressions(v), rest)),
        }
    }
}

/// Bytes after the element type of a segment do not change how it is
/// read.
/// Cut short, the read can fail only by running out of bytes.
pub proof fn lemma_element_type_extends(s: Seq<u8>, t: Seq<u8>, flag: u8, eof: DecodeError)
    ensures
        extends(spec_element_type(s, flag, eof), spec_element_type(s + t, flag, eof), t),
        cut_short(spec_element_type(s, flag, eof), spec_element_type(s + t, flag, eof), eof),
{
    lemma_u8_extends(s, t, eof);
    RefType::lemma_extends(s, t, eof);
}

/// Bytes after the items of a segment do not change how they are read.
/// Cut short, the read can fail only by running out of bytes.
pub proof fn lemma_element_items_extends(s: Seq<u8>, t: Seq<u8>, flag: u8, eof: DecodeError)
    ensures
        extends(spec_element_items(s, flag, eof), spec_element_items(s + t, flag, eof), t),
        cut_short(spec_element_items(s, flag, eof), spec_element_items(s + t, flag, eof), eof),
{
    lemma_vector_extends::<u32>(s, t, eof);
    lemma_vector_extends::<Expr>(s, t, eof);
}

impl Decode for ElementSegment {
    /// A flag byte from 0 to 7, then the mode, the element type and the
    /// items as the flag announces them. An even flag is active, 2 and 6
    /// name their table, 3 and 7 are declarative.
    open spec fn spec_decode(s: Seq<u8>, eof: DecodeError) -> Read<ElementSegmentView> {
        match spec_u8(s, eof) {
            Err(e) => Err(e),
            Ok((flag, r1)) => if flag > 7 {
                Err(DecodeError::UnknownTypeTag(flag))
            } else {
                match spec_mode(
                    r1,
                    flag == 0 || flag == 2 || flag == 4 || flag == 6,
                    flag == 2 || flag == 6,
                    flag == 3 || flag == 7,
                    eof,
                ) {
                    Err(e) => Err(e),
                    Ok((mode, r2)) => match spec_element_type(r2, flag, eof) {
                        Err(e) => Err(e),
                        Ok((ty, r3)) => match spec_element_items(r3, flag, eof) {
                            Err(e) => Err(e),
                            Ok((items, r4)) => Ok((ElementSegmentView { mode, ty, items }, r4)),
                        },
                    },
                }
            },
        }
    }

    fn decode<'a>(cur: Cursor<'a>) -> (r: Result<(ElementSegment, Cursor<'a>), DecodeError>) {
        let (flag, r1) = match cur.read_u8() {
            Ok(x) => x,
            Err(e) => { return Err(e); },
        };
        if flag > 7 {
            return Err(DecodeError::UnknownTypeTag(flag));
        }
        let active = flag == 0 || flag == 2 || flag == 4 || flag == 6;
        let (mode, r2) = match decode_mode(r1, active, flag == 2 || flag == 6, flag == 3 || flag == 7) {
            Ok(x) => x,
            Err(e) => { return Err(e); },
        };
        let (ty, r3) = if flag == 0 || flag == 4 {
            (RefType::FuncRef, r2)
        } else if flag < 4 {
            let (kind, rest) = match r2.read_u8() {
                Ok(x) => x,
                Err(e) => { return Err(e); },
            };
            if kind != 0 {
                return Err(DecodeError::UnknownTypeTag(kind));
            }
            (RefType::FuncRef, rest)
        } else {
            match RefType::decode(r2) {
                Ok(x) => x,
                Err(e) => { return Err(e); },
            }
        };
        if flag < 4 {
            match vector::<u32>(r3) {
                Ok((v, r4)) => Ok((ElementSegment { mode, ty, items: ElementItems::Functions(v) }, r4)),
                Err(f) => Err(f.kind),
            }
        } else {
            match vector::<Expr>(r3) {
                Ok((v, r4)) => Ok(
                    (ElementSegment { mode, ty, items: ElementItems::Expressions(v) }, r4),
                ),
                Err(f) => Err(f.kind),
            }
        }
    }

    proof fn lemma_empty(eof: DecodeError) {
    }

    proof fn lemma_extends(s: Seq<u8>, t: Seq<u8>, eof: DecodeError) {
        lemma_u8_extends(s, t, eof);
        if spec_u8(s, eof) is Ok && s[0] <= 7 {
            let flag = s[0];
            let r1 = spec_u8(s, eof).unwrap().1;
            let active = flag == 0 || flag == 2 || flag == 4 || flag == 6;
            let explicit = flag == 2 || flag == 6;
            let declarative = flag == 3 || flag == 7;
            lemma_mode_extends(r1, t, active, explicit, declarative, eof);
            if spec_mode(r1, active, explicit, declarative, eof) is Ok {
                let r2 = spec_mode(r1, active, explicit, declarative, eof).unwrap().1;
                lemma_element_type_extends(r2, t, flag, eof);
                if spec_element_type(r2, flag, eof) is Ok {
                    lemma_element_items_extends(spec_element_type(r2, flag, eof).unwrap().1, t, flag, eof);
                }
            }
        }
    }
}

/// One entry of the data section.
#[derive(Debug, PartialEq, Eq)]
pub struct DataSegment {
    pub mode: SegmentMode,
    pub bytes: Vec<u8>,
}

/// The model of a `DataSegment`.
pub struct DataSegmentView {
    pub mode: SegmentModeView,
    pub bytes: Seq<u8>,
}

impl DeepView for DataSegment {
    type V = DataSegmentView;

    open spec fn deep_view(&self) -> DataSegmentView {
        DataSegmentView { mode: self.mode.deep_view(), bytes: self.bytes@ }
    }
}

impl Decode for DataSegment {
    /// A flag byte, the mode, a byte count and the bytes. Flag 0 is
    /// active in memory 0, flag 1 passive, flag 2 active in the memory
    /// that it names.
    open spec fn spec_decode(s: Seq<u8>, eof: DecodeError) -> Read<DataSegmentView> {
        match spec_u8(s, eof) {
            Err(e) => Err(e),
            Ok((flag, r1)) => if flag > 2 {
                Err(DecodeError::UnknownTypeTag(flag))
            } else {
                match spec_mode(r1, flag != 1, flag == 2, false, eof) {
                    Err(e) => Err(e),
                    Ok((mode, r2)) => match spec_leb_u32(r2, eof) {
                        Err(e) => Err(e),
                        Ok((n, r3)) => match spec_bytes(r3, n as nat, eof) {
                            Err(e) => Err(e),
                            Ok((bytes, r4)) => Ok((DataSegmentView { mode, bytes }, r4)),
                        },
                    },
                }
            },
        }
    }

    fn decode<'a>(cur: Cursor<'a>) -> (r: Result<(DataSegment, Cursor<'a>), DecodeError>) {
        let (flag, r1) = match cur.read_u8() {
            Ok(x) => x,
            Err(e) => { return Err(e); },
        };
        if flag > 2 {
            return Err(DecodeError::UnknownTypeTag(flag));
        }
        let (mode, r2) = match decode_mode(r1, flag != 1, flag == 2, false) {
            Ok(x) => x,
            Err(e) => { return Err(e); },
        };
        let (n, r3) = match r2.read_leb128_u32() {
            Ok(x) => x,
            Err(e) => { return Err(e); },
        };
        match r3.read_bytes(n as usize) {
            Ok((raw, r4)) => Ok((DataSegment { mode, bytes: slice_to_vec(raw) }, r4)),
            Err(e) => Err(e),
        }
    }

    proof fn lemma_empty(eof: DecodeError) {
    }

    proof fn lemma_extends(s: Seq<u8>, t: Seq<u8>, eof: DecodeError) {
        lemma_u8_extends(s, t, eof);
        if spec_u8(s, eof) is Ok && s[0] <= 2 {
            let flag = s[0];
            let r1 = spec_u8(s, eof).unwrap().1;
            lemma_mode_extends(r1, t, flag != 1, flag == 2, false, eof);
            if spec_mode(r1, flag != 1, flag == 2, false, eof) is Ok {
                let r2 = spec_mode(r1, flag != 1, flag == 2, false, eof).unwrap().1;
                lemma_leb_u32_extends(r2, t, eof);
                if spec_leb_u32(r2, eof) is Ok {
                    let n = spec_leb_u32(r2, eof).unwrap().0;
                    lemma_bytes_extends(spec_leb_u32(r2, eof).unwrap().1, t, n as nat, eof);
                }
            }
        }
    }
}

/// One entry of the code section: the locals and the instructions of a
/// function.
#[derive(Debug, PartialEq, Eq)]
pub struct FunctionBody {
    pub locals: Vec<Local>,
    pub code: Expr,
}

/// The model of a `FunctionBody`.
pub struct FunctionBodyView {
    pub locals: Seq<Local>,
    pub code: Seq<InstructionView>,
}

impl DeepView for FunctionBody {
    type V = FunctionBodyView;

    open spec fn deep_view(&self) -> FunctionBodyView {
        FunctionBodyView { locals: self.locals.deep_view(), code: self.code.deep_view() }
    }
}

/// What the framed bytes of a function body hold: the vector of locals,
/// then the instructions up to the closing `end`.
pub open spec fn spec_body(s: Seq<u8>, eof: DecodeError) -> Read<FunctionBodyView> {
    match spec_vector::<Local>(s, eof) {
        Err(f) => Err(f.kind),
        Ok((locals, r1)) => match spec_expr(r1, eof) {
            Err(e) => Err(e),
            Ok((code, r2)) => Ok((FunctionBodyView { locals, code }, r2)),
        },
    }
}

/// Bytes after a function body do not change how it is read.
/// Cut short, the read can fail only by running out of bytes.
pub proof fn lemma_body_extends(s: Seq<u8>, t: Seq<u8>, eof: DecodeError)
    ensures
        extends(spec_body(s, eof), spec_body(s + t, eof), t),
        cut_short(spec_body(s, eof), spec_body(s + t, eof), eof),
{
    lemma_vector_extends::<Local>(s, t, eof);
    if spec_vector::<Local>(s, eof) is Ok {
        lemma_expr_extends(spec_vector::<Local>(s, eof).unwrap().1, t, eof);
    }
}

/// Decodes the locals and the instructions of a function body.
pub fn decode_body<'a>(cur: Cursor<'a>) -> (r: Result<(FunctionBody, Cursor<'a>), DecodeError>)
    ensures
        match spec_body(cur@, cur.eof_kind()) {
            Ok((v, rest)) => r matches Ok((rv, rc)) && rv.deep_view() == v && follows(rc, cur, rest),
            Err(e) => r matches Err(re) && re == e,
        },
        advances(r, cur@),
{
    let (locals, r1) = match vector::<Local>(cur) {
        Ok(x) => x,
        Err(f) => { return Err(f.kind); },
    };
    match Expr::decode(r1) {
        Ok((code, r2)) => Ok((FunctionBody { locals, code }, r2)),
        Err(e) => Err(e),
    }
}

/// How many bytes of a frame of `declared` bytes were read when `left`
/// of them remain.
pub open spec fn consumed_of(declared: u32, left: Seq<u8>) -> u32 {
    (declared - left.len()) as u32
}

/// The frame of a code entry: its declared length, and the bytes that
/// the length frames. Fails as any read does where the input cannot
/// fill the frame.
pub open spec fn spec_body_frame(s: Seq<u8>, eof: DecodeError) -> Read<(u32, Seq<u8>)> {
    match spec_leb_u32(s, eof) {
        Err(e) => Err(e),
        Ok((declared, r1)) => match spec_bytes(r1, declared as nat, eof) {
            Err(e) => Err(e),
            Ok((frame, r2)) => Ok(((declared, frame), r2)),
        },
    }
}

impl Decode for FunctionBody {
    /// A byte length, then a body that fills exactly that many bytes.
    /// The body is read from those bytes alone. Where the body ends
    /// before they do, and where they end before the body does, the
    /// entry fails with `SectionLengthMismatch`. Where they end inside a
    /// `block`, `loop` or `if` that is still open, it fails with
    /// `UnexpectedEof`.
    open spec fn spec_decode(s: Seq<u8>, eof: DecodeError) -> Read<FunctionBodyView> {
        match spec_body_frame(s, eof) {
            Err(e) => Err(e),
            Ok(((declared, frame), rest)) => match spec_body(frame, overrun(declared)) {
                Err(e) => Err(e),
                Ok((body, left)) => if left.len() == 0 {
                    Ok((body, rest))
                } else {
                    Err(
                        DecodeError::SectionLengthMismatch {
                            declared,
                            consumed: consumed_of(declared, left),
                        },
                    )
                },
            },
        }
    }

    fn decode<'a>(cur: Cursor<'a>) -> (r: Result<(FunctionBody, Cursor<'a>), DecodeError>) {
        let (declared, r1) = match cur.read_leb128_u32() {
            Ok(x) => x,
            Err(e) => { return Err(e); },
        };
        let (frame, r2) = match r1.slice(declared) {
            Ok(x) => x,
            Err(e) => { return Err(e); },
        };
        let (body, left) = match decode_body(frame) {
            Ok(x) => x,
            Err(e) => { return Err(e); },
        };
        if left.is_empty() {
            Ok((body, r2))
        } else {
            let consumed = declared - (left.remaining() as u32);
            Err(DecodeError::SectionLengthMismatch { declared, consumed })
        }
    }

    proof fn lemma_empty(eof: DecodeError) {
    }

    proof fn lemma_extends(s: Seq<u8>, t: Seq<u8>, eof: DecodeError) {
        lemma_leb_u32_extends(s, t, eof);
        if spec_leb_u32(s, eof) is Ok {
            let declared = spec_leb_u32(s, eof).unwrap().0;
            lemma_bytes_extends(spec_leb_u32(s, eof).unwrap().1, t, declared as nat, eof);
        }
    }
}

/// A custom section: a name and bytes that the decoder does not read.
#[derive(Debug, Clone, PartialEq, Eq)]
pub struct CustomSection {
    pub name: String,
    pub data: Vec<u8>,
}

/// The model of a `CustomSection`.
pub struct CustomSectionView {
    pub name: Seq<char>,
    pub data: Seq<u8>,
}

impl DeepView for CustomSection {
    type V = CustomSectionView;

    open spec fn deep_view(&self) -> CustomSectionView {
        CustomSectionView { name: self.name@, data: self.data@ }
    }
}

/// What the payload of a custom section holds: a name, and all the bytes
/// after it as they are.
pub open spec fn spec_custom(s: Seq<u8>, eof: DecodeError) -> Read<CustomSectionView> {
    match spec_name(s, eof) {
        Err(e) => Err(e),
        Ok((name, rest)) => Ok((CustomSectionView { name, data: rest }, Seq::empty())),
    }
}

/// Decodes the payload of a custom section, and takes all of it.
pub fn decode_custom<'a>(cur: Cursor<'a>) -> (r: Result<(CustomSection, Cursor<'a>), DecodeError>)
    ensures
        match spec_custom(cur@, cur.eof_kind()) {
            Ok((v, rest)) => r matches Ok((rv, rc)) && rv.deep_view() == v && follows(rc, cur, rest),
            Err(e) => r matches Err(re) && re == e,
        },
        advances(r, cur@),
{
    let (name, r1) = match cur.read_utf8_string() {
        Ok(x) => x,
        Err(e) => { return Err(e); },
    };
    let n = r1.remaining();
    match r1.read_bytes(n) {
        Ok((raw, r2)) => {
            assert(raw@ =~= r1@);
            assert(r2@ =~= Seq::<u8>::empty());
            Ok((CustomSection { name, data: slice_to_vec(raw) }, r2))
        },
        Err(e) => Err(e),
    }
}

} // verus!
