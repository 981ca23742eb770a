use vstd::prelude::*;
use crate::binary::cursor::{
    advances,
    follows,
    lemma_u32_le_extends,
    lemma_u64_le_extends,
    lemma_u8_extends,
    read_as,
    spec_u32_le,
    spec_u64_le,
    spec_u8,
    Cursor,
};
use crate::binary::decode::{lemma_vector_extends, spec_vector, vector, Decode};
use crate::binary::error::{cut_short, extends, DecodeError, Read};
use crate::binary::leb128::{
    lemma_leb_i32_extends,
    lemma_leb_i64_extends,
    lemma_leb_u32_extends,
    spec_leb_i32,
    spec_leb_i64,
    spec_leb_u32,
};
use crate::binary::types::{val_type_of, ValType};

verus! {

/// The opcode that closes a block, a function body or an expression.
pub const OP_END: u8 = 0x0b;

/// The opcode that parts the two branches of an `if`.
pub const OP_ELSE: u8 = 0x05;

/// The tag of a block that yields no value.
pub const EMPTY_BLOCK: u8 = 0x40;

/// How deep blocks may nest inside one instruction sequence.
pub const MAX_NESTING_DEPTH: u32 = 256;

/// What a block leaves on the stack.
#[derive(Debug, Clone, Copy, PartialEq, Eq)]
pub enum BlockType {
    Empty,
    Value(ValType),
}

impl DeepView for BlockType {
    type V = BlockType;

    open spec fn deep_view(&self) -> BlockType {
        *self
    }
}

impl Decode for BlockType {
    /// One byte: `0x40` for no value, or the tag of a value type.
    open spec fn spec_decode(s: Seq<u8>, eof: DecodeError) -> Read<BlockType> {
        match spec_u8(s, eof) {
            Err(e) => Err(e),
            Ok((tag, rest)) => if tag == EMPTY_BLOCK {
                Ok((BlockType::Empty, rest))
            } else {
                match val_type_of(tag) {
                    Some(t) => Ok((BlockType::Value(t), rest)),
                    None => Err(DecodeError::UnknownTypeTag(tag)),
                }
            },
        }
    }

    fn decode<'a>(cur: Cursor<'a>) -> (r: Result<(BlockType, Cursor<'a>), DecodeError>) {
        let (tag, rest) = match cur.read_u8() {
            Ok(x) => x,
            Err(e) => { return Err(e); },
        };
        if tag == EMPTY_BLOCK {
            return Ok((BlockType::Empty, rest));
        }
        match ValType::from_tag(tag) {
            Some(t) => Ok((BlockType::Value(t), rest)),
            None => Err(DecodeError::UnknownTypeTag(tag)),
        }
    }

    proof fn lemma_empty(eof: DecodeError) {
    }

    proof fn lemma_extends(s: Seq<u8>, t: Seq<u8>, eof: DecodeError) {
        lemma_u8_extends(s, t, eof);
    }
}

/// What follows an opcode on the wire.
#[derive(Debug, Clone, Copy, PartialEq, Eq)]
pub enum Shape {
    /// Nothing.
    Plain,
    /// One index.
    Index,
    /// An alignment and an offset.
    Memory,
    /// A type index and a table index.
    CallIndirect,
    /// A vector of branch targets and a default target.
    BrTable,
    /// A signed 32-bit immediate.
    I32Const,
    /// A signed 64-bit immediate.
    I64Const,
    /// Four bytes, the bits of a 32-bit float.
    F32Const,
    /// Eight bytes, the bits of a 64-bit float.
    F64Const,
    /// A block type and a nested sequence.
    Block,
    /// A block type and a nested sequence that a branch re-enters.
    Loop,
    /// A block type and one or two nested sequences.
    If,
}

/// The opcode table. `end` and `else` are not in it: they end a sequence
/// and are no instructions of their own.
pub open spec fn operand_shape(opcode: u8) -> Option<Shape> {
    if opcode == 0x00 || opcode == 0x01 || opcode == 0x0f || opcode == 0x1a || opcode == 0x1b || (
    0x45 <= opcode <= 0xc4) {
        Some(Shape::Plain)
    } else if opcode == 0x02 {
        Some(Shape::Block)
    } else if opcode == 0x03 {
        Some(Shape::Loop)
    } else if opcode == 0x04 {
        Some(Shape::If)
    } else if opcode == 0x0c || opcode == 0x0d || opcode == 0x10 || (0x20 <= opcode <= 0x24)
        || opcode == 0x3f || opcode == 0x40 {
        Some(Shape::Index)
    } else if opcode == 0x0e {
        Some(Shape::BrTable)
    } else if opcode == 0x11 {
        Some(Shape::CallIndirect)
    } else if 0x28 <= opcode <= 0x3e {
        Some(Shape::Memory)
    } else if opcode == 0x41 {
        Some(Shape::I32Const)
    } else if opcode == 0x42 {
        Some(Shape::I64Const)
    } else if opcode == 0x43 {
        Some(Shape::F32Const)
    } else if opcode == 0x44 {
        Some(Shape::F64Const)
    } else {
        None
    }
}

/// Looks an opcode up in the opcode table.
pub fn shape_of(opcode: u8) -> (r: Option<Shape>)
    ensures
        r == operand_shape(opcode),
{
    if opcode == 0x00 || opcode == 0x01 || opcode == 0x0f || opcode == 0x1a || opcode == 0x1b || (
    0x45 <= opcode && opcode <= 0xc4) {
        Some(Shape::Plain)
    } else if opcode == 0x02 {
        Some(Shape::Block)
    } else if opcode == 0x03 {
        Some(Shape::Loop)
    } else if opcode == 0x04 {
        Some(Shape::If)
    } else if opcode == 0x0c || opcode == 0x0d || opcode == 0x10 || (0x20 <= opcode && opcode
        <= 0x24) || opcode == 0x3f || opcode == 0x40 {
        Some(Shape::Index)
    } else if opcode == 0x0e {
        Some(Shape::BrTable)
    } else if opcode == 0x11 {
        Some(Shape::CallIndirect)
    } else if 0x28 <= opcode && opcode <= 0x3e {
        Some(Shape::Memory)
    } else if opcode == 0x41 {
        Some(Shape::I32Const)
    } else if opcode == 0x42 {
        Some(Shape::I64Const)
    } else if opcode == 0x43 {
        Some(Shape::F32Const)
    } else if opcode == 0x44 {
        Some(Shape::F64Const)
    } else {
        None
    }
}

/// The group of instructions that an opcode belongs to.
#[derive(Debug, Clone, Copy, PartialEq, Eq)]
pub enum Category {
    /// Blocks, branches, calls, `unreachable`, `nop` and `return`.
    Control,
    /// `drop` and `select`.
    Parametric,
    /// Access to locals and globals.
    Variable,
    /// Loads, stores, and the size of a memory.
    Memory,
    /// Constants and arithmetic.
    Numeric,
}

/// The category of an opcode of the opcode table.
pub open spec fn category_of(opcode: u8) -> Category {
    if opcode <= 0x11 {
        Category::Control
    } else if opcode <= 0x1b {
        Category::Parametric
    } else if opcode <= 0x24 {
        Category::Variable
    } else if opcode <= 0x40 {
        Category::Memory
    } else {
        Category::Numeric
    }
}

/// One instruction. Nested blocks own their instruction sequences, so an
/// instruction is a tree.
#[derive(Debug, PartialEq, Eq)]
pub enum Instruction {
    /// An opcode without operands.
    Plain { opcode: u8 },
    /// A branch, a call, or an access to a local, a global or a memory's
    /// size: an opcode and one index.
    Indexed { opcode: u8, index: u32 },
    /// A load or a store.
    Memory { opcode: u8, align: u32, offset: u32 },
    CallIndirect { type_index: u32, table: u32 },
    BrTable { targets: Vec<u32>, default: u32 },
    I32Const(i32),
    I64Const(i64),
    /// The bits of the constant.
    F32Const(u32),
    /// The bits of the constant.
    F64Const(u64),
    Block { ty: BlockType, body: Vec<Instruction> },
    Loop { ty: BlockType, body: Vec<Instruction> },
    /// `else_body` is empty where the `if` has no `else`.
    If { ty: BlockType, then_body: Vec<Instruction>, else_body: Vec<Instruction> },
}

/// The model of an `Instruction`.
pub enum InstructionView {
    Plain { opcode: u8 },
    Indexed { opcode: u8, index: u32 },
    Memory { opcode: u8, align: u32, offset: u32 },
    CallIndirect { type_index: u32, table: u32 },
    BrTable { targets: Seq<u32>, default: u32 },
    I32Const(i32),
    I64Const(i64),
    F32Const(u32),
    F64Const(u64),
    Block { ty: BlockType, body: Seq<InstructionView> },
    Loop { ty: BlockType, body: Seq<InstructionView> },
    If { ty: BlockType, then_body: Seq<InstructionView>, else_body: Seq<InstructionView> },
}

impl InstructionView {
    /// The opcode that this instruction was decoded from.
    pub open spec fn opcode(self) -> u8 {
        match self {
            InstructionView::Plain { opcode } => opcode,
            InstructionView::Indexed { opcode, .. } => opcode,
            InstructionView::Memory { opcode, .. } => opcode,
            InstructionView::CallIndirect { .. } => 0x11,
            InstructionView::BrTable { .. } => 0x0e,
            InstructionView::I32Const(_) => 0x41,
            InstructionView::I64Const(_) => 0x42,
            InstructionView::F32Const(_) => 0x43,
            InstructionView::F64Const(_) => 0x44,
            InstructionView::Block { .. } => 0x02,
            InstructionView::Loop { .. } => 0x03,
            InstructionView::If { .. } => 0x04,
        }
    }
}

impl Instruction {
    /// The opcode of this instruction.
    pub fn opcode(&self) -> (op: u8)
        ensures
            op == self.deep_view().opcode(),
    {
        match self {
            Instruction::Plain { opcode } => *opcode,
            Instruction::Indexed { opcode, .. } => *opcode,
            Instruction::Memory { opcode, .. } => *opcode,
            Instruction::CallIndirect { .. } => 0x11,
            Instruction::BrTable { .. } => 0x0e,
            Instruction::I32Const(_) => 0x41,
            Instruction::I64Const(_) => 0x42,
            Instruction::F32Const(_) => 0x43,
            Instruction::F64Const(_) => 0x44,
            Instruction::Block { .. } => 0x02,
            Instruction::Loop { .. } => 0x03,
            Instruction::If { .. } => 0x04,
        }
    }

    /// The category of this instruction.
    pub fn category(&self) -> (c: Category)
        ensures
            c == category_of(self.deep_view().opcode()),
    {
        let opcode = self.opcode();
        if opcode <= 0x11 {
            Category::Control
        } else if opcode <= 0x1b {
            Category::Parametric
        } else if opcode <= 0x24 {
            Category::Variable
        } else if opcode <= 0x40 {
            Category::Memory
        } else {
            Category::Numeric
        }
    }
}

/// The model of one instruction.
pub open spec fn instr_view(i: Instruction) -> InstructionView
    decreases i,
{
    match i {
        Instruction::Plain { opcode } => InstructionView::Plain { opcode },
        Instruction::Indexed { opcode, index } => InstructionView::Indexed { opcode, index },
        Instruction::Memory { opcode, align, offset } => InstructionView::Memory {
            opcode,
            align,
            offset,
        },
        Instruction::CallIndirect { type_index, table } => InstructionView::CallIndirect {
            type_index,
            table,
        },
        Instruction::BrTable { targets, default } => InstructionView::BrTable {
            targets: targets@,
            default,
        },
        Instruction::I32Const(v) => InstructionView::I32Const(v),
        Instruction::I64Const(v) => InstructionView::I64Const(v),
        Instruction::F32Const(v) => InstructionView::F32Const(v),
        Instruction::F64Const(v) => InstructionView::F64Const(v),
        Instruction::Block { ty, body } => InstructionView::Block { ty, body: instrs_view(body@) },
        Instruction::Loop { ty, body } => InstructionView::Loop { ty, body: instrs_view(body@) },
        Instruction::If { ty, then_body, else_body } => InstructionView::If {
            ty,
            then_body: instrs_view(then_body@),
            else_body: instrs_view(else_body@),
        },
    }
}

/// The model of a sequence of instructions.
pub open spec fn instrs_view(s: Seq<Instruction>) -> Seq<InstructionView>
    decreases s,
{
    Seq::new(
        s.len(),
        |k: int|
            if 0 <= k < s.len() {
                instr_view(s[k])
            } else {
                InstructionView::Plain { opcode: 0 }
            },
    )
}

impl DeepView for Instruction {
    type V = InstructionView;

    open spec fn deep_view(&self) -> InstructionView {
        instr_view(*self)
    }
}

/// How an instruction sequence ended.
#[derive(Debug, Clone, Copy, PartialEq, Eq)]
pub enum Terminator {
    End,
    Else,
}

/// What reading a sequence returns in the model: the instructions, the
/// opcode that ended them, and the bytes after that opcode.
pub type ReadSeq = Result<((Seq<InstructionView>, Terminator), Seq<u8>), DecodeError>;

/// One instruction at nesting depth `depth`, where `eof` is the error of
/// a read that finds too few bytes outside any block that the
/// instruction opens.
pub open spec fn spec_instr(s: Seq<u8>, depth: nat, eof: DecodeError) -> Read<InstructionView>
    decreases s.len(), 1nat,
{
    match spec_u8(s, eof) {
        Err(e) => Err(e),
        Ok((opcode, r1)) => match operand_shape(opcode) {
            None => Err(DecodeError::UnknownOpcode(opcode)),
            Some(Shape::Plain) => Ok((InstructionView::Plain { opcode }, r1)),
            Some(Shape::Index) => match spec_leb_u32(r1, eof) {
                Err(e) => Err(e),
                Ok((index, r2)) => Ok((InstructionView::Indexed { opcode, index }, r2)),
            },
            Some(Shape::Memory) => match spec_leb_u32(r1, eof) {
                Err(e) => Err(e),
                Ok((align, r2)) => match spec_leb_u32(r2, eof) {
                    Err(e) => Err(e),
                    Ok((offset, r3)) => Ok((InstructionView::Memory { opcode, align, offset }, r3)),
                },
            },
            Some(Shape::CallIndirect) => match spec_leb_u32(r1, eof) {
                Err(e) => Err(e),
                Ok((type_index, r2)) => match spec_leb_u32(r2, eof) {
                    Err(e) => Err(e),
                    Ok((table, r3)) => Ok(
                        (InstructionView::CallIndirect { type_index, table }, r3),
                    ),
                },
            },
            Some(Shape::BrTable) => match spec_vector::<u32>(r1, eof) {
                Err(f) => Err(f.kind),
                Ok((targets, r2)) => match spec_leb_u32(r2, eof) {
                    Err(e) => Err(e),
                    Ok((default, r3)) => Ok((InstructionView::BrTable { targets, default }, r3)),
                },
            },
            Some(Shape::I32Const) => match spec_leb_i32(r1, eof) {
                Err(e) => Err(e),
                Ok((v, r2)) => Ok((InstructionView::I32Const(v), r2)),
            },
            Some(Shape::I64Const) => match spec_leb_i64(r1, eof) {
                Err(e) => Err(e),
                Ok((v, r2)) => Ok((InstructionView::I64Const(v), r2)),
            },
            Some(Shape::F32Const) => match spec_u32_le(r1, eof) {
                Err(e) => Err(e),
                Ok((v, r2)) => Ok((InstructionView::F32Const(v), r2)),
            },
            Some(Shape::F64Const) => match spec_u64_le(r1, eof) {
                Err(e) => Err(e),
                Ok((v, r2)) => Ok((InstructionView::F64Const(v), r2)),
            },
            Some(Shape::Block) => match spec_nested(r1, depth) {
                Err(e) => Err(e),
                Ok(((ty, body, Terminator::End), r3)) => Ok(
                    (InstructionView::Block { ty, body }, r3),
                ),
                Ok(((_, _, Terminator::Else), _)) => Err(DecodeError::UnknownOpcode(OP_ELSE)),
            },
            Some(Shape::Loop) => match spec_nested(r1, depth) {
                Err(e) => Err(e),
                Ok(((ty, body, Terminator::End), r3)) => Ok(
                    (InstructionView::Loop { ty, body }, r3),
                ),
                Ok(((_, _, Terminator::Else), _)) => Err(DecodeError::UnknownOpcode(OP_ELSE)),
            },
            Some(Shape::If) => match spec_nested(r1, depth) {
                Err(e) => Err(e),
                Ok(((ty, then_body, Terminator::End), r3)) => Ok(
                    (InstructionView::If { ty, then_body, else_body: Seq::empty() }, r3),
                ),
                Ok(((ty, then_body, Terminator::Else), r3)) => if r3.len() < s.len() {
                    match spec_instr_seq(r3, depth + 1, DecodeError::UnexpectedEof) {
                        Err(e) => Err(e),
                        Ok(((else_body, Terminator::End), r4)) => Ok(
                            (InstructionView::If { ty, then_body, else_body }, r4),
                        ),
                        Ok(((_, Terminator::Else), _)) => Err(
                            DecodeError::UnknownOpcode(OP_ELSE),
                        ),
                    }
                } else {
                    Err(DecodeError::UnexpectedEof)
                },
            },
        },
    }
}

/// What follows the opcode of a `block`, a `loop` or an `if`: the block
/// type, then the instructions up to the `end` or `else` that closes
/// them, one level deeper than `depth`. Fails with `NestingTooDeep`
/// where `depth` is already at the limit. The block is open from its
/// opcode on, so a read that finds too few bytes fails with
/// `UnexpectedEof` here, whatever surrounds the block.
pub open spec fn spec_nested(s: Seq<u8>, depth: nat) -> Read<
    (BlockType, Seq<InstructionView>, Terminator),
>
    decreases s.len(), 0nat,
{
    if depth >= MAX_NESTING_DEPTH {
        Err(DecodeError::NestingTooDeep)
    } else {
        match BlockType::spec_decode(s, DecodeError::UnexpectedEof) {
            Err(e) => Err(e),
            Ok((ty, r1)) => if r1.len() < s.len() {
                match spec_instr_seq(r1, depth + 1, DecodeError::UnexpectedEof) {
                    Err(e) => Err(e),
                    Ok(((body, t), r2)) => Ok(((ty, body, t), r2)),
                }
            } else {
                Err(DecodeError::UnexpectedEof)
            },
        }
    }
}

/// Instructions up to the first `end` or `else` at this nesting depth.
pub open spec fn spec_instr_seq(s: Seq<u8>, depth: nat, eof: DecodeError) -> ReadSeq
    decreases s.len(), 2nat,
{
    match spec_u8(s, eof) {
        Err(e) => Err(e),
        Ok((opcode, r1)) => if opcode == OP_END {
            Ok(((Seq::empty(), Terminator::End), r1))
        } else if opcode == OP_ELSE {
            Ok(((Seq::empty(), Terminator::Else), r1))
        } else {
            match spec_instr(s, depth, eof) {
                Err(e) => Err(e),
                Ok((i, r2)) => if r2.len() < s.len() {
                    match spec_instr_seq(r2, depth, eof) {
                        Err(e) => Err(e),
                        Ok(((is, t), r3)) => Ok(((seq![i] + is, t), r3)),
                    }
                } else {
                    Err(DecodeError::UnexpectedEof)
                },
            }
        },
    }
}

/// An expression: the instructions up to the `end` that closes it, at
/// nesting depth 0. An `else` cannot close it. Where the bytes end with
/// no block open the failure is `eof`, and where they end inside a
/// block it is `UnexpectedEof`.
pub open spec fn spec_expr(s: Seq<u8>, eof: DecodeError) -> Read<Seq<InstructionView>> {
    match spec_instr_seq(s, 0, eof) {
        Err(e) => Err(e),
        Ok(((is, Terminator::End), rest)) => Ok((is, rest)),
        Ok(((_, Terminator::Else), _)) => Err(DecodeError::UnknownOpcode(OP_ELSE)),
    }
}

/// Decodes one instruction, with the blocks nested in it.
pub fn decode_instr<'a>(cur: Cursor<'a>, depth: u32) -> (r: Result<
    (Instruction, Cursor<'a>),
    DecodeError,
>)
    ensures
        read_as(r, cur, spec_instr(cur@, depth as nat, cur.eof_kind())),
        advances(r, cur@),
    decreases cur@.len(), 1nat,
{
    let (opcode, r1) = match cur.read_u8() {
        Ok(x) => x,
        Err(e) => { return Err(e); },
    };
    let shape = match shape_of(opcode) {
        Some(s) => s,
        None => { return Err(DecodeError::UnknownOpcode(opcode)); },
    };
    match shape {
        Shape::Plain => Ok((Instruction::Plain { opcode }, r1)),
        Shape::Index => match r1.read_leb128_u32() {
            Ok((index, r2)) => Ok((Instruction::Indexed { opcode, index }, r2)),
            Err(e) => Err(e),
        },
        Shape::Memory => {
            let (align, r2) = match r1.read_leb128_u32() {
                Ok(x) => x,
                Err(e) => { return Err(e); },
            };
            match r2.read_leb128_u32() {
                Ok((offset, r3)) => Ok((Instruction::Memory { opcode, align, offset }, r3)),
                Err(e) => Err(e),
            }
        },
        Shape::CallIndirect => {
            let (type_index, r2) = match r1.read_leb128_u32() {
                Ok(x) => x,
                Err(e) => { return Err(e); },
            };
            match r2.read_leb128_u32() {
                Ok((table, r3)) => Ok((Instruction::CallIndirect { type_index, table }, r3)),
                Err(e) => Err(e),
            }
        },
        Shape::BrTable => {
            let (targets, r2) = match vector::<u32>(r1) {
                Ok(x) => x,
                Err(f) => { return Err(f.kind); },
            };
            assert(targets.deep_view() =~= targets@);
            match r2.read_leb128_u32() {
                Ok((default, r3)) => Ok((Instruction::BrTable { targets, default }, r3)),
                Err(e) => Err(e),
            }
        },
        Shape::I32Const => match r1.read_leb128_i32() {
            Ok((v, r2)) => Ok((Instruction::I32Const(v), r2)),
            Err(e) => Err(e),
        },
        Shape::I64Const => match r1.read_leb128_i64() {
            Ok((v, r2)) => Ok((Instruction::I64Const(v), r2)),
            Err(e) => Err(e),
        },
        Shape::F32Const => match r1.read_u32_le() {
            Ok((v, r2)) => Ok((Instruction::F32Const(v), r2)),
            Err(e) => Err(e),
        },
        Shape::F64Const => match r1.read_u64_le() {
            Ok((v, r2)) => Ok((Instruction::F64Const(v), r2)),
            Err(e) => Err(e),
        },
        Shape::Block => match decode_nested(r1, depth) {
            Err(e) => Err(e),
            Ok(((ty, body, Terminator::End), r3)) => Ok((Instruction::Block { ty, body }, r3)),
            Ok(((_, _, Terminator::Else), _)) => Err(DecodeError::UnknownOpcode(OP_ELSE)),
        },
        Shape::Loop => match decode_nested(r1, depth) {
            Err(e) => Err(e),
            Ok(((ty, body, Terminator::End), r3)) => Ok((Instruction::Loop { ty, body }, r3)),
            Ok(((_, _, Terminator::Else), _)) => Err(DecodeError::UnknownOpcode(OP_ELSE)),
        },
        Shape::If => match decode_nested(r1, depth) {
            Err(e) => Err(e),
            Ok(((ty, then_body, Terminator::End), r3)) => {
                let else_body: Vec<Instruction> = Vec::new();
                assert(instrs_view(else_body@) =~= Seq::empty());
                Ok((Instruction::If { ty, then_body, else_body }, r3))
            },
            Ok(((ty, then_body, Terminator::Else), r3)) => match decode_instr_seq(
                r3.with_eof(DecodeError::UnexpectedEof),
                depth + 1,
            ) {
                Err(e) => Err(e),
                Ok(((else_body, Terminator::End), r4)) => Ok(
                    (Instruction::If { ty, then_body, else_body }, r4.with_eof(cur.eof())),
                ),
                Ok(((_, Terminator::Else), _)) => Err(DecodeError::UnknownOpcode(OP_ELSE)),
            },
        },
    }
}

/// Decodes what follows the opcode of a `block`, a `loop` or an `if`.
/// While the block is open a read that finds too few bytes fails with
/// `UnexpectedEof`. The cursor that is returned fails at its end as
/// `cur` does.
pub fn decode_nested<'a>(cur: Cursor<'a>, depth: u32) -> (r: Result<
    ((BlockType, Vec<Instruction>, Terminator), Cursor<'a>),
    DecodeError,
>)
    ensures
        match spec_nested(cur@, depth as nat) {
            Ok(((ty, body, t), rest)) => r matches Ok(((rty, rbody, rt), rc)) && rty == ty
                && instrs_view(rbody@) == body && rt == t && follows(rc, cur, rest),
            Err(e) => r matches Err(re) && re == e,
        },
        advances(r, cur@),
        r is Ok ==> depth < MAX_NESTING_DEPTH,
    decreases cur@.len(), 0nat,
{
    if depth >= MAX_NESTING_DEPTH {
        return Err(DecodeError::NestingTooDeep);
    }
    let outer = cur.eof();
    let (ty, r1) = match BlockType::decode(cur.with_eof(DecodeError::UnexpectedEof)) {
        Ok(x) => x,
        Err(e) => { return Err(e); },
    };
    match decode_instr_seq(r1, depth + 1) {
        Ok(((body, t), r2)) => Ok(((ty, body, t), r2.with_eof(outer))),
        Err(e) => Err(e),
    }
}

/// Decodes instructions up to the first `end` or `else` at this nesting
/// depth, and says which of the two it was.
pub fn decode_instr_seq<'a>(cur: Cursor<'a>, depth: u32) -> (r: Result<
    ((Vec<Instruction>, Terminator), Cursor<'a>),
    DecodeError,
>)
    ensures
        match spec_instr_seq(cur@, depth as nat, cur.eof_kind()) {
            Ok(((is, t), rest)) => r matches Ok(((ris, rt), rc)) && instrs_view(ris@) == is && rt
                == t && follows(rc, cur, rest),
            Err(e) => r matches Err(re) && re == e,
        },
        advances(r, cur@),
    decreases cur@.len(), 2nat,
{
    let mut out: Vec<Instruction> = Vec::new();
    let mut at = cur;
    assert(instrs_view(out@) =~= Seq::empty());
    loop
        invariant
            at@.len() <= cur@.len(),
            at.eof_kind() == cur.eof_kind(),
            match spec_instr_seq(at@, depth as nat, cur.eof_kind()) {
                Ok(((is, t), rest)) => spec_instr_seq(cur@, depth as nat, cur.eof_kind()) == Ok::<
                    ((Seq<InstructionView>, Terminator), Seq<u8>),
                    DecodeError,
                >(((instrs_view(out@) + is, t), rest)),
                Err(e) => spec_instr_seq(cur@, depth as nat, cur.eof_kind()) == Err::<
                    ((Seq<InstructionView>, Terminator), Seq<u8>),
                    DecodeError,
                >(e),
            },
        decreases at@.len(),
    {
        let (opcode, r1) = match at.read_u8() {
            Ok(x) => x,
            Err(e) => { return Err(e); },
        };
        if opcode == OP_END {
            assert(instrs_view(out@) + Seq::<InstructionView>::empty() =~= instrs_view(out@));
            return Ok(((out, Terminator::End), r1));
        }
        if opcode == OP_ELSE {
            assert(instrs_view(out@) + Seq::<InstructionView>::empty() =~= instrs_view(out@));
            return Ok(((out, Terminator::Else), r1));
        }
        let (i, next) = match decode_instr(at, depth) {
            Ok(x) => x,
            Err(e) => { return Err(e); },
        };
        proof {
            let before = instrs_view(out@);
            let tail = spec_instr_seq(next@, depth as nat, cur.eof_kind());
            if tail is Ok {
                let is = tail.unwrap().0.0;
                assert(before + (seq![instr_view(i)] + is) =~= before.push(instr_view(i)) + is);
            }
            assert(instrs_view(out@.push(i)) =~= before.push(instr_view(i)));
        }
        out.push(i);
        at = next;
    }
}

/// Decodes an expression: the instructions up to the `end` that closes
/// it.
pub fn decode_expr<'a>(cur: Cursor<'a>) -> (r: Result<(Vec<Instruction>, Cursor<'a>), DecodeError>)
    ensures
        match spec_expr(cur@, cur.eof_kind()) {
            Ok((is, rest)) => r matches Ok((ris, rc)) && instrs_view(ris@) == is && follows(
                rc,
                cur,
                rest,
            ),
            Err(e) => r matches Err(re) && re == e,
        },
        advances(r, cur@),
{
    match decode_instr_seq(cur, 0) {
        Err(e) => Err(e),
        Ok(((is, Terminator::End), rest)) => Ok((is, rest)),
        Ok(((_, Terminator::Else), _)) => Err(DecodeError::UnknownOpcode(OP_ELSE)),
    }
}

/// Bytes after an instruction do not change how it is read.
/// Cut short, the read can fail only by running out of bytes.
pub proof fn lemma_instr_extends(s: Seq<u8>, t: Seq<u8>, depth: nat, eof: DecodeError)
    ensures
        extends(spec_instr(s, depth, eof), spec_instr(s + t, depth, eof), t),
        cut_short(spec_instr(s, depth, eof), spec_instr(s + t, depth, eof), eof),
    decreases s.len(), 1nat,
{
    lemma_u8_extends(s, t, eof);
    if s.len() > 0 {
        let r1 = s.skip(1);
        match operand_shape(s[0]) {
            None => {},
            Some(Shape::Plain) => {},
            Some(Shape::Index) => {
                lemma_leb_u32_extends(r1, t, eof);
            },
            Some(Shape::Memory) | Some(Shape::CallIndirect) => {
                lemma_leb_u32_extends(r1, t, eof);
                if spec_leb_u32(r1, eof) is Ok {
                    lemma_leb_u32_extends(spec_leb_u32(r1, eof).unwrap().1, t, eof);
                }
            },
            Some(Shape::BrTable) => {
                lemma_vector_extends::<u32>(r1, t, eof);
                if spec_vector::<u32>(r1, eof) is Ok {
                    lemma_leb_u32_extends(spec_vector::<u32>(r1, eof).unwrap().1, t, eof);
                }
            },
            Some(Shape::I32Const) => {
                lemma_leb_i32_extends(r1, t, eof);
            },
            Some(Shape::I64Const) => {
                lemma_leb_i64_extends(r1, t, eof);
            },
            Some(Shape::F32Const) => {
                lemma_u32_le_extends(r1, t, eof);
            },
            Some(Shape::F64Const) => {
                lemma_u64_le_extends(r1, t, eof);
            },
            Some(Shape::Block) | Some(Shape::Loop) => {
                lemma_nested_extends(r1, t, depth);
            },
            Some(Shape::If) => {
                lemma_nested_extends(r1, t, depth);
                if spec_nested(r1, depth) is Ok {
                    let r3 = spec_nested(r1, depth).unwrap().1;
                    if r3.len() < s.len() {
                        lemma_instr_seq_extends(r3, t, depth + 1, DecodeError::UnexpectedEof);
                    }
                }
            },
        }
    }
}

/// Bytes after a nested sequence do not change how it is read.
/// Cut short, the read can fail only by running out of bytes.
pub proof fn lemma_nested_extends(s: Seq<u8>, t: Seq<u8>, depth: nat)
    ensures
        extends(spec_nested(s, depth), spec_nested(s + t, depth), t),
        cut_short(spec_nested(s, depth), spec_nested(s + t, depth), DecodeError::UnexpectedEof),
    decreases s.len(), 0nat,
{
    BlockType::lemma_extends(s, t, DecodeError::UnexpectedEof);
    if BlockType::spec_decode(s, DecodeError::UnexpectedEof) is Ok {
        let r1 = BlockType::spec_decode(s, DecodeError::UnexpectedEof).unwrap().1;
        if r1.len() < s.len() {
            lemma_instr_seq_extends(r1, t, depth + 1, DecodeError::UnexpectedEof);
        }
    }
}

/// Bytes after the `end` or `else` of a sequence do not change how the
/// sequence is read.
/// Cut short, the read can fail only by running out of bytes.
pub proof fn lemma_instr_seq_extends(s: Seq<u8>, t: Seq<u8>, depth: nat, eof: DecodeError)
    ensures
        extends(spec_instr_seq(s, depth, eof), spec_instr_seq(s + t, depth, eof), t),
        cut_short(spec_instr_seq(s, depth, eof), spec_instr_seq(s + t, depth, eof), eof),
    decreases s.len(), 2nat,
{
    lemma_u8_extends(s, t, eof);
    if s.len() > 0 && s[0] != OP_END && s[0] != OP_ELSE {
        lemma_instr_extends(s, t, depth, eof);
        if spec_instr(s, depth, eof) is Ok {
            let r2 = spec_instr(s, depth, eof).unwrap().1;
            if r2.len() < s.len() {
                lemma_instr_seq_extends(r2, t, depth, eof);
            }
        }
    }
}

/// Bytes after an expression do not change how it is read.
/// Cut short, the read can fail only by running out of bytes.
pub proof fn lemma_expr_extends(s: Seq<u8>, t: Seq<u8>, eof: DecodeError)
    ensures
        extends(spec_expr(s, eof), spec_expr(s + t, eof), t),
        cut_short(spec_expr(s, eof), spec_expr(s + t, eof), eof),
{
    lemma_instr_seq_extends(s, t, 0, eof);
}

} // verus!
