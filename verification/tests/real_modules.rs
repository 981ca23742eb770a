use wasm_decode::binary::instr::{BlockType, Instruction};
use wasm_decode::binary::module::Module;
use wasm_decode::binary::segments::{
    DataSegment, ElementItems, ElementSegment, Expr, FunctionBody, Global, SegmentMode,
};
use wasm_decode::binary::types::{
    Export, ExportKind, FunctionType, GlobalType, Import, ImportDesc, Limits, Local, MemoryType,
    RefType, TableType, ValType,
};

fn i32_const(v: i32) -> Expr {
    Expr { instrs: vec![Instruction::I32Const(v)] }
}

#[test]
fn module_with_every_section() {
    let wasm = wat::parse_str(
        r#"(module
            (type (func (param i32 i32) (result i32)))
            (type (func))
            (import "env" "log" (func (type 1)))
            (func (type 0) (local i64 i64) local.get 0 local.get 1 i32.add)
            (func (type 1) nop)
            (table 1 10 funcref)
            (memory 1)
            (global (mut i32) (i32.const 7))
            (export "add" (func 1))
            (export "mem" (memory 0))
            (start 2)
            (elem (i32.const 0) func 1)
            (data (i32.const 8) "hi"))"#,
    )
    .unwrap();
    let m = Module::new(&wasm).unwrap();
    assert_eq!(m.magic, "\0asm");
    assert_eq!(m.version, 1);
    assert_eq!(
        m.types,
        vec![
            FunctionType { params: vec![ValType::I32, ValType::I32], results: vec![ValType::I32] },
            FunctionType { params: vec![], results: vec![] },
        ]
    );
    assert_eq!(
        m.imports,
        vec![Import {
            module: "env".to_string(),
            name: "log".to_string(),
            desc: ImportDesc::Func(1)
        }]
    );
    assert_eq!(m.functions, vec![0, 1]);
    assert_eq!(
        m.tables,
        vec![TableType { element: RefType::FuncRef, limits: Limits { min: 1, max: Some(10) } }]
    );
    assert_eq!(m.memories, vec![MemoryType { limits: Limits { min: 1, max: None } }]);
    assert_eq!(
        m.globals,
        vec![Global { ty: GlobalType { value: ValType::I32, mutable: true }, init: i32_const(7) }]
    );
    assert_eq!(
        m.exports,
        vec![
            Export { name: "add".to_string(), kind: ExportKind::Func, index: 1 },
            Export { name: "mem".to_string(), kind: ExportKind::Memory, index: 0 },
        ]
    );
    assert_eq!(m.start, Some(2));
    assert_eq!(
        m.elements,
        vec![ElementSegment {
            mode: SegmentMode::Active { index: 0, offset: i32_const(0) },
            ty: RefType::FuncRef,
            items: ElementItems::Functions(vec![1]),
        }]
    );
    assert_eq!(
        m.code,
        vec![
            FunctionBody {
                locals: vec![Local { count: 2, ty: ValType::I64 }],
                code: Expr {
                    instrs: vec![
                        Instruction::Indexed { opcode: 0x20, index: 0 },
                        Instruction::Indexed { opcode: 0x20, index: 1 },
                        Instruction::Plain { opcode: 0x6a },
                    ]
                },
            },
            FunctionBody {
                locals: vec![],
                code: Expr { instrs: vec![Instruction::Plain { opcode: 0x01 }] },
            },
        ]
    );
    assert_eq!(
        m.data,
        vec![DataSegment {
            mode: SegmentMode::Active { index: 0, offset: i32_const(8) },
            bytes: b"hi".to_vec(),
        }]
    );
    assert!(m.customs.is_empty());
}

#[test]
fn control_flow_and_memory_instructions() {
    let wasm = wat::parse_str(
        r#"(module
            (memory 1)
            (func (param i32) (result i32)
                block (result i32)
                    loop
                        local.get 0
                        i32.eqz
                        br_if 0
                        local.get 0
                        br_table 0 1 0
                    end
                    local.get 0
                    if (result i32)
                        i32.const -5
                    else
                        local.get 0
                        i32.load offset=4 align=4
                    end
                end
                i64.const 1234567890123
                drop
                f32.const 1.5
                drop
                f64.const -2
                drop))"#,
    )
    .unwrap();
    let m = Module::new(&wasm).unwrap();
    assert_eq!(m.code.len(), 1);
    assert_eq!(
        m.code[0].code.instrs,
        vec![
            Instruction::Block {
                ty: BlockType::Value(ValType::I32),
                body: vec![
                    Instruction::Loop {
                        ty: BlockType::Empty,
                        body: vec![
                            Instruction::Indexed { opcode: 0x20, index: 0 },
                            Instruction::Plain { opcode: 0x45 },
                            Instruction::Indexed { opcode: 0x0d, index: 0 },
                            Instruction::Indexed { opcode: 0x20, index: 0 },
                            Instruction::BrTable { targets: vec![0, 1], default: 0 },
                        ],
                    },
                    Instruction::Indexed { opcode: 0x20, index: 0 },
                    Instruction::If {
                        ty: BlockType::Value(ValType::I32),
                        then_body: vec![Instruction::I32Const(-5)],
                        else_body: vec![
                            Instruction::Indexed { opcode: 0x20, index: 0 },
                            Instruction::Memory { opcode: 0x28, align: 2, offset: 4 },
                        ],
                    },
                ],
            },
            Instruction::I64Const(1234567890123),
            Instruction::Plain { opcode: 0x1a },
            Instruction::F32Const(1.5f32.to_bits()),
            Instruction::Plain { opcode: 0x1a },
            Instruction::F64Const((-2.0f64).to_bits()),
            Instruction::Plain { opcode: 0x1a },
        ]
    );
}

#[test]
fn passive_segments_and_named_items() {
    let wasm = wat::parse_str(
        r#"(module
            (func $f)
            (memory 1)
            (elem func $f)
            (data "raw"))"#,
    )
    .unwrap();
    let m = Module::new(&wasm).unwrap();
    assert_eq!(
        m.elements,
        vec![ElementSegment {
            mode: SegmentMode::Passive,
            ty: RefType::FuncRef,
            items: ElementItems::Functions(vec![0]),
        }]
    );
    assert_eq!(m.data, vec![DataSegment { mode: SegmentMode::Passive, bytes: b"raw".to_vec() }]);
    assert_eq!(m.customs.len(), 1);
    assert_eq!(m.customs[0].name, "name");
}
