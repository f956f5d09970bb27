use std::collections::HashSet;
use ykrt::tir::{
    CallOperand, Constant, ConstantInt, Guard, Local, Operand, Place, Projection, Rvalue,
    SignedInt, Statement, TirOp, TirTrace, UnsignedInt,
};
use ykrt::tracecompiler::{reg_num_to_name, CompileError, Instr, TraceCompiler};

fn place(local: u32) -> Place {
    Place { local: Local(local), projection: vec![] }
}

fn assign_u8(local: u32, v: u8) -> TirOp {
    TirOp::Statement(Statement::Assign(
        place(local),
        Rvalue::Use(Operand::Constant(Constant::Int(ConstantInt::UnsignedInt(UnsignedInt::U8(v))))),
    ))
}

fn assign_local(dst: u32, src: u32) -> TirOp {
    TirOp::Statement(Statement::Assign(place(dst), Rvalue::Use(Operand::Place(place(src)))))
}

fn unimplemented(hint: &str) -> CompileError {
    CompileError::Unimplemented(hint.to_string())
}

// Repeatedly fetching the register for the same local should yield the same register and
// should not exhaust the allocator.
#[test]
fn reg_alloc_same_local() {
    let mut tc = TraceCompiler::new();

    for _ in 0..32 {
        assert_eq!(tc.local_to_reg(Local(1)).unwrap(), tc.local_to_reg(Local(1)).unwrap());
    }
}

// Locals should be allocated to different registers.
#[test]
fn reg_alloc() {
    let mut tc = TraceCompiler::new();

    let mut seen = HashSet::new();
    for l in 0..7 {
        let reg = tc.local_to_reg(Local(l));
        assert!(!seen.contains(&reg));
        seen.insert(reg);
    }
}

#[test]
fn registers_are_given_out_from_the_end_of_the_list() {
    let mut tc = TraceCompiler::new();
    assert_eq!(tc.local_to_reg(Local(0)), Ok(0));
    let got: Vec<u8> = (1..=10).map(|l| tc.local_to_reg(Local(l)).unwrap()).collect();
    assert_eq!(got, vec![1, 2, 8, 9, 10, 11, 12, 13, 14, 15]);
    assert_eq!(tc.local_to_reg(Local(11)), Err(CompileError::OutOfRegisters));
    // The return value needs no register of the pool.
    assert_eq!(tc.local_to_reg(Local(0)), Ok(0));
    // A freed register is the next to be given out.
    tc.free_register(&Local(4));
    tc.free_register(&Local(4));
    tc.free_register(&Local(0));
    assert_eq!(tc.local_to_reg(Local(11)), Ok(9));
    assert_eq!(tc.local_to_reg(Local(12)), Err(CompileError::OutOfRegisters));
}

#[test]
fn compile_simple_trace() {
    // let x = 13; x
    let tt = TirTrace::new(vec![
        TirOp::Statement(Statement::StorageLive(Local(1))),
        assign_u8(1, 13),
        assign_local(0, 1),
        TirOp::Statement(Statement::StorageDead(Local(1))),
    ]);
    let code = TraceCompiler::compile(tt).unwrap();
    assert_eq!(
        code,
        vec![
            Instr::MovImm64 { dst: 1, imm64: 13 },
            Instr::MovReg { dst: 0, src: 1 },
            Instr::Ret,
        ]
    );
}

#[test]
fn compile_inlined_call() {
    // let y = farg(13); y
    let tt = TirTrace::new(vec![
        TirOp::Statement(Statement::Enter(
            CallOperand::Fn("farg".to_string()),
            vec![
                Operand::Constant(Constant::Int(ConstantInt::UnsignedInt(UnsignedInt::U8(13)))),
                Operand::Constant(Constant::Bool(true)),
                Operand::Place(place(1)),
            ],
            Some(place(1)),
            2,
        )),
        assign_local(0, 3),
        TirOp::Statement(Statement::Leave),
        TirOp::Guard(Guard { val: Local(1) }),
        // A leave without an enter does nothing.
        TirOp::Statement(Statement::Leave),
        TirOp::Statement(Statement::Nop),
        assign_local(0, 1),
    ]);
    let code = TraceCompiler::compile(tt).unwrap();
    assert_eq!(
        code,
        vec![
            Instr::MovImm64 { dst: 1, imm64: 13 }, // local 3
            Instr::MovImm64 { dst: 2, imm64: 1 },  // local 4
            Instr::MovReg { dst: 8, src: 9 },      // local 5 <- local 1
            Instr::MovReg { dst: 0, src: 1 },
            Instr::MovReg { dst: 9, src: 0 },
            Instr::Nop,
            Instr::MovReg { dst: 0, src: 9 },
            Instr::Ret,
        ]
    );
}

#[test]
fn the_call_that_stops_tracing_is_passed_over() {
    let tt = TirTrace::new(vec![
        assign_u8(0, 7),
        TirOp::Statement(Statement::Enter(
            CallOperand::Fn("yktrace::ThreadTracer::stop_tracing".to_string()),
            vec![Operand::Place(place(1))],
            None,
            0,
        )),
    ]);
    let code = TraceCompiler::compile(tt).unwrap();
    assert_eq!(code, vec![Instr::MovImm64 { dst: 0, imm64: 7 }, Instr::Ret]);
    // An unknown callee is entered like any other.
    let tt = TirTrace::new(vec![TirOp::Statement(Statement::Enter(
        CallOperand::Unknown,
        vec![],
        None,
        0,
    ))]);
    assert_eq!(TraceCompiler::compile(tt).unwrap(), vec![Instr::Ret]);
}

#[test]
fn empty_trace_compiles_to_ret() {
    assert_eq!(TraceCompiler::compile(TirTrace::new(vec![])).unwrap(), vec![Instr::Ret]);
}

#[test]
fn compile_errors() {
    let one = |op: TirOp| TraceCompiler::compile(TirTrace::new(vec![op])).unwrap_err();
    assert_eq!(
        one(TirOp::Statement(Statement::Assign(
            Place { local: Local(1), projection: vec![Projection::Field(0)] },
            Rvalue::Unimplemented
        ))),
        unimplemented("assignment to a projection")
    );
    assert_eq!(
        one(TirOp::Statement(Statement::Assign(
            place(1),
            Rvalue::Use(Operand::Place(Place {
                local: Local(2),
                projection: vec![Projection::Unimplemented]
            }))
        ))),
        unimplemented("use of a projection")
    );
    assert_eq!(
        one(TirOp::Statement(Statement::Assign(place(1), Rvalue::Unimplemented))),
        unimplemented("rvalue")
    );
    assert_eq!(
        one(TirOp::Statement(Statement::Assign(
            place(1),
            Rvalue::Use(Operand::Constant(Constant::Unimplemented))
        ))),
        unimplemented("constant")
    );
    assert_eq!(
        one(TirOp::Statement(Statement::Assign(
            place(1),
            Rvalue::Use(Operand::Constant(Constant::Int(ConstantInt::SignedInt(
                SignedInt::I8(-1)
            ))))
        ))),
        unimplemented("integer constant")
    );
    assert_eq!(
        one(TirOp::Statement(Statement::Call(CallOperand::Unknown, vec![], None))),
        unimplemented("call")
    );
    assert_eq!(
        one(TirOp::Statement(Statement::Unimplemented("inline asm".to_string()))),
        unimplemented("inline asm")
    );
    assert_eq!(
        one(TirOp::Statement(Statement::Enter(
            CallOperand::Unknown,
            vec![Operand::Place(place(1))],
            None,
            u32::MAX
        ))),
        unimplemented("local out of range")
    );
    let many: Vec<TirOp> = (1..=11).map(|l| assign_u8(l, 0)).collect();
    assert_eq!(TraceCompiler::compile(TirTrace::new(many)).unwrap_err(), CompileError::OutOfRegisters);
}

#[test]
fn constants_are_moved_as_the_instructions_take_them() {
    let mut tc = TraceCompiler::new();
    tc.mov_local_usize(Local(0), 0x1_0000_0005).unwrap();
    tc.mov_local_usize(Local(0), usize::MAX).unwrap();
    tc.mov_local_u8(Local(1), 255).unwrap();
    tc.c_mov_int(Local(0), &ConstantInt::UnsignedInt(UnsignedInt::Usize(usize::MAX))).unwrap();
    tc.c_mov_bool(Local(1), false).unwrap();
    tc.nop();
    tc.ret();
    assert_eq!(
        tc.finish(),
        vec![
            Instr::MovImm32 { dst: 0, imm32: 5 },
            Instr::MovImm32 { dst: 0, imm32: -1 },
            Instr::MovImm32 { dst: 1, imm32: 255 },
            Instr::MovImm64 { dst: 0, imm64: -1 },
            Instr::MovImm64 { dst: 1, imm64: 0 },
            Instr::Nop,
            Instr::Ret,
        ]
    );
}

#[test]
fn register_names() {
    let names: Vec<&str> = (0..16).map(reg_num_to_name).collect();
    assert_eq!(
        names,
        vec![
            "rax", "rcx", "rdx", "rbx", "rsp", "rbp", "rsi", "rdi", "r8", "r9", "r10", "r11",
            "r12", "r13", "r14", "r15"
        ]
    );
}

#[test]
fn compile_error_messages() {
    assert_eq!(CompileError::OutOfRegisters.message(), "Ran out of registers");
    assert_eq!(unimplemented("call").message(), "Unimplemented compilation: call");
    assert_ne!(unimplemented("call"), unimplemented("rvalue"));
    assert_ne!(unimplemented("call"), CompileError::OutOfRegisters);
}
