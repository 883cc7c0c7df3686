use l1vm::assembly::{
    assemble, extract_constants, label_locations, AsmError, BytecodeEmit, Disass, Section, Stmt,
};
use l1vm::bytecode::{ArithOp, Cond, Op, Vm};

#[test]
fn asm_labels() {
    let mut stmts = Vec::new();
    stmts.push(Stmt::Jmp(Cond::Always, Some("jmp_const".into())));
    stmts.push(Stmt::PushConst(0));
    stmts.push(Stmt::Label("jmp_const".into()));
    stmts.push(Stmt::PushInline(123));

    stmts.push(Stmt::Jmp(Cond::Always, Some("jmp_stack".into())));
    stmts.push(Stmt::PushStack(0));
    stmts.push(Stmt::Label("jmp_stack".into()));
    stmts.push(Stmt::PushInline(124));

    stmts.push(Stmt::Jmp(Cond::Always, Some("jmp_inline".into())));
    stmts.push(Stmt::PushInline(1));
    stmts.push(Stmt::Label("jmp_inline".into()));
    stmts.push(Stmt::PushInline(125));

    stmts.push(Stmt::Jmp(Cond::Always, Some("jmp_inline24".into())));
    stmts.push(Stmt::PushInline(0xFFFFF));
    stmts.push(Stmt::Label("jmp_inline24".into()));
    stmts.push(Stmt::PushInline(126));

    stmts.push(Stmt::Jmp(Cond::Always, Some("jmp_inline_?".into())));
    stmts.push(Stmt::PushInline(0xFFFFFFF));
    stmts.push(Stmt::Label("jmp_inline_?".into()));
    stmts.push(Stmt::PushInline(127));

    stmts.push(Stmt::Jmp(Cond::Always, Some("jmp_inline_large".into())));
    stmts.push(Stmt::PushInline(0xFFFFFFFFF));
    stmts.push(Stmt::Label("jmp_inline_large".into()));
    stmts.push(Stmt::PushInline(128));

    stmts.push(Stmt::Jmp(Cond::Always, Some("jmp_pop_0".into())));
    stmts.push(Stmt::Pop(0));
    stmts.push(Stmt::Label("jmp_pop_0".into()));
    stmts.push(Stmt::PushInline(129));

    stmts.push(Stmt::Jmp(Cond::Always, Some("jmp_pop_top".into())));
    stmts.push(Stmt::Pop(1));
    stmts.push(Stmt::Label("jmp_pop_top".into()));
    stmts.push(Stmt::PushInline(130));

    stmts.push(Stmt::Jmp(Cond::Always, Some("jmp_pop_large".into())));
    stmts.push(Stmt::Pop(0x7FFF));
    stmts.push(Stmt::Label("jmp_pop_large".into()));
    stmts.push(Stmt::PushInline(131));

    let mut data = Vec::new();
    let labels = label_locations(&stmts).unwrap();

    extract_constants(&stmts, &mut data);
    let mut bc = Vec::new();

    for stmt in &stmts {
        stmt.emit(&labels, &data, &mut bc).unwrap();
    }
    bc.push(Op::Noop);
    assert_eq!(
        bc[labels.get(&"jmp_pop_large".to_string()).unwrap()],
        Op::PushImmediate(131)
    );
    assert_eq!(
        bc[labels.get(&"jmp_pop_top".to_string()).unwrap()],
        Op::PushImmediate(130)
    );
    assert_eq!(
        bc[labels.get(&"jmp_pop_0".to_string()).unwrap()],
        Op::PushImmediate(129)
    );
    assert_eq!(
        bc[labels.get(&"jmp_inline_large".to_string()).unwrap()],
        Op::PushImmediate(128)
    );
    assert_eq!(
        bc[labels.get(&"jmp_inline24".to_string()).unwrap()],
        Op::PushImmediate(126)
    );
    assert_eq!(
        bc[labels.get(&"jmp_inline".to_string()).unwrap()],
        Op::PushImmediate(125)
    );
    assert_eq!(
        bc[labels.get(&"jmp_stack".to_string()).unwrap()],
        Op::PushImmediate(124)
    );
    assert_eq!(
        bc[labels.get(&"jmp_const".to_string()).unwrap()],
        Op::PushImmediate(123)
    );
}

#[test]
fn assemble_length_matches_num_ops() {
    // The assembler round-trip length: the emitted code is the sum of the
    // per-statement op counts, plus the closing Noop.
    let stmts = vec![
        Stmt::Label("start".into()),
        Stmt::PushInline(1),
        Stmt::PushInline(0x12345),
        Stmt::PushInline(0x123456789),
        Stmt::PushConst(0),
        Stmt::PushStack(1),
        Stmt::Arith(ArithOp::Add),
        Stmt::Output(0),
        Stmt::Pop(0),
        Stmt::Pop(1),
        Stmt::Pop(5),
        Stmt::Move(2),
        Stmt::Jmp(Cond::Zero, Some("start".into())),
        Stmt::Jmp(Cond::Always, None),
        Stmt::Noop,
    ];
    let sum: usize = stmts.iter().map(|s| s.num_ops()).sum();
    let prog = assemble(Vec::new(), &stmts).unwrap();
    assert_eq!(prog.code.len(), sum + 1);
    assert_eq!(prog.code.last(), Some(&Op::Noop));
}

#[test]
fn constants_pool_dedup() {
    // No value appears twice in the pool, and first occurrence sets order.
    let stmts = vec![
        Stmt::PushInline(0x1_0000_0000),
        Stmt::PushInline(0x2_0000_0000),
        Stmt::PushInline(0x1_0000_0000),
        Stmt::PushInline(-40000),
        Stmt::PushInline(0x2_0000_0000),
    ];
    let mut pool = vec![7];
    extract_constants(&stmts, &mut pool);
    assert_eq!(pool, vec![7, 0x1_0000_0000, 0x2_0000_0000, -40000]);
}

#[test]
fn pop_zero_emits_nothing() {
    let stmts = vec![Stmt::PushInline(1), Stmt::Pop(0), Stmt::PushInline(2)];
    assert_eq!(Stmt::Pop(0).num_ops(), 0);
    let prog = assemble(Vec::new(), &stmts).unwrap();
    assert_eq!(
        prog.code,
        vec![Op::PushImmediate(1), Op::PushImmediate(2), Op::Noop]
    );
}

#[test]
fn label_resolution_lands_on_label() {
    // A taken jump lands exactly where the label was laid out: the 111
    // push is skipped.
    let stmts = vec![
        Stmt::Jmp(Cond::Always, Some("over".into())),
        Stmt::PushInline(111),
        Stmt::Label("over".into()),
        Stmt::PushInline(7),
    ];
    let prog = assemble(Vec::new(), &stmts).unwrap();
    let mut vm = Vm::from_program(prog);
    vm.exec(None).unwrap();
    assert_eq!(vm.pop(), 7);
    assert_eq!(vm.stack.len(), 0);
}

#[test]
fn backward_jump_loops() {
    // Count down from 3 using a backward jump; outputs 3, 2, 1.
    let stmts = vec![
        Stmt::PushInline(3),
        Stmt::Label("loop_top".into()),
        Stmt::PushStack(0),
        Stmt::Jmp(Cond::Zero, Some("done".into())),
        Stmt::PushStack(0),
        Stmt::Output(0),
        Stmt::PushInline(1),
        Stmt::Arith(ArithOp::Sub),
        Stmt::Jmp(Cond::Always, Some("loop_top".into())),
        Stmt::Label("done".into()),
        Stmt::Pop(1),
    ];
    let prog = assemble(Vec::new(), &stmts).unwrap();
    let mut vm = Vm::from_program(prog);
    vm.exec(None).unwrap();
    let outs: Vec<i64> = vm.outputs.iter().map(|p| p.1).collect();
    assert_eq!(outs, vec![3, 2, 1]);
}

#[test]
fn oversized_constant_round_trip() {
    // A value beyond the immediate window travels through the pool.
    let stmts = vec![Stmt::PushInline(0x123456789), Stmt::Output(0)];
    let prog = assemble(vec![55], &stmts).unwrap();
    assert_eq!(prog.data, vec![55, 0x123456789]);
    let mut vm = Vm::from_program(prog);
    vm.exec(None).unwrap();
    assert_eq!(vm.outputs, vec![(0u16, 0x123456789i64)]);
}

#[test]
fn negative_inline_forms() {
    // -5 fits the signed 16-bit immediate; -40000 must go to the pool.
    let stmts = vec![Stmt::PushInline(-5), Stmt::PushInline(-40000)];
    let prog = assemble(Vec::new(), &stmts).unwrap();
    assert_eq!(prog.data, vec![-40000]);
    let mut vm = Vm::from_program(prog);
    vm.exec(None).unwrap();
    assert_eq!(vm.pop(), -40000);
    assert_eq!(vm.pop(), -5);
}

#[test]
fn assembly_errors() {
    let stmts = vec![Stmt::Jmp(Cond::Always, Some("nowhere".into()))];
    assert_eq!(
        assemble(Vec::new(), &stmts).unwrap_err(),
        AsmError::UndefinedLabel("nowhere".into())
    );

    let stmts = vec![Stmt::Label("twice".into()), Stmt::Label("twice".into())];
    assert_eq!(
        assemble(Vec::new(), &stmts).unwrap_err(),
        AsmError::DuplicateLabel("twice".into())
    );

    let stmts = vec![Stmt::Pop(-1)];
    assert_eq!(
        assemble(Vec::new(), &stmts).unwrap_err(),
        AsmError::OperandOutOfRange
    );

    let stmts = vec![Stmt::Pop(0x8000)];
    assert_eq!(
        assemble(Vec::new(), &stmts).unwrap_err(),
        AsmError::OperandOutOfRange
    );

    let stmts = vec![Stmt::Move(-1)];
    assert_eq!(
        assemble(Vec::new(), &stmts).unwrap_err(),
        AsmError::OperandOutOfRange
    );

    let stmts = vec![Stmt::Output(0x10000)];
    assert_eq!(
        assemble(Vec::new(), &stmts).unwrap_err(),
        AsmError::OperandOutOfRange
    );

    // A jump whose displacement does not fit 16 signed bits.
    let mut stmts = vec![Stmt::Jmp(Cond::Always, Some("far".into()))];
    for _ in 0..0x8100 {
        stmts.push(Stmt::Noop);
    }
    stmts.push(Stmt::Label("far".into()));
    assert_eq!(
        assemble(Vec::new(), &stmts).unwrap_err(),
        AsmError::DisplacementTooLarge
    );

    // A pool value that is not in the pool handed to emit directly.
    let labels = label_locations(&Vec::new()).unwrap();
    let mut out = Vec::new();
    assert_eq!(
        Stmt::PushInline(0x1_0000_0000)
            .emit(&labels, &Vec::new(), &mut out)
            .unwrap_err(),
        AsmError::MissingConst(0x1_0000_0000)
    );
}

#[test]
fn disassembly_text() {
    let mut out: Vec<char> = Vec::new();
    Section::Data(vec![123, -4]).print_lines(&mut out);
    Section::Code(vec![
        Stmt::Label("entry".into()),
        Stmt::PushInline(5),
        Stmt::PushConst(0),
        Stmt::PushStack(2),
        Stmt::Jmp(Cond::Zero, Some("entry".into())),
        Stmt::Jmp(Cond::Always, None),
        Stmt::Arith(ArithOp::NotEqual),
        Stmt::Output(0),
        Stmt::Pop(1),
        Stmt::Pop(3),
        Stmt::Move(1),
        Stmt::Call("func_sq".into()),
        Stmt::Noop,
    ])
    .print_lines(&mut out);
    let text: String = out.iter().collect();
    let expected = "section .const\n123\n-4\nsection .code\nentry:\n    push 5\n    push const.0\n    push stack.2\n    jmp z entry\n    jmp always\n    neq\n    output #0\n    pop\n    pop 3\n    move 1\n    call func_sq\n    noop\n";
    assert_eq!(text, expected);
}

#[test]
fn call_round_trip() {
    // A hand-written call sequence: the callee doubles its argument. The
    // caller reserves a return slot, pushes the argument, calls, then
    // drops the argument; the value 14 remains.
    let stmts = vec![
        Stmt::Jmp(Cond::Always, Some("entry".into())),
        Stmt::Label("func_double".into()),
        Stmt::PushStack(1),
        Stmt::PushInline(2),
        Stmt::Arith(ArithOp::Mul),
        Stmt::Move(2),
        Stmt::Label("func_double_ret".into()),
        Stmt::Jmp(Cond::Always, None),
        Stmt::Label("entry".into()),
        Stmt::PushInline(0),
        Stmt::PushInline(7),
        Stmt::Call("func_double".into()),
        Stmt::Pop(1),
        Stmt::Output(0),
    ];
    let prog = assemble(Vec::new(), &stmts).unwrap();
    let mut vm = Vm::from_program(prog);
    vm.exec(None).unwrap();
    assert_eq!(vm.outputs, vec![(0u16, 14i64)]);
}
