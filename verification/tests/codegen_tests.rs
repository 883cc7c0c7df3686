use l1vm::assembly::{assemble, Stmt as AsmStmt};
use l1vm::ast::{Declaration, Expr, Interner, Opcode, Stmt, Toplevel};
use l1vm::bytecode::{ArithOp, Cond, Vm};
use l1vm::codegen::{compile_program, CodeGen, CodegenError};

fn num(v: i64) -> Expr {
    Expr::Number(v)
}

fn load(h: usize) -> Expr {
    Expr::EnvLoad(h)
}

fn op(a: Expr, o: Opcode, b: Expr) -> Expr {
    Expr::Op(Box::new(a), o, Box::new(b))
}

/// Compiles, assembles and runs a program; the values sent on channel 0.
fn run_l1(program: Vec<Toplevel>, env: Interner) -> Vec<i64> {
    let stmts = compile_program(&program, env).unwrap();
    let prog = assemble(Vec::new(), &stmts).unwrap();
    let mut vm = Vm::from_program(prog);
    vm.max_ops = Some(100000);
    vm.exec(None).unwrap();
    vm.outputs
        .iter()
        .filter(|p| p.0 == 0)
        .map(|p| p.1)
        .collect()
}

#[test]
fn test_basic() {
    // let a = 123;
    // { let b = 321; let c = 432; print b; }
    // { print a; }
    // print a;
    // while a != 0 { let x = 1; a = a - 1; }
    let mut env = Interner::new();
    let a = env.get_dedup("a".to_string());
    let b = env.get_dedup("b".to_string());
    let c = env.get_dedup("c".to_string());
    let x = env.get_dedup("x".to_string());

    let program = vec![
        Stmt::LetBinding(a, num(123), true),
        Stmt::Block(
            vec![
                Stmt::LetBinding(b, num(321), false),
                Stmt::LetBinding(c, num(432), false),
                Stmt::Print(vec![load(b)]),
            ],
            true,
        ),
        Stmt::Block(vec![Stmt::Print(vec![load(a)])], true),
        Stmt::Print(vec![load(a)]),
        Stmt::While(
            op(load(a), Opcode::NotEqual, num(0)),
            Box::new(Stmt::Block(
                vec![
                    Stmt::LetBinding(x, num(1), false),
                    Stmt::Assign(a, op(load(a), Opcode::Sub, num(1)), None),
                ],
                true,
            )),
        ),
    ];

    let mut codegen = CodeGen::new(env);
    for s in &program {
        codegen.emit(s).unwrap();
    }
    println!("asm: {:?}", codegen.asm_out);
    let asm_ref = [
        AsmStmt::PushInline(123),
        AsmStmt::PushInline(321),
        AsmStmt::PushInline(432),
        AsmStmt::PushStack(1),
        AsmStmt::Output(0),
        AsmStmt::Pop(2),
        AsmStmt::PushStack(0),
        AsmStmt::Output(0),
        AsmStmt::Pop(0),
        AsmStmt::PushStack(0),
        AsmStmt::Output(0),
        AsmStmt::Label("while0".into()),
        AsmStmt::PushStack(0),
        AsmStmt::PushInline(0),
        AsmStmt::Arith(ArithOp::NotEqual),
        AsmStmt::Jmp(Cond::Zero, Some("while_end0".into())),
        AsmStmt::PushInline(1),
        AsmStmt::PushStack(1),
        AsmStmt::PushInline(1),
        AsmStmt::Arith(ArithOp::Sub),
        AsmStmt::Move(1),
        AsmStmt::Pop(1),
        AsmStmt::Jmp(Cond::Always, Some("while0".into())),
        AsmStmt::Label("while_end0".into()),
    ];
    assert_eq!(codegen.asm_out[..], asm_ref);
}

#[test]
fn scenario_print_arithmetic() {
    // print 10 * 10, 123 * 5, 41 + 1;
    let env = Interner::new();
    let program = vec![Toplevel::Stmt(Stmt::Print(vec![
        op(num(10), Opcode::Mul, num(10)),
        op(num(123), Opcode::Mul, num(5)),
        op(num(41), Opcode::Add, num(1)),
    ]))];
    assert_eq!(run_l1(program, env), vec![100, 615, 42]);
}

#[test]
fn scenario_if_else() {
    // let a = 41 + 1; if a { print 100; } else { print 0; }
    let mut env = Interner::new();
    let a = env.get_dedup("a".to_string());
    let program = vec![
        Toplevel::Stmt(Stmt::LetBinding(a, op(num(41), Opcode::Add, num(1)), false)),
        Toplevel::Stmt(Stmt::IfElse(
            load(a),
            Box::new(Stmt::Block(vec![Stmt::Print(vec![num(100)])], true)),
            Some(Box::new(Stmt::Block(vec![Stmt::Print(vec![num(0)])], true))),
        )),
    ];
    assert_eq!(run_l1(program, env), vec![100]);

    // The else branch, on a zero condition.
    let mut env = Interner::new();
    let a = env.get_dedup("a".to_string());
    let program = vec![
        Toplevel::Stmt(Stmt::LetBinding(a, num(0), false)),
        Toplevel::Stmt(Stmt::IfElse(
            load(a),
            Box::new(Stmt::Block(vec![Stmt::Print(vec![num(100)])], true)),
            Some(Box::new(Stmt::Block(vec![Stmt::Print(vec![num(0)])], true))),
        )),
    ];
    assert_eq!(run_l1(program, env), vec![0]);
}

#[test]
fn scenario_while_countdown() {
    // let mut i = 3; while i != 0 { print i; i = i - 1; }
    let mut env = Interner::new();
    let i = env.get_dedup("i".to_string());
    let program = vec![
        Toplevel::Stmt(Stmt::LetBinding(i, num(3), true)),
        Toplevel::Stmt(Stmt::While(
            op(load(i), Opcode::NotEqual, num(0)),
            Box::new(Stmt::Block(
                vec![
                    Stmt::Print(vec![load(i)]),
                    Stmt::Assign(i, op(load(i), Opcode::Sub, num(1)), None),
                ],
                true,
            )),
        )),
    ];
    assert_eq!(run_l1(program, env), vec![3, 2, 1]);
}

#[test]
fn scenario_function_call() {
    // fn sq(x) { return x*x; } print sq(7);
    let mut env = Interner::new();
    let sq = env.get_dedup("sq".to_string());
    let x = env.get_dedup("x".to_string());
    let program = vec![
        Toplevel::Declaration(Declaration::Function(
            sq,
            vec![x],
            Box::new(Stmt::Block(
                vec![Stmt::Return(op(load(x), Opcode::Mul, load(x)))],
                false,
            )),
        )),
        Toplevel::Stmt(Stmt::Print(vec![Expr::Call(sq, vec![num(7)])])),
    ];
    assert_eq!(run_l1(program, env), vec![49]);
}

#[test]
fn scenario_block_scoping() {
    // let a = 5; { let b = 7; print a + b; } print a;
    let mut env = Interner::new();
    let a = env.get_dedup("a".to_string());
    let b = env.get_dedup("b".to_string());
    let program = vec![
        Toplevel::Stmt(Stmt::LetBinding(a, num(5), false)),
        Toplevel::Stmt(Stmt::Block(
            vec![
                Stmt::LetBinding(b, num(7), false),
                Stmt::Print(vec![op(load(a), Opcode::Add, load(b))]),
            ],
            true,
        )),
        Toplevel::Stmt(Stmt::Print(vec![load(a)])),
    ];
    assert_eq!(run_l1(program, env), vec![12, 5]);
}

#[test]
fn greater_than_desugars_to_less_than() {
    // emit_expr(a > b) produces the same output as emit_expr(b < a), and
    // the >= form matches <=.
    let gt = op(num(3), Opcode::GreaterThan, num(4));
    let lt = op(num(4), Opcode::LessThan, num(3));
    let mut cg1 = CodeGen::new(Interner::new());
    cg1.emit_expr(&gt).unwrap();
    let mut cg2 = CodeGen::new(Interner::new());
    cg2.emit_expr(&lt).unwrap();
    assert_eq!(cg1.asm_out, cg2.asm_out);

    let ge = op(num(3), Opcode::GreaterEqual, num(4));
    let le = op(num(4), Opcode::LessEqual, num(3));
    let mut cg1 = CodeGen::new(Interner::new());
    cg1.emit_expr(&ge).unwrap();
    let mut cg2 = CodeGen::new(Interner::new());
    cg2.emit_expr(&le).unwrap();
    assert_eq!(cg1.asm_out, cg2.asm_out);
}

#[test]
fn comparisons_through_the_pipeline() {
    // All six comparisons, including the desugared greater-than forms.
    let env = Interner::new();
    let program = vec![Toplevel::Stmt(Stmt::Print(vec![
        op(num(2), Opcode::LessThan, num(3)),
        op(num(3), Opcode::LessThan, num(2)),
        op(num(2), Opcode::LessEqual, num(2)),
        op(num(3), Opcode::GreaterThan, num(2)),
        op(num(2), Opcode::GreaterThan, num(3)),
        op(num(2), Opcode::GreaterEqual, num(3)),
        op(num(3), Opcode::Equal, num(3)),
        op(num(3), Opcode::NotEqual, num(3)),
        op(num(0), Opcode::Or, num(5)),
        op(num(0), Opcode::And, num(5)),
    ]))];
    assert_eq!(run_l1(program, env), vec![1, 0, 1, 1, 0, 0, 1, 0, 1, 0]);
}

#[test]
fn codegen_errors() {
    let env = Interner::new();
    let mut cg = CodeGen::new(env);
    assert_eq!(
        cg.emit(&Stmt::Assign(0, num(1), None)).unwrap_err(),
        CodegenError::UnknownBinding(0)
    );
    assert_eq!(
        cg.emit(&Stmt::Print(vec![Expr::Error])).unwrap_err(),
        CodegenError::ErrorExpr
    );
    assert_eq!(
        cg.emit(&Stmt::Assign(0, num(1), Some(Opcode::Add))).unwrap_err(),
        CodegenError::CompoundAssign
    );
    assert_eq!(
        cg.emit(&Stmt::Block(vec![], false)).unwrap_err(),
        CodegenError::EmptyValueBlock
    );
    assert_eq!(
        cg.emit(&Stmt::Print(vec![Expr::Call(99, vec![])])).unwrap_err(),
        CodegenError::UnknownName(99)
    );
}

#[test]
fn shadowing_resolves_innermost() {
    // let a = 1; { let a = 2; print a; } print a;
    let mut env = Interner::new();
    let a = env.get_dedup("a".to_string());
    let program = vec![
        Toplevel::Stmt(Stmt::LetBinding(a, num(1), false)),
        Toplevel::Stmt(Stmt::Block(
            vec![
                Stmt::LetBinding(a, num(2), false),
                Stmt::Print(vec![load(a)]),
            ],
            true,
        )),
        Toplevel::Stmt(Stmt::Print(vec![load(a)])),
    ];
    assert_eq!(run_l1(program, env), vec![2, 1]);
}

#[test]
fn pipeline_from_source() {
    // The whole toolchain on source text: parse, lower to assembly,
    // assemble, execute.
    let mut env = Interner::new();
    let program = l1vm::parser::parse_program(
        &mut env,
        "let a = 5; { let b = 7; print a + b; } print a;",
    )
    .unwrap();
    assert_eq!(run_l1(program, env), vec![12, 5]);

    let mut env = Interner::new();
    let program = l1vm::parser::parse_program(
        &mut env,
        "fn sq(x) { return x*x; } print sq(7);",
    )
    .unwrap();
    assert_eq!(run_l1(program, env), vec![49]);

    let mut env = Interner::new();
    let program = l1vm::parser::parse_program(
        &mut env,
        "let mut i = 3; while i != 0 { print i; i = i - 1; }",
    )
    .unwrap();
    assert_eq!(run_l1(program, env), vec![3, 2, 1]);
}
