use l1vm::ast::{Expr, Interner, Opcode, Stmt};
use l1vm::eval::{EvalError, Evaluator};

fn num(v: i64) -> Expr {
    Expr::Number(v)
}

fn load(h: usize) -> Expr {
    Expr::EnvLoad(h)
}

fn op(a: Expr, o: Opcode, b: Expr) -> Expr {
    Expr::Op(Box::new(a), o, Box::new(b))
}

#[test]
fn evaluator_let_and_print() {
    // let a = 41 + 1; print 10 * 10, 123 * 5, a;
    let mut env = Interner::new();
    let a = env.get_dedup("a".to_string());
    let mut ev = Evaluator::new();
    ev.execute(&Stmt::LetBinding(a, op(num(41), Opcode::Add, num(1)), false))
        .unwrap();
    ev.execute(&Stmt::Print(vec![
        op(num(10), Opcode::Mul, num(10)),
        op(num(123), Opcode::Mul, num(5)),
        load(a),
    ]))
    .unwrap();
    assert_eq!(ev.outputs, vec![100, 615, 42]);
}

#[test]
fn evaluator_if_else() {
    let mut env = Interner::new();
    let a = env.get_dedup("a".to_string());
    let mut ev = Evaluator::new();
    ev.execute(&Stmt::LetBinding(a, num(42), false)).unwrap();
    ev.execute(&Stmt::IfElse(
        load(a),
        Box::new(Stmt::Print(vec![num(100)])),
        Some(Box::new(Stmt::Print(vec![num(0)]))),
    ))
    .unwrap();
    assert_eq!(ev.outputs, vec![100]);

    let mut ev = Evaluator::new();
    ev.execute(&Stmt::IfElse(
        num(0),
        Box::new(Stmt::Print(vec![num(100)])),
        Some(Box::new(Stmt::Print(vec![num(0)]))),
    ))
    .unwrap();
    assert_eq!(ev.outputs, vec![0]);
}

#[test]
fn evaluator_while_rebinds() {
    // The evaluator has no assignment; a let inside the loop body rebinds,
    // shadowing the old value, so a countdown still terminates.
    let mut env = Interner::new();
    let i = env.get_dedup("i".to_string());
    let mut ev = Evaluator::new();
    ev.execute(&Stmt::LetBinding(i, num(3), true)).unwrap();
    ev.execute(&Stmt::While(
        op(load(i), Opcode::NotEqual, num(0)),
        Box::new(Stmt::Block(
            vec![
                Stmt::Print(vec![load(i)]),
                Stmt::LetBinding(i, op(load(i), Opcode::Sub, num(1)), true),
            ],
            true,
        )),
    ))
    .unwrap();
    assert_eq!(ev.outputs, vec![3, 2, 1]);
}

#[test]
fn evaluator_fuel_stops_endless_loop() {
    let mut ev = Evaluator::new();
    ev.fuel = 100;
    let r = ev.execute(&Stmt::While(num(1), Box::new(Stmt::Print(vec![num(5)]))));
    assert_eq!(r.unwrap_err(), EvalError::FuelExhausted);
    assert_eq!(ev.outputs.len(), 100);
}

#[test]
fn evaluator_errors() {
    let mut ev = Evaluator::new();
    assert_eq!(
        ev.execute(&Stmt::Print(vec![load(7)])).unwrap_err(),
        EvalError::UnboundIdent(7)
    );
    assert_eq!(
        ev.execute(&Stmt::Print(vec![op(num(1), Opcode::Div, num(0))]))
            .unwrap_err(),
        EvalError::DivisionByZero
    );
    assert_eq!(
        ev.execute(&Stmt::Print(vec![op(
            num(i64::MAX),
            Opcode::Add,
            num(1)
        )]))
        .unwrap_err(),
        EvalError::Overflow
    );
    assert_eq!(
        ev.execute(&Stmt::Assign(0, num(1), None)).unwrap_err(),
        EvalError::NotImplemented
    );
}

#[test]
fn evaluator_short_circuit() {
    // A true left operand of `or` hides a division by zero on the right;
    // a false left operand of `and` does the same.
    let mut ev = Evaluator::new();
    ev.execute(&Stmt::Print(vec![
        op(num(1), Opcode::Or, op(num(1), Opcode::Div, num(0))),
        op(num(0), Opcode::And, op(num(1), Opcode::Div, num(0))),
    ]))
    .unwrap();
    assert_eq!(ev.outputs, vec![1, 0]);
}

#[test]
fn evaluator_error_sentinel() {
    // The parse-error sentinel evaluates to its sentinel value.
    let mut ev = Evaluator::new();
    ev.execute(&Stmt::Print(vec![Expr::Error])).unwrap();
    assert_eq!(ev.outputs, vec![666]);
}

#[test]
fn lib_test1() {
    let mut env = Interner::new();
    let expr = l1vm::parser::parse_program(
        &mut env,
        "let a = 41 + 1; print 10 * 10, 123 * 0b101, a;",
    )
    .unwrap();

    println!("{:?}", expr);
    let mut evaluator = Evaluator::new();
    for s in expr.iter() {
        if let l1vm::ast::Toplevel::Stmt(s) = s {
            evaluator.execute(s).unwrap();
        }
    }
    assert_eq!(evaluator.outputs, vec![100, 615, 42]);

    let expr = l1vm::parser::parse_program(
        &mut env,
        "let a = 41 + 1; if a {print 10 * 10;} else {print 123 * 0b101, a;}",
    )
    .unwrap();
    for s in expr.iter() {
        if let l1vm::ast::Toplevel::Stmt(s) = s {
            println!("execute: {:?}", s);
            evaluator.execute(s).unwrap();
        }
    }
    assert_eq!(evaluator.outputs, vec![100, 615, 42, 100]);
}

#[test]
fn main_test1() {
    let mut env = Interner::new();
    let expr = l1vm::parser::parse_program(
        &mut env,
        "let a = 41 + 1; print 10 * 10, 123 * 0b101, a;",
    )
    .unwrap();

    println!("{:?}", expr);
    let mut evaluator = Evaluator::new();
    for s in expr.iter() {
        if let l1vm::ast::Toplevel::Stmt(s) = s {
            evaluator.execute(s).unwrap();
        }
    }

    let expr = l1vm::parser::parse_program(
        &mut env,
        "let a = 41 + 1; if a {print 10 * 10;} else {print 123 * 0b101, a;}",
    )
    .unwrap();
    for s in expr.iter() {
        if let l1vm::ast::Toplevel::Stmt(s) = s {
            println!("execute: {:?}", s);
            evaluator.execute(s).unwrap();
        }
    }
    assert_eq!(evaluator.outputs, vec![100, 615, 42, 100]);
}
