use l1vm::bytecode::{
    ArithOp, Cond, ExitReason, IoChannels, Op, PopMode, Program, Uint24, Vm, VmFault,
};
use std::sync::mpsc::channel;

#[test]
fn int24() {
    let a: Uint24 = 10.into();
    let b: Uint24 = 0xAABBCC.into();
    let c: Uint24 = 0xFF.into();
    let d: Uint24 = 0xFF00.into();
    let e: Uint24 = 0xFF0000.into();
    let f: Uint24 = 0xFFFFFF.into();

    let a1: u32 = a.into();
    let b1: u32 = b.into();
    let c1: u32 = c.into();
    let d1: u32 = d.into();
    let e1: u32 = e.into();
    let f1: u32 = f.into();
    assert_eq!(a1, 10);
    assert_eq!(b1, 0xAABBCC);
    assert_eq!(c1, 0xFF);
    assert_eq!(d1, 0xFF00);
    assert_eq!(e1, 0xFF0000);
    assert_eq!(f1, 0xFFFFFF);
}

#[test]
fn arith() {
    let mut prog = Program::new();
    prog.data.push(123);
    prog.data.push(666);
    prog.data.push(777);

    prog.code.push(Op::PushImmediate(0));
    prog.code.push(Op::PushConst);
    prog.code.push(Op::PushImmediate(1));
    prog.code.push(Op::PushConst);
    prog.code.push(Op::Arith(ArithOp::Add));

    prog.code.push(Op::PushImmediate(1));
    prog.code.push(Op::PushConst);
    prog.code.push(Op::PushImmediate(1666));

    prog.code.push(Op::Arith(ArithOp::Sub));
    prog.code.push(Op::Output(0));
    prog.code.push(Op::Output(0));
    let (sender, receiver) = channel();
    let mut io = IoChannels::new();
    io.channels.push(sender);
    let mut vm = Vm::from_program(prog);
    vm.exec(Some(&io)).unwrap();
    println!(
        "sub: {} add: {}",
        receiver.recv().unwrap(),
        receiver.recv().unwrap()
    );

    println!("{}", std::mem::size_of::<Op>());
    assert_eq!(std::mem::size_of::<Op>(), std::mem::size_of::<u32>());
}

#[test]
fn arith_ops() {
    let mut prog = Program::new();

    prog.code.push(Op::PushImmediate(1));
    prog.code.push(Op::PushImmediate(2));
    prog.code.push(Op::Arith(ArithOp::Add));

    prog.code.push(Op::PushImmediate(2));
    prog.code.push(Op::PushImmediate(1));
    prog.code.push(Op::Arith(ArithOp::Sub));

    prog.code.push(Op::PushImmediate(3));
    prog.code.push(Op::PushImmediate(4));
    prog.code.push(Op::Arith(ArithOp::Mul));

    prog.code.push(Op::PushImmediate(6));
    prog.code.push(Op::PushImmediate(3));
    prog.code.push(Op::Arith(ArithOp::Div));

    let mut vm = Vm::from_program(prog);
    vm.exec(None).unwrap();

    assert_eq!(vm.pop(), 2);
    assert_eq!(vm.pop(), 12);
    assert_eq!(vm.pop(), 1);
    assert_eq!(vm.pop(), 3);
}

#[test]
fn arith_eq() {
    let mut prog = Program::new();

    prog.code.push(Op::PushImmediate(2));
    prog.code.push(Op::PushImmediate(3));
    prog.code.push(Op::Arith(ArithOp::Equal));

    prog.code.push(Op::PushImmediate(2));
    prog.code.push(Op::PushImmediate(2));
    prog.code.push(Op::Arith(ArithOp::Equal));

    prog.code.push(Op::PushImmediate(2));
    prog.code.push(Op::PushImmediate(3));
    prog.code.push(Op::Arith(ArithOp::NotEqual));

    prog.code.push(Op::PushImmediate(2));
    prog.code.push(Op::PushImmediate(2));
    prog.code.push(Op::Arith(ArithOp::NotEqual));

    let mut vm = Vm::from_program(prog);
    vm.exec(None).unwrap();

    assert_eq!(vm.pop(), 0);
    assert_eq!(vm.pop(), 1);
    assert_eq!(vm.pop(), 1);
    assert_eq!(vm.pop(), 0);
}

#[test]
fn arith_rel() {
    let mut prog = Program::new();

    prog.code.push(Op::PushImmediate(2));
    prog.code.push(Op::PushImmediate(3));
    prog.code.push(Op::Arith(ArithOp::LessThan));

    prog.code.push(Op::PushImmediate(2));
    prog.code.push(Op::PushImmediate(2));
    prog.code.push(Op::Arith(ArithOp::LessThan));

    prog.code.push(Op::PushImmediate(3));
    prog.code.push(Op::PushImmediate(2));
    prog.code.push(Op::Arith(ArithOp::LessThan));

    prog.code.push(Op::PushImmediate(2));
    prog.code.push(Op::PushImmediate(3));
    prog.code.push(Op::Arith(ArithOp::LessEqual));

    prog.code.push(Op::PushImmediate(2));
    prog.code.push(Op::PushImmediate(2));
    prog.code.push(Op::Arith(ArithOp::LessEqual));

    prog.code.push(Op::PushImmediate(3));
    prog.code.push(Op::PushImmediate(2));
    prog.code.push(Op::Arith(ArithOp::LessEqual));

    let mut vm = Vm::from_program(prog);
    vm.exec(None).unwrap();

    assert_eq!(vm.pop(), 0);
    assert_eq!(vm.pop(), 1);
    assert_eq!(vm.pop(), 1);
    assert_eq!(vm.pop(), 0);
    assert_eq!(vm.pop(), 0);
    assert_eq!(vm.pop(), 1);
}

#[test]
fn arith_bool() {
    let mut prog = Program::new();

    prog.code.push(Op::PushImmediate(0));
    prog.code.push(Op::PushImmediate(0));
    prog.code.push(Op::Arith(ArithOp::And));

    prog.code.push(Op::PushImmediate(1));
    prog.code.push(Op::PushImmediate(0));
    prog.code.push(Op::Arith(ArithOp::And));

    prog.code.push(Op::PushImmediate(0));
    prog.code.push(Op::PushImmediate(1));
    prog.code.push(Op::Arith(ArithOp::And));

    prog.code.push(Op::PushImmediate(1));
    prog.code.push(Op::PushImmediate(1));
    prog.code.push(Op::Arith(ArithOp::And));

    prog.code.push(Op::PushImmediate(0));
    prog.code.push(Op::PushImmediate(0));
    prog.code.push(Op::Arith(ArithOp::Or));

    prog.code.push(Op::PushImmediate(1));
    prog.code.push(Op::PushImmediate(0));
    prog.code.push(Op::Arith(ArithOp::Or));

    prog.code.push(Op::PushImmediate(0));
    prog.code.push(Op::PushImmediate(1));
    prog.code.push(Op::Arith(ArithOp::Or));

    prog.code.push(Op::PushImmediate(1));
    prog.code.push(Op::PushImmediate(1));
    prog.code.push(Op::Arith(ArithOp::Or));

    let mut vm = Vm::from_program(prog);
    vm.exec(None).unwrap();

    assert_eq!(vm.pop(), 1);
    assert_eq!(vm.pop(), 1);
    assert_eq!(vm.pop(), 1);
    assert_eq!(vm.pop(), 0);

    assert_eq!(vm.pop(), 1);
    assert_eq!(vm.pop(), 0);
    assert_eq!(vm.pop(), 0);
    assert_eq!(vm.pop(), 0);
}

#[test]
fn jump() {
    let mut prog = Program::new();
    prog.data.push(123);
    prog.data.push(666);
    prog.data.push(777);

    prog.code.push(Op::PushImmediate(1));
    prog.code.push(Op::PushImmediate(5));
    prog.code.push(Op::Jmp(Cond::NonZero));
    prog.code.push(Op::PushImmediate(2));
    prog.code.push(Op::PushConst);
    prog.code.push(Op::PushImmediate(2));
    prog.code.push(Op::Jmp(Cond::Always));
    prog.code.push(Op::PushImmediate(1));
    prog.code.push(Op::PushConst);
    prog.code.push(Op::Noop);

    let mut vm = Vm::from_program(prog);
    vm.exec(None).unwrap();
    assert_eq!(vm.pop(), 666);
}

#[test]
fn jmp_taken_and_not_taken() {
    // Always: pops the displacement and jumps.
    let mut prog = Program::new();
    prog.code.push(Op::PushImmediate(2));
    prog.code.push(Op::Jmp(Cond::Always));
    prog.code.push(Op::PushImmediate(111)); // skipped
    prog.code.push(Op::PushImmediate(7));
    let mut vm = Vm::from_program(prog);
    assert_eq!(vm.exec(None).unwrap(), ExitReason::EndOfCode);
    assert_eq!(vm.pop(), 7);
    assert_eq!(vm.stack.len(), 0);

    // Zero, taken on 0.
    let mut prog = Program::new();
    prog.code.push(Op::PushImmediate(0));
    prog.code.push(Op::PushImmediate(3));
    prog.code.push(Op::Jmp(Cond::Zero));
    prog.code.push(Op::PushImmediate(111)); // skipped
    prog.code.push(Op::PushImmediate(222)); // skipped
    prog.code.push(Op::PushImmediate(8));
    let mut vm = Vm::from_program(prog);
    vm.exec(None).unwrap();
    assert_eq!(vm.pop(), 8);
    assert_eq!(vm.stack.len(), 0);

    // Zero, not taken on 1: falls through.
    let mut prog = Program::new();
    prog.code.push(Op::PushImmediate(1));
    prog.code.push(Op::PushImmediate(3));
    prog.code.push(Op::Jmp(Cond::Zero));
    prog.code.push(Op::PushImmediate(9));
    let mut vm = Vm::from_program(prog);
    vm.exec(None).unwrap();
    assert_eq!(vm.pop(), 9);
    assert_eq!(vm.stack.len(), 0);

    // NonZero, taken on 5.
    let mut prog = Program::new();
    prog.code.push(Op::PushImmediate(5));
    prog.code.push(Op::PushImmediate(2));
    prog.code.push(Op::Jmp(Cond::NonZero));
    prog.code.push(Op::PushImmediate(111)); // skipped
    prog.code.push(Op::PushImmediate(10));
    let mut vm = Vm::from_program(prog);
    vm.exec(None).unwrap();
    assert_eq!(vm.pop(), 10);
    assert_eq!(vm.stack.len(), 0);

    // NonZero, not taken on 0.
    let mut prog = Program::new();
    prog.code.push(Op::PushImmediate(0));
    prog.code.push(Op::PushImmediate(2));
    prog.code.push(Op::Jmp(Cond::NonZero));
    prog.code.push(Op::PushImmediate(11));
    let mut vm = Vm::from_program(prog);
    vm.exec(None).unwrap();
    assert_eq!(vm.pop(), 11);
    assert_eq!(vm.stack.len(), 0);
}

#[test]
fn arith_matrix() {
    // Every operator over {-7, 0, 5} x {-7, 0, 5}, against Rust's own
    // arithmetic: operand order [a, b] computes op(a, b).
    let vals: [i64; 3] = [-7, 0, 5];
    let ops = [
        ArithOp::Add,
        ArithOp::Sub,
        ArithOp::Mul,
        ArithOp::Div,
        ArithOp::Or,
        ArithOp::And,
        ArithOp::Equal,
        ArithOp::NotEqual,
        ArithOp::LessThan,
        ArithOp::LessEqual,
    ];
    for &a in vals.iter() {
        for &b in vals.iter() {
            for &op in ops.iter() {
                if matches!(op, ArithOp::Div) && b == 0 {
                    continue;
                }
                let expected: i64 = match op {
                    ArithOp::Add => a + b,
                    ArithOp::Sub => a - b,
                    ArithOp::Mul => a * b,
                    ArithOp::Div => a / b,
                    ArithOp::Or => (a != 0 || b != 0) as i64,
                    ArithOp::And => (a != 0 && b != 0) as i64,
                    ArithOp::Equal => (a == b) as i64,
                    ArithOp::NotEqual => (a != b) as i64,
                    ArithOp::LessThan => (a < b) as i64,
                    ArithOp::LessEqual => (a <= b) as i64,
                };
                assert_eq!(op.eval(a, b), expected, "{:?} {} {}", op, a, b);
                let mut prog = Program::new();
                prog.data.push(a);
                prog.data.push(b);
                prog.code.push(Op::PushImmediate(0));
                prog.code.push(Op::PushConst);
                prog.code.push(Op::PushImmediate(1));
                prog.code.push(Op::PushConst);
                prog.code.push(Op::Arith(op));
                let mut vm = Vm::from_program(prog);
                vm.exec(None).unwrap();
                assert_eq!(vm.pop(), expected, "{:?} {} {}", op, a, b);
            }
        }
    }
}

#[test]
fn move_overwrites_and_pops() {
    let mut prog = Program::new();
    prog.code.push(Op::PushImmediate(10));
    prog.code.push(Op::PushImmediate(20));
    prog.code.push(Op::PushImmediate(30));
    prog.code.push(Op::PushImmediate(99)); // the value to store
    prog.code.push(Op::PushImmediate(2)); // the slot, two below the top
    prog.code.push(Op::Move);
    let mut vm = Vm::from_program(prog);
    vm.exec(None).unwrap();
    assert_eq!(vm.pop(), 30);
    assert_eq!(vm.pop(), 20);
    assert_eq!(vm.pop(), 99);
    assert_eq!(vm.stack.len(), 0);
}

#[test]
fn push_stack_sees_moved_value() {
    // A slot overwritten by Move is observed by a later PushStack.
    let mut prog = Program::new();
    prog.code.push(Op::PushImmediate(10));
    prog.code.push(Op::PushImmediate(20));
    prog.code.push(Op::PushImmediate(99));
    prog.code.push(Op::PushImmediate(1));
    prog.code.push(Op::Move); // stack now [99, 20]
    prog.code.push(Op::PushImmediate(1));
    prog.code.push(Op::PushStack); // copies the slot one below the top
    let mut vm = Vm::from_program(prog);
    vm.exec(None).unwrap();
    assert_eq!(vm.pop(), 99);
    assert_eq!(vm.pop(), 20);
    assert_eq!(vm.pop(), 99);
}

#[test]
fn pop_modes() {
    let mut prog = Program::new();
    prog.code.push(Op::PushImmediate(1));
    prog.code.push(Op::PushImmediate(2));
    prog.code.push(Op::PushImmediate(3));
    prog.code.push(Op::Pop(PopMode::One));
    let mut vm = Vm::from_program(prog);
    vm.exec(None).unwrap();
    assert_eq!(vm.pop(), 2);

    let mut prog = Program::new();
    prog.code.push(Op::PushImmediate(7));
    prog.code.push(Op::PushImmediate(1));
    prog.code.push(Op::PushImmediate(2));
    prog.code.push(Op::PushImmediate(2)); // pop two further values
    prog.code.push(Op::Pop(PopMode::Top));
    let mut vm = Vm::from_program(prog);
    vm.exec(None).unwrap();
    assert_eq!(vm.pop(), 7);
    assert_eq!(vm.stack.len(), 0);
}

#[test]
fn break_and_max_ops() {
    let mut prog = Program::new();
    prog.code.push(Op::PushImmediate(1));
    prog.code.push(Op::Break);
    prog.code.push(Op::PushImmediate(2));
    let mut vm = Vm::from_program(prog);
    assert_eq!(vm.exec(None).unwrap(), ExitReason::Break);
    assert_eq!(vm.pop(), 1);

    // An endless loop stops cleanly at the watchdog.
    let mut prog = Program::new();
    prog.code.push(Op::PushImmediate(-1));
    prog.code.push(Op::Jmp(Cond::Always));
    let mut vm = Vm::from_program(prog);
    vm.max_ops = Some(10);
    assert_eq!(vm.exec(None).unwrap(), ExitReason::MaxOps);
    assert_eq!(vm.num_ops, 11);
}

#[test]
fn vm_faults() {
    // Stack underflow.
    let mut prog = Program::new();
    prog.code.push(Op::Pop(PopMode::One));
    let mut vm = Vm::from_program(prog);
    let e = vm.exec(None).unwrap_err();
    assert_eq!(e.kind, VmFault::StackUnderflow);
    assert_eq!(e.ip, 0);
    assert_eq!(e.stack_depth, 0);

    // Constants-pool index out of range.
    let mut prog = Program::new();
    prog.code.push(Op::PushImmediate(3));
    prog.code.push(Op::PushConst);
    let mut vm = Vm::from_program(prog);
    assert_eq!(vm.exec(None).unwrap_err().kind, VmFault::ConstOutOfRange);

    // Division by zero.
    let mut prog = Program::new();
    prog.code.push(Op::PushImmediate(5));
    prog.code.push(Op::PushImmediate(0));
    prog.code.push(Op::Arith(ArithOp::Div));
    let mut vm = Vm::from_program(prog);
    assert_eq!(vm.exec(None).unwrap_err().kind, VmFault::DivisionByZero);

    // Signed overflow.
    let mut prog = Program::new();
    prog.data.push(i64::MAX);
    prog.code.push(Op::PushImmediate(0));
    prog.code.push(Op::PushConst);
    prog.code.push(Op::PushImmediate(1));
    prog.code.push(Op::Arith(ArithOp::Add));
    let mut vm = Vm::from_program(prog);
    assert_eq!(vm.exec(None).unwrap_err().kind, VmFault::Overflow);

    // A jump outside the code.
    let mut prog = Program::new();
    prog.code.push(Op::PushImmediate(100));
    prog.code.push(Op::Jmp(Cond::Always));
    let mut vm = Vm::from_program(prog);
    assert_eq!(vm.exec(None).unwrap_err().kind, VmFault::JmpOutOfCode);

    // Output on an unbound channel while bindings exist.
    let mut prog = Program::new();
    prog.code.push(Op::PushImmediate(1));
    prog.code.push(Op::Output(3));
    let (sender, _receiver) = channel();
    let mut io = IoChannels::new();
    io.channels.push(sender);
    let mut vm = Vm::from_program(prog);
    assert_eq!(vm.exec(Some(&io)).unwrap_err().kind, VmFault::ChannelUnbound);

    // A negative count for Pop(Top).
    let mut prog = Program::new();
    prog.code.push(Op::PushImmediate(-1));
    prog.code.push(Op::Pop(PopMode::Top));
    let mut vm = Vm::from_program(prog);
    assert_eq!(vm.exec(None).unwrap_err().kind, VmFault::NegativePopCount);

    // A send on a disconnected channel.
    let mut prog = Program::new();
    prog.code.push(Op::PushImmediate(1));
    prog.code.push(Op::Output(0));
    let (sender, receiver) = channel();
    drop(receiver);
    let mut io = IoChannels::new();
    io.channels.push(sender);
    let mut vm = Vm::from_program(prog);
    assert_eq!(vm.exec(Some(&io)).unwrap_err().kind, VmFault::SendFailed);
}

#[test]
fn outputs_trace() {
    // Without bindings Output discards, but the trace keeps every value.
    let mut prog = Program::new();
    prog.code.push(Op::PushImmediate(41));
    prog.code.push(Op::Output(0));
    prog.code.push(Op::PushImmediate(42));
    prog.code.push(Op::Output(1));
    let mut vm = Vm::from_program(prog);
    vm.exec(None).unwrap();
    assert_eq!(vm.outputs, vec![(0u16, 41i64), (1u16, 42i64)]);
}
