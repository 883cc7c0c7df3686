//! Bytecode model and the stack virtual machine.
//!
//! The instruction set is uniform: every operand-consuming opcode
//! (`PushConst`, `PushStack`, `Jmp`, `Pop(Top)`, `Move`) takes its operands
//! from the stack. Only the two immediate pushes and `Output` carry an
//! inline operand.

use vstd::prelude::*;

verus! {

/// A 24-bit unsigned integer packed into three bytes, high byte first.
#[derive(Debug, Clone, Copy, PartialEq, Eq)]
pub struct Uint24 {
    pub b0: u8,
    pub b1: u8,
    pub b2: u8,
}

impl Uint24 {
    /// The numeric value: `b0` is the most significant byte.
    pub open spec fn spec_value(self) -> u32 {
        ((self.b0 as u32) << 16) | ((self.b1 as u32) << 8) | (self.b2 as u32)
    }

    /// The packing of the low 24 bits of `v`.
    pub open spec fn spec_from_u32(v: u32) -> Uint24 {
        Uint24 { b0: ((v >> 16) & 0xFF) as u8, b1: ((v >> 8) & 0xFF) as u8, b2: (v & 0xFF) as u8 }
    }

    pub fn value(self) -> (r: u32)
        ensures
            r == self.spec_value(),
    {
        ((self.b0 as u32) << 16) | ((self.b1 as u32) << 8) | (self.b2 as u32)
    }

    /// Packs the low 24 bits of `v`.
    pub fn pack(v: u32) -> (r: Uint24)
        ensures
            r == Uint24::spec_from_u32(v),
    {
        proof {
            assert(((v >> 16) & 0xFF) < 256 && ((v >> 8) & 0xFF) < 256 && (v & 0xFF)
                < 256) by (bit_vector);
        }
        Uint24 { b0: ((v >> 16) & 0xFF) as u8, b1: ((v >> 8) & 0xFF) as u8, b2: (v & 0xFF) as u8 }
    }
}

/// Packing the low 24 bits of a `u32` and reading the value back round-trips
/// modulo `2^24`; on values up to `0xFFFFFF` the round trip is exact.
pub proof fn lemma_uint24_round_trip(v: u32)
    ensures
        Uint24::spec_from_u32(v).spec_value() == v % 0x1000000,
        v <= 0xFFFFFF ==> Uint24::spec_from_u32(v).spec_value() == v,
{
    assert((((((v >> 16) & 0xFF) as u8) as u32) << 16) | (((((v >> 8) & 0xFF) as u8) as u32) << 8)
        | (((v & 0xFF) as u8) as u32) == v % 0x1000000) by (bit_vector);
    assert(v <= 0xFFFFFF ==> v % 0x1000000 == v) by (bit_vector);
}

impl From<u32> for Uint24 {
    fn from(v: u32) -> (r: Self) {
        Uint24::pack(v)
    }
}

impl vstd::std_specs::convert::FromSpecImpl<u32> for Uint24 {
    open spec fn obeys_from_spec() -> bool {
        true
    }

    open spec fn from_spec(v: u32) -> Uint24 {
        Uint24::spec_from_u32(v)
    }
}

impl From<Uint24> for u32 {
    fn from(v: Uint24) -> (r: Self) {
        v.value()
    }
}

impl vstd::std_specs::convert::FromSpecImpl<Uint24> for u32 {
    open spec fn obeys_from_spec() -> bool {
        true
    }

    open spec fn from_spec(v: Uint24) -> u32 {
        v.spec_value()
    }
}



/// The arithmetic, comparison and logical operators of the machine.
#[derive(Debug, Clone, Copy, PartialEq, Eq)]
pub enum ArithOp {
    Add,
    Sub,
    Mul,
    Div,
    Or,
    And,
    Equal,
    NotEqual,
    LessThan,
    LessEqual,
}

pub fn bool_to_i64(v: bool) -> (r: i64)
    ensures
        r == spec_bool_to_i64(v),
{
    if v {
        1
    } else {
        0
    }
}

pub open spec fn spec_bool_to_i64(v: bool) -> i64 {
    if v {
        1
    } else {
        0
    }
}

/// The value of `op(a, b)`, or `None` where the result is undefined: signed
/// overflow on `Add`/`Sub`/`Mul`/`Div`, or division by zero. Division
/// truncates towards zero, as the machine's integers are Rust's `i64`.
pub open spec fn arith_eval(op: ArithOp, a: i64, b: i64) -> Option<i64> {
    match op {
        ArithOp::Add => a.checked_add(b),
        ArithOp::Sub => a.checked_sub(b),
        ArithOp::Mul => a.checked_mul(b),
        ArithOp::Div => a.checked_div(b),
        ArithOp::Or => Some(spec_bool_to_i64(a != 0 || b != 0)),
        ArithOp::And => Some(spec_bool_to_i64(a != 0 && b != 0)),
        ArithOp::Equal => Some(spec_bool_to_i64(a == b)),
        ArithOp::NotEqual => Some(spec_bool_to_i64(a != b)),
        ArithOp::LessThan => Some(spec_bool_to_i64(a < b)),
        ArithOp::LessEqual => Some(spec_bool_to_i64(a <= b)),
    }
}

impl ArithOp {
    /// Total evaluation: `None` on division by zero or signed overflow.
    pub fn eval_checked(self, a: i64, b: i64) -> (r: Option<i64>)
        ensures
            r == arith_eval(self, a, b),
    {
        match self {
            ArithOp::Add => a.checked_add(b),
            ArithOp::Sub => a.checked_sub(b),
            ArithOp::Mul => a.checked_mul(b),
            ArithOp::Div => a.checked_div(b),
            ArithOp::Or => Some(bool_to_i64(a != 0 || b != 0)),
            ArithOp::And => Some(bool_to_i64(a != 0 && b != 0)),
            ArithOp::Equal => Some(bool_to_i64(a == b)),
            ArithOp::NotEqual => Some(bool_to_i64(a != b)),
            ArithOp::LessThan => Some(bool_to_i64(a < b)),
            ArithOp::LessEqual => Some(bool_to_i64(a <= b)),
        }
    }

    /// Evaluation on inputs where the result is defined.
    pub fn eval(&self, a: i64, b: i64) -> (r: i64)
        requires
            arith_eval(*self, a, b) is Some,
        ensures
            arith_eval(*self, a, b) == Some(r),
    {
        match self.eval_checked(a, b) {
            Some(v) => v,
            None => {
                proof {
                    assert(false);
                }
                0
            },
        }
    }
}

} // verus!

verus! {

/// How `Pop` selects what to remove: `One` removes the single top value;
/// `Top` pops a count and then that many further values.
#[derive(Debug, Clone, Copy, PartialEq, Eq)]
pub enum PopMode {
    One,
    Top,
}

/// Jump conditions. `Zero` and `NonZero` pop the tested value after the
/// displacement.
#[derive(Debug, Clone, Copy, PartialEq, Eq)]
pub enum Cond {
    Always,
    Zero,
    NonZero,
}

/// The opcode set. Every operand-consuming opcode takes its operands from
/// the stack; only the immediate pushes and `Output` carry inline data.
#[derive(Debug, Clone, Copy, PartialEq, Eq)]
pub enum Op {
    Noop,
    PushConst,
    PushStack,
    PushImmediate(i16),
    PushImmediate24(Uint24),
    Move,
    Arith(ArithOp),
    Jmp(Cond),
    Output(u16),
    Pop(PopMode),
    Break,
}

/// A self-contained bytecode program: the constants pool and the code.
#[derive(Debug)]
pub struct Program {
    pub data: Vec<i64>,
    pub code: Vec<Op>,
}

impl Program {
    pub fn new() -> (r: Self)
        ensures
            r.data@ == Seq::<i64>::empty(),
            r.code@ == Seq::<Op>::empty(),
    {
        Program { data: Vec::new(), code: Vec::new() }
    }
}

/// The runtime faults; each halts the machine.
#[derive(Debug, Clone, Copy, PartialEq, Eq)]
pub enum VmFault {
    StackUnderflow,
    ConstOutOfRange,
    DivisionByZero,
    Overflow,
    JmpOutOfCode,
    ChannelUnbound,
    NegativePopCount,
    SendFailed,
}

/// A fault together with the diagnostic state: the instruction pointer and
/// the stack depth at the faulting instruction.
#[derive(Debug, Clone, Copy)]
pub struct VmError {
    pub kind: VmFault,
    pub ip: usize,
    pub stack_depth: usize,
}

/// Why a run ended cleanly: the instruction pointer walked past the end of
/// the code, a `Break` was executed, or the operation budget was exhausted.
#[derive(Debug, Clone, Copy, PartialEq, Eq)]
pub enum ExitReason {
    EndOfCode,
    Break,
    MaxOps,
}

/// The mathematical machine state: the stack, the instruction pointer, and
/// the trace of values delivered by `Output`, each with its channel.
pub struct VmSnap {
    pub stack: Seq<i64>,
    pub ip: nat,
    pub outputs: Seq<(u16, i64)>,
}

/// The outcome of one instruction.
pub enum StepOut {
    Next(VmSnap),
    Halt(VmSnap),
    Fault(VmFault),
}

/// One instruction of the machine, as a function of the constants pool, the
/// code, the number of bound output channels (`None`: no bindings, `Output`
/// discards), and the state. `s.ip` must address an instruction.
pub open spec fn vm_step(data: Seq<i64>, code: Seq<Op>, nchan: Option<nat>, s: VmSnap) -> StepOut
    recommends
        s.ip < code.len(),
{
    let n = s.stack.len() as int;
    match code[s.ip as int] {
        Op::Noop => StepOut::Next(VmSnap { ip: s.ip + 1, ..s }),
        Op::PushConst => if n < 1 {
            StepOut::Fault(VmFault::StackUnderflow)
        } else {
            let i = s.stack[n - 1];
            if 0 <= i < data.len() {
                StepOut::Next(
                    VmSnap { stack: s.stack.drop_last().push(data[i as int]), ip: s.ip + 1, ..s },
                )
            } else {
                StepOut::Fault(VmFault::ConstOutOfRange)
            }
        },
        Op::PushStack => if n < 1 {
            StepOut::Fault(VmFault::StackUnderflow)
        } else {
            let offs = s.stack[n - 1];
            let st = s.stack.drop_last();
            if 0 <= offs < st.len() {
                StepOut::Next(
                    VmSnap {
                        stack: st.push(st[st.len() - 1 - offs]),
                        ip: s.ip + 1,
                        ..s
                    },
                )
            } else {
                StepOut::Fault(VmFault::StackUnderflow)
            }
        },
        Op::PushImmediate(v) => StepOut::Next(
            VmSnap { stack: s.stack.push(v as i64), ip: s.ip + 1, ..s },
        ),
        Op::PushImmediate24(v) => StepOut::Next(
            VmSnap { stack: s.stack.push(v.spec_value() as i64), ip: s.ip + 1, ..s },
        ),
        Op::Move => if n < 2 {
            StepOut::Fault(VmFault::StackUnderflow)
        } else {
            let offs = s.stack[n - 1];
            let v = s.stack[n - 2];
            let st = s.stack.take(n - 2);
            if 0 <= offs < st.len() {
                StepOut::Next(
                    VmSnap { stack: st.update(st.len() - 1 - offs, v), ip: s.ip + 1, ..s },
                )
            } else {
                StepOut::Fault(VmFault::StackUnderflow)
            }
        },
        Op::Arith(op) => if n < 2 {
            StepOut::Fault(VmFault::StackUnderflow)
        } else {
            let b = s.stack[n - 1];
            let a = s.stack[n - 2];
            match arith_eval(op, a, b) {
                Some(v) => StepOut::Next(
                    VmSnap { stack: s.stack.take(n - 2).push(v), ip: s.ip + 1, ..s },
                ),
                None => StepOut::Fault(
                    if (op is Div) && b == 0 {
                        VmFault::DivisionByZero
                    } else {
                        VmFault::Overflow
                    },
                ),
            }
        },
        Op::Jmp(cond) => {
            let needed: int = if cond is Always {
                1
            } else {
                2
            };
            if n < needed {
                StepOut::Fault(VmFault::StackUnderflow)
            } else {
                let d = s.stack[n - 1];
                let taken = match cond {
                    Cond::Always => true,
                    Cond::Zero => s.stack[n - 2] == 0,
                    Cond::NonZero => s.stack[n - 2] != 0,
                };
                let st = s.stack.take(n - needed);
                if taken {
                    let t = s.ip + d;
                    if 0 <= t < code.len() {
                        StepOut::Next(VmSnap { stack: st, ip: t as nat, ..s })
                    } else {
                        StepOut::Fault(VmFault::JmpOutOfCode)
                    }
                } else {
                    StepOut::Next(VmSnap { stack: st, ip: s.ip + 1, ..s })
                }
            }
        },
        Op::Output(ch) => if n < 1 {
            StepOut::Fault(VmFault::StackUnderflow)
        } else if (match nchan {
            Some(k) => ch >= k,
            None => false,
        }) {
            StepOut::Fault(VmFault::ChannelUnbound)
        } else {
            StepOut::Next(
                VmSnap {
                    stack: s.stack.drop_last(),
                    ip: s.ip + 1,
                    outputs: s.outputs.push((ch, s.stack[n - 1])),
                },
            )
        },
        Op::Pop(PopMode::One) => if n < 1 {
            StepOut::Fault(VmFault::StackUnderflow)
        } else {
            StepOut::Next(VmSnap { stack: s.stack.drop_last(), ip: s.ip + 1, ..s })
        },
        Op::Pop(PopMode::Top) => if n < 1 {
            StepOut::Fault(VmFault::StackUnderflow)
        } else {
            let cnt = s.stack[n - 1];
            if cnt < 0 {
                StepOut::Fault(VmFault::NegativePopCount)
            } else if cnt > n - 1 {
                StepOut::Fault(VmFault::StackUnderflow)
            } else {
                StepOut::Next(VmSnap { stack: s.stack.take(n - 1 - cnt), ip: s.ip + 1, ..s })
            }
        },
        Op::Break => StepOut::Halt(s),
    }
}

/// The outcome of running for at most `fuel` instructions.
pub enum RunOut {
    /// Fuel ran out with the machine still at an instruction.
    Running(VmSnap),
    /// The instruction pointer walked past the end of the code.
    End(VmSnap),
    /// A `Break` was executed; the state is at the `Break`.
    Stopped(VmSnap),
    /// A fault; the state is at the faulting instruction.
    Faulted(VmSnap, VmFault),
}

/// Run the machine for at most `fuel` instructions from `s`.
pub open spec fn vm_run(
    data: Seq<i64>,
    code: Seq<Op>,
    nchan: Option<nat>,
    s: VmSnap,
    fuel: nat,
) -> RunOut
    decreases fuel,
{
    if s.ip >= code.len() {
        RunOut::End(s)
    } else if fuel == 0 {
        RunOut::Running(s)
    } else {
        match vm_step(data, code, nchan, s) {
            StepOut::Next(s2) => vm_run(data, code, nchan, s2, (fuel - 1) as nat),
            StepOut::Halt(s2) => RunOut::Stopped(s2),
            StepOut::Fault(k) => RunOut::Faulted(s, k),
        }
    }
}

/// Extending a run that still has the machine at an instruction by one
/// step gives the run that performs that step.
pub proof fn lemma_vm_run_extend(
    data: Seq<i64>,
    code: Seq<Op>,
    nchan: Option<nat>,
    init: VmSnap,
    n: nat,
    s: VmSnap,
)
    requires
        vm_run(data, code, nchan, init, n) == RunOut::Running(s),
    ensures
        s.ip < code.len(),
        vm_run(data, code, nchan, init, n + 1) == (match vm_step(data, code, nchan, s) {
            StepOut::Next(s2) => if s2.ip >= code.len() {
                RunOut::End(s2)
            } else {
                RunOut::Running(s2)
            },
            StepOut::Halt(s2) => RunOut::Stopped(s2),
            StepOut::Fault(k) => RunOut::Faulted(s, k),
        }),
    decreases n,
{
    if init.ip >= code.len() {
        assert(false);
    } else if n == 0 {
        reveal_with_fuel(vm_run, 2);
    } else {
        match vm_step(data, code, nchan, init) {
            StepOut::Next(s1) => {
                lemma_vm_run_extend(data, code, nchan, s1, (n - 1) as nat, s);
            },
            StepOut::Halt(_) => {
                assert(false);
            },
            StepOut::Fault(_) => {
                assert(false);
            },
        }
    }
}

} // verus!

verus! {

/// The set of output endpoints, indexed by channel number.
pub struct IoChannels {
    pub channels: Vec<std::sync::mpsc::Sender<i64>>,
}

#[verifier::external_type_specification]
#[verifier::external_body]
#[verifier::reject_recursive_types(T)]
pub struct ExSender<T>(std::sync::mpsc::Sender<T>);

/// Relies on std's `std::sync::mpsc::Sender::send`: delivers `v` to the
/// paired receiver and reports whether that receiver was still connected.
/// Nothing is claimed of the result: delivery depends on the embedding.
#[verifier::external_body]
fn send_i64(ch: &std::sync::mpsc::Sender<i64>, v: i64) -> (r: bool) {
    ch.send(v).is_ok()
}

impl IoChannels {
    pub fn new() -> (r: Self)
        ensures
            r.channels@.len() == 0,
    {
        IoChannels { channels: Vec::new() }
    }
}

/// The number of bound output channels, `None` when the machine runs
/// without output bindings.
pub open spec fn io_nchan(io: Option<&IoChannels>) -> Option<nat> {
    match io {
        Some(c) => Some(c.channels@.len()),
        None => None,
    }
}

/// The virtual machine: a program, a LIFO integer stack, the instruction
/// pointer, an operation counter and an optional operation budget. The
/// `outputs` field is the trace of every value emitted by `Output`, in
/// program order, kept whether or not an endpoint is bound.
pub struct Vm {
    pub data: Vec<i64>,
    pub stack: Vec<i64>,
    pub code: Vec<Op>,
    pub ip: usize,
    pub num_ops: usize,
    pub max_ops: Option<usize>,
    pub outputs: Vec<(u16, i64)>,
}

/// What one call of `Vm::micro_step` did.
enum StepKind {
    Ran,
    Stopped,
}

impl Vm {
    /// The mathematical state of the machine.
    pub open spec fn snap(self) -> VmSnap {
        VmSnap { stack: self.stack@, ip: self.ip as nat, outputs: self.outputs@ }
    }

    pub fn new() -> (r: Self)
        ensures
            r.data@.len() == 0,
            r.code@.len() == 0,
            r.stack@.len() == 0,
            r.outputs@.len() == 0,
            r.ip == 0,
            r.num_ops == 0,
            r.max_ops is None,
    {
        Vm {
            data: Vec::new(),
            stack: Vec::new(),
            code: Vec::new(),
            ip: 0,
            num_ops: 0,
            max_ops: None,
            outputs: Vec::new(),
        }
    }

    pub fn from_program(prog: Program) -> (r: Self)
        ensures
            r.data@ == prog.data@,
            r.code@ == prog.code@,
            r.stack@.len() == 0,
            r.outputs@.len() == 0,
            r.ip == 0,
            r.num_ops == 0,
            r.max_ops is None,
    {
        Vm {
            data: prog.data,
            stack: Vec::new(),
            code: prog.code,
            ip: 0,
            num_ops: 0,
            max_ops: None,
            outputs: Vec::new(),
        }
    }

    pub fn push(&mut self, v: i64)
        ensures
            final(self).stack@ == old(self).stack@.push(v),
            *final(self) == (Vm { stack: final(self).stack, ..*old(self) }),
    {
        self.stack.push(v);
    }

    pub fn pop(&mut self) -> (r: i64)
        requires
            old(self).stack@.len() > 0,
        ensures
            r == old(self).stack@.last(),
            final(self).stack@ == old(self).stack@.drop_last(),
            *final(self) == (Vm { stack: final(self).stack, ..*old(self) }),
    {
        let r = match self.stack.pop() {
            Some(v) => v,
            None => {
                proof {
                    assert(false);
                }
                0
            },
        };
        r
    }

    pub fn peek(&self) -> (r: i64)
        requires
            self.stack@.len() > 0,
        ensures
            r == self.stack@.last(),
    {
        self.stack[self.stack.len() - 1]
    }

    /// The value `offs` slots below the top, without removing it.
    pub fn peek_at(&self, offs: i64) -> (r: i64)
        requires
            0 <= offs < self.stack@.len(),
        ensures
            r == self.stack@[self.stack@.len() - 1 - offs],
    {
        self.stack[self.stack.len() - 1 - offs as usize]
    }

    /// The mutating peek: overwrites the slot `offs` below the top with `v`.
    pub fn peek_at_mut(&mut self, offs: i64, v: i64)
        requires
            0 <= offs < old(self).stack@.len(),
        ensures
            final(self).stack@ == old(self).stack@.update(
                old(self).stack@.len() - 1 - offs,
                v,
            ),
            *final(self) == (Vm { stack: final(self).stack, ..*old(self) }),
    {
        let i = self.stack.len() - 1 - offs as usize;
        self.stack[i] = v;
    }

    /// Fetches and performs the single instruction at `ip`: the executable
    /// form of `vm_step`. On a fault the machine is left as it was. A
    /// delivery failure on a bound channel reports `SendFailed` after the
    /// step has been applied.
    fn micro_step(&mut self, io: Option<&IoChannels>) -> (r: Result<StepKind, VmError>)
        requires
            old(self).ip < old(self).code@.len(),
        ensures
            final(self).data == old(self).data,
            final(self).code == old(self).code,
            final(self).max_ops == old(self).max_ops,
            final(self).num_ops == old(self).num_ops,
            ({
                let step = vm_step(old(self).data@, old(self).code@, io_nchan(io), old(self).snap());
                match r {
                    Ok(StepKind::Ran) => step == StepOut::Next(final(self).snap()),
                    Ok(StepKind::Stopped) => step == StepOut::Halt(final(self).snap())
                        && *final(self) == *old(self),
                    Err(e) => e.ip == old(self).ip && e.stack_depth == old(self).stack@.len() && (
                    if e.kind is SendFailed {
                        io is Some && step == StepOut::Next(final(self).snap())
                    } else {
                        step == StepOut::Fault(e.kind) && *final(self) == *old(self)
                    }),
                }
            }),
    {
        let ghost pre = self.snap();
        let ghost nchan = io_nchan(io);
        let depth = self.stack.len();
        let at = self.ip;
        let clen = self.code.len();
        match self.code[self.ip] {
            Op::Noop => {
                self.ip = self.ip + 1;
                Ok(StepKind::Ran)
            },
            Op::PushConst => {
                if depth < 1 {
                    return Err(
                        VmError { kind: VmFault::StackUnderflow, ip: at, stack_depth: depth },
                    );
                }
                let i = self.peek();
                if !(0 <= i && (i as u64) < self.data.len() as u64) {
                    return Err(
                        VmError { kind: VmFault::ConstOutOfRange, ip: at, stack_depth: depth },
                    );
                }
                let v = self.data[i as usize];
                let _ = self.pop();
                self.push(v);
                self.ip = self.ip + 1;
                Ok(StepKind::Ran)
            },
            Op::PushStack => {
                if depth < 1 {
                    return Err(
                        VmError { kind: VmFault::StackUnderflow, ip: at, stack_depth: depth },
                    );
                }
                let offs = self.peek();
                if !(0 <= offs && (offs as u64) < depth as u64 - 1) {
                    return Err(
                        VmError { kind: VmFault::StackUnderflow, ip: at, stack_depth: depth },
                    );
                }
                let _ = self.pop();
                let v = self.peek_at(offs);
                self.push(v);
                self.ip = self.ip + 1;
                Ok(StepKind::Ran)
            },
            Op::PushImmediate(v) => {
                self.push(v as i64);
                self.ip = self.ip + 1;
                Ok(StepKind::Ran)
            },
            Op::PushImmediate24(v) => {
                self.push(v.value() as i64);
                self.ip = self.ip + 1;
                Ok(StepKind::Ran)
            },
            Op::Move => {
                if depth < 2 {
                    return Err(
                        VmError { kind: VmFault::StackUnderflow, ip: at, stack_depth: depth },
                    );
                }
                let offs = self.peek_at(0);
                let v = self.peek_at(1);
                if !(0 <= offs && (offs as u64) < depth as u64 - 2) {
                    return Err(
                        VmError { kind: VmFault::StackUnderflow, ip: at, stack_depth: depth },
                    );
                }
                let _ = self.pop();
                let _ = self.pop();
                self.peek_at_mut(offs, v);
                self.ip = self.ip + 1;
                proof {
                    assert(self.stack@ =~= pre.stack.take(depth - 2).update(
                        pre.stack.take(depth - 2).len() - 1 - offs,
                        v,
                    ));
                }
                Ok(StepKind::Ran)
            },
            Op::Arith(op) => {
                if depth < 2 {
                    return Err(
                        VmError { kind: VmFault::StackUnderflow, ip: at, stack_depth: depth },
                    );
                }
                let b = self.peek_at(0);
                let a = self.peek_at(1);
                match op.eval_checked(a, b) {
                    Some(v) => {
                        let _ = self.pop();
                        let _ = self.pop();
                        self.push(v);
                        self.ip = self.ip + 1;
                        proof {
                            assert(self.stack@ =~= pre.stack.take(depth - 2).push(v));
                        }
                        Ok(StepKind::Ran)
                    },
                    None => {
                        let kind = if matches!(op, ArithOp::Div) && b == 0 {
                            VmFault::DivisionByZero
                        } else {
                            VmFault::Overflow
                        };
                        Err(VmError { kind, ip: at, stack_depth: depth })
                    },
                }
            },
            Op::Jmp(cond) => {
                let needed: usize = if matches!(cond, Cond::Always) {
                    1
                } else {
                    2
                };
                if depth < needed {
                    return Err(
                        VmError { kind: VmFault::StackUnderflow, ip: at, stack_depth: depth },
                    );
                }
                let d = self.peek_at(0);
                let taken = match cond {
                    Cond::Always => true,
                    Cond::Zero => self.peek_at(1) == 0,
                    Cond::NonZero => self.peek_at(1) != 0,
                };
                if taken {
                    let t: i128 = self.ip as i128 + d as i128;
                    if !(0 <= t && t < self.code.len() as i128) {
                        return Err(
                            VmError { kind: VmFault::JmpOutOfCode, ip: at, stack_depth: depth },
                        );
                    }
                    let _ = self.pop();
                    if needed == 2 {
                        let _ = self.pop();
                    }
                    self.ip = t as usize;
                    proof {
                        assert(self.stack@ =~= pre.stack.take(depth - needed));
                    }
                    Ok(StepKind::Ran)
                } else {
                    let _ = self.pop();
                    if needed == 2 {
                        let _ = self.pop();
                    }
                    self.ip = self.ip + 1;
                    proof {
                        assert(self.stack@ =~= pre.stack.take(depth - needed));
                    }
                    Ok(StepKind::Ran)
                }
            },
            Op::Output(ch) => {
                if depth < 1 {
                    return Err(
                        VmError { kind: VmFault::StackUnderflow, ip: at, stack_depth: depth },
                    );
                }
                if let Some(chans) = io {
                    if ch as usize >= chans.channels.len() {
                        return Err(
                            VmError { kind: VmFault::ChannelUnbound, ip: at, stack_depth: depth },
                        );
                    }
                }
                let v = self.pop();
                self.outputs.push((ch, v));
                self.ip = self.ip + 1;
                if let Some(chans) = io {
                    let delivered = send_i64(&chans.channels[ch as usize], v);
                    if !delivered {
                        return Err(
                            VmError { kind: VmFault::SendFailed, ip: at, stack_depth: depth },
                        );
                    }
                }
                Ok(StepKind::Ran)
            },
            Op::Pop(PopMode::One) => {
                if depth < 1 {
                    return Err(
                        VmError { kind: VmFault::StackUnderflow, ip: at, stack_depth: depth },
                    );
                }
                let _ = self.pop();
                self.ip = self.ip + 1;
                Ok(StepKind::Ran)
            },
            Op::Pop(PopMode::Top) => {
                if depth < 1 {
                    return Err(
                        VmError { kind: VmFault::StackUnderflow, ip: at, stack_depth: depth },
                    );
                }
                let cnt = self.peek();
                if cnt < 0 {
                    return Err(
                        VmError { kind: VmFault::NegativePopCount, ip: at, stack_depth: depth },
                    );
                }
                if !((cnt as u64) <= depth as u64 - 1) {
                    return Err(
                        VmError { kind: VmFault::StackUnderflow, ip: at, stack_depth: depth },
                    );
                }
                let keep = depth - 1 - cnt as usize;
                self.stack.truncate(keep);
                self.ip = self.ip + 1;
                proof {
                    assert(self.stack@ =~= pre.stack.take(depth - 1 - cnt));
                }
                Ok(StepKind::Ran)
            },
            Op::Break => Ok(StepKind::Stopped),
        }
    }
}

} // verus!

verus! {

/// `a` is an initial segment of `b`.
proof fn lemma_prefix_trans(a: Seq<(u16, i64)>, b: Seq<(u16, i64)>, c: Seq<(u16, i64)>)
    requires
        a.is_prefix_of(b),
        b.is_prefix_of(c),
    ensures
        a.is_prefix_of(c),
{
    assert(a =~= c.subrange(0, a.len() as int));
}

/// A step never removes anything from the output trace.
proof fn lemma_step_outputs_grow(data: Seq<i64>, code: Seq<Op>, nchan: Option<nat>, s: VmSnap)
    requires
        s.ip < code.len(),
    ensures
        match vm_step(data, code, nchan, s) {
            StepOut::Next(s2) => s.outputs.is_prefix_of(s2.outputs),
            StepOut::Halt(s2) => s.outputs.is_prefix_of(s2.outputs),
            StepOut::Fault(_) => true,
        },
{
    let so = s.outputs;
    assert(so.is_prefix_of(so)) by {
        assert(so =~= so.subrange(0, so.len() as int));
    }
    match vm_step(data, code, nchan, s) {
        StepOut::Next(s2) => {
            assert(so.is_prefix_of(s2.outputs)) by {
                if s2.outputs != so {
                    assert(s2.outputs == so.push((s2.outputs.last().0, s2.outputs.last().1)) || so
                        =~= s2.outputs.subrange(0, so.len() as int));
                    assert(so =~= s2.outputs.subrange(0, so.len() as int));
                }
            }
        },
        _ => {},
    }
}

/// What `Vm::exec` guarantees: the machine moved from `pre` to `post` by
/// the small-step semantics, and the result says how the run ended.
pub open spec fn exec_post(
    pre: Vm,
    post: Vm,
    nchan: Option<nat>,
    io_some: bool,
    r: Result<ExitReason, VmError>,
) -> bool {
    let data = pre.data@;
    let code = pre.code@;
    let init = pre.snap();
    match r {
        Ok(ExitReason::EndOfCode) => exists |n: nat|
            vm_run(data, code, nchan, init, n) == RunOut::End(post.snap()) && post.num_ops
                == pre.num_ops + n,
        Ok(ExitReason::Break) => exists |n: nat|
            vm_run(data, code, nchan, init, n) == RunOut::Stopped(post.snap()) && post.num_ops
                == pre.num_ops + n,
        Ok(ExitReason::MaxOps) => exists |n: nat|
            vm_run(data, code, nchan, init, n) == RunOut::Running(post.snap()) && ((post.num_ops
                == pre.num_ops + n + 1 && pre.max_ops is Some && post.num_ops
                > pre.max_ops->Some_0) || (post.num_ops == usize::MAX && post.num_ops == pre.num_ops
                + n)),
        Err(e) => if e.kind is SendFailed {
            io_some && exists |n: nat|
                (vm_run(data, code, nchan, init, n) == RunOut::Running(post.snap()) || vm_run(
                    data,
                    code,
                    nchan,
                    init,
                    n,
                ) == RunOut::End(post.snap())) && post.num_ops == pre.num_ops + n
        } else {
            e.ip == post.ip && e.stack_depth == post.stack@.len() && exists |n: nat|
                vm_run(data, code, nchan, init, n) == RunOut::Faulted(post.snap(), e.kind)
                    && post.num_ops == pre.num_ops + n
        },
    }
}

impl Vm {
    /// Runs the program until the instruction pointer leaves the code, a
    /// `Break` executes, the operation budget `max_ops` is exhausted, or a
    /// fault halts the machine. Each `Output` value is appended to the
    /// `outputs` trace and, when `io` is bound, delivered on its channel.
    #[verifier::loop_isolation(false)]
    pub fn exec(&mut self, io: Option<&IoChannels>) -> (r: Result<ExitReason, VmError>)
        ensures
            final(self).data == old(self).data,
            final(self).code == old(self).code,
            final(self).max_ops == old(self).max_ops,
            old(self).outputs@.is_prefix_of(final(self).outputs@),
            exec_post(*old(self), *final(self), io_nchan(io), io is Some, r),
    {
        let ghost pre = *old(self);
        let ghost init = self.snap();
        let ghost nchan = io_nchan(io);
        let ghost mut steps: nat = 0nat;
        proof {
            assert(init.outputs.is_prefix_of(init.outputs)) by {
                assert(init.outputs =~= init.outputs.subrange(0, init.outputs.len() as int));
            }
        }
        loop
            invariant
                self.data == pre.data,
                self.code == pre.code,
                self.max_ops == pre.max_ops,
                pre.outputs@.is_prefix_of(self.outputs@),
                self.num_ops == pre.num_ops + steps,
                vm_run(pre.data@, pre.code@, nchan, init, steps) == (if self.ip
                    >= pre.code@.len() {
                    RunOut::End(self.snap())
                } else {
                    RunOut::Running(self.snap())
                }),
            decreases usize::MAX - self.num_ops,
        {
            if self.ip >= self.code.len() {
                return Ok(ExitReason::EndOfCode);
            }
            if self.num_ops == usize::MAX {
                return Ok(ExitReason::MaxOps);
            }
            self.num_ops = self.num_ops + 1;
            let stop = match self.max_ops {
                Some(m) => self.num_ops > m,
                None => false,
            };
            if stop {
                return Ok(ExitReason::MaxOps);
            }
            let ghost before = *self;
            let res = self.micro_step(io);
            proof {
                lemma_vm_run_extend(pre.data@, pre.code@, nchan, init, steps, before.snap());
                lemma_step_outputs_grow(pre.data@, pre.code@, nchan, before.snap());
                steps = steps + 1;
            }
            match res {
                Ok(StepKind::Ran) => {
                    proof {
                        lemma_prefix_trans(pre.outputs@, before.outputs@, self.outputs@);
                    }
                },
                Ok(StepKind::Stopped) => {
                    return Ok(ExitReason::Break);
                },
                Err(e) => {
                    proof {
                        if e.kind is SendFailed {
                            lemma_prefix_trans(pre.outputs@, before.outputs@, self.outputs@);
                            assert(vm_run(pre.data@, pre.code@, nchan, init, steps)
                                == RunOut::Running(self.snap()) || vm_run(
                                pre.data@,
                                pre.code@,
                                nchan,
                                init,
                                steps,
                            ) == RunOut::End(self.snap()));
                        } else {
                            assert(vm_run(pre.data@, pre.code@, nchan, init, steps)
                                == RunOut::Faulted(self.snap(), e.kind));
                        }
                    }
                    return Err(e);
                },
            }
        }
    }
}

} // verus!

verus! {

/// An immediate displacement followed by a taken `Jmp` moves the machine
/// exactly to `ip + 1 + d`: the instruction after the pushed displacement,
/// plus the displacement.
pub proof fn lemma_pushed_jump_taken(
    data: Seq<i64>,
    code: Seq<Op>,
    nchan: Option<nat>,
    s: VmSnap,
    d: i16,
    cond: Cond,
)
    requires
        s.ip + 1 < code.len(),
        code[s.ip as int] == Op::PushImmediate(d),
        code[s.ip as int + 1] == Op::Jmp(cond),
        match cond {
            Cond::Always => true,
            Cond::Zero => s.stack.len() > 0 && s.stack.last() == 0,
            Cond::NonZero => s.stack.len() > 0 && s.stack.last() != 0,
        },
        0 <= s.ip + 1 + d < code.len(),
    ensures
        vm_step(data, code, nchan, s) matches StepOut::Next(s1) && vm_step(
            data,
            code,
            nchan,
            s1,
        ) matches StepOut::Next(s2) && s2.ip == s.ip + 1 + d && s2.outputs == s.outputs
            && s2.stack == (if cond is Always {
            s.stack
        } else {
            s.stack.drop_last()
        }),
{
    let s1 = VmSnap { stack: s.stack.push(d as i64), ip: s.ip + 1, ..s };
    assert(vm_step(data, code, nchan, s) == StepOut::Next(s1));
    let n1 = s1.stack.len() as int;
    assert(s1.stack[n1 - 1] == d as i64);
    match cond {
        Cond::Always => {
            assert(s1.stack.take(n1 - 1) =~= s.stack);
        },
        Cond::Zero => {
            assert(s1.stack[n1 - 2] == s.stack.last());
            assert(s1.stack.take(n1 - 2) =~= s.stack.drop_last());
        },
        Cond::NonZero => {
            assert(s1.stack[n1 - 2] == s.stack.last());
            assert(s1.stack.take(n1 - 2) =~= s.stack.drop_last());
        },
    }
}

} // verus!

verus! {

/// Arithmetic operand order: with `a` below `b` on the stack, `Arith(op)`
/// pops both and pushes `op(a, b)` — `a` is the left operand, which is
/// what makes subtraction, division and the comparisons come out right.
pub proof fn lemma_arith_operand_order(
    data: Seq<i64>,
    code: Seq<Op>,
    nchan: Option<nat>,
    s: VmSnap,
    op: ArithOp,
)
    requires
        s.ip < code.len(),
        code[s.ip as int] == Op::Arith(op),
        s.stack.len() >= 2,
        arith_eval(op, s.stack[s.stack.len() - 2], s.stack.last()) is Some,
    ensures
        vm_step(data, code, nchan, s) == StepOut::Next(
            VmSnap {
                stack: s.stack.take(s.stack.len() - 2).push(
                    arith_eval(op, s.stack[s.stack.len() - 2], s.stack.last())->Some_0,
                ),
                ip: s.ip + 1,
                outputs: s.outputs,
            },
        ),
{
}

} // verus!
