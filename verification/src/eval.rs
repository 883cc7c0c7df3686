//! A tree-walking reference evaluator for L1 statements: bindings live in
//! an environment keyed by handle, `print` appends to an output list, and
//! loops draw from a fuel budget so that every run ends.

use crate::ast::{Expr, Ident, Opcode, Stmt};
use vstd::prelude::*;

verus! {

/// The failures that stop evaluation.
#[derive(Debug, Clone, Copy, PartialEq, Eq, Structural)]
pub enum EvalError {
    /// An identifier with no binding in the environment.
    UnboundIdent(Ident),
    DivisionByZero,
    /// Signed overflow in an arithmetic operator.
    Overflow,
    /// The loop budget ran out.
    FuelExhausted,
    /// A statement or expression form the evaluator does not implement:
    /// assignment, calls and `return`.
    NotImplemented,
}

/// The evaluator's whole state: the environment (later entries shadow
/// earlier ones), the values printed so far, and the remaining loop budget.
#[verifier::ext_equal]
pub struct EvState {
    pub env: Seq<(Ident, i64)>,
    pub outputs: Seq<i64>,
    pub fuel: nat,
}

/// The value bound to `h`; the latest binding wins.
pub open spec fn env_lookup(env: Seq<(Ident, i64)>, h: Ident) -> Option<i64>
    decreases env.len(),
{
    if env.len() == 0 {
        None
    } else if env.last().0 == h {
        Some(env.last().1)
    } else {
        env_lookup(env.drop_last(), h)
    }
}

/// A strict binary operator on two evaluated operands. `Or` and `And` are
/// not here: they short-circuit in `eval_expr`.
pub open spec fn eval_op(op: Opcode, a: i64, b: i64) -> Result<i64, EvalError> {
    match op {
        Opcode::Add => match a.checked_add(b) {
            Some(v) => Ok(v),
            None => Err(EvalError::Overflow),
        },
        Opcode::Sub => match a.checked_sub(b) {
            Some(v) => Ok(v),
            None => Err(EvalError::Overflow),
        },
        Opcode::Mul => match a.checked_mul(b) {
            Some(v) => Ok(v),
            None => Err(EvalError::Overflow),
        },
        Opcode::Div => if b == 0 {
            Err(EvalError::DivisionByZero)
        } else {
            match a.checked_div(b) {
                Some(v) => Ok(v),
                None => Err(EvalError::Overflow),
            }
        },
        Opcode::Equal => Ok(if a == b { 1 } else { 0 }),
        Opcode::NotEqual => Ok(if a != b { 1 } else { 0 }),
        Opcode::LessThan => Ok(if a < b { 1 } else { 0 }),
        Opcode::LessEqual => Ok(if a <= b { 1 } else { 0 }),
        Opcode::GreaterThan => Ok(if a > b { 1 } else { 0 }),
        Opcode::GreaterEqual => Ok(if a >= b { 1 } else { 0 }),
        Opcode::Or => Ok(0),
        Opcode::And => Ok(0),
    }
}

/// The value of an expression under an environment. The logical operators
/// evaluate their right operand only when the left has not decided them;
/// the parse-error sentinel evaluates to the sentinel value 666.
pub open spec fn eval_expr(env: Seq<(Ident, i64)>, e: Expr) -> Result<i64, EvalError>
    decreases e,
{
    match e {
        Expr::Number(v) => Ok(v),
        Expr::EnvLoad(h) => match env_lookup(env, h) {
            Some(v) => Ok(v),
            None => Err(EvalError::UnboundIdent(h)),
        },
        Expr::Op(a, op, b) => match op {
            Opcode::Or => match eval_expr(env, *a) {
                Err(er) => Err(er),
                Ok(va) => if va != 0 {
                    Ok(1)
                } else {
                    match eval_expr(env, *b) {
                        Err(er) => Err(er),
                        Ok(vb) => Ok(
                            if vb != 0 {
                                1
                            } else {
                                0
                            },
                        ),
                    }
                },
            },
            Opcode::And => match eval_expr(env, *a) {
                Err(er) => Err(er),
                Ok(va) => if va == 0 {
                    Ok(0)
                } else {
                    match eval_expr(env, *b) {
                        Err(er) => Err(er),
                        Ok(vb) => Ok(
                            if vb != 0 {
                                1
                            } else {
                                0
                            },
                        ),
                    }
                },
            },
            _ => match eval_expr(env, *a) {
                Err(er) => Err(er),
                Ok(va) => match eval_expr(env, *b) {
                    Err(er) => Err(er),
                    Ok(vb) => eval_op(op, va, vb),
                },
            },
        },
        Expr::Call(_, _) => Err(EvalError::NotImplemented),
        Expr::Error => Ok(666),
    }
}

/// The state with its fuel clamped to `f`.
pub open spec fn fuel_cap(st: EvState, f: nat) -> EvState {
    if st.fuel <= f {
        st
    } else {
        EvState { fuel: f, ..st }
    }
}

/// What executing a statement does to the state. Each loop iteration
/// consumes one unit of fuel.
pub open spec fn m_exec_stmt(s: Stmt, st: EvState) -> Result<EvState, EvalError>
    decreases st.fuel, s,
{
    match s {
        Stmt::LetBinding(h, e, _mutable) => match eval_expr(st.env, e) {
            Err(er) => Err(er),
            Ok(v) => Ok(EvState { env: st.env.push((h, v)), ..st }),
        },
        Stmt::Print(es) => m_exec_print(es@, st),
        Stmt::IfElse(c, then_s, else_opt) => match eval_expr(st.env, c) {
            Err(er) => Err(er),
            Ok(v) => if v != 0 {
                m_exec_stmt(*then_s, st)
            } else {
                match else_opt {
                    Some(else_s) => m_exec_stmt(*else_s, st),
                    None => Ok(st),
                }
            },
        },
        Stmt::While(c, body) => match eval_expr(st.env, c) {
            Err(er) => Err(er),
            Ok(v) => if v == 0 {
                Ok(st)
            } else if st.fuel == 0 {
                Err(EvalError::FuelExhausted)
            } else {
                match m_exec_stmt(*body, EvState { fuel: (st.fuel - 1) as nat, ..st }) {
                    Err(er) => Err(er),
                    Ok(st2) => m_exec_stmt(s, fuel_cap(st2, (st.fuel - 1) as nat)),
                }
            },
        },
        Stmt::Block(ss, _cleanup) => m_exec_stmts(ss@, st),
        Stmt::Assign(_, _, _) => Err(EvalError::NotImplemented),
        Stmt::Call(_) => Err(EvalError::NotImplemented),
        Stmt::Return(_) => Err(EvalError::NotImplemented),
    }
}

/// Executing each statement in order.
pub open spec fn m_exec_stmts(ss: Seq<Stmt>, st: EvState) -> Result<EvState, EvalError>
    decreases st.fuel, ss,
{
    if ss.len() == 0 {
        Ok(st)
    } else {
        match m_exec_stmt(ss[0], st) {
            Err(er) => Err(er),
            Ok(st1) => m_exec_stmts(ss.drop_first(), fuel_cap(st1, st.fuel)),
        }
    }
}

/// Evaluating and printing each expression in order.
pub open spec fn m_exec_print(es: Seq<Expr>, st: EvState) -> Result<EvState, EvalError>
    decreases es,
{
    if es.len() == 0 {
        Ok(st)
    } else {
        match eval_expr(st.env, es[0]) {
            Err(er) => Err(er),
            Ok(v) => m_exec_print(es.drop_first(), EvState { outputs: st.outputs.push(v), ..st }),
        }
    }
}

/// The reference evaluator.
pub struct Evaluator {
    pub env: Vec<(Ident, i64)>,
    pub outputs: Vec<i64>,
    pub fuel: usize,
}

impl Evaluator {
    /// The evaluator's whole mathematical state.
    pub open spec fn state(self) -> EvState {
        EvState { env: self.env@, outputs: self.outputs@, fuel: self.fuel as nat }
    }

    pub fn new() -> (r: Self)
        ensures
            r.state() == (EvState {
                env: Seq::<(Ident, i64)>::empty(),
                outputs: Seq::<i64>::empty(),
                fuel: usize::MAX as nat,
            }),
    {
        let r = Evaluator { env: Vec::new(), outputs: Vec::new(), fuel: usize::MAX };
        proof {
            assert(r.state() =~~= (EvState {
                env: Seq::<(Ident, i64)>::empty(),
                outputs: Seq::<i64>::empty(),
                fuel: usize::MAX as nat,
            }));
        }
        r
    }

    /// The value of `e` in the current environment.
    #[verifier::loop_isolation(false)]
    fn eval(&self, e: &Expr) -> (r: Result<i64, EvalError>)
        ensures
            r == eval_expr(self.env@, *e),
        decreases *e,
    {
        match e {
            Expr::Number(v) => Ok(*v),
            Expr::EnvLoad(h) => {
                let n = self.env.len();
                let mut i: usize = n;
                proof {
                    assert(self.env@.take(n as int) =~= self.env@);
                }
                while i > 0
                    invariant
                        i <= n,
                        n == self.env@.len(),
                        env_lookup(self.env@, *h) == env_lookup(self.env@.take(i as int), *h),
                    decreases i,
                {
                    i = i - 1;
                    proof {
                        assert(self.env@.take(i as int + 1).drop_last() =~= self.env@.take(
                            i as int,
                        ));
                        assert(self.env@.take(i as int + 1).last() == self.env@[i as int]);
                    }
                    if self.env[i].0 == *h {
                        return Ok(self.env[i].1);
                    }
                }
                proof {
                    assert(self.env@.take(0) =~= Seq::<(Ident, i64)>::empty());
                }
                Err(EvalError::UnboundIdent(*h))
            },
            Expr::Op(a, op, b) => {
                match op {
                    Opcode::Or => {
                        let va = match self.eval(a) {
                            Ok(v) => v,
                            Err(er) => {
                                return Err(er);
                            },
                        };
                        if va != 0 {
                            return Ok(1);
                        }
                        match self.eval(b) {
                            Ok(vb) => Ok(
                                if vb != 0 {
                                    1
                                } else {
                                    0
                                },
                            ),
                            Err(er) => Err(er),
                        }
                    },
                    Opcode::And => {
                        let va = match self.eval(a) {
                            Ok(v) => v,
                            Err(er) => {
                                return Err(er);
                            },
                        };
                        if va == 0 {
                            return Ok(0);
                        }
                        match self.eval(b) {
                            Ok(vb) => Ok(
                                if vb != 0 {
                                    1
                                } else {
                                    0
                                },
                            ),
                            Err(er) => Err(er),
                        }
                    },
                    _ => {
                        let va = match self.eval(a) {
                            Ok(v) => v,
                            Err(er) => {
                                return Err(er);
                            },
                        };
                        let vb = match self.eval(b) {
                            Ok(v) => v,
                            Err(er) => {
                                return Err(er);
                            },
                        };
                        match op {
                            Opcode::Add => match va.checked_add(vb) {
                                Some(v) => Ok(v),
                                None => Err(EvalError::Overflow),
                            },
                            Opcode::Sub => match va.checked_sub(vb) {
                                Some(v) => Ok(v),
                                None => Err(EvalError::Overflow),
                            },
                            Opcode::Mul => match va.checked_mul(vb) {
                                Some(v) => Ok(v),
                                None => Err(EvalError::Overflow),
                            },
                            Opcode::Div => {
                                if vb == 0 {
                                    return Err(EvalError::DivisionByZero);
                                }
                                match va.checked_div(vb) {
                                    Some(v) => Ok(v),
                                    None => Err(EvalError::Overflow),
                                }
                            },
                            Opcode::Equal => Ok(
                                if va == vb {
                                    1
                                } else {
                                    0
                                },
                            ),
                            Opcode::NotEqual => Ok(
                                if va != vb {
                                    1
                                } else {
                                    0
                                },
                            ),
                            Opcode::LessThan => Ok(
                                if va < vb {
                                    1
                                } else {
                                    0
                                },
                            ),
                            Opcode::LessEqual => Ok(
                                if va <= vb {
                                    1
                                } else {
                                    0
                                },
                            ),
                            Opcode::GreaterThan => Ok(
                                if va > vb {
                                    1
                                } else {
                                    0
                                },
                            ),
                            Opcode::GreaterEqual => Ok(
                                if va >= vb {
                                    1
                                } else {
                                    0
                                },
                            ),
                            Opcode::Or => Ok(0),
                            Opcode::And => Ok(0),
                        }
                    },
                }
            },
            Expr::Call(_, _) => Err(EvalError::NotImplemented),
            Expr::Error => Ok(666),
        }
    }

    /// Executes one statement, extending the environment and the output
    /// list; fuel only ever decreases.
    #[verifier::loop_isolation(false)]
    #[verifier::rlimit(50)]
    pub fn execute(&mut self, stmt: &Stmt) -> (r: Result<(), EvalError>)
        ensures
            final(self).fuel <= old(self).fuel,
            match r {
                Ok(_) => m_exec_stmt(*stmt, old(self).state()) == Ok::<EvState, EvalError>(
                    final(self).state(),
                ),
                Err(er) => m_exec_stmt(*stmt, old(self).state()) == Err::<EvState, EvalError>(er),
            },
        decreases *stmt,
    {
        let ghost st0 = self.state();
        match stmt {
            Stmt::LetBinding(h, e, _mutable) => {
                let v = match self.eval(e) {
                    Ok(v) => v,
                    Err(er) => {
                        return Err(er);
                    },
                };
                self.env.push((*h, v));
                proof {
                    assert(self.state() =~~= (EvState { env: st0.env.push((*h, v)), ..st0 }));
                }
                Ok(())
            },
            Stmt::Print(es) => {
                let n = es.len();
                proof {
                    assert(es@.subrange(0, n as int) =~= es@);
                }
                let mut i: usize = 0;
                while i < n
                    invariant
                        i <= n,
                        n == es@.len(),
                        self.env == old(self).env,
                        self.fuel == old(self).fuel,
                        m_exec_print(es@.subrange(i as int, n as int), self.state())
                            == m_exec_print(es@, st0),
                    decreases n - i,
                {
                    let ghost st_i = self.state();
                    let ghost rest = es@.subrange(i as int, n as int);
                    let v = match self.eval(&es[i]) {
                        Ok(v) => v,
                        Err(er) => {
                            proof {
                                assert(m_exec_print(rest, st_i) == Err::<EvState, EvalError>(er));
                            }
                            return Err(er);
                        },
                    };
                    self.outputs.push(v);
                    i = i + 1;
                    proof {
                        assert(rest.drop_first() =~= es@.subrange(i as int, n as int));
                        assert(self.state() =~~= (EvState {
                            outputs: st_i.outputs.push(v),
                            ..st_i
                        }));
                    }
                }
                proof {
                    assert(es@.subrange(n as int, n as int) =~= Seq::<Expr>::empty());
                }
                Ok(())
            },
            Stmt::IfElse(c, then_s, else_opt) => {
                let v = match self.eval(c) {
                    Ok(v) => v,
                    Err(er) => {
                        return Err(er);
                    },
                };
                if v != 0 {
                    self.execute(then_s)
                } else {
                    match else_opt {
                        Some(else_s) => self.execute(else_s),
                        None => Ok(()),
                    }
                }
            },
            Stmt::While(c, body) => {
                loop
                    invariant
                        self.fuel <= old(self).fuel,
                        m_exec_stmt(*stmt, st0) == m_exec_stmt(*stmt, self.state()),
                    decreases self.fuel,
                {
                    let ghost st_i = self.state();
                    let v = match self.eval(c) {
                        Ok(v) => v,
                        Err(er) => {
                            return Err(er);
                        },
                    };
                    if v == 0 {
                        return Ok(());
                    }
                    if self.fuel == 0 {
                        return Err(EvalError::FuelExhausted);
                    }
                    self.fuel = self.fuel - 1;
                    let ghost st_b = self.state();
                    proof {
                        assert(st_b =~~= (EvState { fuel: (st_i.fuel - 1) as nat, ..st_i }));
                    }
                    match self.execute(body) {
                        Ok(_) => {},
                        Err(er) => {
                            return Err(er);
                        },
                    }
                    proof {
                        assert(fuel_cap(self.state(), (st_i.fuel - 1) as nat) =~~= self.state());
                    }
                }
            },
            Stmt::Block(ss, _cleanup) => {
                let n = ss.len();
                proof {
                    assert(ss@.subrange(0, n as int) =~= ss@);
                }
                let mut i: usize = 0;
                while i < n
                    invariant
                        i <= n,
                        n == ss@.len(),
                        self.fuel <= old(self).fuel,
                        m_exec_stmts(ss@.subrange(i as int, n as int), self.state())
                            == m_exec_stmts(ss@, st0),
                    decreases n - i,
                {
                    let ghost st_i = self.state();
                    let ghost rest = ss@.subrange(i as int, n as int);
                    match self.execute(&ss[i]) {
                        Ok(_) => {},
                        Err(er) => {
                            proof {
                                assert(m_exec_stmts(rest, st_i) == Err::<EvState, EvalError>(er));
                            }
                            return Err(er);
                        },
                    }
                    i = i + 1;
                    proof {
                        assert(rest.drop_first() =~= ss@.subrange(i as int, n as int));
                        assert(fuel_cap(self.state(), st_i.fuel) =~~= self.state());
                    }
                }
                proof {
                    assert(ss@.subrange(n as int, n as int) =~= Seq::<Stmt>::empty());
                }
                Ok(())
            },
            Stmt::Assign(_, _, _) => Err(EvalError::NotImplemented),
            Stmt::Call(_) => Err(EvalError::NotImplemented),
            Stmt::Return(_) => Err(EvalError::NotImplemented),
        }
    }
}

} // verus!
