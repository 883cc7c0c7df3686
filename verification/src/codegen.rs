//! The code generator: a single-pass walk over the L1 tree that emits
//! textual assembly while maintaining a compile-time model of the runtime
//! stack — a scope stack of frames, each with its binding table and depth
//! counters. Variable references compile to pushes from a stack offset;
//! block exits pop exactly the transients the block created.

use crate::assembly::Stmt as AsmStmt;
use crate::ast::{Expr, Ident, Interner, Opcode, Stmt};
use vstd::prelude::*;

verus! {

/// The mathematical content of one scope frame: the bindings (a handle and
/// the absolute stack position it names, later entries shadowing earlier),
/// the modeled stack depth, and the high-water mark of bound positions.
#[verifier::ext_equal]
pub struct FrameModel {
    pub bindings: Seq<(Ident, nat)>,
    pub stack_top: nat,
    pub bindings_top: nat,
}

/// One lexical scope at compile time.
pub struct StackFrame {
    pub bindings: Vec<(Ident, usize)>,
    pub stack_top: usize,
    pub bindings_top: usize,
}

impl View for StackFrame {
    type V = FrameModel;

    open spec fn view(&self) -> FrameModel {
        FrameModel {
            bindings: self.bindings@.map_values(|b: (Ident, usize)| (b.0, b.1 as nat)),
            stack_top: self.stack_top as nat,
            bindings_top: self.bindings_top as nat,
        }
    }
}

/// A frame is well formed when its bound positions sit at or below its
/// high-water mark, the mark at or below its depth — strictly below as
/// soon as the frame has a binding.
pub open spec fn frame_wf(f: FrameModel) -> bool {
    &&& f.bindings_top <= f.stack_top
    &&& forall|k: int| 0 <= k < f.bindings.len() ==> (#[trigger] f.bindings[k]).1 <= f.bindings_top
    &&& f.bindings.len() > 0 ==> f.bindings_top < f.stack_top
}

/// The scope stack is well formed when every frame is, and each frame sits
/// entirely above the depth of the frame it encloses.
pub open spec fn frames_wf(fs: Seq<FrameModel>) -> bool {
    &&& fs.len() >= 1
    &&& forall|i: int| 0 <= i < fs.len() ==> frame_wf(#[trigger] fs[i])
    &&& forall|i: int|
        1 <= i < fs.len() ==> (#[trigger] fs[i]).bindings_top >= fs[i - 1].stack_top && fs[
            i
        ].stack_top >= fs[i - 1].stack_top
}

/// The modeled depth of the runtime stack.
pub open spec fn cur_top(fs: Seq<FrameModel>) -> nat {
    fs.last().stack_top
}

/// The position bound to `h` in one frame; the latest binding wins.
pub open spec fn frame_lookup(b: Seq<(Ident, nat)>, h: Ident) -> Option<nat>
    decreases b.len(),
{
    if b.len() == 0 {
        None
    } else if b.last().0 == h {
        Some(b.last().1)
    } else {
        frame_lookup(b.drop_last(), h)
    }
}

/// The position bound to `h`, searching frames innermost first.
pub open spec fn resolve_frames(fs: Seq<FrameModel>, h: Ident) -> Option<nat>
    decreases fs.len(),
{
    if fs.len() == 0 {
        None
    } else {
        match frame_lookup(fs.last().bindings, h) {
            Some(p) => Some(p),
            None => resolve_frames(fs.drop_last(), h),
        }
    }
}

/// In a well-formed scope stack every bound position lies strictly below
/// the modeled depth, so a resolved offset is well defined.
pub proof fn lemma_resolve_below_top(fs: Seq<FrameModel>, h: Ident)
    requires
        frames_wf(fs),
        resolve_frames(fs, h) is Some,
    ensures
        resolve_frames(fs, h)->Some_0 < cur_top(fs),
    decreases fs.len(),
{
    let last = fs.last();
    match frame_lookup(last.bindings, h) {
        Some(p) => {
            lemma_frame_lookup_bound(last.bindings, h);
            assert(last.bindings.len() > 0);
        },
        None => {
            lemma_resolve_below_top(fs.drop_last(), h);
            assert(fs.drop_last().last() == fs[fs.len() - 2]);
        },
    }
}

/// A found position is one of the frame's bound positions.
proof fn lemma_frame_lookup_bound(b: Seq<(Ident, nat)>, h: Ident)
    requires
        frame_lookup(b, h) is Some,
    ensures
        b.len() > 0,
        exists|k: int| 0 <= k < b.len() && (#[trigger] b[k]).1 == frame_lookup(b, h)->Some_0,
    decreases b.len(),
{
    if b.last().0 == h {
        assert(b[b.len() - 1].1 == frame_lookup(b, h)->Some_0);
    } else {
        lemma_frame_lookup_bound(b.drop_last(), h);
        let k = choose|k: int|
            0 <= k < b.drop_last().len() && (#[trigger] b.drop_last()[k]).1 == frame_lookup(
                b.drop_last(),
                h,
            )->Some_0;
        assert(b[k].1 == frame_lookup(b, h)->Some_0);
    }
}

/// The code generator's model of the runtime stack.
pub struct ScopeStack {
    pub frames: Vec<StackFrame>,
}

impl ScopeStack {
    pub open spec fn view(&self) -> Seq<FrameModel> {
        self.frames@.map_values(|f: StackFrame| f@)
    }

    pub open spec fn wf(&self) -> bool {
        frames_wf(self@)
    }

    /// One empty frame at depth zero.
    pub fn new() -> (r: Self)
        ensures
            r.wf(),
            r@.len() == 1,
            r@ == seq![
                FrameModel { bindings: Seq::empty(), stack_top: 0 as nat, bindings_top: 0 as nat },
            ],
    {
        let mut frames: Vec<StackFrame> = Vec::new();
        frames.push(StackFrame { bindings: Vec::new(), stack_top: 0, bindings_top: 0 });
        let r = ScopeStack { frames };
        proof {
            assert(r@ =~~= seq![
                FrameModel { bindings: Seq::empty(), stack_top: 0 as nat, bindings_top: 0 as nat },
            ]);
            assert(r@[0].bindings =~= Seq::<(Ident, nat)>::empty());
        }
        r
    }

    /// Starts a new frame that inherits the current depth.
    pub fn push_frame(&mut self)
        requires
            old(self).wf(),
        ensures
            final(self).wf(),
            final(self)@ == old(self)@.push(
                FrameModel {
                    bindings: Seq::empty(),
                    stack_top: cur_top(old(self)@),
                    bindings_top: cur_top(old(self)@),
                },
            ),
    {
        let top = self.frames[self.frames.len() - 1].stack_top;
        self.frames.push(StackFrame { bindings: Vec::new(), stack_top: top, bindings_top: top });
        proof {
            assert(self@ =~~= old(self)@.push(
                FrameModel {
                    bindings: Seq::empty(),
                    stack_top: cur_top(old(self)@),
                    bindings_top: cur_top(old(self)@),
                },
            ));
            assert(self@.last().bindings =~= Seq::<(Ident, nat)>::empty());
        }
    }

    /// Ends the innermost frame; the result is how many stack slots it
    /// accumulated, the number the emitted cleanup must pop.
    pub fn pop_frame(&mut self) -> (r: usize)
        requires
            old(self).wf(),
            old(self)@.len() >= 2,
        ensures
            final(self).wf(),
            final(self)@ == old(self)@.drop_last(),
            r == cur_top(old(self)@) - cur_top(final(self)@),
    {
        let top = self.frames[self.frames.len() - 1].stack_top;
        let _ = self.frames.pop();
        let new_top = self.frames[self.frames.len() - 1].stack_top;
        proof {
            assert(self@ =~~= old(self)@.drop_last());
            assert(old(self)@[old(self)@.len() - 2] == final(self)@.last());
            assert(frame_wf(old(self)@[old(self)@.len() - 1]));
            assert(old(self)@[old(self)@.len() - 1].stack_top >= old(self)@[old(self)@.len()
                - 2].stack_top);
        }
        top - new_top
    }

    /// Binds `h` to the value now on top of the modeled stack.
    pub fn add_binding(&mut self, h: Ident)
        requires
            old(self).wf(),
            cur_top(old(self)@) > old(self)@.last().bindings_top,
        ensures
            final(self).wf(),
            final(self)@ == old(self)@.update(
                old(self)@.len() - 1,
                FrameModel {
                    bindings: old(self)@.last().bindings.push(
                        (h, (cur_top(old(self)@) - 1) as nat),
                    ),
                    stack_top: cur_top(old(self)@),
                    bindings_top: (cur_top(old(self)@) - 1) as nat,
                },
            ),
    {
        let last = self.frames.len() - 1;
        let top = self.frames[last].stack_top;
        let pos = top - 1;
        self.frames[last].bindings.push((h, pos));
        self.frames[last].bindings_top = pos;
        proof {
            assert(self@ =~~= old(self)@.update(
                old(self)@.len() - 1,
                FrameModel {
                    bindings: old(self)@.last().bindings.push(
                        (h, (cur_top(old(self)@) - 1) as nat),
                    ),
                    stack_top: cur_top(old(self)@),
                    bindings_top: (cur_top(old(self)@) - 1) as nat,
                },
            ));
            assert(self@.last().bindings =~= old(self)@.last().bindings.push(
                (h, (cur_top(old(self)@) - 1) as nat),
            ));
        }
    }

    /// The modeled stack grows by one slot.
    pub fn push_local(&mut self)
        requires
            old(self).wf(),
            cur_top(old(self)@) < usize::MAX,
        ensures
            final(self).wf(),
            final(self)@ == old(self)@.update(
                old(self)@.len() - 1,
                FrameModel { stack_top: cur_top(old(self)@) + 1, ..old(self)@.last() },
            ),
    {
        let last = self.frames.len() - 1;
        self.frames[last].stack_top = self.frames[last].stack_top + 1;
        proof {
            assert(self@ =~~= old(self)@.update(
                old(self)@.len() - 1,
                FrameModel { stack_top: cur_top(old(self)@) + 1, ..old(self)@.last() },
            ));
        }
    }

    /// The modeled stack shrinks by `num` slots, never crossing below the
    /// innermost frame's bound positions.
    pub fn pop_local(&mut self, num: usize)
        requires
            old(self).wf(),
            cur_top(old(self)@) - num >= old(self)@.last().bindings_top + (
            if old(self)@.last().bindings.len() > 0 {
                1int
            } else {
                0int
            }),
        ensures
            final(self).wf(),
            final(self)@ == old(self)@.update(
                old(self)@.len() - 1,
                FrameModel { stack_top: (cur_top(old(self)@) - num) as nat, ..old(self)@.last() },
            ),
    {
        let last = self.frames.len() - 1;
        self.frames[last].stack_top = self.frames[last].stack_top - num;
        proof {
            assert(self@ =~~= old(self)@.update(
                old(self)@.len() - 1,
                FrameModel { stack_top: (cur_top(old(self)@) - num) as nat, ..old(self)@.last() },
            ));
        }
    }

    /// The distance from the top of the modeled stack to the binding of
    /// `h`, innermost frame first: the operand for `push stack` and `move`.
    #[verifier::loop_isolation(false)]
    #[verifier::rlimit(80)]
    #[verifier::spinoff_prover]
    pub fn resolve(&self, h: Ident) -> (r: Option<usize>)
        requires
            self.wf(),
        ensures
            match r {
                Some(offs) => resolve_frames(self@, h) matches Some(p) && offs == cur_top(self@) - p
                    - 1,
                None => resolve_frames(self@, h) is None,
            },
    {
        let top = self.frames[self.frames.len() - 1].stack_top;
        proof {
            assert(self@.take(self.frames@.len() as int) =~= self@);
        }
        let mut fi = self.frames.len();
        while fi > 0
            invariant
                fi <= self.frames@.len(),
                self.wf(),
                self@.len() == self.frames@.len(),
                top == cur_top(self@),
                resolve_frames(self@, h) == resolve_frames(self@.take(fi as int), h),
            decreases fi,
        {
            fi = fi - 1;
            let frame = &self.frames[fi];
            let ghost fseq = self@.take(fi as int + 1);
            proof {
                assert(frame@ == self@[fi as int]);
                assert(fseq.last() == self@[fi as int]);
                assert(fseq.drop_last() =~= self@.take(fi as int));
                assert(frame@.bindings.take(frame.bindings@.len() as int) =~= frame@.bindings);
            }
            let mut bi = frame.bindings.len();
            while bi > 0
                invariant
                    bi <= frame.bindings@.len(),
                    frame_lookup(frame@.bindings, h) == frame_lookup(
                        frame@.bindings.take(bi as int),
                        h,
                    ),
                decreases bi,
            {
                bi = bi - 1;
                proof {
                    assert(frame@.bindings.take(bi as int + 1).drop_last() =~= frame@.bindings.take(
                        bi as int,
                    ));
                    assert(frame@.bindings.take(bi as int + 1).last() == frame@.bindings[bi as int]);
                }
                if frame.bindings[bi].0 == h {
                    let pos = frame.bindings[bi].1;
                    proof {
                        assert(frame@.bindings[bi as int].1 == pos as nat);
                        assert(frame_lookup(frame@.bindings, h) == Some(pos as nat));
                        assert(resolve_frames(fseq, h) == Some(pos as nat));
                        lemma_resolve_below_top(self@, h);
                    }
                    return Some(top - 1 - pos);
                }
            }
            proof {
                assert(frame@.bindings.take(0) =~= Seq::<(Ident, nat)>::empty());
                assert(frame_lookup(frame@.bindings, h) is None);
            }
        }
        proof {
            assert(self@.take(0) =~= Seq::<FrameModel>::empty());
        }
        None
    }
}

} // verus!

verus! {

impl ScopeStack {
    /// The modeled depth of the runtime stack.
    pub fn top(&self) -> (r: usize)
        requires
            self.wf(),
        ensures
            r == cur_top(self@),
    {
        self.frames[self.frames.len() - 1].stack_top
    }
}

} // verus!

verus! {

use crate::assembly::StmtView;
use crate::bytecode::{ArithOp, Cond};

/// The failures that abort code generation.
#[derive(Debug, Clone, Copy, PartialEq, Eq, Structural)]
pub enum CodegenError {
    /// An identifier is not lexically visible.
    UnknownBinding(Ident),
    /// A handle has no name in the interner.
    UnknownName(Ident),
    /// The parse-error sentinel reached the code generator.
    ErrorExpr,
    /// A compound assignment operator, which the generator does not accept.
    CompoundAssign,
    /// An expression block whose body leaves no value on the stack.
    EmptyValueBlock,
    /// A depth counter, label counter or emitted operand would not fit its
    /// machine integer.
    ModelOverflow,
}

/// The code generator's whole compile-time state: the scope model, the
/// assembly emitted so far, and the label counters.
#[verifier::ext_equal]
pub struct CgState {
    pub frames: Seq<FrameModel>,
    pub out: Seq<StmtView>,
    pub c_if_end: nat,
    pub c_else: nat,
    pub c_while: nat,
    pub c_while_end: nat,
}

/// The label templates that take a per-template counter.
#[derive(Debug, Clone, Copy, PartialEq, Eq, Structural)]
pub enum LabelKind {
    IfEnd,
    Else,
    While,
    WhileEnd,
}

/// The template text of a counted label.
pub open spec fn label_template(kind: LabelKind) -> Seq<char> {
    match kind {
        LabelKind::IfEnd => "if_end"@,
        LabelKind::Else => "else"@,
        LabelKind::While => "while"@,
        LabelKind::WhileEnd => "while_end"@,
    }
}

/// The counter that a label kind draws from.
pub open spec fn label_count(st: CgState, kind: LabelKind) -> nat {
    match kind {
        LabelKind::IfEnd => st.c_if_end,
        LabelKind::Else => st.c_else,
        LabelKind::While => st.c_while,
        LabelKind::WhileEnd => st.c_while_end,
    }
}

/// Allocating a label: the template with the counter's value appended, and
/// the counter advanced.
pub open spec fn m_alloc(st: CgState, kind: LabelKind) -> Result<
    (Seq<char>, CgState),
    CodegenError,
> {
    let c = label_count(st, kind);
    if c >= usize::MAX {
        Err(CodegenError::ModelOverflow)
    } else {
        let name = label_template(kind) + crate::text::dec_str_nat(c);
        let st2 = match kind {
            LabelKind::IfEnd => CgState { c_if_end: c + 1, ..st },
            LabelKind::Else => CgState { c_else: c + 1, ..st },
            LabelKind::While => CgState { c_while: c + 1, ..st },
            LabelKind::WhileEnd => CgState { c_while_end: c + 1, ..st },
        };
        Ok((name, st2))
    }
}

/// The frames with the innermost depth replaced.
pub open spec fn upd_top(fs: Seq<FrameModel>, t: nat) -> Seq<FrameModel> {
    fs.update(fs.len() - 1, FrameModel { stack_top: t, ..fs.last() })
}

/// One more modeled slot; fails when the counter would not fit.
pub open spec fn m_push_local(st: CgState) -> Result<CgState, CodegenError> {
    if cur_top(st.frames) >= usize::MAX {
        Err(CodegenError::ModelOverflow)
    } else {
        Ok(CgState { frames: upd_top(st.frames, cur_top(st.frames) + 1), ..st })
    }
}

/// `num` modeled slots fewer.
pub open spec fn m_pop_local(st: CgState, num: nat) -> CgState {
    CgState { frames: upd_top(st.frames, (cur_top(st.frames) - num) as nat), ..st }
}

/// One emitted statement.
pub open spec fn m_out(st: CgState, s: StmtView) -> CgState {
    CgState { out: st.out.push(s), ..st }
}

/// The top of the modeled stack named by `h`.
pub open spec fn m_add_binding(st: CgState, h: Ident) -> CgState {
    let fs = st.frames;
    let top = cur_top(fs);
    CgState {
        frames: fs.update(
            fs.len() - 1,
            FrameModel {
                bindings: fs.last().bindings.push((h, (top - 1) as nat)),
                stack_top: top,
                bindings_top: (top - 1) as nat,
            },
        ),
        ..st
    }
}

/// A fresh frame inheriting the current depth.
pub open spec fn m_push_frame(st: CgState) -> CgState {
    CgState {
        frames: st.frames.push(
            FrameModel {
                bindings: Seq::empty(),
                stack_top: cur_top(st.frames),
                bindings_top: cur_top(st.frames),
            },
        ),
        ..st
    }
}

/// The assembly operator an L1 operator lowers to; the greater-than forms
/// desugar to their mirrored less-than forms.
pub open spec fn lower_op(op: Opcode) -> ArithOp {
    match op {
        Opcode::Add => ArithOp::Add,
        Opcode::Sub => ArithOp::Sub,
        Opcode::Mul => ArithOp::Mul,
        Opcode::Div => ArithOp::Div,
        Opcode::Or => ArithOp::Or,
        Opcode::And => ArithOp::And,
        Opcode::Equal => ArithOp::Equal,
        Opcode::NotEqual => ArithOp::NotEqual,
        Opcode::LessThan => ArithOp::LessThan,
        Opcode::LessEqual => ArithOp::LessEqual,
        Opcode::GreaterThan => ArithOp::LessThan,
        Opcode::GreaterEqual => ArithOp::LessEqual,
    }
}

/// Whether an operator evaluates its right operand first.
pub open spec fn swaps_operands(op: Opcode) -> bool {
    op == Opcode::GreaterThan || op == Opcode::GreaterEqual
}

/// What emitting an expression does: the statements appended to `out` and
/// the model growing by exactly the one value the expression leaves.
pub open spec fn m_emit_expr(e: Expr, st: CgState, env: Seq<Seq<char>>) -> Result<
    CgState,
    CodegenError,
>
    decreases e,
{
    match e {
        Expr::Number(v) => m_push_local(m_out(st, StmtView::PushInline(v))),
        Expr::EnvLoad(h) => match resolve_frames(st.frames, h) {
            None => Err(CodegenError::UnknownBinding(h)),
            Some(p) => {
                let offs = cur_top(st.frames) - p - 1;
                if !(0 <= offs <= i64::MAX) {
                    Err(CodegenError::ModelOverflow)
                } else {
                    m_push_local(m_out(st, StmtView::PushStack(offs as i64)))
                }
            },
        },
        Expr::Op(a, op, b) => {
            let first = if swaps_operands(op) {
                *b
            } else {
                *a
            };
            let second = if swaps_operands(op) {
                *a
            } else {
                *b
            };
            match m_emit_expr(first, st, env) {
                Err(e1) => Err(e1),
                Ok(st1) => match m_emit_expr(second, st1, env) {
                    Err(e2) => Err(e2),
                    Ok(st2) => {
                        let st3 = m_pop_local(st2, 2);
                        m_push_local(m_out(st3, StmtView::Arith(lower_op(op))))
                    },
                },
            }
        },
        Expr::Call(name, args) => {
            match m_push_local(m_out(st, StmtView::PushInline(0))) {
                Err(e1) => Err(e1),
                Ok(st1) => match m_emit_exprs(args@, st1, env) {
                    Err(e2) => Err(e2),
                    Ok(st2) => if name >= env.len() {
                        Err(CodegenError::UnknownName(name))
                    } else if args@.len() > i64::MAX {
                        Err(CodegenError::ModelOverflow)
                    } else {
                        let st3 = m_out(st2, StmtView::Call("func_"@ + env[name as int]));
                        let st4 = m_out(st3, StmtView::Pop(args@.len() as i64));
                        Ok(m_pop_local(st4, args@.len()))
                    },
                },
            }
        },
        Expr::Error => Err(CodegenError::ErrorExpr),
    }
}

/// Emitting each expression in order.
pub open spec fn m_emit_exprs(es: Seq<Expr>, st: CgState, env: Seq<Seq<char>>) -> Result<
    CgState,
    CodegenError,
>
    decreases es,
{
    if es.len() == 0 {
        Ok(st)
    } else {
        match m_emit_expr(es[0], st, env) {
            Err(e) => Err(e),
            Ok(st1) => m_emit_exprs(es.drop_first(), st1, env),
        }
    }
}

} // verus!

verus! {

/// What emitting a statement does to the model and the output.
pub open spec fn m_emit_stmt(s: Stmt, st: CgState, env: Seq<Seq<char>>) -> Result<
    CgState,
    CodegenError,
>
    decreases s,
{
    match s {
        Stmt::LetBinding(h, e, _mutable) => match m_emit_expr(e, st, env) {
            Err(e1) => Err(e1),
            Ok(st1) => Ok(m_add_binding(st1, h)),
        },
        Stmt::Assign(h, e, op) => if op is Some {
            Err(CodegenError::CompoundAssign)
        } else {
            match resolve_frames(st.frames, h) {
                None => Err(CodegenError::UnknownBinding(h)),
                Some(p) => {
                    let offs = cur_top(st.frames) - p - 1;
                    if !(0 <= offs <= i64::MAX) {
                        Err(CodegenError::ModelOverflow)
                    } else {
                        match m_emit_expr(e, st, env) {
                            Err(e1) => Err(e1),
                            Ok(st1) => Ok(
                                m_pop_local(m_out(st1, StmtView::Move(offs as i64)), 1),
                            ),
                        }
                    }
                },
            }
        },
        Stmt::IfElse(e, then_s, None) => match m_emit_expr(e, st, env) {
            Err(e1) => Err(e1),
            Ok(st1) => match m_alloc(st1, LabelKind::IfEnd) {
                Err(e2) => Err(e2),
                Ok((end_l, st2)) => {
                    let st3 = m_pop_local(
                        m_out(st2, StmtView::Jmp(Cond::Zero, Some(end_l))),
                        1,
                    );
                    match m_emit_stmt(*then_s, st3, env) {
                        Err(e3) => Err(e3),
                        Ok(st4) => Ok(m_out(st4, StmtView::Label(end_l))),
                    }
                },
            },
        },
        Stmt::IfElse(e, then_s, Some(else_s)) => match m_emit_expr(e, st, env) {
            Err(e1) => Err(e1),
            Ok(st1) => match m_alloc(st1, LabelKind::Else) {
                Err(e2) => Err(e2),
                Ok((else_l, st2)) => {
                    let st3 = m_pop_local(
                        m_out(st2, StmtView::Jmp(Cond::Zero, Some(else_l))),
                        1,
                    );
                    match m_emit_stmt(*then_s, st3, env) {
                        Err(e3) => Err(e3),
                        Ok(st4) => match m_alloc(st4, LabelKind::IfEnd) {
                            Err(e4) => Err(e4),
                            Ok((end_l, st5)) => {
                                let st6 = m_out(
                                    m_out(st5, StmtView::Jmp(Cond::Always, Some(end_l))),
                                    StmtView::Label(else_l),
                                );
                                match m_emit_stmt(*else_s, st6, env) {
                                    Err(e5) => Err(e5),
                                    Ok(st7) => Ok(m_out(st7, StmtView::Label(end_l))),
                                }
                            },
                        },
                    }
                },
            },
        },
        Stmt::While(e, body) => match m_alloc(st, LabelKind::While) {
            Err(e1) => Err(e1),
            Ok((start_l, st1)) => {
                let st2 = m_out(st1, StmtView::Label(start_l));
                match m_emit_expr(e, st2, env) {
                    Err(e2) => Err(e2),
                    Ok(st3) => match m_alloc(st3, LabelKind::WhileEnd) {
                        Err(e3) => Err(e3),
                        Ok((exit_l, st4)) => {
                            let st5 = m_pop_local(
                                m_out(st4, StmtView::Jmp(Cond::Zero, Some(exit_l))),
                                1,
                            );
                            match m_emit_stmt(*body, st5, env) {
                                Err(e4) => Err(e4),
                                Ok(st6) => Ok(
                                    m_out(
                                        m_out(st6, StmtView::Jmp(Cond::Always, Some(start_l))),
                                        StmtView::Label(exit_l),
                                    ),
                                ),
                            }
                        },
                    },
                }
            },
        },
        Stmt::Block(ss, cleanup) => {
            match m_emit_stmts(ss@, m_push_frame(st), env) {
                Err(e1) => Err(e1),
                Ok(st1) => {
                    let parent_top = st1.frames[st1.frames.len() - 2].stack_top;
                    let n = cur_top(st1.frames) - parent_top;
                    let st2 = CgState { frames: st1.frames.drop_last(), ..st1 };
                    if !cleanup {
                        if n < 1 {
                            Err(CodegenError::EmptyValueBlock)
                        } else {
                            match m_push_local(st2) {
                                Err(e2) => Err(e2),
                                Ok(st3) => if n - 1 > i64::MAX {
                                    Err(CodegenError::ModelOverflow)
                                } else {
                                    Ok(m_out(st3, StmtView::Pop((n - 1) as i64)))
                                },
                            }
                        }
                    } else {
                        if n > i64::MAX {
                            Err(CodegenError::ModelOverflow)
                        } else {
                            Ok(m_out(st2, StmtView::Pop(n as i64)))
                        }
                    }
                },
            }
        },
        Stmt::Print(es) => m_emit_print(es@, st, env),
        Stmt::Call(e) => match m_emit_expr(e, st, env) {
            Err(e1) => Err(e1),
            Ok(st1) => Ok(m_pop_local(m_out(st1, StmtView::Pop(1)), 1)),
        },
        Stmt::Return(e) => m_emit_expr(e, st, env),
    }
}

/// Emitting each statement in order.
pub open spec fn m_emit_stmts(ss: Seq<Stmt>, st: CgState, env: Seq<Seq<char>>) -> Result<
    CgState,
    CodegenError,
>
    decreases ss,
{
    if ss.len() == 0 {
        Ok(st)
    } else {
        match m_emit_stmt(ss[0], st, env) {
            Err(e) => Err(e),
            Ok(st1) => m_emit_stmts(ss.drop_first(), st1, env),
        }
    }
}

/// Each printed expression: its value, then an `output` on channel zero.
pub open spec fn m_emit_print(es: Seq<Expr>, st: CgState, env: Seq<Seq<char>>) -> Result<
    CgState,
    CodegenError,
>
    decreases es,
{
    if es.len() == 0 {
        Ok(st)
    } else {
        match m_emit_expr(es[0], st, env) {
            Err(e) => Err(e),
            Ok(st1) => m_emit_print(
                es.drop_first(),
                m_pop_local(m_out(st1, StmtView::Output(0)), 1),
                env,
            ),
        }
    }
}

/// How much a statement deepens the modeled stack: one slot for a binding,
/// for an expression block's value and for a `Return` value, none
/// otherwise. Branches of a conditional are both walked at compile time,
/// so their contributions add.
pub open spec fn stmt_model_delta(s: Stmt) -> nat
    decreases s,
{
    match s {
        Stmt::LetBinding(_, _, _) => 1,
        Stmt::Assign(_, _, _) => 0,
        Stmt::Print(_) => 0,
        Stmt::IfElse(_, then_s, None) => stmt_model_delta(*then_s),
        Stmt::IfElse(_, then_s, Some(else_s)) => stmt_model_delta(*then_s) + stmt_model_delta(
            *else_s,
        ),
        Stmt::While(_, body) => stmt_model_delta(*body),
        Stmt::Block(_, cleanup) => if cleanup {
            0
        } else {
            1
        },
        Stmt::Call(_) => 0,
        Stmt::Return(_) => 1,
    }
}

} // verus!

verus! {

use vstd::string::StringExecFns;

/// The code generator: the scope model, the assembly emitted so far, the
/// label counters, and the interner the tree's handles point into.
pub struct CodeGen {
    pub scopes: ScopeStack,
    pub asm_out: Vec<AsmStmt>,
    pub c_if_end: usize,
    pub c_else: usize,
    pub c_while: usize,
    pub c_while_end: usize,
    pub env: Interner,
}

impl CodeGen {
    /// The generator's whole mathematical state.
    pub open spec fn state(self) -> CgState {
        CgState {
            frames: self.scopes@,
            out: crate::assembly::stmts_view(self.asm_out@),
            c_if_end: self.c_if_end as nat,
            c_else: self.c_else as nat,
            c_while: self.c_while as nat,
            c_while_end: self.c_while_end as nat,
        }
    }

    pub fn new(env: Interner) -> (r: CodeGen)
        ensures
            r.scopes.wf(),
            r.env == env,
            r.state() == (CgState {
                frames: seq![
                    FrameModel {
                        bindings: Seq::empty(),
                        stack_top: 0 as nat,
                        bindings_top: 0 as nat,
                    },
                ],
                out: Seq::empty(),
                c_if_end: 0 as nat,
                c_else: 0 as nat,
                c_while: 0 as nat,
                c_while_end: 0 as nat,
            }),
    {
        let r = CodeGen {
            scopes: ScopeStack::new(),
            asm_out: Vec::new(),
            c_if_end: 0,
            c_else: 0,
            c_while: 0,
            c_while_end: 0,
            env,
        };
        proof {
            assert(r.state() =~~= (CgState {
                frames: seq![
                    FrameModel {
                        bindings: Seq::empty(),
                        stack_top: 0 as nat,
                        bindings_top: 0 as nat,
                    },
                ],
                out: Seq::empty(),
                c_if_end: 0 as nat,
                c_else: 0 as nat,
                c_while: 0 as nat,
                c_while_end: 0 as nat,
            }));
        }
        r
    }

    /// Appends one assembly statement.
    fn put(&mut self, s: AsmStmt)
        ensures
            final(self).state() == m_out(old(self).state(), s@),
            final(self).scopes == old(self).scopes,
            final(self).env == old(self).env,
    {
        let ghost sv = s@;
        self.asm_out.push(s);
        proof {
            assert(crate::assembly::stmts_view(self.asm_out@) =~= crate::assembly::stmts_view(
                old(self).asm_out@,
            ).push(sv));
            assert(self.state() =~~= m_out(old(self).state(), sv));
        }
    }

    /// Grows the modeled stack by the one value an expression leaves.
    fn grow(&mut self) -> (r: Result<(), CodegenError>)
        requires
            old(self).scopes.wf(),
        ensures
            final(self).env == old(self).env,
            final(self).asm_out == old(self).asm_out,
            match r {
                Ok(_) => m_push_local(old(self).state()) == Ok::<CgState, CodegenError>(
                    final(self).state(),
                ) && final(self).scopes.wf() && final(self).scopes@ == upd_top(
                    old(self).scopes@,
                    cur_top(old(self).scopes@) + 1,
                ),
                Err(er) => m_push_local(old(self).state()) == Err::<CgState, CodegenError>(er),
            },
    {
        let t = self.scopes.top();
        if t == usize::MAX {
            return Err(CodegenError::ModelOverflow);
        }
        self.scopes.push_local();
        proof {
            assert(self.state() =~~= m_push_local(old(self).state())->Ok_0);
            assert(self.scopes@ =~~= upd_top(old(self).scopes@, cur_top(old(self).scopes@) + 1));
        }
        Ok(())
    }

    /// Lowers an expression to assembly. Each expression leaves exactly
    /// one value on the (modeled) stack.
    #[verifier::loop_isolation(false)]
    #[verifier::rlimit(50)]
    pub fn emit_expr(&mut self, e: &Expr) -> (r: Result<(), CodegenError>)
        requires
            old(self).scopes.wf(),
        ensures
            final(self).env == old(self).env,
            match r {
                Ok(_) => m_emit_expr(*e, old(self).state(), old(self).env@) == Ok::<
                    CgState,
                    CodegenError,
                >(final(self).state()) && final(self).scopes.wf() && final(self).scopes@
                    == upd_top(old(self).scopes@, cur_top(old(self).scopes@) + 1),
                Err(er) => m_emit_expr(*e, old(self).state(), old(self).env@) == Err::<
                    CgState,
                    CodegenError,
                >(er),
            },
        decreases *e,
    {
        let ghost st0 = self.state();
        let ghost env0 = self.env@;
        match e {
            Expr::Number(v) => {
                self.put(AsmStmt::PushInline(*v));
                match self.grow() {
                    Ok(_) => Ok(()),
                    Err(er) => Err(er),
                }
            },
            Expr::EnvLoad(h) => {
                match self.scopes.resolve(*h) {
                    None => Err(CodegenError::UnknownBinding(*h)),
                    Some(offs) => {
                        if offs as u64 > i64::MAX as u64 {
                            return Err(CodegenError::ModelOverflow);
                        }
                        self.put(AsmStmt::PushStack(offs as i64));
                        match self.grow() {
                            Ok(_) => Ok(()),
                            Err(er) => Err(er),
                        }
                    },
                }
            },
            Expr::Op(a, op, b) => {
                let swapped = matches!(op, Opcode::GreaterThan | Opcode::GreaterEqual);
                let first: &Expr = if swapped {
                    b
                } else {
                    a
                };
                let second: &Expr = if swapped {
                    a
                } else {
                    b
                };
                match self.emit_expr(first) {
                    Ok(_) => {},
                    Err(er) => {
                        return Err(er);
                    },
                }
                match self.emit_expr(second) {
                    Ok(_) => {},
                    Err(er) => {
                        return Err(er);
                    },
                }
                proof {
                    assert(frame_wf(old(self).scopes@[old(self).scopes@.len() - 1]));
                }
                self.scopes.pop_local(2);
                let lowered = match op {
                    Opcode::Add => ArithOp::Add,
                    Opcode::Sub => ArithOp::Sub,
                    Opcode::Mul => ArithOp::Mul,
                    Opcode::Div => ArithOp::Div,
                    Opcode::Or => ArithOp::Or,
                    Opcode::And => ArithOp::And,
                    Opcode::Equal => ArithOp::Equal,
                    Opcode::NotEqual => ArithOp::NotEqual,
                    Opcode::LessThan | Opcode::GreaterThan => ArithOp::LessThan,
                    Opcode::LessEqual | Opcode::GreaterEqual => ArithOp::LessEqual,
                };
                self.put(AsmStmt::Arith(lowered));
                let r = self.grow();
                proof {
                    if r is Ok {
                        assert(self.scopes@ =~~= upd_top(
                            old(self).scopes@,
                            cur_top(old(self).scopes@) + 1,
                        ));
                        assert(m_emit_expr(*e, st0, env0) == Ok::<CgState, CodegenError>(
                            self.state(),
                        ));
                    }
                }
                match r {
                    Ok(_) => Ok(()),
                    Err(er) => Err(er),
                }
            },
            Expr::Call(name, args) => {
                self.put(AsmStmt::PushInline(0));
                match self.grow() {
                    Ok(_) => {},
                    Err(er) => {
                        return Err(er);
                    },
                }
                let ghost st1 = self.state();
                let n = args.len();
                proof {
                    assert(args@.subrange(0, n as int) =~= args@);
                }
                let mut i: usize = 0;
                while i < n
                    invariant
                        i <= n,
                        n == args@.len(),
                        self.env == old(self).env,
                        self.env@ == env0,
                        self.scopes.wf(),
                        self.scopes@ == upd_top(
                            old(self).scopes@,
                            (cur_top(old(self).scopes@) + 1 + i) as nat,
                        ),
                        m_emit_exprs(args@.subrange(i as int, n as int), self.state(), env0)
                            == m_emit_exprs(args@, st1, env0),
                    decreases n - i,
                {
                    let ghost st_i = self.state();
                    let ghost rest = args@.subrange(i as int, n as int);
                    let res = self.emit_expr(&args[i]);
                    match res {
                        Ok(_) => {},
                        Err(er) => {
                            proof {
                                assert(m_emit_exprs(rest, st_i, env0) == Err::<
                                    CgState,
                                    CodegenError,
                                >(er));
                                assert(m_emit_expr(*e, st0, env0) == Err::<CgState, CodegenError>(
                                    er,
                                ));
                            }
                            return Err(er);
                        },
                    }
                    i = i + 1;
                    proof {
                        assert(rest.drop_first() =~= args@.subrange(i as int, n as int));
                        assert(self.scopes@ =~~= upd_top(
                            old(self).scopes@,
                            (cur_top(old(self).scopes@) + 1 + i) as nat,
                        ));
                    }
                }
                proof {
                    assert(args@.subrange(n as int, n as int) =~= Seq::<Expr>::empty());
                }
                let func_name = match self.env.get(*name) {
                    None => {
                        return Err(CodegenError::UnknownName(*name));
                    },
                    Some(s) => String::from_str("func_").concat(s.as_str()),
                };
                if n as u64 > i64::MAX as u64 {
                    return Err(CodegenError::ModelOverflow);
                }
                self.put(AsmStmt::Call(func_name));
                self.put(AsmStmt::Pop(n as i64));
                proof {
                    assert(frame_wf(old(self).scopes@[old(self).scopes@.len() - 1]));
                }
                self.scopes.pop_local(n);
                proof {
                    assert(self.scopes@ =~~= upd_top(
                        old(self).scopes@,
                        cur_top(old(self).scopes@) + 1,
                    ));
                    assert(m_emit_expr(*e, st0, env0) == Ok::<CgState, CodegenError>(self.state()));
                }
                Ok(())
            },
            Expr::Error => Err(CodegenError::ErrorExpr),
        }
    }
}

} // verus!

verus! {

impl CodeGen {
    /// Allocates a fresh label: the template with its counter appended.
    fn alloc_label(&mut self, kind: LabelKind) -> (r: Result<String, CodegenError>)
        ensures
            final(self).env == old(self).env,
            final(self).scopes == old(self).scopes,
            final(self).asm_out == old(self).asm_out,
            match r {
                Ok(name) => m_alloc(old(self).state(), kind) matches Ok(pair) && pair.0 == name@
                    && pair.1 == final(self).state(),
                Err(er) => m_alloc(old(self).state(), kind) == Err::<
                    (Seq<char>, CgState),
                    CodegenError,
                >(er) && *final(self) == *old(self),
            },
    {
        let c: usize = match kind {
            LabelKind::IfEnd => self.c_if_end,
            LabelKind::Else => self.c_else,
            LabelKind::While => self.c_while,
            LabelKind::WhileEnd => self.c_while_end,
        };
        if c == usize::MAX {
            return Err(CodegenError::ModelOverflow);
        }
        let mut chars: Vec<char> = Vec::new();
        match kind {
            LabelKind::IfEnd => crate::text::push_str_chars("if_end", &mut chars),
            LabelKind::Else => crate::text::push_str_chars("else", &mut chars),
            LabelKind::While => crate::text::push_str_chars("while", &mut chars),
            LabelKind::WhileEnd => crate::text::push_str_chars("while_end", &mut chars),
        }
        crate::text::push_dec_usize(c, &mut chars);
        let name = crate::text::chars_to_string(&chars);
        match kind {
            LabelKind::IfEnd => {
                self.c_if_end = c + 1;
            },
            LabelKind::Else => {
                self.c_else = c + 1;
            },
            LabelKind::While => {
                self.c_while = c + 1;
            },
            LabelKind::WhileEnd => {
                self.c_while_end = c + 1;
            },
        }
        proof {
            assert(self.state() =~~= m_alloc(old(self).state(), kind)->Ok_0.1);
        }
        Ok(name)
    }

    /// Lowers a statement to assembly, maintaining the scope model. The
    /// modeled depth grows by exactly `stmt_model_delta`, so a cleanup
    /// block leaves the depth unchanged and an expression block leaves
    /// exactly one value.
    #[verifier::loop_isolation(false)]
    #[verifier::rlimit(100)]
    pub fn emit(&mut self, stmt: &Stmt) -> (r: Result<(), CodegenError>)
        requires
            old(self).scopes.wf(),
        ensures
            final(self).env == old(self).env,
            match r {
                Ok(_) => m_emit_stmt(*stmt, old(self).state(), old(self).env@) == Ok::<
                    CgState,
                    CodegenError,
                >(final(self).state()) && final(self).scopes.wf() && final(self).scopes@.len()
                    == old(self).scopes@.len() && final(self).scopes@.subrange(
                    0,
                    old(self).scopes@.len() - 1,
                ) == old(self).scopes@.subrange(0, old(self).scopes@.len() - 1) && cur_top(
                    final(self).scopes@,
                ) == cur_top(old(self).scopes@) + stmt_model_delta(*stmt),
                Err(er) => m_emit_stmt(*stmt, old(self).state(), old(self).env@) == Err::<
                    CgState,
                    CodegenError,
                >(er),
            },
        decreases *stmt,
    {
        let ghost st0 = self.state();
        let ghost env0 = self.env@;
        let ghost pre_len = self.scopes@.len();
        match stmt {
            Stmt::LetBinding(h, e, _mutable) => {
                match self.emit_expr(e) {
                    Ok(_) => {},
                    Err(er) => {
                        return Err(er);
                    },
                }
                proof {
                    assert(frame_wf(old(self).scopes@[pre_len - 1]));
                }
                self.scopes.add_binding(*h);
                proof {
                    assert(self.state() =~~= m_add_binding(
                        m_emit_expr(*e, st0, env0)->Ok_0,
                        *h,
                    ));
                    assert(self.scopes@.subrange(0, pre_len - 1) =~~= old(self).scopes@.subrange(
                        0,
                        pre_len - 1,
                    ));
                }
                Ok(())
            },
            Stmt::Assign(h, e, op) => {
                if op.is_some() {
                    return Err(CodegenError::CompoundAssign);
                }
                let offs = match self.scopes.resolve(*h) {
                    None => {
                        return Err(CodegenError::UnknownBinding(*h));
                    },
                    Some(offs) => offs,
                };
                if offs as u64 > i64::MAX as u64 {
                    return Err(CodegenError::ModelOverflow);
                }
                match self.emit_expr(e) {
                    Ok(_) => {},
                    Err(er) => {
                        return Err(er);
                    },
                }
                self.put(AsmStmt::Move(offs as i64));
                proof {
                    assert(frame_wf(old(self).scopes@[pre_len - 1]));
                }
                self.scopes.pop_local(1);
                proof {
                    assert(self.state() =~~= m_pop_local(
                        m_out(m_emit_expr(*e, st0, env0)->Ok_0, StmtView::Move(offs as i64)),
                        1,
                    ));
                    assert(self.scopes@.subrange(0, pre_len - 1) =~~= old(self).scopes@.subrange(
                        0,
                        pre_len - 1,
                    ));
                    assert(self.scopes@ =~~= upd_top(old(self).scopes@, cur_top(old(self).scopes@)));
                }
                Ok(())
            },
            Stmt::IfElse(e, then_s, None) => {
                match self.emit_expr(e) {
                    Ok(_) => {},
                    Err(er) => {
                        return Err(er);
                    },
                }
                let end_l = match self.alloc_label(LabelKind::IfEnd) {
                    Ok(l) => l,
                    Err(er) => {
                        return Err(er);
                    },
                };
                let end_l2 = end_l.clone();
                self.put(AsmStmt::Jmp(Cond::Zero, Some(end_l2)));
                proof {
                    assert(frame_wf(old(self).scopes@[pre_len - 1]));
                }
                self.scopes.pop_local(1);
                match self.emit(then_s) {
                    Ok(_) => {},
                    Err(er) => {
                        return Err(er);
                    },
                }
                self.put(AsmStmt::Label(end_l));
                proof {
                    assert(self.scopes@.subrange(0, pre_len - 1) =~~= old(self).scopes@.subrange(
                        0,
                        pre_len - 1,
                    ));
                }
                Ok(())
            },
            Stmt::IfElse(e, then_s, Some(else_s)) => {
                match self.emit_expr(e) {
                    Ok(_) => {},
                    Err(er) => {
                        return Err(er);
                    },
                }
                let else_l = match self.alloc_label(LabelKind::Else) {
                    Ok(l) => l,
                    Err(er) => {
                        return Err(er);
                    },
                };
                let else_l2 = else_l.clone();
                self.put(AsmStmt::Jmp(Cond::Zero, Some(else_l2)));
                proof {
                    assert(frame_wf(old(self).scopes@[pre_len - 1]));
                }
                self.scopes.pop_local(1);
                match self.emit(then_s) {
                    Ok(_) => {},
                    Err(er) => {
                        return Err(er);
                    },
                }
                let end_l = match self.alloc_label(LabelKind::IfEnd) {
                    Ok(l) => l,
                    Err(er) => {
                        return Err(er);
                    },
                };
                let end_l2 = end_l.clone();
                self.put(AsmStmt::Jmp(Cond::Always, Some(end_l2)));
                self.put(AsmStmt::Label(else_l));
                match self.emit(else_s) {
                    Ok(_) => {},
                    Err(er) => {
                        return Err(er);
                    },
                }
                self.put(AsmStmt::Label(end_l));
                proof {
                    assert(self.scopes@.subrange(0, pre_len - 1) =~~= old(self).scopes@.subrange(
                        0,
                        pre_len - 1,
                    ));
                }
                Ok(())
            },
            Stmt::While(e, body) => {
                let start_l = match self.alloc_label(LabelKind::While) {
                    Ok(l) => l,
                    Err(er) => {
                        return Err(er);
                    },
                };
                let start_l2 = start_l.clone();
                self.put(AsmStmt::Label(start_l2));
                match self.emit_expr(e) {
                    Ok(_) => {},
                    Err(er) => {
                        return Err(er);
                    },
                }
                let exit_l = match self.alloc_label(LabelKind::WhileEnd) {
                    Ok(l) => l,
                    Err(er) => {
                        return Err(er);
                    },
                };
                let exit_l2 = exit_l.clone();
                self.put(AsmStmt::Jmp(Cond::Zero, Some(exit_l2)));
                proof {
                    assert(frame_wf(old(self).scopes@[pre_len - 1]));
                }
                self.scopes.pop_local(1);
                match self.emit(body) {
                    Ok(_) => {},
                    Err(er) => {
                        return Err(er);
                    },
                }
                self.put(AsmStmt::Jmp(Cond::Always, Some(start_l)));
                self.put(AsmStmt::Label(exit_l));
                proof {
                    assert(self.scopes@.subrange(0, pre_len - 1) =~~= old(self).scopes@.subrange(
                        0,
                        pre_len - 1,
                    ));
                }
                Ok(())
            },
            Stmt::Block(ss, cleanup) => {
                self.scopes.push_frame();
                let ghost st_in = self.state();
                let n_s = ss.len();
                proof {
                    assert(ss@.subrange(0, n_s as int) =~= ss@);
                }
                let mut i: usize = 0;
                while i < n_s
                    invariant
                        i <= n_s,
                        n_s == ss@.len(),
                        self.env == old(self).env,
                        self.env@ == env0,
                        self.scopes.wf(),
                        self.scopes@.len() == pre_len + 1,
                        self.scopes@.subrange(0, pre_len as int) == old(self).scopes@,
                        m_emit_stmts(ss@.subrange(i as int, n_s as int), self.state(), env0)
                            == m_emit_stmts(ss@, st_in, env0),
                    decreases n_s - i,
                {
                    let ghost st_i = self.state();
                    let ghost rest = ss@.subrange(i as int, n_s as int);
                    let ghost frames_i = self.scopes@;
                    let res = self.emit(&ss[i]);
                    match res {
                        Ok(_) => {},
                        Err(er) => {
                            proof {
                                assert(m_emit_stmts(rest, st_i, env0) == Err::<
                                    CgState,
                                    CodegenError,
                                >(er));
                                assert(m_emit_stmt(*stmt, st0, env0) == Err::<
                                    CgState,
                                    CodegenError,
                                >(er));
                            }
                            return Err(er);
                        },
                    }
                    i = i + 1;
                    proof {
                        assert(rest.drop_first() =~= ss@.subrange(i as int, n_s as int));
                        assert(self.scopes@.subrange(0, pre_len as int) =~~= frames_i.subrange(
                            0,
                            pre_len as int,
                        ));
                    }
                }
                proof {
                    assert(ss@.subrange(n_s as int, n_s as int) =~= Seq::<Stmt>::empty());
                    assert(self.scopes@[pre_len - 1] == old(self).scopes@[pre_len - 1]);
                    assert(frame_wf(self.scopes@[self.scopes@.len() - 1]));
                }
                let mut num_pop = self.scopes.pop_frame();
                if !*cleanup {
                    if num_pop < 1 {
                        return Err(CodegenError::EmptyValueBlock);
                    }
                    num_pop = num_pop - 1;
                    self.scopes.push_local();
                    if num_pop as u64 > i64::MAX as u64 {
                        return Err(CodegenError::ModelOverflow);
                    }
                    self.put(AsmStmt::Pop(num_pop as i64));
                    proof {
                        assert(self.scopes@.subrange(0, pre_len - 1)
                            =~~= old(self).scopes@.subrange(0, pre_len - 1));
                        assert(m_emit_stmt(*stmt, st0, env0) == Ok::<CgState, CodegenError>(
                            self.state(),
                        ));
                    }
                    Ok(())
                } else {
                    if num_pop as u64 > i64::MAX as u64 {
                        return Err(CodegenError::ModelOverflow);
                    }
                    self.put(AsmStmt::Pop(num_pop as i64));
                    proof {
                        assert(self.scopes@.subrange(0, pre_len - 1)
                            =~~= old(self).scopes@.subrange(0, pre_len - 1));
                        assert(self.scopes@ =~~= old(self).scopes@);
                        assert(m_emit_stmt(*stmt, st0, env0) == Ok::<CgState, CodegenError>(
                            self.state(),
                        ));
                    }
                    Ok(())
                }
            },
            Stmt::Print(es) => {
                let n_e = es.len();
                proof {
                    assert(es@.subrange(0, n_e as int) =~= es@);
                }
                let mut i: usize = 0;
                while i < n_e
                    invariant
                        i <= n_e,
                        n_e == es@.len(),
                        self.env == old(self).env,
                        self.env@ == env0,
                        self.scopes.wf(),
                        self.scopes@ == old(self).scopes@,
                        m_emit_print(es@.subrange(i as int, n_e as int), self.state(), env0)
                            == m_emit_print(es@, st0, env0),
                    decreases n_e - i,
                {
                    let ghost st_i = self.state();
                    let ghost rest = es@.subrange(i as int, n_e as int);
                    let res = self.emit_expr(&es[i]);
                    match res {
                        Ok(_) => {},
                        Err(er) => {
                            proof {
                                assert(m_emit_print(rest, st_i, env0) == Err::<
                                    CgState,
                                    CodegenError,
                                >(er));
                                assert(m_emit_stmt(*stmt, st0, env0) == Err::<
                                    CgState,
                                    CodegenError,
                                >(er));
                            }
                            return Err(er);
                        },
                    }
                    self.put(AsmStmt::Output(0));
                    proof {
                        assert(frame_wf(old(self).scopes@[pre_len - 1]));
                    }
                    self.scopes.pop_local(1);
                    i = i + 1;
                    proof {
                        assert(rest.drop_first() =~= es@.subrange(i as int, n_e as int));
                        assert(self.scopes@ =~~= old(self).scopes@);
                    }
                }
                proof {
                    assert(es@.subrange(n_e as int, n_e as int) =~= Seq::<Expr>::empty());
                }
                Ok(())
            },
            Stmt::Call(e) => {
                match self.emit_expr(e) {
                    Ok(_) => {},
                    Err(er) => {
                        return Err(er);
                    },
                }
                self.put(AsmStmt::Pop(1));
                proof {
                    assert(frame_wf(old(self).scopes@[pre_len - 1]));
                }
                self.scopes.pop_local(1);
                proof {
                    assert(self.scopes@ =~~= upd_top(old(self).scopes@, cur_top(old(self).scopes@)));
                    assert(self.scopes@ =~~= old(self).scopes@);
                }
                Ok(())
            },
            Stmt::Return(e) => {
                match self.emit_expr(e) {
                    Ok(_) => {},
                    Err(er) => {
                        return Err(er);
                    },
                }
                proof {
                    assert(self.scopes@.subrange(0, pre_len - 1) =~~= old(self).scopes@.subrange(
                        0,
                        pre_len - 1,
                    ));
                }
                Ok(())
            },
        }
    }
}

} // verus!

verus! {

use crate::ast::{Declaration, Toplevel};

/// Each argument gets a modeled slot and its binding, left to right.
pub open spec fn m_bind_args(args: Seq<Ident>, st: CgState) -> Result<CgState, CodegenError>
    decreases args.len(),
{
    if args.len() == 0 {
        Ok(st)
    } else {
        match m_push_local(st) {
            Err(e) => Err(e),
            Ok(st1) => m_bind_args(args.drop_first(), m_add_binding(st1, args[0])),
        }
    }
}

/// What emitting one function declaration does: its entry label, a frame
/// binding the arguments and the return-address slot, the body, then the
/// epilogue — a `move` of the returned value into the caller's reserved
/// slot and a computed return jump standing at the `_ret` label.
pub open spec fn m_emit_function(
    name: Ident,
    args: Seq<Ident>,
    body: Stmt,
    st: CgState,
    env: Seq<Seq<char>>,
) -> Result<CgState, CodegenError> {
    if name >= env.len() {
        Err(CodegenError::UnknownName(name))
    } else {
        let fl = "func_"@ + env[name as int];
        let st1 = m_push_frame(m_out(st, StmtView::Label(fl)));
        match m_bind_args(args, st1) {
            Err(e) => Err(e),
            Ok(st2) => match m_push_local(st2) {
                Err(e) => Err(e),
                Ok(st3) => match m_emit_stmt(body, st3, env) {
                    Err(e) => Err(e),
                    Ok(st4) => if args.len() + 1 > i64::MAX {
                        Err(CodegenError::ModelOverflow)
                    } else {
                        let st5 = m_out(st4, StmtView::Move((args.len() + 1) as i64));
                        let st6 = m_out(st5, StmtView::Label(fl + "_ret"@));
                        let st7 = m_out(st6, StmtView::Jmp(Cond::Always, None));
                        Ok(CgState { frames: st7.frames.drop_last(), ..st7 })
                    },
                },
            },
        }
    }
}

/// Emitting every function declaration, in program order.
pub open spec fn m_emit_decls(prog: Seq<Toplevel>, st: CgState, env: Seq<Seq<char>>) -> Result<
    CgState,
    CodegenError,
>
    decreases prog.len(),
{
    if prog.len() == 0 {
        Ok(st)
    } else {
        let step = match prog[0] {
            Toplevel::Declaration(Declaration::Function(n, a, b)) => m_emit_function(
                n,
                a@,
                *b,
                st,
                env,
            ),
            _ => Ok(st),
        };
        match step {
            Err(e) => Err(e),
            Ok(st1) => m_emit_decls(prog.drop_first(), st1, env),
        }
    }
}

/// Emitting every top-level statement, in program order.
pub open spec fn m_emit_tops(prog: Seq<Toplevel>, st: CgState, env: Seq<Seq<char>>) -> Result<
    CgState,
    CodegenError,
>
    decreases prog.len(),
{
    if prog.len() == 0 {
        Ok(st)
    } else {
        let step = match prog[0] {
            Toplevel::Stmt(s) => m_emit_stmt(s, st, env),
            _ => Ok(st),
        };
        match step {
            Err(e) => Err(e),
            Ok(st1) => m_emit_tops(prog.drop_first(), st1, env),
        }
    }
}

/// The fresh state a compilation starts from.
pub open spec fn m_initial() -> CgState {
    CgState {
        frames: seq![
            FrameModel { bindings: Seq::empty(), stack_top: 0 as nat, bindings_top: 0 as nat },
        ],
        out: Seq::empty(),
        c_if_end: 0 as nat,
        c_else: 0 as nat,
        c_while: 0 as nat,
        c_while_end: 0 as nat,
    }
}

/// The assembly of a whole program: a jump over the declarations when any
/// exist, the declarations, the `entry` label, then the statements.
pub open spec fn m_compile_program(prog: Seq<Toplevel>, env: Seq<Seq<char>>) -> Result<
    Seq<StmtView>,
    CodegenError,
> {
    let st0 = m_initial();
    let st1 = if exists|i: int| 0 <= i < prog.len() && (#[trigger] prog[i]) is Declaration {
        m_out(st0, StmtView::Jmp(Cond::Always, Some("entry"@)))
    } else {
        st0
    };
    match m_emit_decls(prog, st1, env) {
        Err(e) => Err(e),
        Ok(st2) => {
            let st3 = m_out(st2, StmtView::Label("entry"@));
            match m_emit_tops(prog, st3, env) {
                Err(e) => Err(e),
                Ok(st4) => Ok(st4.out),
            }
        },
    }
}

/// Greater-than desugaring: lowering `a > b` emits exactly the output of
/// `b < a`, and `a >= b` exactly that of `b <= a`.
pub proof fn lemma_greater_than_desugar(gt: Expr, lt: Expr, st: CgState, env: Seq<Seq<char>>)
    requires
        gt matches Expr::Op(ga, gop, gb),
        lt matches Expr::Op(la, lop, lb),
        gt->Op_0 == lt->Op_2,
        gt->Op_2 == lt->Op_0,
        (gt->Op_1 == Opcode::GreaterThan && lt->Op_1 == Opcode::LessThan) || (gt->Op_1
            == Opcode::GreaterEqual && lt->Op_1 == Opcode::LessEqual),
    ensures
        m_emit_expr(gt, st, env) == m_emit_expr(lt, st, env),
{
}

impl CodeGen {
    /// Emits one function declaration: label, argument frame, body and
    /// epilogue.
    #[verifier::loop_isolation(false)]
    #[verifier::rlimit(50)]
    pub fn emit_function(&mut self, name: Ident, args: &Vec<Ident>, body: &Stmt) -> (r: Result<
        (),
        CodegenError,
    >)
        requires
            old(self).scopes.wf(),
        ensures
            final(self).env == old(self).env,
            match r {
                Ok(_) => m_emit_function(name, args@, *body, old(self).state(), old(self).env@)
                    == Ok::<CgState, CodegenError>(final(self).state()) && final(self).scopes.wf()
                    && final(self).scopes@.len() == old(self).scopes@.len(),
                Err(er) => m_emit_function(name, args@, *body, old(self).state(), old(self).env@)
                    == Err::<CgState, CodegenError>(er),
            },
    {
        let ghost st0 = self.state();
        let ghost env0 = self.env@;
        let fl = match self.env.get(name) {
            None => {
                return Err(CodegenError::UnknownName(name));
            },
            Some(s) => String::from_str("func_").concat(s.as_str()),
        };
        let fl_ret = fl.clone().concat("_ret");
        self.put(AsmStmt::Label(fl));
        self.scopes.push_frame();
        let ghost st1 = self.state();
        let n = args.len();
        proof {
            assert(args@.subrange(0, n as int) =~= args@);
        }
        let mut i: usize = 0;
        while i < n
            invariant
                i <= n,
                n == args@.len(),
                self.env == old(self).env,
                self.scopes.wf(),
                self.scopes@.len() == old(self).scopes@.len() + 1,
                m_bind_args(args@.subrange(i as int, n as int), self.state()) == m_bind_args(
                    args@,
                    st1,
                ),
            decreases n - i,
        {
            let ghost st_i = self.state();
            let ghost rest = args@.subrange(i as int, n as int);
            let t = self.scopes.top();
            if t == usize::MAX {
                proof {
                    assert(m_bind_args(rest, st_i) == Err::<CgState, CodegenError>(
                        CodegenError::ModelOverflow,
                    ));
                }
                return Err(CodegenError::ModelOverflow);
            }
            self.scopes.push_local();
            proof {
                assert(self.state() =~~= m_push_local(st_i)->Ok_0);
                assert(frame_wf(self.scopes@[self.scopes@.len() - 1]));
            }
            let ghost st_p = self.state();
            self.scopes.add_binding(args[i]);
            i = i + 1;
            proof {
                assert(rest.drop_first() =~= args@.subrange(i as int, n as int));
                assert(self.state() =~~= m_add_binding(st_p, args@[i - 1]));
            }
        }
        proof {
            assert(args@.subrange(n as int, n as int) =~= Seq::<Ident>::empty());
        }
        let t = self.scopes.top();
        if t == usize::MAX {
            return Err(CodegenError::ModelOverflow);
        }
        self.scopes.push_local();
        proof {
            assert(self.state() =~~= m_push_local(m_bind_args(args@, st1)->Ok_0)->Ok_0);
        }
        match self.emit(body) {
            Ok(_) => {},
            Err(er) => {
                return Err(er);
            },
        }
        if n as u64 >= i64::MAX as u64 {
            return Err(CodegenError::ModelOverflow);
        }
        self.put(AsmStmt::Move(n as i64 + 1));
        self.put(AsmStmt::Label(fl_ret));
        self.put(AsmStmt::Jmp(Cond::Always, None));
        let _ = self.scopes.pop_frame();
        proof {
            assert(m_emit_function(name, args@, *body, st0, env0) == Ok::<CgState, CodegenError>(
                self.state(),
            ));
        }
        Ok(())
    }
}

/// Compiles a whole program to assembly: function declarations first,
/// behind a jump to `entry` so that execution starts at the top-level
/// statements.
#[verifier::loop_isolation(false)]
pub fn compile_program(program: &Vec<Toplevel>, env: Interner) -> (r: Result<
    Vec<AsmStmt>,
    CodegenError,
>)
    ensures
        match r {
            Ok(v) => m_compile_program(program@, env@) == Ok::<Seq<StmtView>, CodegenError>(
                crate::assembly::stmts_view(v@),
            ),
            Err(er) => m_compile_program(program@, env@) == Err::<Seq<StmtView>, CodegenError>(er),
        },
{
    let ghost env0 = env@;
    let mut cg = CodeGen::new(env);
    let n = program.len();
    let mut has_decls = false;
    let mut i: usize = 0;
    while i < n
        invariant
            i <= n,
            n == program@.len(),
            has_decls == exists|j: int|
                0 <= j < i && (#[trigger] program@[j]) is Declaration,
        decreases n - i,
    {
        if matches!(&program[i], Toplevel::Declaration(_)) {
            has_decls = true;
            proof {
                assert(program@[i as int] is Declaration);
            }
        }
        i = i + 1;
    }
    proof {
        assert((exists|j: int| 0 <= j < n && (#[trigger] program@[j]) is Declaration)
            == has_decls);
    }
    if has_decls {
        cg.put(AsmStmt::Jmp(Cond::Always, Some(String::from_str("entry"))));
    }
    let ghost st1 = cg.state();
    proof {
        assert(program@.subrange(0, n as int) =~= program@);
    }
    let mut i: usize = 0;
    while i < n
        invariant
            i <= n,
            n == program@.len(),
            cg.env@ == env0,
            cg.scopes.wf(),
            m_emit_decls(program@.subrange(i as int, n as int), cg.state(), env0) == m_emit_decls(
                program@,
                st1,
                env0,
            ),
        decreases n - i,
    {
        let ghost st_i = cg.state();
        let ghost rest = program@.subrange(i as int, n as int);
        match &program[i] {
            Toplevel::Declaration(Declaration::Function(fname, fargs, fbody)) => {
                let res = cg.emit_function(*fname, fargs, fbody);
                match res {
                    Ok(_) => {},
                    Err(er) => {
                        proof {
                            assert(m_emit_decls(rest, st_i, env0) == Err::<CgState, CodegenError>(
                                er,
                            ));
                        }
                        return Err(er);
                    },
                }
            },
            _ => {},
        }
        i = i + 1;
        proof {
            assert(rest.drop_first() =~= program@.subrange(i as int, n as int));
        }
    }
    proof {
        assert(program@.subrange(n as int, n as int) =~= Seq::<Toplevel>::empty());
    }
    cg.put(AsmStmt::Label(String::from_str("entry")));
    let ghost st3 = cg.state();
    let mut i: usize = 0;
    while i < n
        invariant
            i <= n,
            n == program@.len(),
            cg.env@ == env0,
            cg.scopes.wf(),
            m_emit_tops(program@.subrange(i as int, n as int), cg.state(), env0) == m_emit_tops(
                program@,
                st3,
                env0,
            ),
        decreases n - i,
    {
        let ghost st_i = cg.state();
        let ghost rest = program@.subrange(i as int, n as int);
        match &program[i] {
            Toplevel::Stmt(s) => {
                let res = cg.emit(s);
                match res {
                    Ok(_) => {},
                    Err(er) => {
                        proof {
                            assert(m_emit_tops(rest, st_i, env0) == Err::<CgState, CodegenError>(
                                er,
                            ));
                        }
                        return Err(er);
                    },
                }
            },
            _ => {},
        }
        i = i + 1;
        proof {
            assert(rest.drop_first() =~= program@.subrange(i as int, n as int));
        }
    }
    proof {
        assert(program@.subrange(n as int, n as int) =~= Seq::<Toplevel>::empty());
    }
    Ok(cg.asm_out)
}

} // verus!
