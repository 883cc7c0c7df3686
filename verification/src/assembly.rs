//! The textual assembly model and the two-pass assembler.
//!
//! Pass one (`label_locations`, `extract_constants`) fixes every label's
//! bytecode index and interns oversized inline constants into the pool.
//! Pass two (`BytecodeEmit::emit`) lowers each statement to zero or more
//! opcodes, resolving label references to relative displacements.

use crate::bytecode::{ArithOp, Cond, Op, PopMode, Program, Uint24};
use crate::text::{dec_str, push_dec_i64};
use vstd::prelude::*;
use vstd::string::StringExecFns;

verus! {

/// A section of an assembly listing: user constants or code.
#[derive(Debug)]
pub enum Section {
    Data(Vec<i64>),
    Code(Vec<Stmt>),
}

/// One textual assembly statement. `Jmp` with no label is a computed jump
/// whose target displacement is already on the stack (used for function
/// return); `Call` jumps to `func` and `func_ret` labels emitted with a
/// function's prologue and epilogue.
#[derive(Debug, Clone, PartialEq)]
pub enum Stmt {
    PushInline(i64),
    PushConst(i64),
    PushStack(i64),
    Jmp(Cond, Option<String>),
    Arith(ArithOp),
    Output(i64),
    Pop(i64),
    Move(i64),
    Label(String),
    Call(String),
    Noop,
}

/// The assembly-time failures; each aborts assembly.
#[derive(Debug, Clone, PartialEq)]
pub enum AsmError {
    /// A `Jmp` or `Call` names a label that no `Label` statement defines.
    UndefinedLabel(String),
    /// Two `Label` statements bind the same name.
    DuplicateLabel(String),
    /// An oversized inline value is missing from the constants pool.
    MissingConst(i64),
    /// A pool index, stack offset, pop count or channel number cannot be
    /// encoded (negative, or beyond its immediate's range).
    OperandOutOfRange,
    /// A label reference resolves to a displacement beyond 16 signed bits.
    DisplacementTooLarge,
    /// The statements lay out to more opcodes than the address space holds.
    CodeTooLarge,
}

/// Whether `v` can be pushed by a single immediate opcode: sign-extended
/// 16-bit or zero-extended 24-bit.
pub open spec fn inline_fits(v: i64) -> bool {
    -0x8000 <= v <= 0xFFFFFF
}

/// The first index of `v` in `s`, or the length of `s` when absent.
pub open spec fn first_index(s: Seq<i64>, v: i64) -> int
    decreases s.len(),
{
    if s.len() == 0 {
        0
    } else if s[0] == v {
        0
    } else {
        1 + first_index(s.drop_first(), v)
    }
}

/// `first_index` finds `v` exactly when `s` contains it.
pub proof fn lemma_first_index(s: Seq<i64>, v: i64)
    ensures
        s.contains(v) ==> 0 <= first_index(s, v) < s.len() && s[first_index(s, v)] == v,
        !s.contains(v) ==> first_index(s, v) == s.len(),
    decreases s.len(),
{
    if s.len() > 0 && s[0] != v {
        lemma_first_index(s.drop_first(), v);
        assert forall|i: int| 0 < i < s.len() && s[i] == v implies s.drop_first().contains(
            v,
        ) by {
            assert(s.drop_first()[i - 1] == v);
        }
    }
}

/// The label table of pass one: each label name with its bytecode index.
pub struct LabelTable {
    pub entries: Vec<(String, usize)>,
}

/// The mapping that a list of entries denotes; later entries win.
pub open spec fn entries_map(s: Seq<(String, usize)>) -> Map<Seq<char>, nat>
    decreases s.len(),
{
    if s.len() == 0 {
        Map::empty()
    } else {
        entries_map(s.drop_last()).insert(s.last().0@, s.last().1 as nat)
    }
}

impl View for LabelTable {
    type V = Map<Seq<char>, nat>;

    open spec fn view(&self) -> Map<Seq<char>, nat> {
        entries_map(self.entries@)
    }
}

/// A key is in the map exactly when some entry carries it.
proof fn lemma_entries_map_contains(s: Seq<(String, usize)>, k: Seq<char>)
    ensures
        entries_map(s).contains_key(k) <==> exists|i: int| 0 <= i < s.len() && s[i].0@ == k,
    decreases s.len(),
{
    if s.len() > 0 {
        lemma_entries_map_contains(s.drop_last(), k);
        if entries_map(s).contains_key(k) {
            if s.last().0@ == k {
                assert(s[s.len() - 1].0@ == k);
            } else {
                let i = choose|i: int| 0 <= i < s.len() - 1 && s.drop_last()[i].0@ == k;
                assert(s[i].0@ == k);
            }
        }
        if exists|i: int| 0 <= i < s.len() && s[i].0@ == k {
            let i = choose|i: int| 0 <= i < s.len() && s[i].0@ == k;
            if i < s.len() - 1 {
                assert(s.drop_last()[i].0@ == k);
            }
        }
    }
}

/// With no repeated names, every entry gives the mapped value.
proof fn lemma_entries_map_at(s: Seq<(String, usize)>, i: int)
    requires
        0 <= i < s.len(),
        forall|p: int, q: int| 0 <= p < q < s.len() ==> s[p].0@ != s[q].0@,
    ensures
        entries_map(s).contains_key(s[i].0@),
        entries_map(s)[s[i].0@] == s[i].1 as nat,
    decreases s.len(),
{
    if i == s.len() - 1 {
    } else {
        lemma_entries_map_at(s.drop_last(), i);
        assert(s.drop_last()[i] == s[i]);
    }
}

impl LabelTable {
    /// No two entries bind the same name.
    pub open spec fn wf(self) -> bool {
        forall|p: int, q: int|
            0 <= p < q < self.entries@.len() ==> self.entries@[p].0@ != self.entries@[q].0@
    }

    pub fn new() -> (r: Self)
        ensures
            r.wf(),
            r@ == Map::<Seq<char>, nat>::empty(),
    {
        LabelTable { entries: Vec::new() }
    }

    /// The bytecode index bound to `name`, if any.
    pub fn get(&self, name: &String) -> (r: Option<usize>)
        requires
            self.wf(),
        ensures
            match r {
                Some(ip) => self@.contains_key(name@) && self@[name@] == ip as nat,
                None => !self@.contains_key(name@),
            },
    {
        let n = self.entries.len();
        let mut i: usize = 0;
        while i < n
            invariant
                i <= n,
                n == self.entries@.len(),
                self.wf(),
                forall|j: int| 0 <= j < i ==> self.entries@[j].0@ != name@,
            decreases n - i,
        {
            if self.entries[i].0 == *name {
                proof {
                    lemma_entries_map_at(self.entries@, i as int);
                }
                return Some(self.entries[i].1);
            }
            i = i + 1;
        }
        proof {
            lemma_entries_map_contains(self.entries@, name@);
        }
        None
    }
}

} // verus!

verus! {

/// How statements are measured and lowered to opcodes.
pub trait BytecodeEmit {
    /// How many opcodes `emit` appends on success.
    spec fn spec_num_ops(&self) -> nat;

    /// The opcodes that `emit` appends when it starts at bytecode index
    /// `pos`, or the failure.
    spec fn spec_emit(&self, labels: Map<Seq<char>, nat>, consts: Seq<i64>, pos: nat) -> Result<
        Seq<Op>,
        AsmError,
    >;

    fn num_ops(&self) -> (r: usize)
        ensures
            r == self.spec_num_ops(),
    ;

    fn emit(&self, labels: &LabelTable, consts: &Vec<i64>, out: &mut Vec<Op>) -> (r: Result<
        (),
        AsmError,
    >)
        requires
            labels.wf(),
        ensures
            match r {
                Ok(_) => self.spec_emit(labels@, consts@, old(out)@.len()) matches Ok(ops)
                    && final(out)@ == old(out)@ + ops,
                Err(e) => final(out)@ == old(out)@ && self.spec_emit(
                    labels@,
                    consts@,
                    old(out)@.len(),
                ) == Err::<Seq<Op>, AsmError>(e),
            },
    ;
}

impl BytecodeEmit for Stmt {
    open spec fn spec_num_ops(&self) -> nat {
        match self {
            Stmt::Label(_) => 0,
            Stmt::Arith(_) | Stmt::Output(_) | Stmt::Noop => 1,
            Stmt::PushInline(v) => if inline_fits(*v) {
                1
            } else {
                2
            },
            Stmt::Pop(n) => if *n == 0 {
                0
            } else if *n == 1 {
                1
            } else {
                2
            },
            Stmt::Jmp(_, l) => if l is Some {
                2
            } else {
                1
            },
            Stmt::Move(_) | Stmt::PushConst(_) | Stmt::PushStack(_) => 2,
            Stmt::Call(_) => 3,
        }
    }

    open spec fn spec_emit(&self, labels: Map<Seq<char>, nat>, consts: Seq<i64>, pos: nat) -> Result<
        Seq<Op>,
        AsmError,
    > {
        match self {
            Stmt::PushInline(v) => if -0x8000 <= *v <= 0x7FFF {
                Ok(seq![Op::PushImmediate(*v as i16)])
            } else if inline_fits(*v) {
                Ok(seq![Op::PushImmediate24(Uint24::spec_from_u32(*v as u32))])
            } else if !consts.contains(*v) {
                Err(AsmError::MissingConst(*v))
            } else if first_index(consts, *v) > 0x7FFF {
                Err(AsmError::OperandOutOfRange)
            } else {
                Ok(seq![Op::PushImmediate(first_index(consts, *v) as i16), Op::PushConst])
            },
            Stmt::PushConst(i) => if 0 <= *i <= 0x7FFF {
                Ok(seq![Op::PushImmediate(*i as i16), Op::PushConst])
            } else {
                Err(AsmError::OperandOutOfRange)
            },
            Stmt::PushStack(i) => if 0 <= *i <= 0x7FFF {
                Ok(seq![Op::PushImmediate(*i as i16), Op::PushStack])
            } else {
                Err(AsmError::OperandOutOfRange)
            },
            Stmt::Jmp(cond, Some(l)) => if !labels.contains_key(l@) {
                Err(AsmError::UndefinedLabel(*l))
            } else {
                let rel = labels[l@] - pos - 1;
                if -0x8000 <= rel <= 0x7FFF {
                    Ok(seq![Op::PushImmediate(rel as i16), Op::Jmp(*cond)])
                } else {
                    Err(AsmError::DisplacementTooLarge)
                }
            },
            Stmt::Jmp(cond, None) => Ok(seq![Op::Jmp(*cond)]),
            Stmt::Arith(op) => Ok(seq![Op::Arith(*op)]),
            Stmt::Output(ch) => if 0 <= *ch <= 0xFFFF {
                Ok(seq![Op::Output(*ch as u16)])
            } else {
                Err(AsmError::OperandOutOfRange)
            },
            Stmt::Pop(n) => if *n == 0 {
                Ok(Seq::empty())
            } else if *n == 1 {
                Ok(seq![Op::Pop(PopMode::One)])
            } else if 0 <= *n <= 0x7FFF {
                Ok(seq![Op::PushImmediate(*n as i16), Op::Pop(PopMode::Top)])
            } else {
                Err(AsmError::OperandOutOfRange)
            },
            Stmt::Move(offs) => if 0 <= *offs <= 0x7FFF {
                Ok(seq![Op::PushImmediate(*offs as i16), Op::Move])
            } else {
                Err(AsmError::OperandOutOfRange)
            },
            Stmt::Label(_) => Ok(Seq::empty()),
            Stmt::Call(name) => if !labels.contains_key(name@) {
                Err(AsmError::UndefinedLabel(*name))
            } else if !labels.contains_key(name@ + "_ret"@) {
                Err(AsmError::UndefinedLabel(*name))
            } else {
                let jmp_rel = labels[name@] - pos - 2;
                let ret_rel = pos + 3 - labels[name@ + "_ret"@];
                if -0x8000 <= jmp_rel <= 0x7FFF && -0x8000 <= ret_rel <= 0x7FFF {
                    Ok(
                        seq![
                            Op::PushImmediate(ret_rel as i16),
                            Op::PushImmediate(jmp_rel as i16),
                            Op::Jmp(Cond::Always),
                        ],
                    )
                } else {
                    Err(AsmError::DisplacementTooLarge)
                }
            },
            Stmt::Noop => Ok(seq![Op::Noop]),
        }
    }

    fn num_ops(&self) -> (r: usize) {
        match self {
            Stmt::Label(_) => 0,
            Stmt::Arith(_) | Stmt::Output(_) | Stmt::Noop => 1,
            Stmt::PushInline(v) => if -0x8000 <= *v && *v <= 0xFFFFFF {
                1
            } else {
                2
            },
            Stmt::Pop(n) => if *n == 0 {
                0
            } else if *n == 1 {
                1
            } else {
                2
            },
            Stmt::Jmp(_, l) => if l.is_some() {
                2
            } else {
                1
            },
            Stmt::Move(_) | Stmt::PushConst(_) | Stmt::PushStack(_) => 2,
            Stmt::Call(_) => 3,
        }
    }

    fn emit(&self, labels: &LabelTable, consts: &Vec<i64>, out: &mut Vec<Op>) -> (r: Result<
        (),
        AsmError,
    >) {
        let ghost pos = out@.len();
        match self {
            Stmt::PushInline(v) => {
                if -0x8000 <= *v && *v <= 0x7FFF {
                    out.push(Op::PushImmediate(*v as i16));
                    proof {
                        assert(out@ =~= old(out)@ + self.spec_emit(
                            labels@,
                            consts@,
                            pos,
                        ).unwrap());
                    }
                    Ok(())
                } else if *v > 0x7FFF && *v <= 0xFFFFFF {
                    out.push(Op::PushImmediate24(Uint24::from(*v as u32)));
                    proof {
                        assert(out@ =~= old(out)@ + self.spec_emit(
                            labels@,
                            consts@,
                            pos,
                        ).unwrap());
                    }
                    Ok(())
                } else {
                    let idx = match find_const(consts, *v) {
                        Some(i) => i,
                        None => {
                            return Err(AsmError::MissingConst(*v));
                        },
                    };
                    if idx > 0x7FFF {
                        return Err(AsmError::OperandOutOfRange);
                    }
                    out.push(Op::PushImmediate(idx as i16));
                    out.push(Op::PushConst);
                    proof {
                        assert(out@ =~= old(out)@ + self.spec_emit(
                            labels@,
                            consts@,
                            pos,
                        ).unwrap());
                    }
                    Ok(())
                }
            },
            Stmt::PushConst(i) => {
                if !(0 <= *i && *i <= 0x7FFF) {
                    return Err(AsmError::OperandOutOfRange);
                }
                out.push(Op::PushImmediate(*i as i16));
                out.push(Op::PushConst);
                proof {
                    assert(out@ =~= old(out)@ + self.spec_emit(
                        labels@,
                        consts@,
                        pos,
                    ).unwrap());
                }
                Ok(())
            },
            Stmt::PushStack(i) => {
                if !(0 <= *i && *i <= 0x7FFF) {
                    return Err(AsmError::OperandOutOfRange);
                }
                out.push(Op::PushImmediate(*i as i16));
                out.push(Op::PushStack);
                proof {
                    assert(out@ =~= old(out)@ + self.spec_emit(
                        labels@,
                        consts@,
                        pos,
                    ).unwrap());
                }
                Ok(())
            },
            Stmt::Jmp(cond, Some(l)) => {
                let lab = match labels.get(l) {
                    Some(ip) => ip,
                    None => {
                        return Err(AsmError::UndefinedLabel(l.clone()));
                    },
                };
                let rel: i128 = lab as i128 - out.len() as i128 - 1;
                if !(-0x8000 <= rel && rel <= 0x7FFF) {
                    return Err(AsmError::DisplacementTooLarge);
                }
                out.push(Op::PushImmediate(rel as i16));
                out.push(Op::Jmp(*cond));
                proof {
                    assert(out@ =~= old(out)@ + self.spec_emit(
                        labels@,
                        consts@,
                        pos,
                    ).unwrap());
                }
                Ok(())
            },
            Stmt::Jmp(cond, None) => {
                out.push(Op::Jmp(*cond));
                proof {
                    assert(out@ =~= old(out)@ + self.spec_emit(
                        labels@,
                        consts@,
                        pos,
                    ).unwrap());
                }
                Ok(())
            },
            Stmt::Arith(op) => {
                out.push(Op::Arith(*op));
                proof {
                    assert(out@ =~= old(out)@ + self.spec_emit(
                        labels@,
                        consts@,
                        pos,
                    ).unwrap());
                }
                Ok(())
            },
            Stmt::Output(ch) => {
                if !(0 <= *ch && *ch <= 0xFFFF) {
                    return Err(AsmError::OperandOutOfRange);
                }
                out.push(Op::Output(*ch as u16));
                proof {
                    assert(out@ =~= old(out)@ + self.spec_emit(
                        labels@,
                        consts@,
                        pos,
                    ).unwrap());
                }
                Ok(())
            },
            Stmt::Pop(n) => {
                if *n == 0 {
                    proof {
                        assert(out@ =~= old(out)@ + self.spec_emit(
                            labels@,
                            consts@,
                            pos,
                        ).unwrap());
                    }
                    return Ok(());
                }
                if *n == 1 {
                    out.push(Op::Pop(PopMode::One));
                    proof {
                        assert(out@ =~= old(out)@ + self.spec_emit(
                            labels@,
                            consts@,
                            pos,
                        ).unwrap());
                    }
                    return Ok(());
                }
                if !(0 <= *n && *n <= 0x7FFF) {
                    return Err(AsmError::OperandOutOfRange);
                }
                out.push(Op::PushImmediate(*n as i16));
                out.push(Op::Pop(PopMode::Top));
                proof {
                    assert(out@ =~= old(out)@ + self.spec_emit(
                        labels@,
                        consts@,
                        pos,
                    ).unwrap());
                }
                Ok(())
            },
            Stmt::Move(offs) => {
                if !(0 <= *offs && *offs <= 0x7FFF) {
                    return Err(AsmError::OperandOutOfRange);
                }
                out.push(Op::PushImmediate(*offs as i16));
                out.push(Op::Move);
                proof {
                    assert(out@ =~= old(out)@ + self.spec_emit(
                        labels@,
                        consts@,
                        pos,
                    ).unwrap());
                }
                Ok(())
            },
            Stmt::Label(_) => {
                proof {
                    assert(out@ =~= old(out)@ + self.spec_emit(
                        labels@,
                        consts@,
                        pos,
                    ).unwrap());
                }
                Ok(())
            },
            Stmt::Call(name) => {
                let lab = match labels.get(name) {
                    Some(ip) => ip,
                    None => {
                        return Err(AsmError::UndefinedLabel(name.clone()));
                    },
                };
                let ret_name: String = name.clone().concat("_ret");
                let ret_lab = match labels.get(&ret_name) {
                    Some(ip) => ip,
                    None => {
                        return Err(AsmError::UndefinedLabel(name.clone()));
                    },
                };
                let jmp_rel: i128 = lab as i128 - out.len() as i128 - 2;
                let ret_rel: i128 = out.len() as i128 + 3 - ret_lab as i128;
                if !(-0x8000 <= jmp_rel && jmp_rel <= 0x7FFF && -0x8000 <= ret_rel && ret_rel
                    <= 0x7FFF) {
                    return Err(AsmError::DisplacementTooLarge);
                }
                out.push(Op::PushImmediate(ret_rel as i16));
                out.push(Op::PushImmediate(jmp_rel as i16));
                out.push(Op::Jmp(Cond::Always));
                proof {
                    assert(out@ =~= old(out)@ + self.spec_emit(
                        labels@,
                        consts@,
                        pos,
                    ).unwrap());
                }
                Ok(())
            },
            Stmt::Noop => {
                out.push(Op::Noop);
                proof {
                    assert(out@ =~= old(out)@ + self.spec_emit(
                        labels@,
                        consts@,
                        pos,
                    ).unwrap());
                }
                Ok(())
            },
        }
    }
}

/// The first index of `v` in `pool`, if present.
fn find_const(pool: &Vec<i64>, v: i64) -> (r: Option<usize>)
    ensures
        match r {
            Some(i) => pool@.contains(v) && i == first_index(pool@, v),
            None => !pool@.contains(v),
        },
{
    proof {
        lemma_first_index(pool@, v);
    }
    let n = pool.len();
    let mut i: usize = 0;
    while i < n
        invariant
            i <= n,
            n == pool@.len(),
            forall|j: int| 0 <= j < i ==> pool@[j] != v,
        decreases n - i,
    {
        if pool[i] == v {
            proof {
                assert(pool@.contains(v)) by {
                    assert(pool@[i as int] == v);
                }
                lemma_first_index_low(pool@, v, i as int);
            }
            return Some(i);
        }
        i = i + 1;
    }
    proof {
        if pool@.contains(v) {
            let k = choose|k: int| 0 <= k < pool@.len() && pool@[k] == v;
            assert(false);
        }
    }
    None
}

/// `first_index` is no later than any index holding `v`.
proof fn lemma_first_index_low(s: Seq<i64>, v: i64, i: int)
    requires
        0 <= i < s.len(),
        s[i] == v,
        forall|j: int| 0 <= j < i ==> s[j] != v,
    ensures
        first_index(s, v) == i,
    decreases s.len(),
{
    if s[0] != v {
        assert(forall|j: int| 0 <= j < i - 1 ==> s.drop_first()[j] != v);
        lemma_first_index_low(s.drop_first(), v, i - 1);
    }
}

} // verus!

verus! {

/// The number of opcodes that a statement sequence lays out to.
pub open spec fn sum_num_ops(stmts: Seq<Stmt>) -> nat
    decreases stmts.len(),
{
    if stmts.len() == 0 {
        0
    } else {
        stmts[0].spec_num_ops() + sum_num_ops(stmts.drop_first())
    }
}

/// Appending one statement adds its own op count.
pub proof fn lemma_sum_snoc(stmts: Seq<Stmt>, x: Stmt)
    ensures
        sum_num_ops(stmts.push(x)) == sum_num_ops(stmts) + x.spec_num_ops(),
    decreases stmts.len(),
{
    assert(stmts.push(x)[0] == if stmts.len() == 0 {
        x
    } else {
        stmts[0]
    });
    if stmts.len() == 0 {
        assert(stmts.push(x).drop_first() =~= Seq::<Stmt>::empty());
        assert(sum_num_ops(Seq::<Stmt>::empty()) == 0);
    } else {
        assert(stmts.push(x).drop_first() =~= stmts.drop_first().push(x));
        lemma_sum_snoc(stmts.drop_first(), x);
    }
}

/// The layout splits at any index.
pub proof fn lemma_sum_split(stmts: Seq<Stmt>, i: int)
    requires
        0 <= i <= stmts.len(),
    ensures
        sum_num_ops(stmts) == sum_num_ops(stmts.take(i)) + sum_num_ops(
            stmts.subrange(i, stmts.len() as int),
        ),
    decreases i,
{
    if i == 0 {
        assert(stmts.take(0) =~= Seq::empty());
        assert(stmts.subrange(0, stmts.len() as int) =~= stmts);
    } else {
        lemma_sum_split(stmts, i - 1);
        assert(stmts.take(i) =~= stmts.take(i - 1).push(stmts[i - 1]));
        lemma_sum_snoc(stmts.take(i - 1), stmts[i - 1]);
        assert(stmts.subrange(i - 1, stmts.len() as int)[0] == stmts[i - 1]);
        assert(stmts.subrange(i - 1, stmts.len() as int).drop_first() =~= stmts.subrange(
            i,
            stmts.len() as int,
        ));
    }
}

/// Whether two `Label` statements bind the same name.
pub open spec fn has_dup_label(stmts: Seq<Stmt>) -> bool {
    exists|i: int, j: int|
        #![trigger stmts[i], stmts[j]]
        0 <= i < j < stmts.len() && (match (stmts[i], stmts[j]) {
            (Stmt::Label(a), Stmt::Label(b)) => a@ == b@,
            _ => false,
        })
}

/// The label table that pass one derives: each `Label` statement's name
/// bound to the opcode index at which the next opcode will stand.
pub open spec fn labels_spec(stmts: Seq<Stmt>) -> Map<Seq<char>, nat>
    decreases stmts.len(),
{
    if stmts.len() == 0 {
        Map::empty()
    } else {
        let m = labels_spec(stmts.drop_last());
        match stmts.last() {
            Stmt::Label(l) => m.insert(l@, sum_num_ops(stmts.drop_last())),
            _ => m,
        }
    }
}

/// A name is in the label table exactly when some `Label` binds it.
pub proof fn lemma_labels_spec_contains(stmts: Seq<Stmt>, k: Seq<char>)
    ensures
        labels_spec(stmts).contains_key(k) <==> exists|i: int|
            #![trigger stmts[i]]
            0 <= i < stmts.len() && (match stmts[i] {
                Stmt::Label(l) => l@ == k,
                _ => false,
            }),
    decreases stmts.len(),
{
    if stmts.len() > 0 {
        lemma_labels_spec_contains(stmts.drop_last(), k);
        let n = stmts.len() as int;
        if labels_spec(stmts).contains_key(k) {
            if !(match stmts[n - 1] {
                Stmt::Label(l) => l@ == k,
                _ => false,
            }) {
                let i = choose|i: int|
                    #![trigger stmts.drop_last()[i]]
                    0 <= i < n - 1 && (match stmts.drop_last()[i] {
                        Stmt::Label(l) => l@ == k,
                        _ => false,
                    });
                assert(match stmts[i] {
                    Stmt::Label(l) => l@ == k,
                    _ => false,
                });
            }
        }
        if exists|i: int|
            #![trigger stmts[i]]
            0 <= i < n && (match stmts[i] {
                Stmt::Label(l) => l@ == k,
                _ => false,
            }) {
            let i = choose|i: int|
                #![trigger stmts[i]]
                0 <= i < n && (match stmts[i] {
                    Stmt::Label(l) => l@ == k,
                    _ => false,
                });
            if i < n - 1 {
                assert(match stmts.drop_last()[i] {
                    Stmt::Label(l) => l@ == k,
                    _ => false,
                });
            }
        }
    }
}

/// Pass one: walks the statements, advancing a bytecode index by each
/// statement's op count, and binds every label to the index where it
/// stands. Duplicate labels are rejected.
pub fn label_locations(stmts: &Vec<Stmt>) -> (r: Result<LabelTable, AsmError>)
    ensures
        match r {
            Ok(t) => t.wf() && t@ == labels_spec(stmts@) && !has_dup_label(stmts@) && sum_num_ops(
                stmts@,
            ) <= usize::MAX,
            Err(e) => match e {
                AsmError::DuplicateLabel(_) => has_dup_label(stmts@),
                AsmError::CodeTooLarge => sum_num_ops(stmts@) > usize::MAX,
                _ => false,
            },
        },
{
    let n = stmts.len();
    let mut table = LabelTable::new();
    let mut ip: usize = 0;
    let mut i: usize = 0;
    while i < n
        invariant
            i <= n,
            n == stmts@.len(),
            table.wf(),
            table@ == labels_spec(stmts@.take(i as int)),
            ip == sum_num_ops(stmts@.take(i as int)),
            !has_dup_label(stmts@.take(i as int)),
        decreases n - i,
    {
        let ghost prefix = stmts@.take(i as int);
        if let Stmt::Label(l) = &stmts[i] {
            match table.get(l) {
                Some(_) => {
                    proof {
                        lemma_labels_spec_contains(prefix, l@);
                        let j = choose|j: int|
                            #![trigger prefix[j]]
                            0 <= j < prefix.len() && (match prefix[j] {
                                Stmt::Label(m) => m@ == l@,
                                _ => false,
                            });
                        assert(match (stmts@[j], stmts@[i as int]) {
                            (Stmt::Label(a), Stmt::Label(b)) => a@ == b@,
                            _ => false,
                        });
                    }
                    return Err(AsmError::DuplicateLabel(l.clone()));
                },
                None => {
                    proof {
                        lemma_labels_spec_contains(prefix, l@);
                        lemma_entries_map_contains(table.entries@, l@);
                    }
                    let ghost pre_entries = table.entries@;
                    let lc = l.clone();
                    table.entries.push((lc, ip));
                    proof {
                        assert(table.entries@.drop_last() =~= pre_entries);
                        assert(table.entries@.last().0@ == l@ && table.entries@.last().1 == ip);
                    }
                },
            }
        }
        proof {
            let next = stmts@.take(i as int + 1);
            assert(next =~= prefix.push(stmts@[i as int]));
            assert(next.drop_last() =~= prefix);
            assert(next.last() == stmts@[i as int]);
            lemma_sum_snoc(prefix, stmts@[i as int]);
            assert(sum_num_ops(next) == ip + stmts@[i as int].spec_num_ops());
            if has_dup_label(next) {
                let (p, q) = choose|p: int, q: int|
                    #![trigger next[p], next[q]]
                    0 <= p < q < next.len() && (match (next[p], next[q]) {
                        (Stmt::Label(a), Stmt::Label(b)) => a@ == b@,
                        _ => false,
                    });
                if q < i {
                    assert(match (prefix[p], prefix[q]) {
                        (Stmt::Label(a), Stmt::Label(b)) => a@ == b@,
                        _ => false,
                    });
                } else {
                    lemma_labels_spec_contains(prefix, match stmts@[i as int] {
                        Stmt::Label(l) => l@,
                        _ => Seq::empty(),
                    });
                    assert(match prefix[p] {
                        Stmt::Label(a) => true,
                        _ => false,
                    });
                }
                assert(false);
            }
        }
        let adv = stmts[i].num_ops();
        ip = match ip.checked_add(adv) {
            Some(v) => v,
            None => {
                proof {
                    lemma_sum_split(stmts@, i as int + 1);
                }
                return Err(AsmError::CodeTooLarge);
            },
        };
        i = i + 1;
    }
    proof {
        assert(stmts@.take(n as int) =~= stmts@);
    }
    Ok(table)
}

} // verus!

verus! {

/// The pool after harvesting, from `acc`, every `PushInline` value too
/// large for an immediate, in order of first occurrence, deduplicated.
pub open spec fn extract_spec(stmts: Seq<Stmt>, acc: Seq<i64>) -> Seq<i64>
    decreases stmts.len(),
{
    if stmts.len() == 0 {
        acc
    } else {
        let acc2 = match stmts[0] {
            Stmt::PushInline(v) => if !inline_fits(v) && !acc.contains(v) {
                acc.push(v)
            } else {
                acc
            },
            _ => acc,
        };
        extract_spec(stmts.drop_first(), acc2)
    }
}

/// Harvesting keeps the pool free of repeats.
pub proof fn lemma_extract_no_dup(stmts: Seq<Stmt>, acc: Seq<i64>)
    requires
        forall|p: int, q: int| 0 <= p < q < acc.len() ==> acc[p] != acc[q],
    ensures
        forall|p: int, q: int|
            0 <= p < q < extract_spec(stmts, acc).len() ==> extract_spec(stmts, acc)[p]
                != extract_spec(stmts, acc)[q],
    decreases stmts.len(),
{
    if stmts.len() > 0 {
        let acc2 = (match stmts[0] {
            Stmt::PushInline(v) => if !inline_fits(v) && !acc.contains(v) {
                acc.push(v)
            } else {
                acc
            },
            _ => acc,
        });
        assert(extract_spec(stmts, acc) == extract_spec(stmts.drop_first(), acc2));
        if acc2 != acc {
            let v = stmts[0]->PushInline_0;
            assert(acc2 == acc.push(v));
            assert forall|p: int, q: int| 0 <= p < q < acc2.len() implies acc2[p] != acc2[q] by {
                if q == acc.len() {
                    assert(acc2[p] == acc[p]);
                    assert(acc2[q] == v);
                    assert(acc.contains(acc[p])) by {
                        assert(acc[p] == acc[p]);
                    }
                }
            }
        }
        lemma_extract_no_dup(stmts.drop_first(), acc2);
    }
}

/// The pool only grows, and keeps what it had.
pub proof fn lemma_extract_prefix(stmts: Seq<Stmt>, acc: Seq<i64>)
    ensures
        acc.is_prefix_of(extract_spec(stmts, acc)),
    decreases stmts.len(),
{
    assert(acc =~= acc.subrange(0, acc.len() as int));
    if stmts.len() > 0 {
        match stmts[0] {
            Stmt::PushInline(v) => {
                if !inline_fits(v) && !acc.contains(v) {
                    lemma_extract_prefix(stmts.drop_first(), acc.push(v));
                    assert(acc =~= extract_spec(stmts, acc).subrange(0, acc.len() as int));
                } else {
                    lemma_extract_prefix(stmts.drop_first(), acc);
                }
            },
            _ => {
                lemma_extract_prefix(stmts.drop_first(), acc);
            },
        }
    }
}

/// Every oversized inline value ends up in the pool.
pub proof fn lemma_extract_complete(stmts: Seq<Stmt>, acc: Seq<i64>, i: int)
    requires
        0 <= i < stmts.len(),
        stmts[i] matches Stmt::PushInline(v) && !inline_fits(v),
    ensures
        extract_spec(stmts, acc).contains(stmts[i]->PushInline_0),
    decreases stmts.len(),
{
    let v = stmts[i]->PushInline_0;
    if i == 0 {
        let acc2 = if !acc.contains(v) {
            acc.push(v)
        } else {
            acc
        };
        assert(acc2.contains(v)) by {
            if !acc.contains(v) {
                assert(acc.push(v).last() == v);
            }
        }
        lemma_extract_prefix(stmts.drop_first(), acc2);
        let res = extract_spec(stmts, acc);
        let j = choose|j: int| 0 <= j < acc2.len() && acc2[j] == v;
        assert(res[j] == v);
    } else {
        let acc2 = match stmts[0] {
            Stmt::PushInline(w) => if !inline_fits(w) && !acc.contains(w) {
                acc.push(w)
            } else {
                acc
            },
            _ => acc,
        };
        assert(stmts.drop_first()[i - 1] == stmts[i]);
        lemma_extract_complete(stmts.drop_first(), acc2, i - 1);
    }
}

/// Pass one, constants: appends to `c` every `PushInline` value beyond the
/// immediate range that `c` does not already hold, in order of first
/// occurrence.
pub fn extract_constants(stmts: &Vec<Stmt>, c: &mut Vec<i64>)
    ensures
        final(c)@ == extract_spec(stmts@, old(c)@),
{
    let n = stmts.len();
    proof {
        assert(stmts@.subrange(0, n as int) =~= stmts@);
    }
    let mut i: usize = 0;
    while i < n
        invariant
            i <= n,
            n == stmts@.len(),
            extract_spec(stmts@.subrange(i as int, n as int), c@) == extract_spec(
                stmts@,
                old(c)@,
            ),
        decreases n - i,
    {
        let ghost rest = stmts@.subrange(i as int, n as int);
        match &stmts[i] {
            Stmt::PushInline(v) => {
                if (*v < -0x8000 || *v > 0xFFFFFF) && !vec_contains_i64(c, *v) {
                    c.push(*v);
                }
            },
            _ => {},
        }
        i = i + 1;
        proof {
            assert(rest.drop_first() =~= stmts@.subrange(i as int, n as int));
        }
    }
    proof {
        assert(stmts@.subrange(n as int, n as int) =~= Seq::<Stmt>::empty());
    }
}

/// Whether `x` occurs in `v`.
fn vec_contains_i64(v: &Vec<i64>, x: i64) -> (r: bool)
    ensures
        r == v@.contains(x),
{
    let n = v.len();
    let mut i: usize = 0;
    while i < n
        invariant
            i <= n,
            n == v@.len(),
            forall|j: int| 0 <= j < i ==> v@[j] != x,
        decreases n - i,
    {
        if v[i] == x {
            proof {
                assert(v@.contains(x)) by {
                    assert(v@[i as int] == x);
                }
            }
            return true;
        }
        i = i + 1;
    }
    false
}

/// Pass two over a whole statement sequence, starting at index `pos`.
pub open spec fn emit_all(
    stmts: Seq<Stmt>,
    labels: Map<Seq<char>, nat>,
    consts: Seq<i64>,
    pos: nat,
) -> Result<Seq<Op>, AsmError>
    decreases stmts.len(),
{
    if stmts.len() == 0 {
        Ok(Seq::empty())
    } else {
        match stmts[0].spec_emit(labels, consts, pos) {
            Err(e) => Err(e),
            Ok(ops) => match emit_all(stmts.drop_first(), labels, consts, pos + ops.len()) {
                Err(e) => Err(e),
                Ok(rest) => Ok(ops + rest),
            },
        }
    }
}

/// On success a statement emits exactly its measured op count.
pub proof fn lemma_spec_emit_len(
    s: Stmt,
    labels: Map<Seq<char>, nat>,
    consts: Seq<i64>,
    pos: nat,
)
    ensures
        s.spec_emit(labels, consts, pos) matches Ok(ops) ==> ops.len() == s.spec_num_ops(),
{
}

/// Emitting one more statement appends its opcodes at the accumulated
/// position, or stops at its failure.
pub proof fn lemma_emit_all_snoc(
    stmts: Seq<Stmt>,
    x: Stmt,
    labels: Map<Seq<char>, nat>,
    consts: Seq<i64>,
    pos: nat,
)
    ensures
        emit_all(stmts.push(x), labels, consts, pos) == (match emit_all(
            stmts,
            labels,
            consts,
            pos,
        ) {
            Err(e) => Err(e),
            Ok(ops) => match x.spec_emit(labels, consts, pos + ops.len()) {
                Err(e) => Err(e),
                Ok(xops) => Ok(ops + xops),
            },
        }),
    decreases stmts.len(),
{
    reveal_with_fuel(emit_all, 3);
    assert(stmts.push(x)[0] == if stmts.len() == 0 {
        x
    } else {
        stmts[0]
    });
    if stmts.len() == 0 {
        assert(stmts.push(x).drop_first() =~= Seq::<Stmt>::empty());
        match x.spec_emit(labels, consts, pos) {
            Ok(xops) => {
                assert(Seq::<Op>::empty() + xops =~= xops);
                assert(xops + Seq::<Op>::empty() =~= xops);
            },
            Err(_) => {},
        }
    } else {
        assert(stmts.push(x).drop_first() =~= stmts.drop_first().push(x));
        match stmts[0].spec_emit(labels, consts, pos) {
            Err(_) => {},
            Ok(ops) => {
                lemma_emit_all_snoc(stmts.drop_first(), x, labels, consts, pos + ops.len());
                match emit_all(stmts.drop_first(), labels, consts, pos + ops.len()) {
                    Err(_) => {},
                    Ok(rest) => {
                        match x.spec_emit(labels, consts, pos + ops.len() + rest.len()) {
                            Err(_) => {},
                            Ok(xops) => {
                                assert((ops + rest) + xops =~= ops + (rest + xops));
                            },
                        }
                    },
                }
            },
        }
    }
}

/// A failure in a prefix is the failure of the whole.
pub proof fn lemma_emit_all_prefix_err(
    stmts: Seq<Stmt>,
    k: int,
    labels: Map<Seq<char>, nat>,
    consts: Seq<i64>,
    pos: nat,
    e: AsmError,
)
    requires
        0 <= k <= stmts.len(),
        emit_all(stmts.take(k), labels, consts, pos) == Err::<Seq<Op>, AsmError>(e),
    ensures
        emit_all(stmts, labels, consts, pos) == Err::<Seq<Op>, AsmError>(e),
    decreases stmts.len(),
{
    assert(k > 0);
    assert(stmts.take(k)[0] == stmts[0]);
    match stmts[0].spec_emit(labels, consts, pos) {
        Err(_) => {},
        Ok(ops) => {
            assert(stmts.take(k).drop_first() =~= stmts.drop_first().take(k - 1));
            lemma_emit_all_prefix_err(
                stmts.drop_first(),
                k - 1,
                labels,
                consts,
                pos + ops.len(),
                e,
            );
        },
    }
}

/// The whole emission is exactly as long as pass one measured (the
/// assembler round-trip length).
pub proof fn lemma_emit_all_len(
    stmts: Seq<Stmt>,
    labels: Map<Seq<char>, nat>,
    consts: Seq<i64>,
    pos: nat,
)
    ensures
        emit_all(stmts, labels, consts, pos) matches Ok(ops) ==> ops.len() == sum_num_ops(stmts),
    decreases stmts.len(),
{
    if stmts.len() > 0 {
        match stmts[0].spec_emit(labels, consts, pos) {
            Err(_) => {},
            Ok(ops) => {
                lemma_spec_emit_len(stmts[0], labels, consts, pos);
                lemma_emit_all_len(stmts.drop_first(), labels, consts, pos + ops.len());
            },
        }
    }
}

/// The whole assembler: lays out labels, harvests oversized constants into
/// the pool after the caller's `data` section, emits every statement, and
/// closes the code with a final `Noop` so that a label at the very end has
/// an opcode to land on.
pub fn assemble(data: Vec<i64>, stmts: &Vec<Stmt>) -> (r: Result<Program, AsmError>)
    ensures
        match r {
            Ok(p) => {
                &&& !has_dup_label(stmts@)
                &&& sum_num_ops(stmts@) <= usize::MAX
                &&& p.data@ == extract_spec(stmts@, data@)
                &&& emit_all(stmts@, labels_spec(stmts@), p.data@, 0) matches Ok(ops)
                    && p.code@ == ops + seq![Op::Noop]
                &&& p.code@.len() == sum_num_ops(stmts@) + 1
            },
            Err(e) => match e {
                AsmError::DuplicateLabel(_) => has_dup_label(stmts@),
                AsmError::CodeTooLarge => sum_num_ops(stmts@) > usize::MAX,
                _ => emit_all(stmts@, labels_spec(stmts@), extract_spec(stmts@, data@), 0)
                    == Err::<Seq<Op>, AsmError>(e),
            },
        },
{
    let labels = match label_locations(stmts) {
        Ok(t) => t,
        Err(e) => {
            return Err(e);
        },
    };
    let mut pool = data;
    extract_constants(stmts, &mut pool);
    let mut code: Vec<Op> = Vec::new();
    let n = stmts.len();
    let mut i: usize = 0;
    while i < n
        invariant
            i <= n,
            n == stmts@.len(),
            labels.wf(),
            labels@ == labels_spec(stmts@),
            pool@ == extract_spec(stmts@, data@),
            emit_all(stmts@.take(i as int), labels@, pool@, 0) == Ok::<Seq<Op>, AsmError>(code@),
        decreases n - i,
    {
        let ghost prefix = stmts@.take(i as int);
        let ghost pre_code = code@;
        let res = stmts[i].emit(&labels, &pool, &mut code);
        proof {
            lemma_emit_all_snoc(prefix, stmts@[i as int], labels@, pool@, 0);
            lemma_emit_all_len(prefix, labels@, pool@, 0);
            assert(stmts@.take(i as int + 1) =~= prefix.push(stmts@[i as int]));
        }
        match res {
            Ok(_) => {},
            Err(e) => {
                proof {
                    lemma_emit_all_prefix_err(
                        stmts@,
                        i as int + 1,
                        labels@,
                        pool@,
                        0,
                        e,
                    );
                }
                return Err(e);
            },
        }
        i = i + 1;
    }
    proof {
        assert(stmts@.take(n as int) =~= stmts@);
        lemma_emit_all_len(stmts@, labels@, pool@, 0);
    }
    code.push(Op::Noop);
    proof {
        assert(code@ =~= code@.drop_last() + seq![Op::Noop]);
    }
    Ok(Program { data: pool, code })
}

} // verus!

verus! {

/// The opcodes of the `i`th statement stand at the position that pass one
/// measured for it, and are exactly its own emission.
pub proof fn lemma_emit_all_at(
    stmts: Seq<Stmt>,
    labels: Map<Seq<char>, nat>,
    consts: Seq<i64>,
    pos: nat,
    i: int,
)
    requires
        0 <= i < stmts.len(),
        emit_all(stmts, labels, consts, pos) is Ok,
    ensures
        stmts[i].spec_emit(labels, consts, pos + sum_num_ops(stmts.take(i))) matches Ok(si)
            && emit_all(stmts, labels, consts, pos)->Ok_0.subrange(
            sum_num_ops(stmts.take(i)) as int,
            sum_num_ops(stmts.take(i)) + stmts[i].spec_num_ops() as int,
        ) == si,
    decreases stmts.len(),
{
    let ops = emit_all(stmts, labels, consts, pos)->Ok_0;
    let ops0 = stmts[0].spec_emit(labels, consts, pos)->Ok_0;
    let rest = emit_all(stmts.drop_first(), labels, consts, pos + ops0.len())->Ok_0;
    lemma_spec_emit_len(stmts[0], labels, consts, pos);
    lemma_emit_all_len(stmts.drop_first(), labels, consts, pos + ops0.len());
    assert(ops == ops0 + rest);
    if i == 0 {
        assert(stmts.take(0) =~= Seq::<Stmt>::empty());
        assert(ops.subrange(0, ops0.len() as int) =~= ops0);
    } else {
        lemma_emit_all_at(stmts.drop_first(), labels, consts, pos + ops0.len(), i - 1);
        assert(stmts.drop_first()[i - 1] == stmts[i]);
        assert(stmts.take(i).drop_first() =~= stmts.drop_first().take(i - 1));
        let p1 = sum_num_ops(stmts.drop_first().take(i - 1));
        assert(sum_num_ops(stmts.take(i)) == stmts[0].spec_num_ops() + p1);
        let ni = stmts[i].spec_num_ops();
        lemma_sum_split(stmts.drop_first(), i - 1);
        lemma_spec_emit_len(stmts[i], labels, consts, pos + ops0.len() + p1);
        assert(p1 + ni <= rest.len()) by {
            assert(stmts.drop_first().subrange(i - 1, stmts.drop_first().len() as int)[0]
                == stmts[i]);
            assert(sum_num_ops(stmts.drop_first().subrange(i - 1, stmts.drop_first().len() as int))
                >= ni);
        }
        assert(ops.subrange(
            ops0.len() + p1 as int,
            ops0.len() + p1 + ni as int,
        ) =~= rest.subrange(p1 as int, p1 + ni as int));
    }
}

/// Label correctness, assembler half: a `Jmp` to a defined label emits, at
/// its own position `p`, an immediate displacement `d` with
/// `p + 1 + d == label_ip`, followed by the jump. Together with
/// `lemma_pushed_jump_taken`, a taken jump lands exactly on the label.
pub proof fn lemma_label_correctness(stmts: Seq<Stmt>, consts: Seq<i64>, i: int)
    requires
        0 <= i < stmts.len(),
        stmts[i] matches Stmt::Jmp(_, Some(_)),
        emit_all(stmts, labels_spec(stmts), consts, 0) is Ok,
    ensures
        ({
            let l = stmts[i]->Jmp_1->Some_0;
            let c = stmts[i]->Jmp_0;
            let p = sum_num_ops(stmts.take(i));
            let ops = emit_all(stmts, labels_spec(stmts), consts, 0)->Ok_0;
            &&& labels_spec(stmts).contains_key(l@)
            &&& p + 2 as int <= ops.len()
            &&& ops[p as int] == Op::PushImmediate((labels_spec(stmts)[l@] - p - 1) as i16)
            &&& p + 1 + (labels_spec(stmts)[l@] - p - 1) == labels_spec(stmts)[l@]
            &&& ops[p + 1 as int] == Op::Jmp(c)
        }),
{
    let labels = labels_spec(stmts);
    let p = sum_num_ops(stmts.take(i));
    lemma_emit_all_at(stmts, labels, consts, 0, i);
    lemma_emit_all_len(stmts, labels, consts, 0);
    lemma_sum_split(stmts, i);
    let ops = emit_all(stmts, labels, consts, 0)->Ok_0;
    let si = stmts[i].spec_emit(labels, consts, p)->Ok_0;
    assert(sum_num_ops(stmts.subrange(i, stmts.len() as int)) >= stmts[i].spec_num_ops()) by {
        assert(stmts.subrange(i, stmts.len() as int)[0] == stmts[i]);
    }
    assert(ops[p as int] == si[0] && ops[p + 1 as int] == si[1]) by {
        assert(ops.subrange(p as int, p + 2 as int)[0] == ops[p as int]);
        assert(ops.subrange(p as int, p + 2 as int)[1] == ops[p + 1 as int]);
    }
}

/// A `Pop` of zero values emits nothing and occupies no space.
pub proof fn lemma_pop_elision(labels: Map<Seq<char>, nat>, consts: Seq<i64>, pos: nat)
    ensures
        Stmt::Pop(0).spec_num_ops() == 0,
        Stmt::Pop(0).spec_emit(labels, consts, pos) == Ok::<Seq<Op>, AsmError>(Seq::empty()),
{
}

} // verus!

verus! {

/// Rendering as lines of assembly text.
pub trait Disass {
    /// The exact text that `print_lines` appends.
    spec fn disass(&self) -> Seq<char>;

    fn print_lines(&self, out: &mut Vec<char>)
        ensures
            final(out)@ == old(out)@ + self.disass(),
    ;
}

/// The mnemonic of a jump condition.
pub open spec fn cond_text(c: Cond) -> Seq<char> {
    match c {
        Cond::Always => "always"@,
        Cond::NonZero => "nz"@,
        Cond::Zero => "z"@,
    }
}

/// The mnemonic line of an arithmetic opcode.
pub open spec fn arith_text(op: ArithOp) -> Seq<char> {
    match op {
        ArithOp::Add => "    add\n"@,
        ArithOp::Sub => "    sub\n"@,
        ArithOp::Mul => "    mul\n"@,
        ArithOp::Div => "    div\n"@,
        ArithOp::Or => "    or\n"@,
        ArithOp::And => "    and\n"@,
        ArithOp::Equal => "    eq\n"@,
        ArithOp::NotEqual => "    neq\n"@,
        ArithOp::LessThan => "    lt\n"@,
        ArithOp::LessEqual => "    le\n"@,
    }
}

impl Disass for Stmt {
    open spec fn disass(&self) -> Seq<char> {
        match self {
            Stmt::PushInline(v) => "    push "@ + dec_str(*v as int) + "\n"@,
            Stmt::PushConst(v) => "    push const."@ + dec_str(*v as int) + "\n"@,
            Stmt::PushStack(v) => "    push stack."@ + dec_str(*v as int) + "\n"@,
            Stmt::Jmp(cond, Some(l)) => "    jmp "@ + cond_text(*cond) + " "@ + l@ + "\n"@,
            Stmt::Jmp(cond, None) => "    jmp "@ + cond_text(*cond) + "\n"@,
            Stmt::Arith(op) => arith_text(*op),
            Stmt::Output(ch) => "    output #"@ + dec_str(*ch as int) + "\n"@,
            Stmt::Pop(n) => if *n == 1 {
                "    pop\n"@
            } else {
                "    pop "@ + dec_str(*n as int) + "\n"@
            },
            Stmt::Move(offs) => "    move "@ + dec_str(*offs as int) + "\n"@,
            Stmt::Label(l) => l@ + ":\n"@,
            Stmt::Call(name) => "    call "@ + name@ + "\n"@,
            Stmt::Noop => "    noop\n"@,
        }
    }

    fn print_lines(&self, out: &mut Vec<char>) {
        match self {
            Stmt::PushInline(v) => {
                crate::text::push_str_chars("    push ", out);
                push_dec_i64(*v, out);
                crate::text::push_str_chars("\n", out);
            },
            Stmt::PushConst(v) => {
                crate::text::push_str_chars("    push const.", out);
                push_dec_i64(*v, out);
                crate::text::push_str_chars("\n", out);
            },
            Stmt::PushStack(v) => {
                crate::text::push_str_chars("    push stack.", out);
                push_dec_i64(*v, out);
                crate::text::push_str_chars("\n", out);
            },
            Stmt::Jmp(cond, label) => {
                crate::text::push_str_chars("    jmp ", out);
                match cond {
                    Cond::Always => crate::text::push_str_chars("always", out),
                    Cond::NonZero => crate::text::push_str_chars("nz", out),
                    Cond::Zero => crate::text::push_str_chars("z", out),
                }
                if let Some(l) = label {
                    crate::text::push_str_chars(" ", out);
                    crate::text::push_str_chars(l.as_str(), out);
                }
                crate::text::push_str_chars("\n", out);
            },
            Stmt::Arith(op) => {
                match op {
                    ArithOp::Add => crate::text::push_str_chars("    add\n", out),
                    ArithOp::Sub => crate::text::push_str_chars("    sub\n", out),
                    ArithOp::Mul => crate::text::push_str_chars("    mul\n", out),
                    ArithOp::Div => crate::text::push_str_chars("    div\n", out),
                    ArithOp::Or => crate::text::push_str_chars("    or\n", out),
                    ArithOp::And => crate::text::push_str_chars("    and\n", out),
                    ArithOp::Equal => crate::text::push_str_chars("    eq\n", out),
                    ArithOp::NotEqual => crate::text::push_str_chars("    neq\n", out),
                    ArithOp::LessThan => crate::text::push_str_chars("    lt\n", out),
                    ArithOp::LessEqual => crate::text::push_str_chars("    le\n", out),
                }
            },
            Stmt::Output(ch) => {
                crate::text::push_str_chars("    output #", out);
                push_dec_i64(*ch, out);
                crate::text::push_str_chars("\n", out);
            },
            Stmt::Pop(n) => {
                if *n == 1 {
                    crate::text::push_str_chars("    pop\n", out);
                } else {
                    crate::text::push_str_chars("    pop ", out);
                    push_dec_i64(*n, out);
                    crate::text::push_str_chars("\n", out);
                }
            },
            Stmt::Move(offs) => {
                crate::text::push_str_chars("    move ", out);
                push_dec_i64(*offs, out);
                crate::text::push_str_chars("\n", out);
            },
            Stmt::Label(l) => {
                crate::text::push_str_chars(l.as_str(), out);
                crate::text::push_str_chars(":\n", out);
            },
            Stmt::Call(name) => {
                crate::text::push_str_chars("    call ", out);
                crate::text::push_str_chars(name.as_str(), out);
                crate::text::push_str_chars("\n", out);
            },
            Stmt::Noop => {
                crate::text::push_str_chars("    noop\n", out);
            },
        }
        proof {
            assert(out@ =~= old(out)@ + self.disass());
        }
    }
}

/// The lines of a data section body, one value each.
pub open spec fn data_lines(vs: Seq<i64>) -> Seq<char>
    decreases vs.len(),
{
    if vs.len() == 0 {
        Seq::empty()
    } else {
        dec_str(vs[0] as int) + "\n"@ + data_lines(vs.drop_first())
    }
}

/// The lines of a code section body, statement by statement.
pub open spec fn code_lines(stmts: Seq<Stmt>) -> Seq<char>
    decreases stmts.len(),
{
    if stmts.len() == 0 {
        Seq::empty()
    } else {
        stmts[0].disass() + code_lines(stmts.drop_first())
    }
}

impl Disass for Section {
    open spec fn disass(&self) -> Seq<char> {
        match self {
            Section::Data(vs) => "section .const\n"@ + data_lines(vs@),
            Section::Code(stmts) => "section .code\n"@ + code_lines(stmts@),
        }
    }

    fn print_lines(&self, out: &mut Vec<char>) {
        match self {
            Section::Data(vs) => {
                crate::text::push_str_chars("section .const\n", out);
                let n = vs.len();
                proof {
                    assert(vs@.subrange(0, n as int) =~= vs@);
                    assert(out@ + data_lines(vs@) =~= old(out)@ + self.disass());
                }
                let mut i: usize = 0;
                while i < n
                    invariant
                        i <= n,
                        n == vs@.len(),
                        out@ + data_lines(vs@.subrange(i as int, n as int)) == old(out)@
                            + self.disass(),
                    decreases n - i,
                {
                    let ghost rest = vs@.subrange(i as int, n as int);
                    push_dec_i64(vs[i], out);
                    crate::text::push_str_chars("\n", out);
                    i = i + 1;
                    proof {
                        assert(rest.drop_first() =~= vs@.subrange(i as int, n as int));
                        assert(out@ + data_lines(vs@.subrange(i as int, n as int)) =~= old(out)@
                            + self.disass());
                    }
                }
                proof {
                    assert(data_lines(vs@.subrange(n as int, n as int)) =~= Seq::<char>::empty());
                    assert(out@ =~= old(out)@ + self.disass());
                }
            },
            Section::Code(stmts) => {
                crate::text::push_str_chars("section .code\n", out);
                let n = stmts.len();
                proof {
                    assert(stmts@.subrange(0, n as int) =~= stmts@);
                    assert(out@ + code_lines(stmts@) =~= old(out)@ + self.disass());
                }
                let mut i: usize = 0;
                while i < n
                    invariant
                        i <= n,
                        n == stmts@.len(),
                        out@ + code_lines(stmts@.subrange(i as int, n as int)) == old(out)@
                            + self.disass(),
                    decreases n - i,
                {
                    let ghost rest = stmts@.subrange(i as int, n as int);
                    stmts[i].print_lines(out);
                    i = i + 1;
                    proof {
                        assert(rest.drop_first() =~= stmts@.subrange(i as int, n as int));
                        assert(out@ + code_lines(stmts@.subrange(i as int, n as int)) =~= old(
                            out,
                        )@ + self.disass());
                    }
                }
                proof {
                    assert(code_lines(stmts@.subrange(n as int, n as int))
                        =~= Seq::<char>::empty());
                    assert(out@ =~= old(out)@ + self.disass());
                }
            },
        }
    }
}

} // verus!

verus! {

/// The mathematical form of a statement: label names as character
/// sequences, so that specifications can build statements.
#[verifier::ext_equal]
pub enum StmtView {
    PushInline(i64),
    PushConst(i64),
    PushStack(i64),
    Jmp(Cond, Option<Seq<char>>),
    Arith(ArithOp),
    Output(i64),
    Pop(i64),
    Move(i64),
    Label(Seq<char>),
    Call(Seq<char>),
    Noop,
}

impl View for Stmt {
    type V = StmtView;

    open spec fn view(&self) -> StmtView {
        match self {
            Stmt::PushInline(v) => StmtView::PushInline(*v),
            Stmt::PushConst(v) => StmtView::PushConst(*v),
            Stmt::PushStack(v) => StmtView::PushStack(*v),
            Stmt::Jmp(c, Some(l)) => StmtView::Jmp(*c, Some(l@)),
            Stmt::Jmp(c, None) => StmtView::Jmp(*c, None),
            Stmt::Arith(op) => StmtView::Arith(*op),
            Stmt::Output(ch) => StmtView::Output(*ch),
            Stmt::Pop(n) => StmtView::Pop(*n),
            Stmt::Move(o) => StmtView::Move(*o),
            Stmt::Label(l) => StmtView::Label(l@),
            Stmt::Call(n) => StmtView::Call(n@),
            Stmt::Noop => StmtView::Noop,
        }
    }
}

/// The views of a statement sequence.
pub open spec fn stmts_view(s: Seq<Stmt>) -> Seq<StmtView> {
    s.map_values(|st: Stmt| st@)
}

} // verus!
