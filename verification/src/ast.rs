//! The L1 syntax tree and the identifier interner.
//!
//! Source identifiers are interned into opaque handles; the tree and the
//! code generator refer to identifiers only by handle.

use vstd::prelude::*;

verus! {

/// An interned identifier: the index of its name in the interner.
pub type Ident = usize;

/// The binary operators of L1 source expressions.
#[derive(Debug, Clone, Copy, PartialEq, Eq)]
pub enum Opcode {
    Mul,
    Div,
    Add,
    Sub,
    Or,
    And,
    Equal,
    NotEqual,
    LessThan,
    LessEqual,
    GreaterThan,
    GreaterEqual,
}

/// An L1 expression. `Error` is the parse-error sentinel; the code
/// generator rejects it.
#[derive(Debug, PartialEq)]
pub enum Expr {
    Number(i64),
    EnvLoad(Ident),
    Op(Box<Expr>, Opcode, Box<Expr>),
    Call(Ident, Vec<Expr>),
    Error,
}

/// An L1 statement. A `Block` with `false` is an expression block that
/// leaves exactly one value on the stack (function-body mode); with `true`
/// all its bindings are cleaned up.
#[derive(Debug, PartialEq)]
pub enum Stmt {
    LetBinding(Ident, Expr, bool),
    Assign(Ident, Expr, Option<Opcode>),
    Print(Vec<Expr>),
    IfElse(Expr, Box<Stmt>, Option<Box<Stmt>>),
    While(Expr, Box<Stmt>),
    Block(Vec<Stmt>, bool),
    Call(Expr),
    Return(Expr),
}

/// A top-level declaration: a function with its argument names and body.
#[derive(Debug, PartialEq)]
pub enum Declaration {
    Function(Ident, Vec<Ident>, Box<Stmt>),
}

/// One item of a program: a statement or a declaration.
#[derive(Debug, PartialEq)]
pub enum Toplevel {
    Stmt(Stmt),
    Declaration(Declaration),
}

/// The deduplicating identifier interner: each distinct name is stored
/// once, and its index is its handle.
pub struct Interner {
    pub names: Vec<String>,
}

impl Interner {
    /// The interned names, in insertion order.
    pub open spec fn view(&self) -> Seq<Seq<char>> {
        self.names@.map_values(|s: String| s@)
    }

    /// Every interned name occurs once.
    pub open spec fn wf(&self) -> bool {
        forall|i: int, j: int| 0 <= i < j < self@.len() ==> self@[i] != self@[j]
    }

    pub fn new() -> (r: Self)
        ensures
            r.wf(),
            r@ == Seq::<Seq<char>>::empty(),
    {
        let r = Interner { names: Vec::new() };
        proof {
            assert(r@ =~= Seq::<Seq<char>>::empty());
        }
        r
    }

    /// The handle of `item`: the existing one when the name is already
    /// interned, otherwise a fresh one for it.
    #[verifier::loop_isolation(false)]
    pub fn get_dedup(&mut self, item: String) -> (h: Ident)
        requires
            old(self).wf(),
        ensures
            final(self).wf(),
            h < final(self)@.len(),
            final(self)@[h as int] == item@,
            old(self)@.contains(item@) ==> *final(self) == *old(self),
            !old(self)@.contains(item@) ==> final(self)@ == old(self)@.push(item@) && h == old(
                self,
            )@.len(),
    {
        let n = self.names.len();
        let mut i: usize = 0;
        while i < n
            invariant
                i <= n,
                n == self.names@.len(),
                n == self@.len(),
                forall|j: int| 0 <= j < i ==> self@[j] != item@,
            decreases n - i,
        {
            if self.names[i] == item {
                proof {
                    assert(self@[i as int] == item@);
                }
                return i;
            }
            i = i + 1;
        }
        proof {
            if self@.contains(item@) {
                let j = choose|j: int| 0 <= j < self@.len() && self@[j] == item@;
                assert(false);
            }
        }
        self.names.push(item);
        proof {
            assert(self@ =~= old(self)@.push(self.names@.last()@));
        }
        n
    }

    /// The name behind a handle.
    pub fn get(&self, h: Ident) -> (r: Option<&String>)
        ensures
            match r {
                Some(s) => h < self@.len() && s@ == self@[h as int],
                None => h >= self@.len(),
            },
    {
        if h < self.names.len() {
            Some(&self.names[h])
        } else {
            None
        }
    }
}

} // verus!

verus! {

use crate::text::{dec_str, dec_str_nat};

/// The token an operator prints as.
pub open spec fn opcode_text(op: Opcode) -> Seq<char> {
    match op {
        Opcode::Mul => "*"@,
        Opcode::Div => "/"@,
        Opcode::Add => "+"@,
        Opcode::Sub => "-"@,
        Opcode::Or => "or"@,
        Opcode::And => "and"@,
        Opcode::Equal => "=="@,
        Opcode::NotEqual => "!="@,
        Opcode::LessThan => "<"@,
        Opcode::LessEqual => "<="@,
        Opcode::GreaterThan => ">"@,
        Opcode::GreaterEqual => ">="@,
    }
}

/// The rendering of an expression: numbers in decimal, operators fully
/// parenthesised, loads by handle, and the parse-error sentinel as the
/// word `error`.
pub open spec fn expr_text(e: Expr) -> Seq<char>
    decreases e,
{
    match e {
        Expr::Number(v) => dec_str(v as int),
        Expr::EnvLoad(h) => "load("@ + dec_str_nat(h as nat) + ")"@,
        Expr::Op(a, op, b) => "("@ + expr_text(*a) + " "@ + opcode_text(op) + " "@ + expr_text(*b)
            + ")"@,
        Expr::Call(h, args) => "call("@ + dec_str_nat(h as nat) + ")("@ + expr_list_text(args@)
            + ")"@,
        Expr::Error => "error"@,
    }
}

/// Expressions joined by a comma and a space.
pub open spec fn expr_list_text(es: Seq<Expr>) -> Seq<char>
    decreases es, 1nat,
{
    if es.len() == 0 {
        Seq::empty()
    } else {
        expr_text(es[0]) + expr_rest_text(es.drop_first())
    }
}

/// The tail of a joined list: a separator before every element.
pub open spec fn expr_rest_text(es: Seq<Expr>) -> Seq<char>
    decreases es, 0nat,
{
    if es.len() == 0 {
        Seq::empty()
    } else {
        ", "@ + expr_text(es[0]) + expr_rest_text(es.drop_first())
    }
}

/// Appends the rendering of `e`.
#[verifier::loop_isolation(false)]
pub fn push_expr_text(e: &Expr, out: &mut Vec<char>)
    ensures
        final(out)@ == old(out)@ + expr_text(*e),
    decreases *e,
{
    match e {
        Expr::Number(v) => {
            crate::text::push_dec_i64(*v, out);
        },
        Expr::EnvLoad(h) => {
            crate::text::push_str_chars("load(", out);
            crate::text::push_dec_usize(*h, out);
            crate::text::push_str_chars(")", out);
            proof {
                assert(out@ =~= old(out)@ + expr_text(*e));
            }
        },
        Expr::Op(a, op, b) => {
            crate::text::push_str_chars("(", out);
            push_expr_text(a, out);
            crate::text::push_str_chars(" ", out);
            match op {
                Opcode::Mul => crate::text::push_str_chars("*", out),
                Opcode::Div => crate::text::push_str_chars("/", out),
                Opcode::Add => crate::text::push_str_chars("+", out),
                Opcode::Sub => crate::text::push_str_chars("-", out),
                Opcode::Or => crate::text::push_str_chars("or", out),
                Opcode::And => crate::text::push_str_chars("and", out),
                Opcode::Equal => crate::text::push_str_chars("==", out),
                Opcode::NotEqual => crate::text::push_str_chars("!=", out),
                Opcode::LessThan => crate::text::push_str_chars("<", out),
                Opcode::LessEqual => crate::text::push_str_chars("<=", out),
                Opcode::GreaterThan => crate::text::push_str_chars(">", out),
                Opcode::GreaterEqual => crate::text::push_str_chars(">=", out),
            }
            crate::text::push_str_chars(" ", out);
            push_expr_text(b, out);
            crate::text::push_str_chars(")", out);
            proof {
                assert(out@ =~= old(out)@ + expr_text(*e));
            }
        },
        Expr::Call(h, args) => {
            crate::text::push_str_chars("call(", out);
            crate::text::push_dec_usize(*h, out);
            crate::text::push_str_chars(")(", out);
            let ghost mid = out@;
            let n = args.len();
            proof {
                assert(args@.subrange(0, n as int) =~= args@);
            }
            let mut i: usize = 0;
            while i < n
                invariant
                    i <= n,
                    n == args@.len(),
                    out@ + (if i == 0 {
                        expr_list_text(args@.subrange(i as int, n as int))
                    } else {
                        expr_rest_text(args@.subrange(i as int, n as int))
                    }) == mid + expr_list_text(args@),
                decreases n - i,
            {
                let ghost rest = args@.subrange(i as int, n as int);
                if i > 0 {
                    crate::text::push_str_chars(", ", out);
                }
                push_expr_text(&args[i], out);
                i = i + 1;
                proof {
                    assert(rest.drop_first() =~= args@.subrange(i as int, n as int));
                    assert(out@ + (if i == 0 {
                        expr_list_text(args@.subrange(i as int, n as int))
                    } else {
                        expr_rest_text(args@.subrange(i as int, n as int))
                    }) =~= mid + expr_list_text(args@));
                }
            }
            proof {
                assert(args@.subrange(n as int, n as int) =~= Seq::<Expr>::empty());
            }
            crate::text::push_str_chars(")", out);
            proof {
                assert(out@ =~= old(out)@ + expr_text(*e));
            }
        },
        Expr::Error => {
            crate::text::push_str_chars("error", out);
        },
    }
}

/// The rendering of one expression as a `String`.
pub fn expr_to_string(e: &Expr) -> (r: String)
    ensures
        r@ == expr_text(*e),
{
    let mut out: Vec<char> = Vec::new();
    push_expr_text(e, &mut out);
    crate::text::chars_to_string(&out)
}

/// The rendering of an expression list, bracketed and comma-separated.
#[verifier::loop_isolation(false)]
pub fn exprs_to_string(es: &Vec<Expr>) -> (r: String)
    ensures
        r@ == "["@ + expr_list_text(es@) + "]"@,
{
    let mut out: Vec<char> = Vec::new();
    crate::text::push_str_chars("[", &mut out);
    let ghost mid = out@;
    let n = es.len();
    proof {
        assert(es@.subrange(0, n as int) =~= es@);
    }
    let mut i: usize = 0;
    while i < n
        invariant
            i <= n,
            n == es@.len(),
            out@ + (if i == 0 {
                expr_list_text(es@.subrange(i as int, n as int))
            } else {
                expr_rest_text(es@.subrange(i as int, n as int))
            }) == mid + expr_list_text(es@),
        decreases n - i,
    {
        let ghost rest = es@.subrange(i as int, n as int);
        if i > 0 {
            crate::text::push_str_chars(", ", &mut out);
        }
        push_expr_text(&es[i], &mut out);
        i = i + 1;
        proof {
            assert(rest.drop_first() =~= es@.subrange(i as int, n as int));
            assert(out@ + (if i == 0 {
                expr_list_text(es@.subrange(i as int, n as int))
            } else {
                expr_rest_text(es@.subrange(i as int, n as int))
            }) =~= mid + expr_list_text(es@));
        }
    }
    proof {
        assert(es@.subrange(n as int, n as int) =~= Seq::<Expr>::empty());
    }
    crate::text::push_str_chars("]", &mut out);
    proof {
        assert(out@ =~= "["@ + expr_list_text(es@) + "]"@);
    }
    crate::text::chars_to_string(&out)
}

} // verus!
