//! A hand-written front end for arithmetic expression lists: a lexer and a
//! recursive-descent parser with error recovery. Where an operand is
//! missing, the parser records the position and stands in the `Error`
//! sentinel, so that a whole comma-separated list always parses.
//!
//! The grammar itself is surface layer; the contracts here state progress
//! and recovery accounting, not the language.

use crate::ast::{Expr, Opcode};
use vstd::prelude::*;
use vstd::string::StrSliceExecFns;

verus! {

/// Builds a binary operator node.
pub fn binop(a: Expr, op: Opcode, b: Expr) -> (r: Expr)
    ensures
        r matches Expr::Op(ba, rop, bb) && *ba == a && rop == op && *bb == b,
{
    Expr::Op(Box::new(a), op, Box::new(b))
}

/// A parse failure or recovery record: the token (or character) position
/// at which input stopped making sense.
#[derive(Debug, Clone, Copy, PartialEq, Eq, Structural)]
pub struct ParseErr {
    pub pos: usize,
}

/// The tokens of the expression language.
#[derive(Debug, Clone, Copy, PartialEq, Eq, Structural)]
enum Token {
    Num(i64),
    Plus,
    Minus,
    Star,
    Slash,
    LParen,
    RParen,
    Comma,
}

/// Whether `c` is a decimal digit.
fn is_digit(c: char) -> (r: bool)
    ensures
        r == ('0' <= c && c <= '9'),
{
    '0' <= c && c <= '9'
}

/// Splits the input into tokens. Numbers are decimal, or binary with a
/// `0b` prefix; whitespace separates; any other character is an error at
/// its position.
fn lex(s: &str) -> (r: Result<Vec<Token>, ParseErr>) {
    let n = s.unicode_len();
    let mut toks: Vec<Token> = Vec::new();
    let mut i: usize = 0;
    while i < n
        invariant
            i <= n,
            n == s@.len(),
        decreases n - i,
    {
        let c = s.get_char(i);
        if c == ' ' || c == '\t' || c == '\n' || c == '\r' {
            i = i + 1;
        } else if c == '+' {
            toks.push(Token::Plus);
            i = i + 1;
        } else if c == '-' {
            toks.push(Token::Minus);
            i = i + 1;
        } else if c == '*' {
            toks.push(Token::Star);
            i = i + 1;
        } else if c == '/' {
            toks.push(Token::Slash);
            i = i + 1;
        } else if c == '(' {
            toks.push(Token::LParen);
            i = i + 1;
        } else if c == ')' {
            toks.push(Token::RParen);
            i = i + 1;
        } else if c == ',' {
            toks.push(Token::Comma);
            i = i + 1;
        } else if is_digit(c) {
            let mut v: i64 = 0;
            if c == '0' && i + 1 < n && s.get_char(i + 1) == 'b' {
                i = i + 2;
                let start = i;
                while i < n && (s.get_char(i) == '0' || s.get_char(i) == '1')
                    invariant
                        start <= i <= n,
                        n == s@.len(),
                    decreases n - i,
                {
                    let d: i64 = if s.get_char(i) == '1' {
                        1
                    } else {
                        0
                    };
                    v = match v.checked_mul(2) {
                        Some(x) => match x.checked_add(d) {
                            Some(y) => y,
                            None => {
                                return Err(ParseErr { pos: i });
                            },
                        },
                        None => {
                            return Err(ParseErr { pos: i });
                        },
                    };
                    i = i + 1;
                }
                if i == start {
                    return Err(ParseErr { pos: i });
                }
            } else {
                v = (c as u8 - 0x30) as i64;
                i = i + 1;
                let start = i;
                while i < n && is_digit(s.get_char(i))
                    invariant
                        start <= i <= n,
                        n == s@.len(),
                    decreases n - i,
                {
                    let d: i64 = (s.get_char(i) as u8 - 0x30) as i64;
                    v = match v.checked_mul(10) {
                        Some(x) => match x.checked_add(d) {
                            Some(y) => y,
                            None => {
                                return Err(ParseErr { pos: i });
                            },
                        },
                        None => {
                            return Err(ParseErr { pos: i });
                        },
                    };
                    i = i + 1;
                }
            }
            toks.push(Token::Num(v));
        } else {
            return Err(ParseErr { pos: i });
        }
    }
    Ok(toks)
}

/// Parses the self-nested form `Term = Num | "(" Term ")"` at `i`.
fn term_at(toks: &Vec<Token>, i: usize) -> (r: Result<(i64, usize), ParseErr>)
    requires
        i <= toks@.len(),
    ensures
        r matches Ok(p) ==> i < p.1 <= toks@.len(),
    decreases toks@.len() - i,
{
    if i >= toks.len() {
        return Err(ParseErr { pos: i });
    }
    match toks[i] {
        Token::Num(v) => Ok((v, i + 1)),
        Token::LParen => {
            let (v, j) = match term_at(toks, i + 1) {
                Ok(p) => p,
                Err(e) => {
                    return Err(e);
                },
            };
            if j < toks.len() && matches!(toks[j], Token::RParen) {
                Ok((v, j + 1))
            } else {
                Err(ParseErr { pos: j })
            }
        },
        _ => Err(ParseErr { pos: i }),
    }
}

/// The parenthesised-number form: `22`, `(22)`, `((((22))))`. The whole
/// input must be one term.
pub fn parse_term(s: &str) -> (r: Result<i64, ParseErr>) {
    let toks = match lex(s) {
        Ok(t) => t,
        Err(e) => {
            return Err(e);
        },
    };
    let (v, j) = match term_at(&toks, 0) {
        Ok(p) => p,
        Err(e) => {
            return Err(e);
        },
    };
    if j == toks.len() {
        Ok(v)
    } else {
        Err(ParseErr { pos: j })
    }
}

/// An atom of the expression grammar: a number or a parenthesised
/// expression. Where neither stands, one recovery record is pushed and the
/// `Error` sentinel comes back without consuming anything.
#[verifier::loop_isolation(false)]
fn atom_rec(toks: &Vec<Token>, i: usize, errors: &mut Vec<ParseErr>) -> (r: (Expr, usize))
    requires
        i <= toks@.len(),
    ensures
        i <= r.1 <= toks@.len(),
        old(errors)@.is_prefix_of(final(errors)@),
    decreases toks@.len() - i, 0int,
{
    proof {
        assert(errors@ =~= errors@.subrange(0, errors@.len() as int));
    }
    if i >= toks.len() {
        errors.push(ParseErr { pos: i });
        proof {
            assert(old(errors)@ =~= errors@.subrange(0, old(errors)@.len() as int));
        }
        return (Expr::Error, i);
    }
    match toks[i] {
        Token::Num(v) => (Expr::Number(v), i + 1),
        Token::LParen => {
            let (e, j) = expr_rec(toks, i + 1, errors);
            proof {
                assert(old(errors)@ =~= errors@.subrange(0, old(errors)@.len() as int));
            }
            if j < toks.len() && matches!(toks[j], Token::RParen) {
                (e, j + 1)
            } else {
                // an unclosed group still yields its inner expression
                errors.push(ParseErr { pos: j });
                proof {
                    assert(old(errors)@ =~= errors@.subrange(0, old(errors)@.len() as int));
                }
                (e, j)
            }
        },
        _ => {
            errors.push(ParseErr { pos: i });
            proof {
                assert(old(errors)@ =~= errors@.subrange(0, old(errors)@.len() as int));
            }
            (Expr::Error, i)
        },
    }
}

/// A product: atoms joined by `*` and `/`, left associated.
#[verifier::loop_isolation(false)]
fn factor_rec(toks: &Vec<Token>, i: usize, errors: &mut Vec<ParseErr>) -> (r: (Expr, usize))
    requires
        i <= toks@.len(),
    ensures
        i <= r.1 <= toks@.len(),
        old(errors)@.is_prefix_of(final(errors)@),
    decreases toks@.len() - i, 1int,
{
    proof {
        assert(errors@ =~= errors@.subrange(0, errors@.len() as int));
    }
    let (first, mut j) = atom_rec(toks, i, errors);
    let mut acc = first;
    while j < toks.len() && matches!(toks[j], Token::Star | Token::Slash)
        invariant
            i <= j <= toks@.len(),
            old(errors)@.is_prefix_of(errors@),
        decreases toks@.len() - j,
    {
        let op = if matches!(toks[j], Token::Star) {
            Opcode::Mul
        } else {
            Opcode::Div
        };
        let ghost before = errors@;
        let (rhs, j2) = atom_rec(toks, j + 1, errors);
        proof {
            assert(old(errors)@ =~= errors@.subrange(0, old(errors)@.len() as int));
        }
        acc = Expr::Op(Box::new(acc), op, Box::new(rhs));
        j = j2;
    }
    (acc, j)
}

/// A sum: products joined by `+` and `-`, left associated.
#[verifier::loop_isolation(false)]
fn expr_rec(toks: &Vec<Token>, i: usize, errors: &mut Vec<ParseErr>) -> (r: (Expr, usize))
    requires
        i <= toks@.len(),
    ensures
        i <= r.1 <= toks@.len(),
        old(errors)@.is_prefix_of(final(errors)@),
    decreases toks@.len() - i, 2int,
{
    proof {
        assert(errors@ =~= errors@.subrange(0, errors@.len() as int));
    }
    let (first, mut j) = factor_rec(toks, i, errors);
    let mut acc = first;
    while j < toks.len() && matches!(toks[j], Token::Plus | Token::Minus)
        invariant
            i <= j <= toks@.len(),
            old(errors)@.is_prefix_of(errors@),
        decreases toks@.len() - j,
    {
        let op = if matches!(toks[j], Token::Plus) {
            Opcode::Add
        } else {
            Opcode::Sub
        };
        let (rhs, j2) = factor_rec(toks, j + 1, errors);
        proof {
            assert(old(errors)@ =~= errors@.subrange(0, old(errors)@.len() as int));
        }
        acc = Expr::Op(Box::new(acc), op, Box::new(rhs));
        j = j2;
    }
    (acc, j)
}

/// A comma-separated expression list with error recovery: a missing
/// operand becomes the `Error` sentinel and one record in `errors`; a
/// trailing comma is accepted. Only a malformed number stops the parse.
#[verifier::loop_isolation(false)]
pub fn parse_exprs_recover(errors: &mut Vec<ParseErr>, s: &str) -> (r: Result<
    Vec<Expr>,
    ParseErr,
>)
    ensures
        old(errors)@.is_prefix_of(final(errors)@),
{
    proof {
        assert(errors@ =~= errors@.subrange(0, errors@.len() as int));
    }
    let toks = match lex(s) {
        Ok(t) => t,
        Err(e) => {
            return Err(e);
        },
    };
    let mut out: Vec<Expr> = Vec::new();
    let n = toks.len();
    let mut i: usize = 0;
    while i < n
        invariant
            i <= n,
            n == toks@.len(),
            old(errors)@.is_prefix_of(errors@),
        decreases n - i,
    {
        let (e, j) = expr_rec(&toks, i, errors);
        proof {
            assert(old(errors)@ =~= errors@.subrange(0, old(errors)@.len() as int));
        }
        out.push(e);
        if j < n && matches!(toks[j], Token::Comma) {
            i = j + 1;
        } else if j >= n {
            i = j;
        } else {
            // junk between expressions: record it and move past
            errors.push(ParseErr { pos: j });
            proof {
                assert(old(errors)@ =~= errors@.subrange(0, old(errors)@.len() as int));
            }
            i = j + 1;
        }
    }
    Ok(out)
}

/// A comma-separated expression list without recovery: any recovery the
/// parser had to make is a failure.
pub fn parse_exprs(s: &str) -> (r: Result<Vec<Expr>, ParseErr>) {
    let mut errors: Vec<ParseErr> = Vec::new();
    let out = match parse_exprs_recover(&mut errors, s) {
        Ok(v) => v,
        Err(e) => {
            return Err(e);
        },
    };
    if errors.len() > 0 {
        return Err(errors[0]);
    }
    Ok(out)
}

/// A single expression spanning the whole input, without recovery.
pub fn parse_expr(s: &str) -> (r: Result<Expr, ParseErr>) {
    let mut errors: Vec<ParseErr> = Vec::new();
    let toks = match lex(s) {
        Ok(t) => t,
        Err(e) => {
            return Err(e);
        },
    };
    let (e, j) = expr_rec(&toks, 0, &mut errors);
    if errors.len() > 0 {
        return Err(errors[0]);
    }
    if j != toks.len() {
        return Err(ParseErr { pos: j });
    }
    Ok(e)
}

} // verus!

verus! {

use crate::ast::{Declaration, Ident, Stmt, Toplevel, Interner};
use vstd::string::StringExecFns;

/// The tokens of L1 statements.
#[derive(Debug, Clone, PartialEq)]
enum LTok {
    Num(i64),
    Id(String),
    KLet,
    KMut,
    KIf,
    KElse,
    KWhile,
    KFn,
    KReturn,
    KPrint,
    KOr,
    KAnd,
    Plus,
    Minus,
    Star,
    Slash,
    LParen,
    RParen,
    LBrace,
    RBrace,
    Comma,
    Semi,
    Assign,
    EqEq,
    NotEq,
    LessEq,
    GreaterEq,
    Less,
    Greater,
}

/// Whether `c` can start an identifier.
fn is_ident_start(c: char) -> (r: bool) {
    ('a' <= c && c <= 'z') || ('A' <= c && c <= 'Z') || c == '_'
}

/// Whether `c` can continue an identifier.
fn is_ident_char(c: char) -> (r: bool) {
    ('a' <= c && c <= 'z') || ('A' <= c && c <= 'Z') || ('0' <= c && c <= '9') || c == '_'
}

/// Splits L1 source into tokens.
fn lex_l1(s: &str) -> (r: Result<Vec<LTok>, ParseErr>) {
    let n = s.unicode_len();
    let mut toks: Vec<LTok> = Vec::new();
    let mut i: usize = 0;
    while i < n
        invariant
            i <= n,
            n == s@.len(),
        decreases n - i,
    {
        let c = s.get_char(i);
        if c == ' ' || c == '\t' || c == '\n' || c == '\r' {
            i = i + 1;
        } else if c == '+' {
            toks.push(LTok::Plus);
            i = i + 1;
        } else if c == '-' {
            toks.push(LTok::Minus);
            i = i + 1;
        } else if c == '*' {
            toks.push(LTok::Star);
            i = i + 1;
        } else if c == '/' {
            toks.push(LTok::Slash);
            i = i + 1;
        } else if c == '(' {
            toks.push(LTok::LParen);
            i = i + 1;
        } else if c == ')' {
            toks.push(LTok::RParen);
            i = i + 1;
        } else if c == '{' {
            toks.push(LTok::LBrace);
            i = i + 1;
        } else if c == '}' {
            toks.push(LTok::RBrace);
            i = i + 1;
        } else if c == ',' {
            toks.push(LTok::Comma);
            i = i + 1;
        } else if c == ';' {
            toks.push(LTok::Semi);
            i = i + 1;
        } else if c == '=' {
            if i + 1 < n && s.get_char(i + 1) == '=' {
                toks.push(LTok::EqEq);
                i = i + 2;
            } else {
                toks.push(LTok::Assign);
                i = i + 1;
            }
        } else if c == '!' {
            if i + 1 < n && s.get_char(i + 1) == '=' {
                toks.push(LTok::NotEq);
                i = i + 2;
            } else {
                return Err(ParseErr { pos: i });
            }
        } else if c == '<' {
            if i + 1 < n && s.get_char(i + 1) == '=' {
                toks.push(LTok::LessEq);
                i = i + 2;
            } else {
                toks.push(LTok::Less);
                i = i + 1;
            }
        } else if c == '>' {
            if i + 1 < n && s.get_char(i + 1) == '=' {
                toks.push(LTok::GreaterEq);
                i = i + 2;
            } else {
                toks.push(LTok::Greater);
                i = i + 1;
            }
        } else if is_digit(c) {
            let mut v: i64 = 0;
            if c == '0' && i + 1 < n && s.get_char(i + 1) == 'b' {
                i = i + 2;
                let start = i;
                while i < n && (s.get_char(i) == '0' || s.get_char(i) == '1')
                    invariant
                        start <= i <= n,
                        n == s@.len(),
                    decreases n - i,
                {
                    let d: i64 = if s.get_char(i) == '1' {
                        1
                    } else {
                        0
                    };
                    v = match v.checked_mul(2) {
                        Some(x) => match x.checked_add(d) {
                            Some(y) => y,
                            None => {
                                return Err(ParseErr { pos: i });
                            },
                        },
                        None => {
                            return Err(ParseErr { pos: i });
                        },
                    };
                    i = i + 1;
                }
                if i == start {
                    return Err(ParseErr { pos: i });
                }
            } else {
                v = (c as u8 - 0x30) as i64;
                i = i + 1;
                let start = i;
                while i < n && is_digit(s.get_char(i))
                    invariant
                        start <= i <= n,
                        n == s@.len(),
                    decreases n - i,
                {
                    let d: i64 = (s.get_char(i) as u8 - 0x30) as i64;
                    v = match v.checked_mul(10) {
                        Some(x) => match x.checked_add(d) {
                            Some(y) => y,
                            None => {
                                return Err(ParseErr { pos: i });
                            },
                        },
                        None => {
                            return Err(ParseErr { pos: i });
                        },
                    };
                    i = i + 1;
                }
            }
            toks.push(LTok::Num(v));
        } else if is_ident_start(c) {
            let mut word: Vec<char> = Vec::new();
            word.push(c);
            i = i + 1;
            let start = i;
            while i < n && is_ident_char(s.get_char(i))
                invariant
                    start <= i <= n,
                    n == s@.len(),
                decreases n - i,
            {
                word.push(s.get_char(i));
                i = i + 1;
            }
            let word = crate::text::chars_to_string(&word);
            if word == String::from_str("let") {
                toks.push(LTok::KLet);
            } else if word == String::from_str("mut") {
                toks.push(LTok::KMut);
            } else if word == String::from_str("if") {
                toks.push(LTok::KIf);
            } else if word == String::from_str("else") {
                toks.push(LTok::KElse);
            } else if word == String::from_str("while") {
                toks.push(LTok::KWhile);
            } else if word == String::from_str("fn") {
                toks.push(LTok::KFn);
            } else if word == String::from_str("return") {
                toks.push(LTok::KReturn);
            } else if word == String::from_str("print") {
                toks.push(LTok::KPrint);
            } else if word == String::from_str("or") {
                toks.push(LTok::KOr);
            } else if word == String::from_str("and") {
                toks.push(LTok::KAnd);
            } else {
                toks.push(LTok::Id(word));
            }
        } else {
            return Err(ParseErr { pos: i });
        }
    }
    Ok(toks)
}

} // verus!

verus! {

/// An atom of L1: a number, a parenthesised expression, a variable, or a
/// call `name(args)`.
fn l1_atom(toks: &Vec<LTok>, i: usize, env: &mut Interner) -> (r: Result<(Expr, usize), ParseErr>)
    requires
        i <= toks@.len(),
        old(env).wf(),
    ensures
        final(env).wf(),
        r matches Ok(p) ==> i < p.1 <= toks@.len(),
    decreases toks@.len() - i, 0int,
{
    if i >= toks.len() {
        return Err(ParseErr { pos: i });
    }
    match &toks[i] {
        LTok::Num(v) => Ok((Expr::Number(*v), i + 1)),
        LTok::LParen => {
            let (e, j) = match l1_expr(toks, i + 1, env) {
                Ok(p) => p,
                Err(er) => {
                    return Err(er);
                },
            };
            if j < toks.len() && matches!(toks[j], LTok::RParen) {
                Ok((e, j + 1))
            } else {
                Err(ParseErr { pos: j })
            }
        },
        LTok::Id(name) => {
            let h = env.get_dedup(name.clone());
            if i + 1 < toks.len() && matches!(toks[i + 1], LTok::LParen) {
                let mut args: Vec<Expr> = Vec::new();
                let mut j = i + 2;
                if j < toks.len() && matches!(toks[j], LTok::RParen) {
                    return Ok((Expr::Call(h, args), j + 1));
                }
                loop
                    invariant
                        i + 2 <= j <= toks@.len(),
                        env.wf(),
                    decreases toks@.len() - j,
                {
                    let (a, j2) = match l1_expr(toks, j, env) {
                        Ok(p) => p,
                        Err(er) => {
                            return Err(er);
                        },
                    };
                    args.push(a);
                    if j2 < toks.len() && matches!(toks[j2], LTok::Comma) {
                        j = j2 + 1;
                        if j >= toks.len() {
                            return Err(ParseErr { pos: j });
                        }
                    } else if j2 < toks.len() && matches!(toks[j2], LTok::RParen) {
                        return Ok((Expr::Call(h, args), j2 + 1));
                    } else {
                        return Err(ParseErr { pos: j2 });
                    }
                }
            } else {
                Ok((Expr::EnvLoad(h), i + 1))
            }
        },
        _ => Err(ParseErr { pos: i }),
    }
}

/// Products: atoms joined by `*` and `/`.
fn l1_product(toks: &Vec<LTok>, i: usize, env: &mut Interner) -> (r: Result<
    (Expr, usize),
    ParseErr,
>)
    requires
        i <= toks@.len(),
        old(env).wf(),
    ensures
        final(env).wf(),
        r matches Ok(p) ==> i < p.1 <= toks@.len(),
    decreases toks@.len() - i, 1int,
{
    let (first, mut j) = match l1_atom(toks, i, env) {
        Ok(p) => p,
        Err(er) => {
            return Err(er);
        },
    };
    let mut acc = first;
    while j < toks.len() && (matches!(toks[j], LTok::Star) || matches!(toks[j], LTok::Slash))
        invariant
            i < j <= toks@.len(),
            env.wf(),
        decreases toks@.len() - j,
    {
        let op = if matches!(toks[j], LTok::Star) {
            Opcode::Mul
        } else {
            Opcode::Div
        };
        let (rhs, j2) = match l1_atom(toks, j + 1, env) {
            Ok(p) => p,
            Err(er) => {
                return Err(er);
            },
        };
        acc = Expr::Op(Box::new(acc), op, Box::new(rhs));
        j = j2;
    }
    Ok((acc, j))
}

/// Sums: products joined by `+` and `-`.
fn l1_sum(toks: &Vec<LTok>, i: usize, env: &mut Interner) -> (r: Result<(Expr, usize), ParseErr>)
    requires
        i <= toks@.len(),
        old(env).wf(),
    ensures
        final(env).wf(),
        r matches Ok(p) ==> i < p.1 <= toks@.len(),
    decreases toks@.len() - i, 2int,
{
    let (first, mut j) = match l1_product(toks, i, env) {
        Ok(p) => p,
        Err(er) => {
            return Err(er);
        },
    };
    let mut acc = first;
    while j < toks.len() && (matches!(toks[j], LTok::Plus) || matches!(toks[j], LTok::Minus))
        invariant
            i < j <= toks@.len(),
            env.wf(),
        decreases toks@.len() - j,
    {
        let op = if matches!(toks[j], LTok::Plus) {
            Opcode::Add
        } else {
            Opcode::Sub
        };
        let (rhs, j2) = match l1_product(toks, j + 1, env) {
            Ok(p) => p,
            Err(er) => {
                return Err(er);
            },
        };
        acc = Expr::Op(Box::new(acc), op, Box::new(rhs));
        j = j2;
    }
    Ok((acc, j))
}

/// One optional comparison between two sums.
fn l1_cmp(toks: &Vec<LTok>, i: usize, env: &mut Interner) -> (r: Result<(Expr, usize), ParseErr>)
    requires
        i <= toks@.len(),
        old(env).wf(),
    ensures
        final(env).wf(),
        r matches Ok(p) ==> i < p.1 <= toks@.len(),
    decreases toks@.len() - i, 3int,
{
    let (first, j) = match l1_sum(toks, i, env) {
        Ok(p) => p,
        Err(er) => {
            return Err(er);
        },
    };
    if j < toks.len() {
        let op = match toks[j] {
            LTok::EqEq => Some(Opcode::Equal),
            LTok::NotEq => Some(Opcode::NotEqual),
            LTok::Less => Some(Opcode::LessThan),
            LTok::LessEq => Some(Opcode::LessEqual),
            LTok::Greater => Some(Opcode::GreaterThan),
            LTok::GreaterEq => Some(Opcode::GreaterEqual),
            _ => None,
        };
        if let Some(op) = op {
            let (rhs, j2) = match l1_sum(toks, j + 1, env) {
                Ok(p) => p,
                Err(er) => {
                    return Err(er);
                },
            };
            return Ok((Expr::Op(Box::new(first), op, Box::new(rhs)), j2));
        }
    }
    Ok((first, j))
}

/// Conjunctions of comparisons.
fn l1_and(toks: &Vec<LTok>, i: usize, env: &mut Interner) -> (r: Result<(Expr, usize), ParseErr>)
    requires
        i <= toks@.len(),
        old(env).wf(),
    ensures
        final(env).wf(),
        r matches Ok(p) ==> i < p.1 <= toks@.len(),
    decreases toks@.len() - i, 4int,
{
    let (first, mut j) = match l1_cmp(toks, i, env) {
        Ok(p) => p,
        Err(er) => {
            return Err(er);
        },
    };
    let mut acc = first;
    while j < toks.len() && matches!(toks[j], LTok::KAnd)
        invariant
            i < j <= toks@.len(),
            env.wf(),
        decreases toks@.len() - j,
    {
        let (rhs, j2) = match l1_cmp(toks, j + 1, env) {
            Ok(p) => p,
            Err(er) => {
                return Err(er);
            },
        };
        acc = Expr::Op(Box::new(acc), Opcode::And, Box::new(rhs));
        j = j2;
    }
    Ok((acc, j))
}

/// A full L1 expression: disjunctions of conjunctions.
fn l1_expr(toks: &Vec<LTok>, i: usize, env: &mut Interner) -> (r: Result<(Expr, usize), ParseErr>)
    requires
        i <= toks@.len(),
        old(env).wf(),
    ensures
        final(env).wf(),
        r matches Ok(p) ==> i < p.1 <= toks@.len(),
    decreases toks@.len() - i, 5int,
{
    let (first, mut j) = match l1_and(toks, i, env) {
        Ok(p) => p,
        Err(er) => {
            return Err(er);
        },
    };
    let mut acc = first;
    while j < toks.len() && matches!(toks[j], LTok::KOr)
        invariant
            i < j <= toks@.len(),
            env.wf(),
        decreases toks@.len() - j,
    {
        let (rhs, j2) = match l1_and(toks, j + 1, env) {
            Ok(p) => p,
            Err(er) => {
                return Err(er);
            },
        };
        acc = Expr::Op(Box::new(acc), Opcode::Or, Box::new(rhs));
        j = j2;
    }
    Ok((acc, j))
}

/// A braced statement list.
fn l1_block(toks: &Vec<LTok>, i: usize, env: &mut Interner) -> (r: Result<
    (Vec<Stmt>, usize),
    ParseErr,
>)
    requires
        i <= toks@.len(),
        old(env).wf(),
    ensures
        final(env).wf(),
        r matches Ok(p) ==> i < p.1 <= toks@.len(),
    decreases toks@.len() - i, 6int,
{
    if !(i < toks.len() && matches!(toks[i], LTok::LBrace)) {
        return Err(ParseErr { pos: i });
    }
    let mut stmts: Vec<Stmt> = Vec::new();
    let mut j = i + 1;
    loop
        invariant
            i < j <= toks@.len(),
            env.wf(),
        decreases toks@.len() - j,
    {
        if j < toks.len() && matches!(toks[j], LTok::RBrace) {
            return Ok((stmts, j + 1));
        }
        if j >= toks.len() {
            return Err(ParseErr { pos: j });
        }
        let (s, j2) = match l1_stmt(toks, j, env) {
            Ok(p) => p,
            Err(er) => {
                return Err(er);
            },
        };
        stmts.push(s);
        j = j2;
    }
}

/// One L1 statement.
fn l1_stmt(toks: &Vec<LTok>, i: usize, env: &mut Interner) -> (r: Result<
    (Stmt, usize),
    ParseErr,
>)
    requires
        i <= toks@.len(),
        old(env).wf(),
    ensures
        final(env).wf(),
        r matches Ok(p) ==> i < p.1 <= toks@.len(),
    decreases toks@.len() - i, 7int,
{
    if i >= toks.len() {
        return Err(ParseErr { pos: i });
    }
    match &toks[i] {
        LTok::KLet => {
            let mut j = i + 1;
            let mut mutable = false;
            if j < toks.len() && matches!(toks[j], LTok::KMut) {
                mutable = true;
                j = j + 1;
            }
            if !(j < toks.len()) {
                return Err(ParseErr { pos: j });
            }
            let h = match &toks[j] {
                LTok::Id(name) => env.get_dedup(name.clone()),
                _ => {
                    return Err(ParseErr { pos: j });
                },
            };
            if !(j + 1 < toks.len() && matches!(toks[j + 1], LTok::Assign)) {
                return Err(ParseErr { pos: j + 1 });
            }
            let (e, j2) = match l1_expr(toks, j + 2, env) {
                Ok(p) => p,
                Err(er) => {
                    return Err(er);
                },
            };
            if j2 < toks.len() && matches!(toks[j2], LTok::Semi) {
                Ok((Stmt::LetBinding(h, e, mutable), j2 + 1))
            } else {
                Err(ParseErr { pos: j2 })
            }
        },
        LTok::KPrint => {
            let mut exprs: Vec<Expr> = Vec::new();
            let (first, mut j) = match l1_expr(toks, i + 1, env) {
                Ok(p) => p,
                Err(er) => {
                    return Err(er);
                },
            };
            exprs.push(first);
            while j < toks.len() && matches!(toks[j], LTok::Comma)
                invariant
                    i < j <= toks@.len(),
                    env.wf(),
                decreases toks@.len() - j,
            {
                let (e, j2) = match l1_expr(toks, j + 1, env) {
                    Ok(p) => p,
                    Err(er) => {
                        return Err(er);
                    },
                };
                exprs.push(e);
                j = j2;
            }
            if j < toks.len() && matches!(toks[j], LTok::Semi) {
                Ok((Stmt::Print(exprs), j + 1))
            } else {
                Err(ParseErr { pos: j })
            }
        },
        LTok::KIf => {
            let (cond, j) = match l1_expr(toks, i + 1, env) {
                Ok(p) => p,
                Err(er) => {
                    return Err(er);
                },
            };
            let (then_b, j2) = match l1_block(toks, j, env) {
                Ok(p) => p,
                Err(er) => {
                    return Err(er);
                },
            };
            if j2 < toks.len() && matches!(toks[j2], LTok::KElse) {
                let (else_b, j3) = match l1_block(toks, j2 + 1, env) {
                    Ok(p) => p,
                    Err(er) => {
                        return Err(er);
                    },
                };
                Ok(
                    (
                        Stmt::IfElse(
                            cond,
                            Box::new(Stmt::Block(then_b, true)),
                            Some(Box::new(Stmt::Block(else_b, true))),
                        ),
                        j3,
                    ),
                )
            } else {
                Ok((Stmt::IfElse(cond, Box::new(Stmt::Block(then_b, true)), None), j2))
            }
        },
        LTok::KWhile => {
            let (cond, j) = match l1_expr(toks, i + 1, env) {
                Ok(p) => p,
                Err(er) => {
                    return Err(er);
                },
            };
            let (body, j2) = match l1_block(toks, j, env) {
                Ok(p) => p,
                Err(er) => {
                    return Err(er);
                },
            };
            Ok((Stmt::While(cond, Box::new(Stmt::Block(body, true))), j2))
        },
        LTok::KReturn => {
            let (e, j) = match l1_expr(toks, i + 1, env) {
                Ok(p) => p,
                Err(er) => {
                    return Err(er);
                },
            };
            if j < toks.len() && matches!(toks[j], LTok::Semi) {
                Ok((Stmt::Return(e), j + 1))
            } else {
                Err(ParseErr { pos: j })
            }
        },
        LTok::LBrace => {
            let (stmts, j) = match l1_block(toks, i, env) {
                Ok(p) => p,
                Err(er) => {
                    return Err(er);
                },
            };
            Ok((Stmt::Block(stmts, true), j))
        },
        LTok::Id(name) => {
            if i + 1 < toks.len() && matches!(toks[i + 1], LTok::Assign) {
                let h = env.get_dedup(name.clone());
                let (e, j) = match l1_expr(toks, i + 2, env) {
                    Ok(p) => p,
                    Err(er) => {
                        return Err(er);
                    },
                };
                if j < toks.len() && matches!(toks[j], LTok::Semi) {
                    Ok((Stmt::Assign(h, e, None), j + 1))
                } else {
                    Err(ParseErr { pos: j })
                }
            } else {
                let (e, j) = match l1_expr(toks, i, env) {
                    Ok(p) => p,
                    Err(er) => {
                        return Err(er);
                    },
                };
                if j < toks.len() && matches!(toks[j], LTok::Semi) {
                    Ok((Stmt::Call(e), j + 1))
                } else {
                    Err(ParseErr { pos: j })
                }
            }
        },
        _ => Err(ParseErr { pos: i }),
    }
}

/// A whole L1 program: function declarations and statements, in order.
pub fn parse_program(env: &mut Interner, s: &str) -> (r: Result<Vec<Toplevel>, ParseErr>)
    requires
        old(env).wf(),
    ensures
        final(env).wf(),
{
    let toks = match lex_l1(s) {
        Ok(t) => t,
        Err(e) => {
            return Err(e);
        },
    };
    let mut items: Vec<Toplevel> = Vec::new();
    let n = toks.len();
    let mut i: usize = 0;
    while i < n
        invariant
            i <= n,
            n == toks@.len(),
            env.wf(),
        decreases n - i,
    {
        if matches!(toks[i], LTok::KFn) {
            if !(i + 1 < n) {
                return Err(ParseErr { pos: i + 1 });
            }
            let h = match &toks[i + 1] {
                LTok::Id(name) => env.get_dedup(name.clone()),
                _ => {
                    return Err(ParseErr { pos: i + 1 });
                },
            };
            if !(i + 2 < n && matches!(toks[i + 2], LTok::LParen)) {
                return Err(ParseErr { pos: i + 2 });
            }
            let mut params: Vec<usize> = Vec::new();
            let mut j = i + 3;
            loop
                invariant
                    i + 3 <= j <= n,
                    n == toks@.len(),
                    env.wf(),
                decreases n - j,
            {
                if j < n && matches!(toks[j], LTok::RParen) {
                    j = j + 1;
                    break;
                }
                if j >= n {
                    return Err(ParseErr { pos: j });
                }
                match &toks[j] {
                    LTok::Id(name) => {
                        let p = env.get_dedup(name.clone());
                        params.push(p);
                    },
                    _ => {
                        return Err(ParseErr { pos: j });
                    },
                }
                if j + 1 < n && matches!(toks[j + 1], LTok::Comma) {
                    j = j + 2;
                } else {
                    j = j + 1;
                }
            }
            let (body, j2) = match l1_block(&toks, j, env) {
                Ok(p) => p,
                Err(er) => {
                    return Err(er);
                },
            };
            items.push(
                Toplevel::Declaration(
                    Declaration::Function(h, params, Box::new(Stmt::Block(body, false))),
                ),
            );
            i = j2;
        } else {
            let (st, j) = match l1_stmt(&toks, i, env) {
                Ok(p) => p,
                Err(er) => {
                    return Err(er);
                },
            };
            items.push(Toplevel::Stmt(st));
            i = j;
        }
    }
    Ok(items)
}

} // verus!
