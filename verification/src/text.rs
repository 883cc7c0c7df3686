//! Building the textual pieces of the toolchain: decimal rendering of the
//! integers that appear in assembly listings and in generated label names.

use vstd::prelude::*;

verus! {

/// The decimal digits of `n`, most significant first.
pub open spec fn dec_str_nat(n: nat) -> Seq<char>
    decreases n,
{
    if n < 10 {
        seq![digit_char(n)]
    } else {
        dec_str_nat(n / 10).push(digit_char(n % 10))
    }
}

/// The digit character for a value below ten.
pub open spec fn digit_char(d: nat) -> char
    recommends
        d < 10,
{
    (0x30 + d) as char
}

/// The decimal rendering of `v`, with a leading minus sign when negative.
pub open spec fn dec_str(v: int) -> Seq<char> {
    if v < 0 {
        seq!['-'] + dec_str_nat((-v) as nat)
    } else {
        dec_str_nat(v as nat)
    }
}

/// Appends the decimal digits of `n`.
fn push_dec_u64(n: u64, out: &mut Vec<char>)
    ensures
        final(out)@ == old(out)@ + dec_str_nat(n as nat),
    decreases n,
{
    if n < 10 {
        let d: u8 = 0x30 + (n as u8);
        out.push(d as char);
        proof {
            assert(out@ =~= old(out)@ + dec_str_nat(n as nat));
        }
    } else {
        push_dec_u64(n / 10, out);
        let d: u8 = 0x30 + ((n % 10) as u8);
        out.push(d as char);
        proof {
            assert(out@ =~= old(out)@ + dec_str_nat(n as nat));
        }
    }
}

/// Appends the decimal rendering of `v`.
pub fn push_dec_i64(v: i64, out: &mut Vec<char>)
    ensures
        final(out)@ == old(out)@ + dec_str(v as int),
{
    if v < 0 {
        out.push('-');
        let m: u64 = (-(v + 1)) as u64 + 1;
        assert(m == -(v as int));
        push_dec_u64(m, out);
        proof {
            assert(out@ =~= old(out)@ + dec_str(v as int));
        }
    } else {
        push_dec_u64(v as u64, out);
    }
}

/// Relies on `String`'s `FromIterator` over `char`: collecting characters
/// yields the string of exactly those characters in order.
#[verifier::external_body]
pub fn chars_to_string(v: &Vec<char>) -> (r: String)
    ensures
        r@ == v@,
{
    v.iter().collect()
}

/// The decimal rendering of `v` as a `String`.
pub fn i64_to_string(v: i64) -> (r: String)
    ensures
        r@ == dec_str(v as int),
{
    let mut out: Vec<char> = Vec::new();
    push_dec_i64(v, &mut out);
    chars_to_string(&out)
}

/// The decimal rendering of `n` as a `String`.
pub fn usize_to_string(n: usize) -> (r: String)
    ensures
        r@ == dec_str_nat(n as nat),
{
    let mut out: Vec<char> = Vec::new();
    push_dec_u64(n as u64, &mut out);
    chars_to_string(&out)
}

/// Appends every character of `s`.
pub fn push_str_chars(s: &str, out: &mut Vec<char>)
    ensures
        final(out)@ == old(out)@ + s@,
{
    let n = s.unicode_len();
    let mut i: usize = 0;
    while i < n
        invariant
            i <= n,
            n == s@.len(),
            out@ == old(out)@ + s@.subrange(0, i as int),
        decreases n - i,
    {
        let c = s.get_char(i);
        out.push(c);
        i = i + 1;
        proof {
            assert(out@ =~= old(out)@ + s@.subrange(0, i as int));
        }
    }
    proof {
        assert(out@ =~= old(out)@ + s@);
    }
}

} // verus!

verus! {

/// Appends the decimal digits of `n`.
pub fn push_dec_usize(n: usize, out: &mut Vec<char>)
    ensures
        final(out)@ == old(out)@ + dec_str_nat(n as nat),
{
    push_dec_u64(n as u64, out);
}

} // verus!
