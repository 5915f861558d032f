//! Decimal and hexadecimal rendering of integers, as `format!` writes them.
use vstd::prelude::*;
use vstd::string::StringExecFns;

verus! {

/// The character for a digit below 16 (lower-case letters past 9).
pub open spec fn digit_char(d: nat) -> char {
    if d == 0 { '0' } else if d == 1 { '1' } else if d == 2 { '2' } else if d == 3 { '3' }
    else if d == 4 { '4' } else if d == 5 { '5' } else if d == 6 { '6' } else if d == 7 { '7' }
    else if d == 8 { '8' } else if d == 9 { '9' } else if d == 10 { 'a' } else if d == 11 { 'b' }
    else if d == 12 { 'c' } else if d == 13 { 'd' } else if d == 14 { 'e' } else { 'f' }
}

/// `n` written in base `b` (2 to 16), most significant digit first, with
/// no leading zeros ("0" for zero).
pub open spec fn digits(n: nat, b: nat) -> Seq<char>
    decreases n,
{
    if b < 2 || n < b {
        seq![digit_char(n % 16)]
    } else {
        proof {
            assert(n / b < n) by (nonlinear_arith)
                requires
                    b >= 2,
                    n >= b,
            ;
        }
        digits(n / b, b).push(digit_char(n % b))
    }
}

/// `n` in decimal, as `{}` formats an unsigned integer.
pub open spec fn dec(n: nat) -> Seq<char> {
    digits(n, 10)
}

/// `n` in lower-case hexadecimal without prefix, as `{:x}` formats it.
pub open spec fn hex(n: nat) -> Seq<char> {
    digits(n, 16)
}

/// The one-character string for a digit below 16.
fn digit_str(d: u64) -> (r: &'static str)
    requires
        d < 16,
    ensures
        r@ == seq![digit_char(d as nat)],
{
    proof {
        reveal_strlit("0");
        reveal_strlit("1");
        reveal_strlit("2");
        reveal_strlit("3");
        reveal_strlit("4");
        reveal_strlit("5");
        reveal_strlit("6");
        reveal_strlit("7");
        reveal_strlit("8");
        reveal_strlit("9");
        reveal_strlit("a");
        reveal_strlit("b");
        reveal_strlit("c");
        reveal_strlit("d");
        reveal_strlit("e");
        reveal_strlit("f");
    }
    if d == 0 { "0" } else if d == 1 { "1" } else if d == 2 { "2" } else if d == 3 { "3" }
    else if d == 4 { "4" } else if d == 5 { "5" } else if d == 6 { "6" } else if d == 7 { "7" }
    else if d == 8 { "8" } else if d == 9 { "9" } else if d == 10 { "a" } else if d == 11 { "b" }
    else if d == 12 { "c" } else if d == 13 { "d" } else if d == 14 { "e" } else { "f" }
}

/// Appends `n` written in base `base` to `out`.
pub fn push_digits(out: &mut String, n: u64, base: u64)
    requires
        2 <= base <= 16,
    ensures
        final(out)@ == old(out)@ + digits(n as nat, base as nat),
    decreases n,
{
    if n < base {
        out.append(digit_str(n));
        proof {
            assert(n as nat % 16 == n as nat);
        }
    } else {
        assert(n / base < n) by (nonlinear_arith)
            requires
                base >= 2,
                n >= base,
        ;
        push_digits(out, n / base, base);
        out.append(digit_str(n % base));
        proof {
            assert(old(out)@ + digits((n / base) as nat, base as nat) + seq![digit_char((n % base) as nat)]
                =~= old(out)@ + digits(n as nat, base as nat));
        }
    }
}

/// Appends `n` in decimal to `out`.
pub fn push_dec(out: &mut String, n: u64)
    ensures
        final(out)@ == old(out)@ + dec(n as nat),
{
    push_digits(out, n, 10);
}

/// Appends `n` in lower-case hexadecimal to `out`.
pub fn push_hex(out: &mut String, n: u64)
    ensures
        final(out)@ == old(out)@ + hex(n as nat),
{
    push_digits(out, n, 16);
}

/// `n` in decimal.
pub fn dec_string(n: u64) -> (r: String)
    ensures
        r@ == dec(n as nat),
{
    let mut s = String::new();
    push_dec(&mut s, n);
    proof {
        assert(s@ =~= dec(n as nat));
    }
    s
}

} // verus!
