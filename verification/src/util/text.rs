//! Reading text: characters of a string, white space, decimal numbers.
use vstd::prelude::*;
use vstd::string::StrSliceExecFns;
use crate::util::fmt::{dec, digit_char};

verus! {

/// `String::push`: std documents that it appends the character to the end
/// of the string.
pub assume_specification[ String::push ](s: &mut String, ch: char)
    ensures
        final(s)@ == old(s)@.push(ch),
;

/// The characters of `s`, in order.
pub fn chars_of(s: &str) -> (r: Vec<char>)
    ensures
        r@ == s@,
{
    let n = s.unicode_len();
    let mut out: Vec<char> = Vec::new();
    let mut i: usize = 0;
    while i < n
        invariant
            n == s@.len(),
            i <= n,
            out@ == s@.take(i as int),
        decreases n - i,
    {
        out.push(s.get_char(i));
        proof {
            assert(out@ =~= s@.take(i as int + 1));
        }
        i = i + 1;
    }
    proof {
        assert(s@.take(n as int) =~= s@);
    }
    out
}

/// Unicode white space, as `char::is_whitespace` reads it.
pub open spec fn is_white(c: char) -> bool {
    ||| c == '\t' || c == '\n' || c == '\u{0B}' || c == '\u{0C}' || c == '\r' || c == ' '
    ||| c == '\u{85}' || c == '\u{A0}' || c == '\u{1680}'
    ||| ('\u{2000}' as u32) <= (c as u32) <= ('\u{200A}' as u32)
    ||| c == '\u{2028}' || c == '\u{2029}' || c == '\u{202F}' || c == '\u{205F}' || c == '\u{3000}'
}

/// Whether `c` is white space.
pub fn white(c: char) -> (r: bool)
    ensures
        r == is_white(c),
{
    c == '\t' || c == '\n' || c == '\u{0B}' || c == '\u{0C}' || c == '\r' || c == ' ' || c == '\u{85}'
        || c == '\u{A0}' || c == '\u{1680}' || ('\u{2000}' <= c && c <= '\u{200A}') || c == '\u{2028}'
        || c == '\u{2029}' || c == '\u{202F}' || c == '\u{205F}' || c == '\u{3000}'
}

/// How many white-space characters `s` starts with.
pub open spec fn lead_white(s: Seq<char>) -> nat
    decreases s.len(),
{
    if s.len() > 0 && is_white(s[0]) { 1 + lead_white(s.drop_first()) } else { 0 }
}

/// How many white-space characters `s` ends with.
pub open spec fn trail_white(s: Seq<char>) -> nat
    decreases s.len(),
{
    if s.len() > 0 && is_white(s.last()) { 1 + trail_white(s.drop_last()) } else { 0 }
}

/// `s` without its leading and trailing white space, as `str::trim` gives it.
pub open spec fn trimmed(s: Seq<char>) -> Seq<char> {
    let a = s.skip(lead_white(s) as int);
    a.take(a.len() - trail_white(a))
}

proof fn lemma_lead_white_bound(s: Seq<char>)
    ensures
        lead_white(s) <= s.len(),
    decreases s.len(),
{
    if s.len() > 0 && is_white(s[0]) {
        lemma_lead_white_bound(s.drop_first());
    }
}

proof fn lemma_trail_white_bound(s: Seq<char>)
    ensures
        trail_white(s) <= s.len(),
    decreases s.len(),
{
    if s.len() > 0 && is_white(s.last()) {
        lemma_trail_white_bound(s.drop_last());
    }
}

/// The number of white-space characters `s` starts with, counted.
fn count_lead(s: &[char]) -> (r: usize)
    ensures
        r == lead_white(s@),
{
    let mut i: usize = 0;
    proof {
        assert(s@.skip(0) =~= s@);
    }
    while i < s.len() && white(s[i])
        invariant
            i <= s@.len(),
            lead_white(s@) == i + lead_white(s@.skip(i as int)),
        decreases s@.len() - i,
    {
        proof {
            assert(s@.skip(i as int).drop_first() =~= s@.skip(i as int + 1));
        }
        i = i + 1;
    }
    proof {
        if i < s@.len() {
            assert(s@.skip(i as int)[0] == s@[i as int]);
        }
    }
    i
}

/// The number of white-space characters `s` ends with, counted.
fn count_trail(s: &[char]) -> (r: usize)
    ensures
        r == trail_white(s@),
{
    let mut k: usize = 0;
    proof {
        assert(s@.take(s@.len() as int) =~= s@);
    }
    while k < s.len() && white(s[s.len() - 1 - k])
        invariant
            k <= s@.len(),
            trail_white(s@) == k + trail_white(s@.take(s@.len() - k)),
        decreases s@.len() - k,
    {
        proof {
            let t = s@.take(s@.len() - k);
            assert(t.last() == s@[s@.len() - 1 - k]);
            assert(t.drop_last() =~= s@.take(s@.len() - k - 1));
        }
        k = k + 1;
    }
    proof {
        if k < s@.len() {
            assert(s@.take(s@.len() - k).last() == s@[s@.len() - 1 - k]);
        }
    }
    k
}

/// `s` without its leading and trailing white space.
pub fn trim_chars(s: &[char]) -> (r: Vec<char>)
    ensures
        r@ == trimmed(s@),
{
    let a = count_lead(s);
    proof {
        lemma_lead_white_bound(s@);
    }
    let rest = vstd::slice::slice_subrange(s, a, s.len());
    let b = count_trail(rest);
    proof {
        lemma_trail_white_bound(rest@);
        assert(rest@ =~= s@.skip(a as int));
    }
    let kept = vstd::slice::slice_subrange(rest, 0, rest.len() - b);
    let r = vstd::slice::slice_to_vec(kept);
    proof {
        assert(r@ =~= trimmed(s@));
    }
    r
}

/// Whether `c` is an ASCII digit.
pub open spec fn is_digit(c: char) -> bool {
    '0' <= c <= '9'
}

/// The value of the ASCII digits of `s`.
pub open spec fn digits_value(s: Seq<char>) -> nat
    decreases s.len(),
{
    if s.len() == 0 { 0 } else { digits_value(s.drop_last()) * 10 + ((s.last() as u32) - ('0' as u32)) as nat }
}

/// `s` without a leading `+`.
pub open spec fn unsigned_part(s: Seq<char>) -> Seq<char> {
    if s.len() > 0 && s[0] == '+' { s.drop_first() } else { s }
}

/// Every character of `d` is an ASCII digit.
pub open spec fn all_digits(d: Seq<char>) -> bool {
    forall|i: int| 0 <= i < d.len() ==> is_digit(#[trigger] d[i])
}

/// What `str::parse::<u64>` gives for `s`: an optional `+`, then one or more
/// ASCII digits whose value fits in 64 bits.
pub open spec fn parsed_u64(s: Seq<char>) -> Option<u64> {
    if unsigned_part(s).len() > 0 && all_digits(unsigned_part(s)) && digits_value(unsigned_part(s)) <= u64::MAX {
        Some(digits_value(unsigned_part(s)) as u64)
    } else {
        None
    }
}

/// Parses a decimal `u64` as `str::parse::<u64>` does.
pub fn parse_u64(s: &[char]) -> (r: Option<u64>)
    ensures
        r == parsed_u64(s@),
{
    let start: usize = if s.len() > 0 && s[0] == '+' { 1 } else { 0 };
    let ghost d = unsigned_part(s@);
    proof {
        assert(d =~= s@.skip(start as int));
    }
    if start >= s.len() {
        return None;
    }
    let mut value: u64 = 0;
    let mut i: usize = start;
    while i < s.len()
        invariant
            start <= i <= s@.len(),
            d == s@.skip(start as int),
            d == unsigned_part(s@),
            forall|j: int| 0 <= j < i - start ==> is_digit(#[trigger] d[j]),
            value == digits_value(d.take(i - start)),
        decreases s@.len() - i,
    {
        let c = s[i];
        proof {
            assert(d[i - start] == c);
            assert(d.take(i - start + 1).drop_last() =~= d.take(i - start));
        }
        if !('0' <= c && c <= '9') {
            proof {
                assert(!is_digit(d[i - start]));
                assert(!all_digits(d));
            }
            return None;
        }
        let digit = (c as u32 - '0' as u32) as u64;
        let ghost k = i - start;
        proof {
            assert(d.take(k + 1).last() == c);
            assert(digits_value(d.take(k + 1)) == value * 10 + digit);
        }
        if value > (u64::MAX - digit) / 10 {
            proof {
                assert(value * 10 + digit > u64::MAX) by (nonlinear_arith)
                    requires
                        value > (u64::MAX - digit) / 10,
                        digit <= 9,
                ;
                assert forall|j: int| 0 <= j < k + 1 implies is_digit(#[trigger] d[j]) by {
                    if j == k {
                        assert(d[j] == c);
                    }
                }
                lemma_digits_grow(d, k + 1);
                if all_digits(d) {
                    assert(digits_value(d) > u64::MAX);
                }
            }
            return None;
        }
        proof {
            assert(value * 10 + digit <= u64::MAX) by (nonlinear_arith)
                requires
                    value <= (u64::MAX - digit) / 10,
                    digit <= 9,
            ;
            assert forall|j: int| 0 <= j < k + 1 implies is_digit(#[trigger] d[j]) by {
                if j == k {
                    assert(d[j] == c);
                }
            }
        }
        value = value * 10 + digit;
        i = i + 1;
    }
    proof {
        assert(d.take(d.len() as int) =~= d);
    }
    Some(value)
}

/// The value of a prefix of digits is at most that of a longer one.
proof fn lemma_digits_grow(d: Seq<char>, k: int)
    requires
        0 <= k <= d.len(),
        forall|j: int| 0 <= j < k ==> is_digit(#[trigger] d[j]),
    ensures
        all_digits(d) ==> digits_value(d.take(k)) <= digits_value(d),
    decreases d.len() - k,
{
    if k < d.len() && all_digits(d) {
        lemma_digits_grow(d, k + 1);
        assert(d.take(k + 1).drop_last() =~= d.take(k));
    } else if k == d.len() {
        assert(d.take(k) =~= d);
    }
}

/// A number in decimal is one or more digits whose value is the number.
pub proof fn lemma_dec_digits(n: nat)
    ensures
        dec(n).len() > 0,
        all_digits(dec(n)),
        digits_value(dec(n)) == n,
    decreases n,
{
    if n < 10 {
        assert(n % 16 == n);
        let s = dec(n);
        assert(s == seq![digit_char(n)]);
        assert(s.drop_last() =~= Seq::<char>::empty());
        assert(((digit_char(n) as u32) - ('0' as u32)) == n) by {
            if n == 0 {} else if n == 1 {} else if n == 2 {} else if n == 3 {} else if n == 4 {}
            else if n == 5 {} else if n == 6 {} else if n == 7 {} else if n == 8 {} else {}
        }
        assert(is_digit(s[0]));
        assert(digits_value(s) == digits_value(s.drop_last()) * 10 + ((s.last() as u32) - ('0' as u32)) as nat);
    } else {
        lemma_dec_digits(n / 10);
        vstd::arithmetic::div_mod::lemma_fundamental_div_mod(n as int, 10);
        let d = n % 10;
        let s = dec(n);
        assert(s == dec(n / 10).push(digit_char(d)));
        assert(s.drop_last() =~= dec(n / 10));
        assert(((digit_char(d) as u32) - ('0' as u32)) == d) by {
            if d == 0 {} else if d == 1 {} else if d == 2 {} else if d == 3 {} else if d == 4 {}
            else if d == 5 {} else if d == 6 {} else if d == 7 {} else if d == 8 {} else {}
        }
        assert forall|i: int| 0 <= i < s.len() implies is_digit(#[trigger] s[i]) by {
            if i < s.len() - 1 {
                assert(s[i] == dec(n / 10)[i]);
            } else {
                assert(s[i] == digit_char(d));
            }
        }
        assert(digits_value(s) == digits_value(s.drop_last()) * 10 + ((s.last() as u32) - ('0' as u32)) as nat);
        assert(digits_value(s) == (n / 10) * 10 + d);
    }
}

/// A number in decimal reads back as the number.
pub proof fn lemma_parse_dec(n: u64)
    ensures
        parsed_u64(dec(n as nat)) == Some(n),
{
    lemma_dec_digits(n as nat);
    let s = dec(n as nat);
    assert(is_digit(s[0]));
    assert(unsigned_part(s) == s);
}

/// Digits hold no character that is not a digit.
pub proof fn lemma_digits_lack(s: Seq<char>, c: char)
    requires
        all_digits(s),
        !is_digit(c),
    ensures
        !s.contains(c),
{
    if s.contains(c) {
        let i = choose|i: int| 0 <= i < s.len() && s[i] == c;
        assert(is_digit(s[i]));
    }
}

} // verus!
