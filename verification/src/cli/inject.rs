//! Fault injection options: durations and duration ranges.
use std::path::PathBuf;
use std::time::Duration;
use vstd::prelude::*;
use crate::util::split::{contains_text, has_substring, lines_of, string_from_chars, strings_view, text_lines, vecs_view};
use crate::error::{Error, config_error_with};
use crate::time::duration::{
    duration_from_micros, duration_from_millis, duration_from_nanos, duration_from_secs, nanos_of,
};
use crate::util::text::{chars_of, parse_u64, parsed_u64, trim_chars, trimmed};

verus! {

/// Arguments for the inject command.
#[derive(Debug)]
pub struct InjectArgs {
    /// Test binary to run with fault injection.
    pub test_binary: String,
    /// Fault specifications.
    pub fault: Vec<String>,
    /// Random seed for reproducibility.
    pub seed: Option<u64>,
    /// Verbose output.
    pub verbose: bool,
    /// Record execution to file.
    pub record: Option<PathBuf>,
}

/// `t` ends with the two characters `a`, `b`.
pub open spec fn ends2(t: Seq<char>, a: char, b: char) -> bool {
    t.len() >= 2 && t[t.len() - 2] == a && t[t.len() - 1] == b
}

/// How a trimmed duration text reads: its number and the nanoseconds in one
/// of its unit. `ms`, `us`, `ns` and `s` name units; a bare number counts
/// milliseconds.
pub open spec fn duration_parts(t: Seq<char>) -> (Seq<char>, nat) {
    if ends2(t, 'm', 's') {
        (t.take(t.len() - 2), 1_000_000)
    } else if ends2(t, 'u', 's') {
        (t.take(t.len() - 2), 1_000)
    } else if ends2(t, 'n', 's') {
        (t.take(t.len() - 2), 1)
    } else if t.len() >= 1 && t[t.len() - 1] == 's' {
        (t.take(t.len() - 1), 1_000_000_000)
    } else {
        (t, 1_000_000)
    }
}

/// Parses a duration such as `100ms`, `5s`, `1000us`, `20ns` or `50` (plain
/// milliseconds), ignoring surrounding white space.
pub fn parse_duration(s: &str) -> (r: Result<Duration, Error>)
    ensures
        ({
            let (num, unit) = duration_parts(trimmed(s@));
            match parsed_u64(num) {
                Some(v) => r matches Ok(d) && nanos_of(d) == v * unit,
                None => config_error_with(r, "invalid duration: "@ + trimmed(s@)),
            }
        }),
{
    let all = chars_of(s);
    let t = trim_chars(all.as_slice());
    let n = t.len();
    let (num_len, scale): (usize, u64) = if n >= 2 && t[n - 2] == 'm' && t[n - 1] == 's' {
        (n - 2, 1_000_000)
    } else if n >= 2 && t[n - 2] == 'u' && t[n - 1] == 's' {
        (n - 2, 1_000)
    } else if n >= 2 && t[n - 2] == 'n' && t[n - 1] == 's' {
        (n - 2, 1)
    } else if n >= 1 && t[n - 1] == 's' {
        (n - 1, 1_000_000_000)
    } else {
        (n, 1_000_000)
    };
    let num = vstd::slice::slice_subrange(t.as_slice(), 0, num_len);
    proof {
        assert(num@ =~= duration_parts(t@).0);
        assert(duration_parts(t@).1 == scale as nat);
    }
    match parse_u64(num) {
        Some(v) => {
            let d = if scale == 1_000_000 {
                duration_from_millis(v)
            } else if scale == 1_000 {
                duration_from_micros(v)
            } else if scale == 1 {
                duration_from_nanos(v)
            } else {
                duration_from_secs(v)
            };
            Ok(d)
        },
        None => {
            let mut message = String::from_str("invalid duration: ");
            let mut i: usize = 0;
            while i < t.len()
                invariant
                    i <= t@.len(),
                    message@ == "invalid duration: "@ + t@.take(i as int),
                decreases t@.len() - i,
            {
                message.push(t[i]);
                proof {
                    assert(t@.take(i as int + 1) =~= t@.take(i as int).push(t@[i as int]));
                }
                i = i + 1;
            }
            proof {
                assert(t@.take(t@.len() as int) =~= t@);
            }
            Err(Error::ConfigError { message })
        },
    }
}

/// The position of the first `-` in `s`, if any.
pub open spec fn dash_count(s: Seq<char>) -> nat
    decreases s.len(),
{
    if s.len() == 0 { 0 } else { dash_count(s.drop_last()) + if s.last() == '-' { 1nat } else { 0nat } }
}

/// What parsing `s` as a range `min-max` gives: an error naming the text
/// unless it has one `-`; else each side parsed as a duration, the first
/// side's error first.
pub open spec fn range_result(s: Seq<char>, r: Result<(Duration, Duration), Error>) -> bool {
    &&& dash_count(s) != 1 ==> config_error_with(r, "invalid duration range: "@ + s)
    &&& dash_count(s) == 1 ==> exists|i: int|
        0 <= i < s.len() && s[i] == '-' && ({
            let (a, ua) = duration_parts(trimmed(s.take(i)));
            let (b, ub) = duration_parts(trimmed(s.skip(i + 1)));
            &&& (parsed_u64(a) is Some && parsed_u64(b) is Some) <==> r is Ok
            &&& r matches Ok(p) ==> nanos_of(p.0) == parsed_u64(a)->0 * ua && nanos_of(p.1) == parsed_u64(b)->0 * ub
            &&& parsed_u64(a) is None ==> config_error_with(r, "invalid duration: "@ + trimmed(s.take(i)))
            &&& parsed_u64(a) is Some && parsed_u64(b) is None ==> config_error_with(
                r,
                "invalid duration: "@ + trimmed(s.skip(i + 1)),
            )
        })
}

/// Parses a range `min-max` of two durations. A text with other than one
/// `-` is refused; each side is parsed as `parse_duration` does.
pub fn parse_duration_range(s: &str) -> (r: Result<(Duration, Duration), Error>)
    ensures
        range_result(s@, r),
        dash_count(s@) != 1 ==> config_error_with(r, "invalid duration range: "@ + s@),
{
    let all = chars_of(s);
    let mut dashes: usize = 0;
    let mut at: usize = 0;
    let mut i: usize = 0;
    while i < all.len()
        invariant
            all@ == s@,
            i <= all@.len(),
            dashes == dash_count(all@.take(i as int)),
            dashes <= i,
            dashes > 0 ==> at < i && all@[at as int] == '-',
            dashes == 1 ==> dash_count(all@.take(at as int)) == 0,
        decreases all@.len() - i,
    {
        proof {
            assert(all@.take(i as int + 1).drop_last() =~= all@.take(i as int));
        }
        if all[i] == '-' {
            if dashes == 0 {
                at = i;
            }
            dashes = dashes + 1;
        }
        i = i + 1;
    }
    proof {
        assert(all@.take(all@.len() as int) =~= all@);
    }
    if dashes != 1 {
        let mut message = String::from_str("invalid duration range: ");
        message.append(s);
        return Err(Error::ConfigError { message });
    }
    let left = text_of(vstd::slice::slice_subrange(all.as_slice(), 0, at));
    let right = text_of(vstd::slice::slice_subrange(all.as_slice(), at + 1, all.len()));
    proof {
        assert(left@ =~= s@.take(at as int));
        assert(right@ =~= s@.skip(at as int + 1));
    }
    let min = parse_duration(left.as_str());
    let r = match min {
        Ok(a) => {
            let max = parse_duration(right.as_str());
            match max {
                Ok(b) => Ok((a, b)),
                Err(e) => Err(e),
            }
        },
        Err(e) => Err(e),
    };
    proof {
        let i = at as int;
        assert(0 <= i < s@.len() && s@[i] == '-');
        let (a, ua) = duration_parts(trimmed(s@.take(i)));
        let (b, ub) = duration_parts(trimmed(s@.skip(i + 1)));
        assert((parsed_u64(a) is Some && parsed_u64(b) is Some) <==> r is Ok);
    }
    r
}

/// The characters as a string.
fn text_of(cs: &[char]) -> (r: String)
    ensures
        r@ == cs@,
{
    let mut out = String::new();
    let mut i: usize = 0;
    while i < cs.len()
        invariant
            i <= cs@.len(),
            out@ == cs@.take(i as int),
        decreases cs@.len() - i,
    {
        out.push(cs[i]);
        proof {
            assert(cs@.take(i as int + 1) =~= cs@.take(i as int).push(cs@[i as int]));
        }
        i = i + 1;
    }
    proof {
        assert(cs@.take(cs@.len() as int) =~= cs@);
    }
    out
}

/// Whether a line of a failed run's output is worth showing: it mentions
/// an assertion, a panic or a failure.
pub open spec fn is_failure_line(l: Seq<char>) -> bool {
    has_substring(l, "assertion"@) || has_substring(l, "panic"@) || has_substring(l, "FAIL"@)
}

/// The lines of `lines` worth showing, in order.
pub open spec fn failure_lines_of(lines: Seq<Seq<char>>) -> Seq<Seq<char>>
    decreases lines.len(),
{
    if lines.len() == 0 {
        Seq::empty()
    } else if is_failure_line(lines.last()) {
        failure_lines_of(lines.drop_last()).push(lines.last())
    } else {
        failure_lines_of(lines.drop_last())
    }
}

/// The lines of a failed run's output worth showing.
pub fn failure_lines(output: &str) -> (r: Vec<String>)
    ensures
        strings_view(r@) == failure_lines_of(text_lines(output@)),
{
    let lines = lines_of(chars_of(output).as_slice());
    let ghost ls = vecs_view(lines@);
    let assertion = chars_of("assertion");
    let panic = chars_of("panic");
    let fail = chars_of("FAIL");
    let mut out: Vec<String> = Vec::new();
    let mut i: usize = 0;
    proof {
        assert(ls.take(0) =~= Seq::<Seq<char>>::empty());
        assert(strings_view(out@) =~= Seq::<Seq<char>>::empty());
    }
    while i < lines.len()
        invariant
            ls == vecs_view(lines@),
            assertion@ == "assertion"@,
            panic@ == "panic"@,
            fail@ == "FAIL"@,
            i <= lines@.len(),
            strings_view(out@) == failure_lines_of(ls.take(i as int)),
        decreases lines@.len() - i,
    {
        let line = &lines[i];
        proof {
            let q = ls.take(i as int + 1);
            assert(q.drop_last() =~= ls.take(i as int));
            assert(q.last() == line@);
        }
        if contains_text(line.as_slice(), assertion.as_slice()) || contains_text(line.as_slice(), panic.as_slice())
            || contains_text(line.as_slice(), fail.as_slice()) {
            let ghost o0 = out@;
            out.push(string_from_chars(line.as_slice()));
            proof {
                assert(strings_view(out@) =~= strings_view(o0).push(line@));
            }
        }
        i = i + 1;
    }
    proof {
        assert(ls.take(lines@.len() as int) =~= ls);
    }
    out
}

/// A hexadecimal digit, in lower case.
pub open spec fn hex_digit(n: int) -> char {
    if n < 10 { ('0' as int + n) as char } else { ('a' as int + n - 10) as char }
}

/// How a character stands inside a JSON string: quote and backslash
/// escaped, the named control characters by name, the other characters
/// below U+0020 as `\u00XX`, everything else as itself.
pub open spec fn json_char(c: char) -> Seq<char> {
    if c == '"' {
        seq!['\\', '"']
    } else if c == '\\' {
        seq!['\\', '\\']
    } else if c == '\u{8}' {
        seq!['\\', 'b']
    } else if c == '\t' {
        seq!['\\', 't']
    } else if c == '\n' {
        seq!['\\', 'n']
    } else if c == '\u{c}' {
        seq!['\\', 'f']
    } else if c == '\r' {
        seq!['\\', 'r']
    } else if (c as int) < 0x20 {
        seq!['\\', 'u', '0', '0', hex_digit((c as int) / 16), hex_digit((c as int) % 16)]
    } else {
        seq![c]
    }
}

/// The characters of `s`, each as it stands inside a JSON string.
pub open spec fn json_escaped(s: Seq<char>) -> Seq<char>
    decreases s.len(),
{
    if s.len() == 0 { Seq::empty() } else { json_escaped(s.drop_last()) + json_char(s.last()) }
}

/// The JSON strings of `ss`, separated by commas.
pub open spec fn json_items(ss: Seq<Seq<char>>) -> Seq<char>
    decreases ss.len(),
{
    if ss.len() == 0 {
        Seq::empty()
    } else if ss.len() == 1 {
        seq!['"'] + json_escaped(ss[0]) + seq!['"']
    } else {
        json_items(ss.drop_last()) + seq![','] + seq!['"'] + json_escaped(ss.last()) + seq!['"']
    }
}

/// The compact JSON array of the strings `ss`.
pub open spec fn json_string_list(ss: Seq<Seq<char>>) -> Seq<char> {
    seq!['['] + json_items(ss) + seq![']']
}

/// Calls `serde_json::to_string` on a list of strings: a list of strings
/// always serialises (into memory), as a compact array whose strings have
/// quote, backslash and the characters below U+0020 escaped.
#[verifier::external_body]
fn to_json_list(specs: &Vec<String>) -> (r: Option<String>)
    ensures
        r is Some,
        r.unwrap()@ == json_string_list(strings_view(specs@)),
{
    serde_json::to_string(specs).ok()
}

/// The fault list handed to the test binary, given what serialising it
/// gave: the JSON text, or an empty array where serialising failed.
pub fn fault_list_json(encoded: Option<String>) -> (r: String)
    ensures
        r@ == match encoded {
            Some(t) => t@,
            None => "[]"@,
        },
{
    match encoded {
        Some(t) => t,
        None => String::from_str("[]"),
    }
}

/// The fault specifications as a JSON array of strings, for the test
/// binary's environment (`[]` should serialising fail).
pub fn faults_json(specs: &Vec<String>) -> (r: String)
    ensures
        r@ == json_string_list(strings_view(specs@)),
{
    fault_list_json(to_json_list(specs))
}

} // verus!
