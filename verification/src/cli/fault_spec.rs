//! The grammar of fault specifications on the command line, such as
//! `network:partition:1,2|3,4:10s`, `network:drop:10%`,
//! `disk:error:write:5%`, `crash:2:after:1s` and `heal`.
//!
//! A rate (`10%`, `0.1`) is read by the caller, as a value of its choice:
//! `fault_rate_text` says which text is a rate, and `parse_fault_spec` takes
//! what the caller made of it.
use std::time::Duration;
use vstd::prelude::*;
use crate::cli::inject::{duration_parts, parse_duration, parse_duration_range, range_result};
use crate::error::{config_error_with, Error};
use crate::time::duration::nanos_of;
use crate::util::split::{chars_eq, split_chars, split_on, string_from_chars, vecs_view};
use crate::util::text::{chars_of, parse_u64, parsed_u64, trim_chars, trimmed};

verus! {

/// A parsed fault specification; rates are of type `R`.
#[derive(Debug, Clone)]
pub enum FaultSpec<R> {
    /// Network partition between groups, for a time if one is given.
    Partition { groups: Vec<Vec<u32>>, duration: Option<Duration> },
    /// Drop packets with the given probability.
    Drop { rate: R },
    /// Add a delay in the range to packets.
    Delay { min: Duration, max: Duration },
    /// Duplicate packets with the given probability.
    Duplicate { rate: R },
    /// Fail disk reads with the given probability.
    DiskReadError { rate: R },
    /// Fail disk writes with the given probability.
    DiskWriteError { rate: R },
    /// Crash a node after a delay.
    Crash { node: u32, after: Duration },
    /// Remove all faults.
    Heal,
}

/// `s` read as a `u32`, as `str::parse::<u32>` does.
pub open spec fn parsed_u32(s: Seq<char>) -> Option<u32> {
    match parsed_u64(s) {
        Some(v) => if v <= u32::MAX { Some(v as u32) } else { None },
        None => None,
    }
}

/// The node ids among comma-separated pieces; a piece that is not a
/// number (once trimmed) is skipped.
pub open spec fn group_ids(pieces: Seq<Seq<char>>) -> Seq<u32>
    decreases pieces.len(),
{
    if pieces.len() == 0 {
        Seq::empty()
    } else {
        let rest = group_ids(pieces.drop_last());
        match parsed_u32(trimmed(pieces.last())) {
            Some(v) => rest.push(v),
            None => rest,
        }
    }
}

/// The groups of a partition text: groups split by `|`, ids by `,`.
pub open spec fn partition_groups(t: Seq<char>) -> Seq<Seq<u32>> {
    split_on(t, '|').map_values(|g: Seq<char>| group_ids(split_on(g, ',')))
}

/// The length in nanoseconds of a duration text, if it reads as one.
pub open spec fn duration_value(t: Seq<char>) -> Option<nat> {
    let (num, unit) = duration_parts(trimmed(t));
    match parsed_u64(num) {
        Some(v) => Some((v * unit) as nat),
        None => None,
    }
}

/// An optional duration text read as a duration; a text that does not
/// read as one gives none.
pub open spec fn duration_opt(t: Option<Seq<char>>, d: Option<Duration>) -> bool {
    match t {
        None => d is None,
        Some(t) => match duration_value(t) {
            Some(n) => d matches Some(x) && nanos_of(x) == n,
            None => d is None,
        },
    }
}

/// The text of a specification that is read as a rate, if parsing gets
/// that far.
pub open spec fn rate_text_of(spec: Seq<char>) -> Option<Seq<char>> {
    let p = split_on(spec, ':');
    if p[0] == "network"@ && p.len() >= 3 && (p[1] == "drop"@ || p[1] == "duplicate"@) {
        Some(p[2])
    } else if p[0] == "disk"@ && p.len() >= 4 && p[1] == "error"@ {
        Some(p[3])
    } else {
        None
    }
}

/// The views of a list of groups.
pub open spec fn groups_view(g: Seq<Vec<u32>>) -> Seq<Seq<u32>> {
    g.map_values(|v: Vec<u32>| v@)
}

/// What a network fault's parts (after `network`) give.
pub open spec fn network_result<R>(p: Seq<Seq<char>>, rate: Option<Result<R, Error>>, r: Result<FaultSpec<R>, Error>) -> bool {
    if p.len() == 0 {
        config_error_with(r, "network fault requires subtype"@)
    } else if p[0] == "partition"@ {
        if p.len() < 2 {
            config_error_with(r, "partition requires node groups"@)
        } else {
            r matches Ok(FaultSpec::Partition { groups, duration }) && groups_view(groups@) == partition_groups(p[1])
                && duration_opt(if p.len() > 2 { Some(p[2]) } else { None }, duration)
        }
    } else if p[0] == "drop"@ {
        if p.len() < 2 {
            config_error_with(r, "drop requires rate"@)
        } else {
            match rate {
                Some(Ok(x)) => r == Ok::<FaultSpec<R>, Error>(FaultSpec::Drop { rate: x }),
                Some(Err(e)) => r == Err::<FaultSpec<R>, Error>(e),
                None => false,
            }
        }
    } else if p[0] == "delay"@ {
        if p.len() < 2 {
            config_error_with(r, "delay requires range"@)
        } else {
            match r {
                Ok(FaultSpec::Delay { min, max }) => range_result(p[1], Ok((min, max))),
                Err(e) => range_result(p[1], Err(e)),
                _ => false,
            }
        }
    } else if p[0] == "duplicate"@ {
        if p.len() < 2 {
            config_error_with(r, "duplicate requires rate"@)
        } else {
            match rate {
                Some(Ok(x)) => r == Ok::<FaultSpec<R>, Error>(FaultSpec::Duplicate { rate: x }),
                Some(Err(e)) => r == Err::<FaultSpec<R>, Error>(e),
                None => false,
            }
        }
    } else {
        config_error_with(r, "unknown network fault: "@ + p[0])
    }
}

/// What a disk fault's parts (after `disk`) give: the rate is read before
/// the operation is looked at.
pub open spec fn disk_result<R>(p: Seq<Seq<char>>, rate: Option<Result<R, Error>>, r: Result<FaultSpec<R>, Error>) -> bool {
    if p.len() < 3 {
        config_error_with(r, "disk fault requires: error:read|write:rate"@)
    } else if p[0] != "error"@ {
        config_error_with(r, "unknown disk fault: "@ + p[0])
    } else {
        match rate {
            Some(Err(e)) => r == Err::<FaultSpec<R>, Error>(e),
            Some(Ok(x)) => if p[1] == "read"@ {
                r == Ok::<FaultSpec<R>, Error>(FaultSpec::DiskReadError { rate: x })
            } else if p[1] == "write"@ {
                r == Ok::<FaultSpec<R>, Error>(FaultSpec::DiskWriteError { rate: x })
            } else {
                config_error_with(r, "unknown disk operation: "@ + p[1])
            },
            None => false,
        }
    }
}

/// What a crash fault's parts (after `crash`) give.
pub open spec fn crash_result<R>(p: Seq<Seq<char>>, r: Result<FaultSpec<R>, Error>) -> bool {
    if p.len() < 3 {
        config_error_with(r, "crash fault requires: node:after:duration"@)
    } else {
        match parsed_u32(p[0]) {
            None => config_error_with(r, "invalid node id: "@ + p[0]),
            Some(node) => if p[1] != "after"@ {
                config_error_with(r, "expected 'after' keyword"@)
            } else {
                match duration_value(p[2]) {
                    Some(n) => r matches Ok(FaultSpec::Crash { node: k, after }) && k == node && nanos_of(after) == n,
                    None => config_error_with(r, "invalid duration: "@ + trimmed(p[2])),
                }
            },
        }
    }
}

/// What parsing `spec` gives, the rate read as `rate`.
pub open spec fn fault_spec_result<R>(spec: Seq<char>, rate: Option<Result<R, Error>>, r: Result<FaultSpec<R>, Error>) -> bool {
    let parts = split_on(spec, ':');
    let p = parts.skip(1);
    if parts[0] == "network"@ {
        network_result(p, rate, r)
    } else if parts[0] == "disk"@ {
        disk_result(p, rate, r)
    } else if parts[0] == "crash"@ {
        crash_result(p, r)
    } else if parts[0] == "heal"@ {
        r == Ok::<FaultSpec<R>, Error>(FaultSpec::Heal)
    } else {
        config_error_with(r, "unknown fault type: "@ + parts[0])
    }
}


/// Whether the characters are the word `w`.
fn is_word(v: &Vec<char>, w: &str) -> (r: bool)
    ensures
        r == (v@ == w@),
{
    let wc = chars_of(w);
    chars_eq(v.as_slice(), wc.as_slice())
}

/// A configuration error whose message is `head` followed by `tail`.
fn error_with(head: &str, tail: &Vec<char>) -> (r: Error)
    ensures
        r matches Error::ConfigError { message } && message@ == head@ + tail@,
{
    let mut message = String::from_str(head);
    let t = string_from_chars(tail.as_slice());
    message.append(t.as_str());
    Error::ConfigError { message }
}

/// A configuration error whose message is `text`.
fn error_text(text: &str) -> (r: Error)
    ensures
        r matches Error::ConfigError { message } && message@ == text@,
{
    Error::ConfigError { message: String::from_str(text) }
}

/// Reads a `u32` as `str::parse::<u32>` does.
fn parse_u32_chars(s: &[char]) -> (r: Option<u32>)
    ensures
        r == parsed_u32(s@),
{
    match parse_u64(s) {
        Some(v) => if v <= 0xffff_ffffu64 { Some(v as u32) } else { None },
        None => None,
    }
}

/// The node ids of a comma-separated group.
fn group_ids_of(g: &Vec<char>) -> (r: Vec<u32>)
    ensures
        r@ == group_ids(split_on(g@, ',')),
{
    let pieces = split_chars(g.as_slice(), ',');
    let ghost ps = vecs_view(pieces@);
    let mut out: Vec<u32> = Vec::new();
    let mut i: usize = 0;
    proof {
        assert(ps.take(0) =~= Seq::<Seq<char>>::empty());
    }
    while i < pieces.len()
        invariant
            ps == vecs_view(pieces@),
            ps == split_on(g@, ','),
            i <= ps.len(),
            out@ == group_ids(ps.take(i as int)),
        decreases ps.len() - i,
    {
        let t = trim_chars(pieces[i].as_slice());
        proof {
            assert(ps[i as int] == pieces@[i as int]@);
            assert(ps.take(i + 1).drop_last() =~= ps.take(i as int));
        }
        match parse_u32_chars(t.as_slice()) {
            Some(v) => out.push(v),
            None => {},
        }
        i = i + 1;
    }
    proof {
        assert(ps.take(ps.len() as int) =~= ps);
    }
    out
}

/// The groups of a partition text.
fn partition_groups_of(t: &Vec<char>) -> (r: Vec<Vec<u32>>)
    ensures
        groups_view(r@) == partition_groups(t@),
{
    let gs = split_chars(t.as_slice(), '|');
    let ghost gv = vecs_view(gs@);
    let mut out: Vec<Vec<u32>> = Vec::new();
    let mut i: usize = 0;
    while i < gs.len()
        invariant
            gv == vecs_view(gs@),
            gv == split_on(t@, '|'),
            i <= gv.len(),
            out@.len() == i,
            forall|j: int| 0 <= j < i ==> #[trigger] out@[j]@ == group_ids(split_on(gv[j], ',')),
        decreases gv.len() - i,
    {
        let ids = group_ids_of(&gs[i]);
        proof {
            assert(gv[i as int] == gs@[i as int]@);
        }
        out.push(ids);
        i = i + 1;
    }
    proof {
        assert(groups_view(out@) =~= partition_groups(t@));
    }
    out
}

/// Reads a duration text.
fn parse_duration_chars(t: &Vec<char>) -> (r: Result<Duration, Error>)
    ensures
        match duration_value(t@) {
            Some(n) => r matches Ok(d) && nanos_of(d) == n,
            None => config_error_with(r, "invalid duration: "@ + trimmed(t@)),
        },
{
    let text = string_from_chars(t.as_slice());
    parse_duration(text.as_str())
}

/// The text of `spec` that is read as a rate, if parsing gets that far:
/// the third part of a network drop or duplicate, the fourth of a disk
/// error.
pub fn fault_rate_text(spec: &str) -> (r: Option<String>)
    ensures
        match r {
            Some(t) => rate_text_of(spec@) == Some(t@),
            None => rate_text_of(spec@) is None,
        },
{
    let chars = chars_of(spec);
    let parts = split_chars(chars.as_slice(), ':');
    let ghost pv = vecs_view(parts@);
    proof {
        assert(pv == split_on(spec@, ':'));
        assert(pv.len() >= 1);
        assert(pv[0] == parts@[0]@);
    }
    let n = parts.len();
    if is_word(&parts[0], "network") && n >= 3 && (is_word(&parts[1], "drop") || is_word(&parts[1], "duplicate")) {
        proof {
            assert(pv[1] == parts@[1]@);
            assert(pv[2] == parts@[2]@);
        }
        Some(string_from_chars(parts[2].as_slice()))
    } else if is_word(&parts[0], "disk") && n >= 4 && is_word(&parts[1], "error") {
        proof {
            assert(pv[1] == parts@[1]@);
            assert(pv[3] == parts@[3]@);
        }
        Some(string_from_chars(parts[3].as_slice()))
    } else {
        proof {
            if n >= 3 {
                assert(pv[1] == parts@[1]@);
            }
        }
        None
    }
}


/// Parses the parts of a network fault (after `network`).
fn parse_network<R>(p: &Vec<Vec<char>>, rate: Option<Result<R, Error>>) -> (r: Result<FaultSpec<R>, Error>)
    requires
        (rate is Some) <==> (p@.len() >= 2 && (p@[0]@ == "drop"@ || p@[0]@ == "duplicate"@)),
    ensures
        network_result(vecs_view(p@), rate, r),
{
    let ghost pv = vecs_view(p@);
    if p.len() == 0 {
        return Err(error_text("network fault requires subtype"));
    }
    proof {
        assert(pv[0] == p@[0]@);
        if p@.len() >= 2 {
            assert(pv[1] == p@[1]@);
        }
        if p@.len() >= 3 {
            assert(pv[2] == p@[2]@);
        }
    }
    if is_word(&p[0], "partition") {
        if p.len() < 2 {
            return Err(error_text("partition requires node groups"));
        }
        let groups = partition_groups_of(&p[1]);
        let duration = if p.len() > 2 {
            match parse_duration_chars(&p[2]) {
                Ok(d) => Some(d),
                Err(_) => None,
            }
        } else {
            None
        };
        Ok(FaultSpec::Partition { groups, duration })
    } else if is_word(&p[0], "drop") {
        if p.len() < 2 {
            return Err(error_text("drop requires rate"));
        }
        match rate {
            Some(Ok(x)) => Ok(FaultSpec::Drop { rate: x }),
            Some(Err(e)) => Err(e),
            None => {
                proof {
                    assert(false);
                }
                Err(error_text("drop requires rate"))
            },
        }
    } else if is_word(&p[0], "delay") {
        if p.len() < 2 {
            return Err(error_text("delay requires range"));
        }
        let text = string_from_chars(p[1].as_slice());
        match parse_duration_range(text.as_str()) {
            Ok((min, max)) => Ok(FaultSpec::Delay { min, max }),
            Err(e) => Err(e),
        }
    } else if is_word(&p[0], "duplicate") {
        if p.len() < 2 {
            return Err(error_text("duplicate requires rate"));
        }
        match rate {
            Some(Ok(x)) => Ok(FaultSpec::Duplicate { rate: x }),
            Some(Err(e)) => Err(e),
            None => {
                proof {
                    assert(false);
                }
                Err(error_text("duplicate requires rate"))
            },
        }
    } else {
        Err(error_with("unknown network fault: ", &p[0]))
    }
}

/// Parses the parts of a disk fault (after `disk`).
fn parse_disk<R>(p: &Vec<Vec<char>>, rate: Option<Result<R, Error>>) -> (r: Result<FaultSpec<R>, Error>)
    requires
        (rate is Some) <==> (p@.len() >= 3 && p@[0]@ == "error"@),
    ensures
        disk_result(vecs_view(p@), rate, r),
{
    let ghost pv = vecs_view(p@);
    if p.len() < 3 {
        return Err(error_text("disk fault requires: error:read|write:rate"));
    }
    proof {
        assert(pv[0] == p@[0]@);
        assert(pv[1] == p@[1]@);
    }
    if !is_word(&p[0], "error") {
        return Err(error_with("unknown disk fault: ", &p[0]));
    }
    match rate {
        Some(Err(e)) => Err(e),
        Some(Ok(x)) => {
            if is_word(&p[1], "read") {
                Ok(FaultSpec::DiskReadError { rate: x })
            } else if is_word(&p[1], "write") {
                Ok(FaultSpec::DiskWriteError { rate: x })
            } else {
                Err(error_with("unknown disk operation: ", &p[1]))
            }
        },
        None => {
            proof {
                assert(false);
            }
            Err(error_text("disk fault requires: error:read|write:rate"))
        },
    }
}

/// Parses the parts of a crash fault (after `crash`).
fn parse_crash<R>(p: &Vec<Vec<char>>) -> (r: Result<FaultSpec<R>, Error>)
    ensures
        crash_result(vecs_view(p@), r),
{
    let ghost pv = vecs_view(p@);
    if p.len() < 3 {
        return Err(error_text("crash fault requires: node:after:duration"));
    }
    proof {
        assert(pv[0] == p@[0]@);
        assert(pv[1] == p@[1]@);
        assert(pv[2] == p@[2]@);
    }
    let node = match parse_u32_chars(p[0].as_slice()) {
        Some(n) => n,
        None => {
            return Err(error_with("invalid node id: ", &p[0]));
        },
    };
    if !is_word(&p[1], "after") {
        return Err(error_text("expected 'after' keyword"));
    }
    match parse_duration_chars(&p[2]) {
        Ok(after) => Ok(FaultSpec::Crash { node, after }),
        Err(e) => Err(e),
    }
}

/// Parses a fault specification. `rate` is what the caller made of the
/// text that `fault_rate_text` names, and is given exactly when there is
/// such a text; a network drop or duplicate, or a disk error, takes it
/// (or its error) in place of the rate text.
pub fn parse_fault_spec<R>(spec: &str, rate: Option<Result<R, Error>>) -> (r: Result<FaultSpec<R>, Error>)
    requires
        (rate is Some) <==> (rate_text_of(spec@) is Some),
    ensures
        fault_spec_result(spec@, rate, r),
{
    let chars = chars_of(spec);
    let mut parts = split_chars(chars.as_slice(), ':');
    let ghost all = vecs_view(parts@);
    proof {
        assert(all == split_on(spec@, ':'));
        assert(all.len() >= 1);
        assert(all[0] == parts@[0]@);
    }
    if parts.len() == 0 {
        return Err(error_text("empty fault specification"));
    }
    let rest = parts.split_off(1);
    proof {
        assert(vecs_view(rest@) =~= all.skip(1));
        assert(parts@.len() == 1 && parts@[0]@ == all[0]);
        if rest@.len() >= 1 {
            assert(rest@[0]@ == all[1]);
        }
    }
    if is_word(&parts[0], "network") {
        proof {
            reveal_strlit("network");
            reveal_strlit("disk");
            assert("network"@ != "disk"@) by {
                assert("network"@[0] != "disk"@[0]);
            }
            assert(rest@.len() == all.len() - 1);
            assert(rate_text_of(spec@) is Some <==> (all.len() >= 3 && (all[1] == "drop"@ || all[1] == "duplicate"@)));
        }
        parse_network(&rest, rate)
    } else if is_word(&parts[0], "disk") {
        proof {
            assert(rest@.len() == all.len() - 1);
            assert(rate_text_of(spec@) is Some <==> (all.len() >= 4 && all[1] == "error"@));
        }
        parse_disk(&rest, rate)
    } else if is_word(&parts[0], "crash") {
        parse_crash(&rest)
    } else if is_word(&parts[0], "heal") {
        Ok(FaultSpec::Heal)
    } else {
        Err(error_with("unknown fault type: ", &parts[0]))
    }
}

} // verus!
