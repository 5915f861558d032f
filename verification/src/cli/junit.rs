//! JUnit report pieces: escaping text for XML, and the report's timestamp.
use vstd::prelude::*;
use crate::recording::format::{since_unix_epoch, wall_clock_now};
use crate::time::duration::{duration_as_nanos, nanos_of};
use std::time::Duration;
use crate::cli::explore::{bug_views, Bug, BugView};
use crate::cli::output::TraceEntry;
use crate::cli::run::RunResult;
use crate::util::fmt::{dec, push_dec};
use crate::util::split::strings_view;

verus! {

/// A test failure.
#[derive(Debug)]
pub struct Failure {
    pub message: String,
    pub failure_type: String,
    pub content: String,
}

/// What a character becomes in XML text.
pub open spec fn escape_char(c: char) -> Seq<char> {
    if c == '&' {
        "&amp;"@
    } else if c == '<' {
        "&lt;"@
    } else if c == '>' {
        "&gt;"@
    } else if c == '"' {
        "&quot;"@
    } else if c == '\'' {
        "&apos;"@
    } else {
        seq![c]
    }
}

/// `s` escaped for XML: the five special characters become entities.
pub open spec fn xml_escaped(s: Seq<char>) -> Seq<char>
    decreases s.len(),
{
    if s.len() == 0 { Seq::empty() } else { xml_escaped(s.drop_last()) + escape_char(s.last()) }
}

/// Escapes `s` for XML text and attributes.
pub fn xml_escape(s: &str) -> (r: String)
    ensures
        r@ == xml_escaped(s@),
{
    let cs = crate::util::text::chars_of(s);
    let mut out = String::new();
    let mut i: usize = 0;
    while i < cs.len()
        invariant
            cs@ == s@,
            i <= cs@.len(),
            out@ == xml_escaped(cs@.take(i as int)),
        decreases cs@.len() - i,
    {
        let c = cs[i];
        let ghost before = out@;
        if c == '&' {
            out.append("&amp;");
        } else if c == '<' {
            out.append("&lt;");
        } else if c == '>' {
            out.append("&gt;");
        } else if c == '"' {
            out.append("&quot;");
        } else if c == '\'' {
            out.append("&apos;");
        } else {
            out.push(c);
        }
        proof {
            let t = cs@.take(i as int + 1);
            assert(t.drop_last() =~= cs@.take(i as int));
            assert(t.last() == c);
            assert(out@ =~= before + escape_char(c));
        }
        i = i + 1;
    }
    proof {
        assert(cs@.take(cs@.len() as int) =~= cs@);
    }
    out
}

/// Whether `year` is a leap year of the Gregorian calendar.
pub open spec fn is_leap_year(year: nat) -> bool {
    (year % 4 == 0 && year % 100 != 0) || year % 400 == 0
}

/// The number of days of a year.
pub open spec fn year_length(year: nat) -> nat {
    if is_leap_year(year) { 366 } else { 365 }
}

/// The year and the day within it (from 0) that lie `days` days after the
/// start of `year`.
pub open spec fn year_and_day(days: nat, year: nat) -> (nat, nat)
    decreases days,
{
    if days < year_length(year) {
        (year, days)
    } else {
        year_and_day((days - year_length(year)) as nat, year + 1)
    }
}

/// The length of month `m` (1 to 12) in a leap or common year.
pub open spec fn month_length(m: nat, leap: bool) -> nat {
    if m == 2 {
        if leap { 29 } else { 28 }
    } else if m == 4 || m == 6 || m == 9 || m == 11 {
        30
    } else {
        31
    }
}

/// The month (from `m`) and day within it (from 0) of the day `days` days
/// into month `m`; month 0 when the months run out.
pub open spec fn month_and_day(days: nat, leap: bool, m: nat) -> (nat, nat)
    decreases 13 - m,
{
    if m > 12 {
        (0, days)
    } else if days < month_length(m, leap) {
        (m, days)
    } else {
        month_and_day((days - month_length(m, leap)) as nat, leap, m + 1)
    }
}

/// `n` in decimal, padded with zeros to at least `width` digits.
pub open spec fn padded(n: nat, width: nat) -> Seq<char> {
    if dec(n).len() >= width { dec(n) } else { Seq::new((width - dec(n).len()) as nat, |i: int| '0') + dec(n) }
}

/// The ISO 8601 text (`YYYY-MM-DDTHH:MM:SSZ`) of `secs` seconds after the
/// Unix epoch.
pub open spec fn iso_text(secs: nat) -> Seq<char> {
    let (year, yday) = year_and_day(secs / 86400, 1970);
    let (month, mday) = month_and_day(yday, is_leap_year(year), 1);
    let t = secs % 86400;
    padded(year, 4) + "-"@ + padded(month, 2) + "-"@ + padded(mday + 1, 2) + "T"@ + padded(t / 3600, 2) + ":"@
        + padded((t % 3600) / 60, 2) + ":"@ + padded(t % 60, 2) + "Z"@
}

/// Appends `n` padded with zeros to `width` digits.
fn push_padded(out: &mut String, n: u64, width: usize)
    ensures
        final(out)@ == old(out)@ + padded(n as nat, width as nat),
{
    let digits = crate::util::fmt::dec_string(n);
    let len = digits.unicode_len();
    let ghost before = out@;
    if len < width {
        let mut k: usize = 0;
        while k < width - len
            invariant
                len == dec(n as nat).len(),
                len < width,
                k <= width - len,
                out@ == before + Seq::new(k as nat, |i: int| '0'),
            decreases width - len - k,
        {
            out.push('0');
            proof {
                assert(out@ =~= before + Seq::new((k + 1) as nat, |i: int| '0'));
            }
            k = k + 1;
        }
    }
    out.append(digits.as_str());
    proof {
        assert(out@ =~= before + padded(n as nat, width as nat));
    }
}

/// The length of month `m` (1 to 12).
fn month_days(m: u64, leap: bool) -> (r: u64)
    ensures
        r == month_length(m as nat, leap),
{
    if m == 2 {
        if leap { 29 } else { 28 }
    } else if m == 4 || m == 6 || m == 9 || m == 11 {
        30
    } else {
        31
    }
}

/// Whether `year` is a leap year.
fn leap(year: u64) -> (r: bool)
    ensures
        r == is_leap_year(year as nat),
{
    (year % 4 == 0 && year % 100 != 0) || year % 400 == 0
}

/// The ISO 8601 text of `secs` seconds after the Unix epoch.
pub fn iso_timestamp(secs: u64) -> (r: String)
    ensures
        r@ == iso_text(secs as nat),
{
    let days_since_epoch = secs / 86400;
    let time_of_day = secs % 86400;
    let mut year: u64 = 1970;
    let mut days: u64 = days_since_epoch;
    let mut len: u64 = if leap(year) { 366 } else { 365 };
    while days >= len
        invariant
            year_and_day(days_since_epoch as nat, 1970) == year_and_day(days as nat, year as nat),
            len == year_length(year as nat),
            year >= 1970,
            year - 1970 <= days_since_epoch - days,
            days <= days_since_epoch,
            days_since_epoch <= u64::MAX / 86400,
        decreases days,
    {
        days = days - len;
        year = year + 1;
        len = if leap(year) { 366 } else { 365 };
    }
    let is_leap = leap(year);
    let ghost yday = days as nat;
    proof {
        assert(year_and_day(days_since_epoch as nat, 1970) == (year as nat, yday));
    }
    let mut month: u64 = 1;
    let mut mlen: u64 = month_days(1, is_leap);
    while month <= 12 && days >= mlen
        invariant
            1 <= month <= 13,
            mlen == month_length(month as nat, is_leap),
            month_and_day(yday, is_leap, 1) == month_and_day(days as nat, is_leap, month as nat),
            days <= yday,
            yday < 366,
        decreases 13 - month,
    {
        days = days - mlen;
        month = month + 1;
        mlen = month_days(month, is_leap);
    }
    if month > 12 {
        month = 0;
    }
    proof {
        assert(month_and_day(yday, is_leap, 1) == (month as nat, days as nat));
    }
    let mut out = String::new();
    push_padded(&mut out, year, 4);
    out.append("-");
    push_padded(&mut out, month, 2);
    out.append("-");
    push_padded(&mut out, days + 1, 2);
    out.append("T");
    push_padded(&mut out, time_of_day / 3600, 2);
    out.append(":");
    push_padded(&mut out, (time_of_day % 3600) / 60, 2);
    out.append(":");
    push_padded(&mut out, time_of_day % 60, 2);
    out.append("Z");
    proof {
        assert(out@ =~= iso_text(secs as nat));
    }
    out
}

/// The whole seconds of a time since the epoch (0 where the clock stands
/// before the epoch).
pub open spec fn secs_since(since: Option<Duration>) -> u64 {
    match since {
        Some(d) => (nanos_of(d) / 1_000_000_000) as u64,
        None => 0,
    }
}

/// The ISO 8601 text of a time since the epoch, to the second (the epoch
/// itself where the clock stands before it).
pub fn timestamp_of(since: Option<Duration>) -> (r: String)
    ensures
        r@ == iso_text(secs_since(since) as nat),
{
    let secs: u64 = match since {
        Some(d) => {
            let n = duration_as_nanos(&d);
            (n / 1_000_000_000) as u64
        },
        None => 0,
    };
    iso_timestamp(secs)
}

/// The wall clock's current time as ISO 8601 text: the text of the time
/// since the epoch that the clock gave.
pub fn chrono_timestamp() -> (r: String)
    ensures
        exists|since: Option<Duration>| r@ == iso_text(secs_since(since) as nat),
{
    let now = wall_clock_now();
    let since = since_unix_epoch(&now);
    let r = timestamp_of(since);
    proof {
        assert(r@ == iso_text(secs_since(since) as nat));
    }
    r
}

/// What a failure holds, as plain values.
pub struct FailureView {
    pub message: Seq<char>,
    pub failure_type: Seq<char>,
    pub content: Seq<char>,
}

impl View for Failure {
    type V = FailureView;

    open spec fn view(&self) -> FailureView {
        FailureView { message: self.message@, failure_type: self.failure_type@, content: self.content@ }
    }
}

/// The view of an optional failure.
pub open spec fn failure_opt(f: Option<Failure>) -> Option<FailureView> {
    match f {
        Some(x) => Some(x@),
        None => None,
    }
}

/// The counts of a test suite.
#[derive(Debug, Clone, Copy, PartialEq, Eq, Structural)]
pub struct CaseCounts {
    pub tests: u32,
    pub failures: u32,
    pub errors: u32,
    pub skipped: u32,
}

impl CaseCounts {
    /// No cases yet.
    pub fn new() -> (r: Self)
        ensures
            r == (CaseCounts { tests: 0, failures: 0, errors: 0, skipped: 0 }),
    {
        CaseCounts { tests: 0, failures: 0, errors: 0, skipped: 0 }
    }

    /// Counts one more case, failed or skipped or neither.
    pub fn add(&mut self, failed: bool, skipped: bool)
        requires
            old(self).tests < u32::MAX,
            failed ==> old(self).failures < u32::MAX,
            skipped ==> old(self).skipped < u32::MAX,
        ensures
            final(self).tests == old(self).tests + 1,
            final(self).failures == old(self).failures + if failed { 1u32 } else { 0u32 },
            final(self).skipped == old(self).skipped + if skipped { 1u32 } else { 0u32 },
            final(self).errors == old(self).errors,
    {
        self.tests = self.tests + 1;
        if failed {
            self.failures = self.failures + 1;
        }
        if skipped {
            self.skipped = self.skipped + 1;
        }
    }
}

/// Appends `s` escaped for XML.
fn push_escaped(out: &mut String, s: &str)
    ensures
        final(out)@ == old(out)@ + xml_escaped(s@),
{
    let e = xml_escape(s);
    out.append(e.as_str());
}

/// The XML declaration and the line that opens a suite; `time` is the
/// suite's time in seconds as text.
pub open spec fn suite_open_text(name: Seq<char>, c: CaseCounts, time: Seq<char>, timestamp: Seq<char>) -> Seq<char> {
    "<?xml version=\"1.0\" encoding=\"UTF-8\"?>\n"@ + "<testsuite name=\""@ + xml_escaped(name) + "\" tests=\""@
        + dec(c.tests as nat) + "\" failures=\""@ + dec(c.failures as nat) + "\" errors=\""@ + dec(c.errors as nat)
        + "\" skipped=\""@ + dec(c.skipped as nat) + "\" time=\""@ + time + "\" timestamp=\""@ + timestamp
        + "\">\n"@
}

/// Opens a suite's XML.
pub fn suite_open_xml(name: &str, c: &CaseCounts, time: &str, timestamp: &str) -> (r: String)
    ensures
        r@ == suite_open_text(name@, *c, time@, timestamp@),
{
    let mut s = String::from_str("<?xml version=\"1.0\" encoding=\"UTF-8\"?>\n");
    s.append("<testsuite name=\"");
    push_escaped(&mut s, name);
    s.append("\" tests=\"");
    push_dec(&mut s, c.tests as u64);
    s.append("\" failures=\"");
    push_dec(&mut s, c.failures as u64);
    s.append("\" errors=\"");
    push_dec(&mut s, c.errors as u64);
    s.append("\" skipped=\"");
    push_dec(&mut s, c.skipped as u64);
    s.append("\" time=\"");
    s.append(time);
    s.append("\" timestamp=\"");
    s.append(timestamp);
    s.append("\">\n");
    s
}

/// The XML of a failure inside a case.
pub open spec fn failure_text(f: FailureView) -> Seq<char> {
    "    <failure message=\""@ + xml_escaped(f.message) + "\" type=\""@ + xml_escaped(f.failure_type) + "\">"@
        + xml_escaped(f.content) + "</failure>\n"@
}

/// The XML of a test case; `time` is its time in seconds as text. A case
/// that neither failed nor was skipped closes on its own line.
pub open spec fn case_text(
    name: Seq<char>,
    classname: Seq<char>,
    time: Seq<char>,
    failure: Option<FailureView>,
    skipped: bool,
) -> Seq<char> {
    "  <testcase name=\""@ + xml_escaped(name) + "\" classname=\""@ + xml_escaped(classname) + "\" time=\""@ + time
        + "\""@ + if failure is None && !skipped {
        "/>\n"@
    } else {
        ">\n"@ + (match failure {
            Some(f) => failure_text(f),
            None => Seq::empty(),
        }) + (if skipped {
            "    <skipped/>\n"@
        } else {
            Seq::empty()
        }) + "  </testcase>\n"@
    }
}

/// A test case's XML.
pub fn case_xml(name: &str, classname: &str, time: &str, failure: &Option<Failure>, skipped: bool) -> (r: String)
    ensures
        r@ == case_text(name@, classname@, time@, failure_opt(*failure), skipped),
{
    let mut s = String::from_str("  <testcase name=\"");
    push_escaped(&mut s, name);
    s.append("\" classname=\"");
    push_escaped(&mut s, classname);
    s.append("\" time=\"");
    s.append(time);
    s.append("\"");
    let ghost head = s@;
    if failure.is_none() && !skipped {
        s.append("/>\n");
    } else {
        s.append(">\n");
        let ghost mid = s@;
        match failure {
            Some(f) => {
                s.append("    <failure message=\"");
                push_escaped(&mut s, f.message.as_str());
                s.append("\" type=\"");
                push_escaped(&mut s, f.failure_type.as_str());
                s.append("\">");
                push_escaped(&mut s, f.content.as_str());
                s.append("</failure>\n");
                proof {
                    assert(s@ =~= mid + failure_text(f@));
                }
            },
            None => {
                proof {
                    assert(s@ =~= mid + Seq::<char>::empty());
                }
            },
        }
        let ghost mid2 = s@;
        if skipped {
            s.append("    <skipped/>\n");
        } else {
            proof {
                assert(s@ =~= mid2 + Seq::<char>::empty());
            }
        }
        s.append("  </testcase>\n");
    }
    proof {
        assert(s@ =~= case_text(name@, classname@, time@, failure_opt(*failure), skipped));
    }
    s
}

/// The line that closes a suite's XML.
pub fn suite_close_xml() -> (r: String)
    ensures
        r@ == "</testsuite>\n"@,
{
    String::from_str("</testsuite>\n")
}

/// Lines joined by line feeds, with none after the last.
pub open spec fn joined_lines(lines: Seq<Seq<char>>) -> Seq<char>
    decreases lines.len(),
{
    if lines.len() == 0 {
        Seq::empty()
    } else if lines.len() == 1 {
        lines[0]
    } else {
        joined_lines(lines.drop_last()) + "\n"@ + lines.last()
    }
}

/// Appends `line` as the next of the lines joined so far.
fn push_line(out: &mut String, line: &str, first: bool, Ghost(before): Ghost<Seq<Seq<char>>>)
    requires
        old(out)@ == joined_lines(before),
        first == (before.len() == 0),
    ensures
        final(out)@ == joined_lines(before.push(line@)),
{
    if !first {
        out.append("\n");
    }
    out.append(line);
    proof {
        let l = before.push(line@);
        assert(l.drop_last() =~= before);
        if before.len() == 0 {
            assert(old(out)@ =~= Seq::<char>::empty());
            assert(l[0] == line@);
            assert(out@ =~= line@);
        }
    }
}

/// The descriptions of trace entries.
pub open spec fn trace_descriptions(t: Seq<TraceEntry>) -> Seq<Seq<char>> {
    t.map_values(|e: TraceEntry| e.description@)
}

/// The failure of a run: when it found bugs, its reason (or `Test failed`)
/// and the descriptions of its trace, one per line (none without a trace).
pub open spec fn run_failure_of(result: RunResult) -> Option<FailureView> {
    if result.bugs_found > 0 {
        Some(
            FailureView {
                message: match result.failure_reason {
                    Some(m) => m@,
                    None => "Test failed"@,
                },
                failure_type: "SimulationFailure"@,
                content: match result.failure_trace {
                    Some(t) => joined_lines(trace_descriptions(t@)),
                    None => Seq::empty(),
                },
            },
        )
    } else {
        None
    }
}

/// The failure to report for a run, if it found bugs.
pub fn run_failure(result: &RunResult) -> (r: Option<Failure>)
    ensures
        failure_opt(r) == run_failure_of(*result),
{
    if result.bugs_found == 0 {
        return None;
    }
    let message = match &result.failure_reason {
        Some(m) => String::from_str(m.as_str()),
        None => String::from_str("Test failed"),
    };
    let mut content = String::new();
    match &result.failure_trace {
        Some(t) => {
            let ghost ds = trace_descriptions(t@);
            let mut i: usize = 0;
            proof {
                assert(ds.take(0) =~= Seq::<Seq<char>>::empty());
            }
            while i < t.len()
                invariant
                    ds == trace_descriptions(t@),
                    i <= t@.len(),
                    content@ == joined_lines(ds.take(i as int)),
                decreases t@.len() - i,
            {
                proof {
                    assert(ds.take(i as int + 1) =~= ds.take(i as int).push(t@[i as int].description@));
                }
                push_line(&mut content, t[i].description.as_str(), i == 0, Ghost(ds.take(i as int)));
                i = i + 1;
            }
            proof {
                assert(ds.take(t@.len() as int) =~= ds);
            }
        },
        None => {},
    }
    Some(Failure { message: message, failure_type: String::from_str("SimulationFailure"), content: content })
}

/// The line for a bug found in an exploration.
pub open spec fn bug_line(b: BugView) -> Seq<char> {
    "Bug found with seed "@ + dec(b.seed as nat) + ": "@ + b.description
}

/// The lines for the bugs of an exploration.
pub open spec fn bug_lines(bugs: Seq<BugView>) -> Seq<Seq<char>> {
    bugs.map_values(|b: BugView| bug_line(b))
}

/// The failure of an exploration: when it found bugs, their number and the
/// schedules explored, and a line per bug.
pub open spec fn exploration_failure_of(bugs: Seq<BugView>, schedules: u64) -> Option<FailureView> {
    if bugs.len() == 0 {
        None
    } else {
        Some(
            FailureView {
                message: dec(bugs.len()) + " bugs found across "@ + dec(schedules as nat) + " schedules"@,
                failure_type: "ExplorationBugsFound"@,
                content: joined_lines(bug_lines(bugs)),
            },
        )
    }
}

/// The failure to report for an exploration, if it found bugs.
pub fn exploration_failure(bugs: &[Bug], schedules: u64) -> (r: Option<Failure>)
    ensures
        failure_opt(r) == exploration_failure_of(bug_views(bugs@), schedules),
{
    if bugs.len() == 0 {
        return None;
    }
    let mut message = String::new();
    push_dec(&mut message, bugs.len() as u64);
    message.append(" bugs found across ");
    push_dec(&mut message, schedules);
    message.append(" schedules");
    let ghost ls = bug_lines(bug_views(bugs@));
    let mut content = String::new();
    let mut i: usize = 0;
    proof {
        assert(ls.take(0) =~= Seq::<Seq<char>>::empty());
    }
    while i < bugs.len()
        invariant
            ls == bug_lines(bug_views(bugs@)),
            i <= bugs@.len(),
            content@ == joined_lines(ls.take(i as int)),
        decreases bugs@.len() - i,
    {
        let mut line = String::from_str("Bug found with seed ");
        push_dec(&mut line, bugs[i].seed);
        line.append(": ");
        line.append(bugs[i].description.as_str());
        proof {
            assert(line@ == bug_line(bugs@[i as int]@));
            assert(ls.take(i as int + 1) =~= ls.take(i as int).push(line@));
        }
        push_line(&mut content, line.as_str(), i == 0, Ghost(ls.take(i as int)));
        i = i + 1;
    }
    proof {
        assert(ls.take(bugs@.len() as int) =~= ls);
    }
    Some(Failure { message: message, failure_type: String::from_str("ExplorationBugsFound"), content: content })
}

/// The failure to report for one bug of an exploration of `test_name`.
pub open spec fn bug_failure_of(b: BugView, test_name: Seq<char>) -> FailureView {
    FailureView {
        message: b.description,
        failure_type: "SimulationBug"@,
        content: "Seed: "@ + dec(b.seed as nat) + "\nReplay: chronos run "@ + test_name + " --seed "@ + dec(b.seed as nat)
            + "\nTrace:\n"@ + joined_lines(b.trace),
    }
}

/// The failure to report for one bug of an exploration.
pub fn bug_failure(b: &Bug, test_name: &str) -> (r: Failure)
    ensures
        r@ == bug_failure_of(b@, test_name@),
{
    let mut content = String::from_str("Seed: ");
    push_dec(&mut content, b.seed);
    content.append("\nReplay: chronos run ");
    content.append(test_name);
    content.append(" --seed ");
    push_dec(&mut content, b.seed);
    content.append("\nTrace:\n");
    let ghost head = content@;
    let ghost ts = strings_view(b.trace@);
    let mut lines = String::new();
    let mut i: usize = 0;
    proof {
        assert(ts.take(0) =~= Seq::<Seq<char>>::empty());
    }
    while i < b.trace.len()
        invariant
            ts == strings_view(b.trace@),
            i <= b.trace@.len(),
            lines@ == joined_lines(ts.take(i as int)),
        decreases b.trace@.len() - i,
    {
        proof {
            assert(ts.take(i as int + 1) =~= ts.take(i as int).push(b.trace@[i as int]@));
        }
        push_line(&mut lines, b.trace[i].as_str(), i == 0, Ghost(ts.take(i as int)));
        i = i + 1;
    }
    proof {
        assert(ts.take(b.trace@.len() as int) =~= ts);
    }
    content.append(lines.as_str());
    Failure {
        message: String::from_str(b.description.as_str()),
        failure_type: String::from_str("SimulationBug"),
        content: content,
    }
}

} // verus!
