//! The text report of an analysis: event counts by type and by task, the
//! timeline, the happens-before grid, issues, races and liveness problems.
use vstd::prelude::*;
use crate::cli::analyze::{
    kind_label, AnalysisResult, AnalysisView, AnalyzeArgs, IssueSeverity, IssueView, LivenessIssueType,
    LivenessView, PotentialRaceView, TimelineEntryView,
};
use crate::cli::replay::right_aligned;
use crate::recording::format::EventType;
use crate::util::fmt::{dec, dec_string, push_dec};

verus! {

/// `s` left-aligned in `width` columns: spaces after it when shorter.
pub open spec fn left_aligned(s: Seq<char>, width: nat) -> Seq<char> {
    if s.len() < width {
        s + Seq::new((width - s.len()) as nat, |i: int| ' ')
    } else {
        s
    }
}

/// Appends `n` spaces.
fn push_spaces(out: &mut String, n: usize)
    ensures
        final(out)@ == old(out)@ + Seq::new(n as nat, |i: int| ' '),
{
    let ghost start = out@;
    let mut k: usize = 0;
    while k < n
        invariant
            k <= n,
            out@ == start + Seq::new(k as nat, |i: int| ' '),
        decreases n - k,
    {
        out.push(' ');
        proof {
            assert(out@ =~= start + Seq::new((k + 1) as nat, |i: int| ' '));
        }
        k = k + 1;
    }
}

/// Appends `s`, left-aligned in `width` columns.
fn push_left_aligned(out: &mut String, s: &str, width: usize)
    ensures
        final(out)@ == old(out)@ + left_aligned(s@, width as nat),
{
    let ghost start = out@;
    let len = s.unicode_len();
    out.append(s);
    if len < width {
        push_spaces(out, width - len);
        proof {
            assert(out@ =~= start + (s@ + Seq::new((width - len) as nat, |i: int| ' ')));
        }
    }
}

/// Appends `n` in decimal, right-aligned in `width` columns.
fn push_dec_right(out: &mut String, n: u64, width: usize)
    ensures
        final(out)@ == old(out)@ + right_aligned(dec(n as nat), width as nat),
{
    let ghost start = out@;
    let digits = dec_string(n);
    let len = digits.as_str().unicode_len();
    if len < width {
        push_spaces(out, width - len);
    }
    out.append(digits.as_str());
    proof {
        if len < width {
            assert(out@ =~= start + (Seq::new((width - len) as nat, |i: int| ' ') + dec(n as nat)));
        } else {
            assert(out@ =~= start + dec(n as nat));
        }
    }
}

/// Appends `n` in decimal, left-aligned in `width` columns.
fn push_dec_left(out: &mut String, n: u64, width: usize)
    ensures
        final(out)@ == old(out)@ + left_aligned(dec(n as nat), width as nat),
{
    let digits = dec_string(n);
    push_left_aligned(out, digits.as_str(), width);
}

// ---------------------------------------------------------------------
// Event counts by type, most frequent first.

/// How many leading pairs of `s` count at least `c`.
pub open spec fn lead_at_least(s: Seq<(EventType, usize)>, c: usize) -> nat
    decreases s.len(),
{
    if s.len() == 0 {
        0
    } else if s[0].1 >= c {
        1 + lead_at_least(s.drop_first(), c)
    } else {
        0
    }
}

/// The pairs sorted by count, largest first; pairs with equal counts keep
/// their order.
pub open spec fn sorted_by_count(s: Seq<(EventType, usize)>) -> Seq<(EventType, usize)>
    decreases s.len(),
{
    if s.len() == 0 {
        s
    } else {
        let t = sorted_by_count(s.drop_last());
        t.insert(lead_at_least(t, s.last().1) as int, s.last())
    }
}

/// Each event type with its count, in the order the types were first seen.
pub open spec fn type_counts(r: AnalysisResult) -> Seq<(EventType, usize)> {
    r.events_by_type.keys().map_values(|k: EventType| (k, r.events_by_type@[k]))
}

/// The line for one event type.
pub open spec fn type_line(p: (EventType, usize)) -> Seq<char> {
    "  "@ + left_aligned(kind_label(p.0), 20) + " "@ + dec(p.1 as nat) + "\n"@
}

/// The lines for a list of event types.
pub open spec fn type_lines(s: Seq<(EventType, usize)>) -> Seq<char>
    decreases s.len(),
{
    if s.len() == 0 {
        Seq::empty()
    } else {
        type_lines(s.drop_last()) + type_line(s.last())
    }
}

/// The counts by type.
pub open spec fn types_section(r: AnalysisResult) -> Seq<char> {
    "Events by type:\n"@ + type_lines(sorted_by_count(type_counts(r))) + "\n"@
}

/// The first pairs that count at least `c` are exactly the first `j`.
proof fn lemma_lead_at_least(s: Seq<(EventType, usize)>, c: usize, j: int)
    requires
        0 <= j <= s.len(),
        forall|i: int| 0 <= i < j ==> s[i].1 >= c,
        j < s.len() ==> s[j].1 < c,
    ensures
        lead_at_least(s, c) == j,
    decreases j,
{
    if j > 0 {
        lemma_lead_at_least(s.drop_first(), c, j - 1);
    }
}

/// `lead_at_least` never passes the length.
proof fn lemma_lead_at_least_le(s: Seq<(EventType, usize)>, c: usize)
    ensures
        lead_at_least(s, c) <= s.len(),
    decreases s.len(),
{
    if s.len() > 0 {
        lemma_lead_at_least_le(s.drop_first(), c);
    }
}

/// Sorting keeps the length.
proof fn lemma_sorted_by_count_len(s: Seq<(EventType, usize)>)
    ensures
        sorted_by_count(s).len() == s.len(),
    decreases s.len(),
{
    if s.len() > 0 {
        lemma_sorted_by_count_len(s.drop_last());
        lemma_lead_at_least_le(sorted_by_count(s.drop_last()), s.last().1);
    }
}

/// The event types with their counts, in first-seen order.
fn collect_type_counts(r: &AnalysisResult) -> (out: Vec<(EventType, usize)>)
    ensures
        out@ == type_counts(*r),
{
    let n = r.events_by_type.len();
    let mut out: Vec<(EventType, usize)> = Vec::new();
    let mut i: usize = 0;
    while i < n
        invariant
            n == r.events_by_type.keys().len(),
            i <= n,
            out@ == type_counts(*r).take(i as int),
        decreases n - i,
    {
        let k = r.events_by_type.key_at(i);
        let c = *r.events_by_type.value_at(i);
        out.push((k, c));
        proof {
            assert(out@ =~= type_counts(*r).take(i + 1));
        }
        i = i + 1;
    }
    proof {
        assert(type_counts(*r).take(n as int) =~= type_counts(*r));
    }
    out
}

/// The pairs sorted by count, largest first, equal counts in order.
fn sort_by_count(s: &Vec<(EventType, usize)>) -> (out: Vec<(EventType, usize)>)
    ensures
        out@ == sorted_by_count(s@),
{
    let mut out: Vec<(EventType, usize)> = Vec::new();
    let mut i: usize = 0;
    proof {
        assert(s@.take(0) =~= Seq::<(EventType, usize)>::empty());
    }
    while i < s.len()
        invariant
            i <= s@.len(),
            out@ == sorted_by_count(s@.take(i as int)),
        decreases s@.len() - i,
    {
        let p = s[i];
        proof {
            lemma_sorted_by_count_len(s@.take(i as int));
        }
        let mut j: usize = 0;
        while j < out.len()
            invariant
                j <= out@.len(),
                forall|m: int| 0 <= m < j ==> out@[m].1 >= p.1,
            ensures
                j <= out@.len(),
                forall|m: int| 0 <= m < j ==> out@[m].1 >= p.1,
                j < out@.len() ==> out@[j as int].1 < p.1,
            decreases out@.len() - j,
        {
            if out[j].1 < p.1 {
                break;
            }
            j = j + 1;
        }
        proof {
            lemma_lead_at_least(out@, p.1, j as int);
            assert(s@.take(i + 1).drop_last() =~= s@.take(i as int));
            assert(s@.take(i + 1).last() == p);
        }
        out.insert(j, p);
        i = i + 1;
    }
    proof {
        assert(s@.take(s@.len() as int) =~= s@);
    }
    out
}

/// Appends the lines for a list of event types.
fn push_type_lines(out: &mut String, s: &Vec<(EventType, usize)>)
    ensures
        final(out)@ == old(out)@ + type_lines(s@),
{
    let ghost start = out@;
    let mut i: usize = 0;
    proof {
        assert(s@.take(0) =~= Seq::<(EventType, usize)>::empty());
        assert(out@ =~= start + type_lines(s@.take(0)));
    }
    while i < s.len()
        invariant
            i <= s@.len(),
            out@ == start + type_lines(s@.take(i as int)),
        decreases s@.len() - i,
    {
        let (t, c) = s[i];
        out.append("  ");
        push_left_aligned(out, crate::cli::analyze::event_type_name(t), 20);
        out.append(" ");
        push_dec(out, c as u64);
        out.append("\n");
        proof {
            assert(s@.take(i + 1).drop_last() =~= s@.take(i as int));
            assert(out@ =~= start + type_lines(s@.take(i + 1)));
        }
        i = i + 1;
    }
    proof {
        assert(s@.take(s@.len() as int) =~= s@);
    }
}


// ---------------------------------------------------------------------
// Event counts by task, in increasing task order.

/// How many leading pairs of `s` have a task below `id`.
pub open spec fn lead_below(s: Seq<(u32, usize)>, id: u32) -> nat
    decreases s.len(),
{
    if s.len() == 0 {
        0
    } else if s[0].0 < id {
        1 + lead_below(s.drop_first(), id)
    } else {
        0
    }
}

/// The pairs sorted by task, smallest first.
pub open spec fn sorted_by_task(s: Seq<(u32, usize)>) -> Seq<(u32, usize)>
    decreases s.len(),
{
    if s.len() == 0 {
        s
    } else {
        let t = sorted_by_task(s.drop_last());
        t.insert(lead_below(t, s.last().0) as int, s.last())
    }
}

/// Each task with its count, in the order the tasks were first seen.
pub open spec fn task_counts(r: AnalysisResult) -> Seq<(u32, usize)> {
    r.events_by_task.keys().map_values(|k: u32| (k, r.events_by_task@[k]))
}

/// The tasks that have events, in increasing order.
pub open spec fn sorted_tasks(r: AnalysisResult) -> Seq<u32> {
    sorted_by_task(task_counts(r)).map_values(|p: (u32, usize)| p.0)
}

/// The line for one task.
pub open spec fn task_line(p: (u32, usize)) -> Seq<char> {
    "  Task "@ + right_aligned(dec(p.0 as nat), 4) + ": "@ + dec(p.1 as nat) + " events\n"@
}

/// The lines for a list of tasks.
pub open spec fn task_lines(s: Seq<(u32, usize)>) -> Seq<char>
    decreases s.len(),
{
    if s.len() == 0 {
        Seq::empty()
    } else {
        task_lines(s.drop_last()) + task_line(s.last())
    }
}

/// The counts by task.
pub open spec fn tasks_section(r: AnalysisResult) -> Seq<char> {
    "Events by task:\n"@ + task_lines(sorted_by_task(task_counts(r))) + "\n"@
}

proof fn lemma_lead_below(s: Seq<(u32, usize)>, id: u32, j: int)
    requires
        0 <= j <= s.len(),
        forall|i: int| 0 <= i < j ==> s[i].0 < id,
        j < s.len() ==> s[j].0 >= id,
    ensures
        lead_below(s, id) == j,
    decreases j,
{
    if j > 0 {
        lemma_lead_below(s.drop_first(), id, j - 1);
    }
}

proof fn lemma_lead_below_le(s: Seq<(u32, usize)>, id: u32)
    ensures
        lead_below(s, id) <= s.len(),
    decreases s.len(),
{
    if s.len() > 0 {
        lemma_lead_below_le(s.drop_first(), id);
    }
}

proof fn lemma_sorted_by_task_len(s: Seq<(u32, usize)>)
    ensures
        sorted_by_task(s).len() == s.len(),
    decreases s.len(),
{
    if s.len() > 0 {
        lemma_sorted_by_task_len(s.drop_last());
        lemma_lead_below_le(sorted_by_task(s.drop_last()), s.last().0);
    }
}

/// The tasks with their counts, in first-seen order.
fn collect_task_counts(r: &AnalysisResult) -> (out: Vec<(u32, usize)>)
    ensures
        out@ == task_counts(*r),
{
    let n = r.events_by_task.len();
    let mut out: Vec<(u32, usize)> = Vec::new();
    let mut i: usize = 0;
    while i < n
        invariant
            n == r.events_by_task.keys().len(),
            i <= n,
            out@ == task_counts(*r).take(i as int),
        decreases n - i,
    {
        let k = r.events_by_task.key_at(i);
        let c = *r.events_by_task.value_at(i);
        out.push((k, c));
        proof {
            assert(out@ =~= task_counts(*r).take(i + 1));
        }
        i = i + 1;
    }
    proof {
        assert(task_counts(*r).take(n as int) =~= task_counts(*r));
    }
    out
}

/// The pairs sorted by task, smallest first.
fn sort_by_task(s: &Vec<(u32, usize)>) -> (out: Vec<(u32, usize)>)
    ensures
        out@ == sorted_by_task(s@),
{
    let mut out: Vec<(u32, usize)> = Vec::new();
    let mut i: usize = 0;
    proof {
        assert(s@.take(0) =~= Seq::<(u32, usize)>::empty());
    }
    while i < s.len()
        invariant
            i <= s@.len(),
            out@ == sorted_by_task(s@.take(i as int)),
        decreases s@.len() - i,
    {
        let p = s[i];
        proof {
            lemma_sorted_by_task_len(s@.take(i as int));
        }
        let mut j: usize = 0;
        while j < out.len()
            invariant
                j <= out@.len(),
                forall|m: int| 0 <= m < j ==> out@[m].0 < p.0,
            ensures
                j <= out@.len(),
                forall|m: int| 0 <= m < j ==> out@[m].0 < p.0,
                j < out@.len() ==> out@[j as int].0 >= p.0,
            decreases out@.len() - j,
        {
            if out[j].0 >= p.0 {
                break;
            }
            j = j + 1;
        }
        proof {
            lemma_lead_below(out@, p.0, j as int);
            assert(s@.take(i + 1).drop_last() =~= s@.take(i as int));
            assert(s@.take(i + 1).last() == p);
        }
        out.insert(j, p);
        i = i + 1;
    }
    proof {
        assert(s@.take(s@.len() as int) =~= s@);
    }
    out
}

/// Appends the lines for a list of tasks.
fn push_task_lines(out: &mut String, s: &Vec<(u32, usize)>)
    ensures
        final(out)@ == old(out)@ + task_lines(s@),
{
    let ghost start = out@;
    let mut i: usize = 0;
    proof {
        assert(s@.take(0) =~= Seq::<(u32, usize)>::empty());
        assert(out@ =~= start + task_lines(s@.take(0)));
    }
    while i < s.len()
        invariant
            i <= s@.len(),
            out@ == start + task_lines(s@.take(i as int)),
        decreases s@.len() - i,
    {
        let (t, c) = s[i];
        out.append("  Task ");
        push_dec_right(out, t as u64, 4);
        out.append(": ");
        push_dec(out, c as u64);
        out.append(" events\n");
        proof {
            assert(s@.take(i + 1).drop_last() =~= s@.take(i as int));
            assert(out@ =~= start + task_lines(s@.take(i + 1)));
        }
        i = i + 1;
    }
    proof {
        assert(s@.take(s@.len() as int) =~= s@);
    }
}

// ---------------------------------------------------------------------
// The timeline: its first hundred entries.

/// How many timeline entries the report lists.
pub const TIMELINE_LINES: usize = 100;

/// The line for one timeline entry.
pub open spec fn timeline_line(e: TimelineEntryView) -> Seq<char> {
    right_aligned(dec(e.timestamp_ns as nat), 12) + "ns  task "@ + right_aligned(dec(e.task_id as nat), 3) + "  "@
        + left_aligned(kind_label(e.event_type), 20) + "  "@ + e.description + "\n"@
}

/// The lines for a list of timeline entries.
pub open spec fn timeline_lines(s: Seq<TimelineEntryView>) -> Seq<char>
    decreases s.len(),
{
    if s.len() == 0 {
        Seq::empty()
    } else {
        timeline_lines(s.drop_last()) + timeline_line(s.last())
    }
}

/// "  ... (n more what)" when `n` is positive.
pub open spec fn more_line(n: int, what: Seq<char>) -> Seq<char> {
    if n > 0 {
        "  ... ("@ + dec(n as nat) + " more "@ + what + ")\n"@
    } else {
        Seq::empty()
    }
}

/// The first `n` elements, or all of them if fewer.
pub open spec fn first<A>(s: Seq<A>, n: nat) -> Seq<A> {
    if s.len() <= n { s } else { s.take(n as int) }
}

/// The timeline section, when asked for and not empty.
pub open spec fn timeline_section(v: AnalysisView, asked: bool) -> Seq<char> {
    if asked && v.timeline.len() > 0 {
        "=== Timeline ===\n"@ + timeline_lines(first(v.timeline, TIMELINE_LINES as nat))
            + more_line(v.timeline.len() - TIMELINE_LINES, "events"@) + "\n"@
    } else {
        Seq::empty()
    }
}

/// Appends "  ... (n more what)" when `n` is positive.
fn push_more_line(out: &mut String, total: usize, shown: usize, what: &str)
    ensures
        final(out)@ == old(out)@ + more_line(total - shown, what@),
{
    if total > shown {
        out.append("  ... (");
        push_dec(out, (total - shown) as u64);
        out.append(" more ");
        out.append(what);
        out.append(")\n");
    } else {
        proof {
            assert(old(out)@ + more_line(total - shown, what@) =~= old(out)@);
        }
    }
}

/// The line for one timeline entry.
fn timeline_line_text(e: &crate::cli::analyze::TimelineEntry) -> (r: String)
    ensures
        r@ == timeline_line(e@),
{
    let mut out = String::new();
    push_dec_right(&mut out, e.timestamp_ns, 12);
    out.append("ns  task ");
    push_dec_right(&mut out, e.task_id as u64, 3);
    out.append("  ");
    push_left_aligned(&mut out, crate::cli::analyze::event_type_name(e.event_type), 20);
    out.append("  ");
    out.append(e.description.as_str());
    out.append("\n");
    proof {
        assert(out@ =~= timeline_line(e@));
    }
    out
}

/// Appends the timeline section.
fn push_timeline_section(out: &mut String, r: &AnalysisResult, asked: bool)
    ensures
        final(out)@ == old(out)@ + timeline_section(r@, asked),
{
    let n = r.timeline.len();
    if !asked || n == 0 {
        proof {
            assert(old(out)@ + timeline_section(r@, asked) =~= old(out)@);
        }
        return;
    }
    let ghost tl = r@.timeline;
    let ghost start = out@;
    out.append("=== Timeline ===\n");
    let ghost head = out@;
    let shown = if n < TIMELINE_LINES { n } else { TIMELINE_LINES };
    let mut i: usize = 0;
    proof {
        assert(tl.take(0) =~= Seq::<TimelineEntryView>::empty());
        assert(out@ =~= head + timeline_lines(tl.take(0)));
    }
    while i < shown
        invariant
            tl == r@.timeline,
            tl.len() == n,
            shown <= n,
            i <= shown,
            out@ == head + timeline_lines(tl.take(i as int)),
        decreases shown - i,
    {
        let line = timeline_line_text(&r.timeline[i]);
        out.append(line.as_str());
        proof {
            assert(tl[i as int] == r.timeline@[i as int]@);
            assert(tl.take(i + 1).drop_last() =~= tl.take(i as int));
            assert(out@ =~= head + timeline_lines(tl.take(i + 1)));
        }
        i = i + 1;
    }
    proof {
        assert(tl.take(shown as int) =~= first(tl, TIMELINE_LINES as nat));
    }
    push_more_line(out, n, TIMELINE_LINES, "events");
    out.append("\n");
    proof {
        assert(out@ =~= start + timeline_section(r@, asked));
    }
}

// ---------------------------------------------------------------------
// Issues.

/// The label of a severity.
pub open spec fn severity_text(s: IssueSeverity) -> Seq<char> {
    match s {
        IssueSeverity::Info => "INFO"@,
        IssueSeverity::Warning => "WARN"@,
        IssueSeverity::Error => "ERROR"@,
    }
}

/// The line for one issue.
pub open spec fn issue_line(i: IssueView) -> Seq<char> {
    "["@ + severity_text(i.severity) + "] "@ + i.description + match i.timestamp_ns {
        Some(t) => " (at "@ + dec(t as nat) + "ns)"@,
        None => Seq::empty(),
    } + "\n"@
}

/// The lines for a list of issues.
pub open spec fn issue_lines(s: Seq<IssueView>) -> Seq<char>
    decreases s.len(),
{
    if s.len() == 0 {
        Seq::empty()
    } else {
        issue_lines(s.drop_last()) + issue_line(s.last())
    }
}

/// The issues section, when there are issues.
pub open spec fn issues_section(v: AnalysisView) -> Seq<char> {
    if v.issues.len() > 0 {
        "=== Issues ===\n"@ + issue_lines(v.issues) + "\n"@
    } else {
        Seq::empty()
    }
}

/// The line for one issue.
fn issue_line_text(issue: &crate::cli::analyze::AnalysisIssue) -> (r: String)
    ensures
        r@ == issue_line(issue@),
{
    let mut out = String::new();
    out.append("[");
    out.append(issue.severity.label());
    out.append("] ");
    out.append(issue.description.as_str());
    match issue.timestamp_ns {
        Some(t) => {
            out.append(" (at ");
            push_dec(&mut out, t);
            out.append("ns)");
        },
        None => {},
    }
    out.append("\n");
    proof {
        assert(out@ =~= issue_line(issue@));
    }
    out
}

/// Appends the issues section.
fn push_issues_section(out: &mut String, r: &AnalysisResult)
    ensures
        final(out)@ == old(out)@ + issues_section(r@),
{
    let n = r.issues.len();
    let ghost is = r@.issues;
    let ghost start = out@;
    if n == 0 {
        proof {
            assert(out@ =~= start + issues_section(r@));
        }
        return;
    }
    out.append("=== Issues ===\n");
    let ghost head = out@;
    let mut i: usize = 0;
    proof {
        assert(is.take(0) =~= Seq::<IssueView>::empty());
        assert(out@ =~= head + issue_lines(is.take(0)));
    }
    while i < n
        invariant
            is == r@.issues,
            is.len() == n,
            i <= n,
            out@ == head + issue_lines(is.take(i as int)),
        decreases n - i,
    {
        let line = issue_line_text(&r.issues[i]);
        out.append(line.as_str());
        proof {
            assert(is[i as int] == r.issues@[i as int]@);
            assert(is.take(i + 1).drop_last() =~= is.take(i as int));
            assert(out@ =~= head + issue_lines(is.take(i + 1)));
        }
        i = i + 1;
    }
    out.append("\n");
    proof {
        assert(is.take(n as int) =~= is);
        assert(out@ =~= start + issues_section(r@));
    }
}

// ---------------------------------------------------------------------
// Liveness.

/// The tag of a liveness issue type.
pub open spec fn liveness_tag(t: LivenessIssueType) -> Seq<char> {
    match t {
        LivenessIssueType::IncompleteTasks => "INCOMPLETE"@,
        LivenessIssueType::UndeliveredMessages => "UNDELIVERED"@,
        LivenessIssueType::PotentialDeadlock => "DEADLOCK"@,
        LivenessIssueType::PotentialLivelock => "LIVELOCK"@,
    }
}

fn liveness_tag_text(t: LivenessIssueType) -> (r: &'static str)
    ensures
        r@ == liveness_tag(t),
{
    match t {
        LivenessIssueType::IncompleteTasks => "INCOMPLETE",
        LivenessIssueType::UndeliveredMessages => "UNDELIVERED",
        LivenessIssueType::PotentialDeadlock => "DEADLOCK",
        LivenessIssueType::PotentialLivelock => "LIVELOCK",
    }
}

/// The line for one liveness issue.
pub open spec fn liveness_line(l: LivenessView) -> Seq<char> {
    "  ["@ + liveness_tag(l.issue_type) + "] "@ + l.description + match l.task_id {
        Some(t) => " (task "@ + dec(t as nat) + ")"@,
        None => Seq::empty(),
    } + "\n"@
}

/// The lines for a list of liveness issues.
pub open spec fn liveness_lines(s: Seq<LivenessView>) -> Seq<char>
    decreases s.len(),
{
    if s.len() == 0 {
        Seq::empty()
    } else {
        liveness_lines(s.drop_last()) + liveness_line(s.last())
    }
}

/// The liveness section, when asked for.
pub open spec fn liveness_section(v: AnalysisView, asked: bool) -> Seq<char> {
    if asked {
        "=== Liveness Analysis ===\n"@ + (if v.liveness_issues.len() == 0 {
            "No liveness issues detected.\n"@
        } else {
            "Found "@ + dec(v.liveness_issues.len()) + " liveness issue(s):\n"@ + "\n"@ + liveness_lines(
                v.liveness_issues,
            )
        }) + "\n"@
    } else {
        Seq::empty()
    }
}

/// The line for one liveness issue.
fn liveness_line_text(l: &crate::cli::analyze::LivenessIssue) -> (r: String)
    ensures
        r@ == liveness_line(l@),
{
    let mut out = String::new();
    out.append("  [");
    out.append(liveness_tag_text(l.issue_type));
    out.append("] ");
    out.append(l.description.as_str());
    match l.task_id {
        Some(t) => {
            out.append(" (task ");
            push_dec(&mut out, t as u64);
            out.append(")");
        },
        None => {},
    }
    out.append("\n");
    proof {
        assert(out@ =~= liveness_line(l@));
    }
    out
}

/// Appends the liveness section.
fn push_liveness_section(out: &mut String, r: &AnalysisResult, asked: bool)
    ensures
        final(out)@ == old(out)@ + liveness_section(r@, asked),
{
    let ghost start = out@;
    if !asked {
        proof {
            assert(out@ =~= start + liveness_section(r@, asked));
        }
        return;
    }
    let n = r.liveness_issues.len();
    let ghost ls = r@.liveness_issues;
    out.append("=== Liveness Analysis ===\n");
    let ghost head = out@;
    if n == 0 {
        out.append("No liveness issues detected.\n");
    } else {
        out.append("Found ");
        push_dec(out, n as u64);
        out.append(" liveness issue(s):\n");
        out.append("\n");
        let ghost head2 = out@;
        let mut i: usize = 0;
        proof {
            assert(ls.take(0) =~= Seq::<LivenessView>::empty());
            assert(out@ =~= head2 + liveness_lines(ls.take(0)));
        }
        while i < n
            invariant
                ls == r@.liveness_issues,
                ls.len() == n,
                i <= n,
                out@ == head2 + liveness_lines(ls.take(i as int)),
            decreases n - i,
        {
            let line = liveness_line_text(&r.liveness_issues[i]);
            out.append(line.as_str());
            proof {
                assert(ls[i as int] == r.liveness_issues@[i as int]@);
                assert(ls.take(i + 1).drop_last() =~= ls.take(i as int));
                assert(out@ =~= head2 + liveness_lines(ls.take(i + 1)));
            }
            i = i + 1;
        }
        proof {
            assert(ls.take(n as int) =~= ls);
        }
    }
    out.append("\n");
    proof {
        assert(out@ =~= start + liveness_section(r@, asked));
    }
}


// ---------------------------------------------------------------------
// Potential races: the first twenty.

/// How many races the report lists.
pub const RACE_LINES: usize = 20;

/// The line for one event that a race involves.
pub open spec fn race_event_line(idx: usize, e: TimelineEntryView) -> Seq<char> {
    "     Event "@ + dec(idx as nat) + ": T"@ + dec(e.task_id as nat) + " at "@ + dec(e.timestamp_ns as nat) + "ns - "@
        + kind_label(e.event_type) + "\n"@
}

/// The lines for the `n`-th race (counting from zero).
pub open spec fn race_block(n: nat, race: PotentialRaceView, tl: Seq<TimelineEntryView>) -> Seq<char> {
    "  "@ + dec(n + 1) + ". "@ + race.description + "\n"@ + (if race.event1_idx < tl.len() && race.event2_idx
        < tl.len() {
        race_event_line(race.event1_idx, tl[race.event1_idx as int]) + race_event_line(
            race.event2_idx,
            tl[race.event2_idx as int],
        )
    } else {
        Seq::empty()
    }) + "\n"@
}

/// The lines for a list of races, numbered from one.
pub open spec fn race_blocks(s: Seq<PotentialRaceView>, tl: Seq<TimelineEntryView>) -> Seq<char>
    decreases s.len(),
{
    if s.len() == 0 {
        Seq::empty()
    } else {
        race_blocks(s.drop_last(), tl) + race_block((s.len() - 1) as nat, s.last(), tl)
    }
}

/// The race section, when asked for.
pub open spec fn races_section(v: AnalysisView, asked: bool) -> Seq<char> {
    if asked && v.races.len() > 0 {
        "=== Potential Data Races ===\n"@ + "Found "@ + dec(v.races.len()) + " potential race(s):\n"@ + "\n"@
            + race_blocks(first(v.races, RACE_LINES as nat), v.timeline) + more_line(
            v.races.len() - RACE_LINES,
            "races"@,
        ) + "\n"@
    } else if asked {
        "=== Race Detection ===\n"@ + "No potential races detected in "@ + dec(v.concurrent_pairs.len())
            + " concurrent event pairs.\n"@ + "\n"@
    } else {
        Seq::empty()
    }
}

/// The line for one event that a race involves.
fn race_event_text(out: &mut String, idx: usize, e: &crate::cli::analyze::TimelineEntry)
    ensures
        final(out)@ == old(out)@ + race_event_line(idx, e@),
{
    let ghost start = out@;
    out.append("     Event ");
    push_dec(out, idx as u64);
    out.append(": T");
    push_dec(out, e.task_id as u64);
    out.append(" at ");
    push_dec(out, e.timestamp_ns);
    out.append("ns - ");
    out.append(crate::cli::analyze::event_type_name(e.event_type));
    out.append("\n");
    proof {
        assert(out@ =~= start + race_event_line(idx, e@));
    }
}

/// The lines for the `n`-th race.
fn race_block_text(n: usize, race: &crate::cli::analyze::PotentialRace, r: &AnalysisResult) -> (out: String)
    requires
        n < usize::MAX,
    ensures
        out@ == race_block(n as nat, race@, r@.timeline),
{
    let mut out = String::new();
    out.append("  ");
    push_dec(&mut out, (n + 1) as u64);
    out.append(". ");
    out.append(race.description.as_str());
    out.append("\n");
    let ghost head = out@;
    let len = r.timeline.len();
    if race.event1_idx < len && race.event2_idx < len {
        race_event_text(&mut out, race.event1_idx, &r.timeline[race.event1_idx]);
        race_event_text(&mut out, race.event2_idx, &r.timeline[race.event2_idx]);
        proof {
            assert(r@.timeline[race.event1_idx as int] == r.timeline@[race.event1_idx as int]@);
            assert(r@.timeline[race.event2_idx as int] == r.timeline@[race.event2_idx as int]@);
        }
    }
    out.append("\n");
    proof {
        assert(out@ =~= race_block(n as nat, race@, r@.timeline));
    }
    out
}

/// Appends the race section.
fn push_races_section(out: &mut String, r: &AnalysisResult, asked: bool)
    ensures
        final(out)@ == old(out)@ + races_section(r@, asked),
{
    let ghost start = out@;
    let n = r.races.len();
    if !asked {
        proof {
            assert(out@ =~= start + races_section(r@, asked));
        }
        return;
    }
    if n == 0 {
        out.append("=== Race Detection ===\n");
        out.append("No potential races detected in ");
        push_dec(out, r.concurrent_pairs.len() as u64);
        out.append(" concurrent event pairs.\n");
        out.append("\n");
        proof {
            assert(out@ =~= start + races_section(r@, asked));
        }
        return;
    }
    let ghost rs = r@.races;
    out.append("=== Potential Data Races ===\n");
    out.append("Found ");
    push_dec(out, n as u64);
    out.append(" potential race(s):\n");
    out.append("\n");
    let ghost head = out@;
    let shown = if n < RACE_LINES { n } else { RACE_LINES };
    let mut i: usize = 0;
    proof {
        assert(rs.take(0) =~= Seq::<PotentialRaceView>::empty());
        assert(out@ =~= head + race_blocks(rs.take(0), r@.timeline));
    }
    while i < shown
        invariant
            rs == r@.races,
            rs.len() == n,
            shown <= n,
            shown <= RACE_LINES,
            i <= shown,
            out@ == head + race_blocks(rs.take(i as int), r@.timeline),
        decreases shown - i,
    {
        let block = race_block_text(i, &r.races[i], r);
        out.append(block.as_str());
        proof {
            assert(rs[i as int] == r.races@[i as int]@);
            assert(rs.take(i + 1).drop_last() =~= rs.take(i as int));
            assert(rs.take(i + 1).len() - 1 == i);
            assert(out@ =~= head + race_blocks(rs.take(i + 1), r@.timeline));
        }
        i = i + 1;
    }
    proof {
        assert(rs.take(shown as int) =~= first(rs, RACE_LINES as nat));
    }
    push_more_line(out, n, RACE_LINES, "races");
    out.append("\n");
    proof {
        assert(out@ =~= start + races_section(r@, asked));
    }
}


// ---------------------------------------------------------------------
// The happens-before grid, edges and concurrent pairs.

/// How many timeline entries the grid draws from.
pub const GRID_EVENTS: usize = 30;

/// How many rows the grid has at most.
pub const GRID_ROWS: usize = 20;

/// How many edges the report lists.
pub const EDGE_LINES: usize = 20;

/// How many concurrent pairs the report lists.
pub const PAIR_LINES: usize = 10;

/// The types of the entries of task `t`, in order.
pub open spec fn of_task(s: Seq<TimelineEntryView>, t: u32) -> Seq<EventType>
    decreases s.len(),
{
    if s.len() == 0 {
        Seq::empty()
    } else {
        let rest = of_task(s.drop_last(), t);
        if s.last().task_id == t {
            rest.push(s.last().event_type)
        } else {
            rest
        }
    }
}

/// The largest number of entries of one task, over the tasks of the first
/// `k` entries.
pub open spec fn max_group(s: Seq<TimelineEntryView>, k: nat) -> nat
    decreases k,
{
    if k == 0 {
        0
    } else {
        let m = max_group(s, (k - 1) as nat);
        let c = of_task(s, s[k - 1].task_id).len();
        if c > m { c } else { m }
    }
}

/// The mark of an event type in the grid.
pub open spec fn grid_symbol(t: EventType) -> Seq<char> {
    match t {
        EventType::TaskSpawn => "S"@,
        EventType::TaskYield => "Y"@,
        EventType::TaskComplete => "C"@,
        EventType::NetSend => ">"@,
        EventType::NetRecv => "<"@,
        _ => "\u{b7}"@,
    }
}

fn grid_symbol_text(t: EventType) -> (r: &'static str)
    ensures
        r@ == grid_symbol(t),
{
    match t {
        EventType::TaskSpawn => "S",
        EventType::TaskYield => "Y",
        EventType::TaskComplete => "C",
        EventType::NetSend => ">",
        EventType::NetRecv => "<",
        _ => "\u{b7}",
    }
}

/// The cell of a task's column in a row.
pub open spec fn grid_cell(g: Seq<EventType>, row: nat) -> Seq<char> {
    if row < g.len() {
        "  "@ + grid_symbol(g[row as int]) + "  "@
    } else {
        "     "@
    }
}

/// The cells of a row, one per task.
pub open spec fn grid_cells(tl: Seq<TimelineEntryView>, tasks: Seq<u32>, row: nat) -> Seq<char>
    decreases tasks.len(),
{
    if tasks.len() == 0 {
        Seq::empty()
    } else {
        grid_cells(tl, tasks.drop_last(), row) + grid_cell(of_task(tl, tasks.last()), row)
    }
}

/// One row of the grid.
pub open spec fn grid_row(tl: Seq<TimelineEntryView>, tasks: Seq<u32>, row: nat) -> Seq<char> {
    right_aligned(dec(row), 4) + " "@ + grid_cells(tl, tasks, row) + "\n"@
}

/// The first `n` rows of the grid.
pub open spec fn grid_rows(tl: Seq<TimelineEntryView>, tasks: Seq<u32>, n: nat) -> Seq<char>
    decreases n,
{
    if n == 0 {
        Seq::empty()
    } else {
        grid_rows(tl, tasks, (n - 1) as nat) + grid_row(tl, tasks, (n - 1) as nat)
    }
}

/// The column heads, one per task.
pub open spec fn header_cells(tasks: Seq<u32>) -> Seq<char>
    decreases tasks.len(),
{
    if tasks.len() == 0 {
        Seq::empty()
    } else {
        header_cells(tasks.drop_last()) + " T"@ + left_aligned(dec(tasks.last() as nat), 3)
    }
}

/// The grid: a column per task, a row per event of each task among the
/// first entries of the timeline.
pub open spec fn graph_grid(v: AnalysisView, tasks: Seq<u32>) -> Seq<char> {
    let tl = first(v.timeline, GRID_EVENTS as nat);
    let m = max_group(tl, tl.len());
    "     "@ + header_cells(tasks) + "\n"@ + grid_rows(tl, tasks, if m < GRID_ROWS { m } else { GRID_ROWS as nat })
}

/// The line for a pair of timeline positions, joined by `sep`; nothing when
/// either lies past the timeline.
pub open spec fn pair_line(p: (usize, usize), tl: Seq<TimelineEntryView>, sep: Seq<char>) -> Seq<char> {
    if p.0 < tl.len() && p.1 < tl.len() {
        "  "@ + dec(p.0 as nat) + " (T"@ + dec(tl[p.0 as int].task_id as nat) + ")"@ + sep + dec(p.1 as nat) + " (T"@
            + dec(tl[p.1 as int].task_id as nat) + ")\n"@
    } else {
        Seq::empty()
    }
}

/// The lines for a list of pairs.
pub open spec fn pair_lines(s: Seq<(usize, usize)>, tl: Seq<TimelineEntryView>, sep: Seq<char>) -> Seq<char>
    decreases s.len(),
{
    if s.len() == 0 {
        Seq::empty()
    } else {
        pair_lines(s.drop_last(), tl, sep) + pair_line(s.last(), tl, sep)
    }
}

/// The edges of the happens-before section.
pub open spec fn edges_part(v: AnalysisView) -> Seq<char> {
    "Happens-Before Edges ("@ + dec(v.hb_edges.len()) + " total):\n"@ + pair_lines(
        first(v.hb_edges, EDGE_LINES as nat),
        v.timeline,
        " -> "@,
    ) + more_line(v.hb_edges.len() - EDGE_LINES, "edges"@) + "\n"@
}

/// The concurrent pairs of the happens-before section, if there are any.
pub open spec fn concurrent_part(v: AnalysisView) -> Seq<char> {
    if v.concurrent_pairs.len() > 0 {
        "Concurrent Events ("@ + dec(v.concurrent_pairs.len()) + " pairs):\n"@ + pair_lines(
            first(v.concurrent_pairs, PAIR_LINES as nat),
            v.timeline,
            " || "@,
        ) + more_line(v.concurrent_pairs.len() - PAIR_LINES, "pairs"@) + "\n"@
    } else {
        Seq::empty()
    }
}

/// The happens-before section, when asked for.
pub open spec fn graph_section(r: AnalysisResult, asked: bool) -> Seq<char> {
    if asked {
        "=== Happens-Before Graph ===\n"@ + "\n"@ + graph_grid(r@, sorted_tasks(r)) + "\n"@
            + "Legend: S=spawn, Y=yield, C=complete, >=send, <=recv\n"@ + "\n"@ + edges_part(r@)
            + concurrent_part(r@)
    } else {
        Seq::empty()
    }
}

/// The entries of a task among the first `k` are the first ones among all.
proof fn lemma_of_task_prefix(s: Seq<TimelineEntryView>, k: int, t: u32)
    requires
        0 <= k <= s.len(),
    ensures
        of_task(s.take(k), t).len() <= of_task(s, t).len(),
        forall|j: int| 0 <= j < of_task(s.take(k), t).len() ==> of_task(s.take(k), t)[j] == of_task(s, t)[j],
    decreases s.len(),
{
    if k == s.len() {
        assert(s.take(k) =~= s);
    } else {
        assert(s.take(k) =~= s.drop_last().take(k));
        lemma_of_task_prefix(s.drop_last(), k, t);
    }
}

/// How many of the first `n` timeline entries belong to task `t`.
fn count_of_task(r: &AnalysisResult, n: usize, t: u32) -> (c: usize)
    requires
        n <= r.timeline@.len(),
    ensures
        c == of_task(r@.timeline.take(n as int), t).len(),
{
    let ghost tl = r@.timeline;
    let mut c: usize = 0;
    let mut i: usize = 0;
    proof {
        assert(tl.take(0) =~= Seq::<TimelineEntryView>::empty());
    }
    while i < n
        invariant
            tl == r@.timeline,
            n <= tl.len(),
            i <= n,
            c == of_task(tl.take(i as int), t).len(),
            c <= i,
        decreases n - i,
    {
        proof {
            assert(tl.take(i + 1).drop_last() =~= tl.take(i as int));
            assert(tl[i as int] == r.timeline@[i as int]@);
        }
        if r.timeline[i].task_id == t {
            c = c + 1;
        }
        i = i + 1;
    }
    c
}

/// The type of the `row`-th of the first `n` entries of task `t`, if any.
fn nth_of_task(r: &AnalysisResult, n: usize, t: u32, row: usize) -> (e: Option<EventType>)
    requires
        n <= r.timeline@.len(),
    ensures
        e == (if row < of_task(r@.timeline.take(n as int), t).len() {
            Some(of_task(r@.timeline.take(n as int), t)[row as int])
        } else {
            None
        }),
{
    let ghost tl = r@.timeline;
    let ghost all = tl.take(n as int);
    let mut c: usize = 0;
    let mut i: usize = 0;
    proof {
        assert(tl.take(0) =~= Seq::<TimelineEntryView>::empty());
    }
    while i < n
        invariant
            tl == r@.timeline,
            all == tl.take(n as int),
            n <= tl.len(),
            i <= n,
            c == of_task(tl.take(i as int), t).len(),
            c <= row,
        decreases n - i,
    {
        proof {
            assert(tl.take(i + 1).drop_last() =~= tl.take(i as int));
            assert(tl[i as int] == r.timeline@[i as int]@);
            assert(all.take(i + 1) =~= tl.take(i + 1));
            lemma_of_task_prefix(all, i + 1, t);
        }
        if r.timeline[i].task_id == t {
            if c == row {
                return Some(r.timeline[i].event_type);
            }
            c = c + 1;
        }
        i = i + 1;
    }
    proof {
        assert(tl.take(n as int) =~= all);
    }
    None
}

/// The largest number of entries of one task among the first `n`.
fn largest_group(r: &AnalysisResult, n: usize) -> (m: usize)
    requires
        n <= r.timeline@.len(),
    ensures
        m == max_group(r@.timeline.take(n as int), n as nat),
{
    let ghost tl = r@.timeline.take(n as int);
    let mut m: usize = 0;
    let mut i: usize = 0;
    while i < n
        invariant
            tl == r@.timeline.take(n as int),
            n <= r.timeline@.len(),
            i <= n,
            m == max_group(tl, i as nat),
        decreases n - i,
    {
        let t = r.timeline[i].task_id;
        let c = count_of_task(r, n, t);
        proof {
            assert(tl[i as int] == r.timeline@[i as int]@);
        }
        if c > m {
            m = c;
        }
        i = i + 1;
    }
    m
}

/// One row of the grid.
fn grid_row_text(r: &AnalysisResult, n: usize, tasks: &Vec<u32>, row: usize) -> (out: String)
    requires
        n <= r.timeline@.len(),
    ensures
        out@ == grid_row(r@.timeline.take(n as int), tasks@, row as nat),
{
    let ghost tl = r@.timeline.take(n as int);
    let mut out = String::new();
    push_dec_right(&mut out, row as u64, 4);
    out.append(" ");
    let ghost head = out@;
    let mut k: usize = 0;
    proof {
        assert(tasks@.take(0) =~= Seq::<u32>::empty());
        assert(out@ =~= head + grid_cells(tl, tasks@.take(0), row as nat));
    }
    while k < tasks.len()
        invariant
            tl == r@.timeline.take(n as int),
            n <= r.timeline@.len(),
            k <= tasks@.len(),
            out@ == head + grid_cells(tl, tasks@.take(k as int), row as nat),
        decreases tasks@.len() - k,
    {
        match nth_of_task(r, n, tasks[k], row) {
            Some(t) => {
                out.append("  ");
                out.append(grid_symbol_text(t));
                out.append("  ");
            },
            None => {
                out.append("     ");
            },
        }
        proof {
            assert(tasks@.take(k + 1).drop_last() =~= tasks@.take(k as int));
            assert(out@ =~= head + grid_cells(tl, tasks@.take(k + 1), row as nat));
        }
        k = k + 1;
    }
    out.append("\n");
    proof {
        assert(tasks@.take(tasks@.len() as int) =~= tasks@);
        assert(out@ =~= grid_row(tl, tasks@, row as nat));
    }
    out
}

/// The grid.
fn graph_grid_text(r: &AnalysisResult, tasks: &Vec<u32>) -> (out: String)
    ensures
        out@ == graph_grid(r@, tasks@),
{
    let len = r.timeline.len();
    let n = if len < GRID_EVENTS { len } else { GRID_EVENTS };
    let ghost tl = r@.timeline.take(n as int);
    proof {
        assert(tl =~= first(r@.timeline, GRID_EVENTS as nat));
    }
    let mut out = String::new();
    out.append("     ");
    let ghost head = out@;
    let mut k: usize = 0;
    proof {
        assert(tasks@.take(0) =~= Seq::<u32>::empty());
        assert(out@ =~= head + header_cells(tasks@.take(0)));
    }
    while k < tasks.len()
        invariant
            k <= tasks@.len(),
            out@ == head + header_cells(tasks@.take(k as int)),
        decreases tasks@.len() - k,
    {
        out.append(" T");
        push_dec_left(&mut out, tasks[k] as u64, 3);
        proof {
            assert(tasks@.take(k + 1).drop_last() =~= tasks@.take(k as int));
            assert(out@ =~= head + header_cells(tasks@.take(k + 1)));
        }
        k = k + 1;
    }
    out.append("\n");
    proof {
        assert(tasks@.take(tasks@.len() as int) =~= tasks@);
    }
    let m = largest_group(r, n);
    let rows = if m < GRID_ROWS { m } else { GRID_ROWS };
    let ghost before_rows = out@;
    let mut row: usize = 0;
    while row < rows
        invariant
            n <= r.timeline@.len(),
            tl == r@.timeline.take(n as int),
            row <= rows,
            out@ == before_rows + grid_rows(tl, tasks@, row as nat),
        decreases rows - row,
    {
        let line = grid_row_text(r, n, tasks, row);
        out.append(line.as_str());
        proof {
            assert(out@ =~= before_rows + grid_rows(tl, tasks@, (row + 1) as nat));
        }
        row = row + 1;
    }
    proof {
        assert(tl.len() == n);
        assert(out@ =~= graph_grid(r@, tasks@));
    }
    out
}


/// The line for a pair of timeline positions.
fn pair_line_text(p: (usize, usize), r: &AnalysisResult, sep: &str) -> (out: String)
    ensures
        out@ == pair_line(p, r@.timeline, sep@),
{
    let mut out = String::new();
    let len = r.timeline.len();
    if p.0 < len && p.1 < len {
        out.append("  ");
        push_dec(&mut out, p.0 as u64);
        out.append(" (T");
        push_dec(&mut out, r.timeline[p.0].task_id as u64);
        out.append(")");
        out.append(sep);
        push_dec(&mut out, p.1 as u64);
        out.append(" (T");
        push_dec(&mut out, r.timeline[p.1].task_id as u64);
        out.append(")\n");
        proof {
            assert(r@.timeline[p.0 as int] == r.timeline@[p.0 as int]@);
            assert(r@.timeline[p.1 as int] == r.timeline@[p.1 as int]@);
        }
    }
    proof {
        assert(out@ =~= pair_line(p, r@.timeline, sep@));
    }
    out
}

/// Appends the lines for the first `limit` pairs, then how many more.
fn push_pair_lines(out: &mut String, pairs: &Vec<(usize, usize)>, limit: usize, r: &AnalysisResult, sep: &str, what: &str)
    ensures
        final(out)@ == old(out)@ + pair_lines(first(pairs@, limit as nat), r@.timeline, sep@) + more_line(
            pairs@.len() - limit,
            what@,
        ),
{
    let n = pairs.len();
    let shown = if n < limit { n } else { limit };
    let ghost start = out@;
    let mut i: usize = 0;
    proof {
        assert(pairs@.take(0) =~= Seq::<(usize, usize)>::empty());
        assert(out@ =~= start + pair_lines(pairs@.take(0), r@.timeline, sep@));
    }
    while i < shown
        invariant
            shown <= pairs@.len(),
            i <= shown,
            out@ == start + pair_lines(pairs@.take(i as int), r@.timeline, sep@),
        decreases shown - i,
    {
        let line = pair_line_text(pairs[i], r, sep);
        out.append(line.as_str());
        proof {
            assert(pairs@.take(i + 1).drop_last() =~= pairs@.take(i as int));
            assert(out@ =~= start + pair_lines(pairs@.take(i + 1), r@.timeline, sep@));
        }
        i = i + 1;
    }
    proof {
        assert(pairs@.take(shown as int) =~= first(pairs@, limit as nat));
    }
    let ghost mid = out@;
    push_more_line(out, n, limit, what);
    proof {
        assert(out@ =~= start + pair_lines(first(pairs@, limit as nat), r@.timeline, sep@) + more_line(
            pairs@.len() - limit,
            what@,
        ));
    }
}

/// Appends the edges of the happens-before section.
fn push_edges_part(out: &mut String, r: &AnalysisResult)
    ensures
        final(out)@ == old(out)@ + edges_part(r@),
{
    let ghost start = out@;
    out.append("Happens-Before Edges (");
    push_dec(out, r.hb_edges.len() as u64);
    out.append(" total):\n");
    push_pair_lines(out, &r.hb_edges, EDGE_LINES, r, " -> ", "edges");
    out.append("\n");
    proof {
        assert(out@ =~= start + edges_part(r@));
    }
}

/// Appends the concurrent pairs of the happens-before section.
fn push_concurrent_part(out: &mut String, r: &AnalysisResult)
    ensures
        final(out)@ == old(out)@ + concurrent_part(r@),
{
    let ghost start = out@;
    if r.concurrent_pairs.len() > 0 {
        out.append("Concurrent Events (");
        push_dec(out, r.concurrent_pairs.len() as u64);
        out.append(" pairs):\n");
        push_pair_lines(out, &r.concurrent_pairs, PAIR_LINES, r, " || ", "pairs");
        out.append("\n");
    }
    proof {
        assert(out@ =~= start + concurrent_part(r@));
    }
}

/// Appends the happens-before section; `tasks` are the tasks with events,
/// in increasing order.
fn push_graph_section(out: &mut String, r: &AnalysisResult, tasks: &Vec<u32>, asked: bool)
    requires
        tasks@ == sorted_tasks(*r),
    ensures
        final(out)@ == old(out)@ + graph_section(*r, asked),
{
    let ghost start = out@;
    if !asked {
        proof {
            assert(out@ =~= start + graph_section(*r, asked));
        }
        return;
    }
    out.append("=== Happens-Before Graph ===\n");
    out.append("\n");
    let grid = graph_grid_text(r, tasks);
    out.append(grid.as_str());
    out.append("\n");
    out.append("Legend: S=spawn, Y=yield, C=complete, >=send, <=recv\n");
    out.append("\n");
    let ghost head = out@;
    push_edges_part(out, r);
    push_concurrent_part(out, r);
    proof {
        assert(head =~= start + ("=== Happens-Before Graph ===\n"@ + "\n"@ + graph_grid(r@, sorted_tasks(*r)) + "\n"@
            + "Legend: S=spawn, Y=yield, C=complete, >=send, <=recv\n"@ + "\n"@));
        assert(out@ =~= start + graph_section(*r, asked));
    }
}

// ---------------------------------------------------------------------
// The whole report.

/// The report after the statistics header: counts by type and by task,
/// then the sections that `args` asks for, the issues, and a closing line.
pub open spec fn analysis_text_spec(r: AnalysisResult, args: AnalyzeArgs) -> Seq<char> {
    types_section(r) + tasks_section(r) + timeline_section(r@, args.timeline) + graph_section(r, args.graph)
        + issues_section(r@) + races_section(r@, args.races) + liveness_section(r@, args.liveness)
        + "Analysis complete.\n"@
}

/// The text report of an analysis, from the counts by type on: what the
/// analyze command prints after the seed, strategy and statistics lines.
pub fn analysis_text(result: &AnalysisResult, args: &AnalyzeArgs) -> (out: String)
    ensures
        out@ == analysis_text_spec(*result, *args),
{
    let mut out = String::new();
    out.append("Events by type:\n");
    let types = collect_type_counts(result);
    let sorted_types = sort_by_count(&types);
    push_type_lines(&mut out, &sorted_types);
    out.append("\n");
    out.append("Events by task:\n");
    let tasks = collect_task_counts(result);
    let sorted_tasks_pairs = sort_by_task(&tasks);
    push_task_lines(&mut out, &sorted_tasks_pairs);
    out.append("\n");
    let ghost after_counts = out@;
    proof {
        assert(after_counts =~= types_section(*result) + tasks_section(*result));
    }
    let mut ids: Vec<u32> = Vec::new();
    let mut i: usize = 0;
    let ghost sp = sorted_tasks_pairs@;
    while i < sorted_tasks_pairs.len()
        invariant
            sp == sorted_tasks_pairs@,
            i <= sp.len(),
            ids@ == sp.take(i as int).map_values(|p: (u32, usize)| p.0),
        decreases sp.len() - i,
    {
        ids.push(sorted_tasks_pairs[i].0);
        proof {
            assert(ids@ =~= sp.take(i + 1).map_values(|p: (u32, usize)| p.0));
        }
        i = i + 1;
    }
    proof {
        assert(sp.take(sp.len() as int) =~= sp);
    }
    push_timeline_section(&mut out, result, args.timeline);
    push_graph_section(&mut out, result, &ids, args.graph);
    push_issues_section(&mut out, result);
    push_races_section(&mut out, result, args.races);
    push_liveness_section(&mut out, result, args.liveness);
    out.append("Analysis complete.\n");
    proof {
        assert(out@ =~= analysis_text_spec(*result, *args));
    }
    out
}


// ---------------------------------------------------------------------
// The JSON summary.

/// The line for the `i`-th event type of `s`, with a comma unless last.
pub open spec fn json_type_line(s: Seq<(EventType, usize)>, i: int) -> Seq<char> {
    "    \""@ + kind_label(s[i].0) + "\": "@ + dec(s[i].1 as nat) + (if i < s.len() - 1 { ","@ } else { ""@ })
        + "\n"@
}

/// The lines for the first `k` event types of `s`.
pub open spec fn json_type_lines(s: Seq<(EventType, usize)>, k: nat) -> Seq<char>
    decreases k,
{
    if k == 0 {
        Seq::empty()
    } else {
        json_type_lines(s, (k - 1) as nat) + json_type_line(s, k - 1)
    }
}

/// `  "name": n` and what ends the line.
pub open spec fn json_field(name: Seq<char>, n: nat, end: Seq<char>) -> Seq<char> {
    "  \""@ + name + "\": "@ + dec(n) + end
}

/// The JSON summary of an analysis.
pub open spec fn analysis_json_spec(r: AnalysisResult) -> Seq<char> {
    let v = r@;
    "{\n"@ + json_field("seed"@, v.seed as nat, ",\n"@) + json_field("strategy"@, v.strategy as nat, ",\n"@)
        + json_field("total_events"@, v.total_events as nat, ",\n"@) + json_field(
        "max_time_ns"@,
        v.max_time_ns as nat,
        ",\n"@,
    ) + "  \"events_by_type\": {\n"@ + json_type_lines(type_counts(r), type_counts(r).len()) + "  },\n"@
        + json_field("issues_count"@, v.issues.len(), ",\n"@) + json_field("races_count"@, v.races.len(), ",\n"@)
        + json_field("liveness_issues_count"@, v.liveness_issues.len(), ",\n"@) + json_field(
        "concurrent_pairs_count"@,
        v.concurrent_pairs.len(),
        "\n"@,
    ) + "}\n"@
}

/// Appends `  "name": n` and what ends the line.
fn push_json_field(out: &mut String, name: &str, n: u64, end: &str)
    ensures
        final(out)@ == old(out)@ + json_field(name@, n as nat, end@),
{
    let ghost start = out@;
    out.append("  \"");
    out.append(name);
    out.append("\": ");
    push_dec(out, n);
    out.append(end);
    proof {
        assert(out@ =~= start + json_field(name@, n as nat, end@));
    }
}

/// The JSON summary of an analysis: seed, strategy, totals, the counts by
/// event type in first-seen order, and how many issues, races, liveness
/// issues and concurrent pairs it found.
pub fn analysis_json(result: &AnalysisResult) -> (out: String)
    ensures
        out@ == analysis_json_spec(*result),
{
    let mut out = String::new();
    out.append("{\n");
    push_json_field(&mut out, "seed", result.seed, ",\n");
    push_json_field(&mut out, "strategy", result.strategy as u64, ",\n");
    push_json_field(&mut out, "total_events", result.total_events as u64, ",\n");
    push_json_field(&mut out, "max_time_ns", result.max_time_ns, ",\n");
    out.append("  \"events_by_type\": {\n");
    let ghost head = out@;
    let types = collect_type_counts(result);
    let ghost s = types@;
    let n = types.len();
    let mut i: usize = 0;
    while i < n
        invariant
            s == types@,
            n == s.len(),
            i <= n,
            out@ == head + json_type_lines(s, i as nat),
        decreases n - i,
    {
        let (t, c) = types[i];
        let ghost before = out@;
        out.append("    \"");
        out.append(crate::cli::analyze::event_type_name(t));
        out.append("\": ");
        push_dec(&mut out, c as u64);
        if i < n - 1 {
            out.append(",");
        } else {
            out.append("");
        }
        out.append("\n");
        proof {
            assert(out@ =~= before + json_type_line(s, i as int));
        }
        i = i + 1;
    }
    out.append("  },\n");
    push_json_field(&mut out, "issues_count", result.issues.len() as u64, ",\n");
    push_json_field(&mut out, "races_count", result.races.len() as u64, ",\n");
    push_json_field(&mut out, "liveness_issues_count", result.liveness_issues.len() as u64, ",\n");
    push_json_field(&mut out, "concurrent_pairs_count", result.concurrent_pairs.len() as u64, "\n");
    out.append("}\n");
    proof {
        assert(out@ =~= analysis_json_spec(*result));
    }
    out
}


// ---------------------------------------------------------------------
// The order of the counts.

/// The leading run of pairs counting at least `c`, and what follows it.
proof fn lemma_lead_at_least_split(t: Seq<(EventType, usize)>, c: usize)
    requires
        forall|i: int, j: int| 0 <= i < j < t.len() ==> t[i].1 >= t[j].1,
    ensures
        lead_at_least(t, c) <= t.len(),
        forall|i: int| 0 <= i < lead_at_least(t, c) ==> t[i].1 >= c,
        forall|i: int| lead_at_least(t, c) <= i < t.len() ==> t[i].1 < c,
    decreases t.len(),
{
    if t.len() > 0 {
        lemma_lead_at_least_split(t.drop_first(), c);
        if t[0].1 >= c {
            assert forall|i: int| 0 <= i < lead_at_least(t, c) implies t[i].1 >= c by {
                if i > 0 {
                    assert(t[i] == t.drop_first()[i - 1]);
                }
            }
            assert forall|i: int| lead_at_least(t, c) <= i < t.len() implies t[i].1 < c by {
                assert(t[i] == t.drop_first()[i - 1]);
            }
        } else {
            assert forall|i: int| 0 <= i < t.len() implies t[i].1 < c by {
                if i > 0 {
                    assert(t[0].1 >= t[i].1);
                }
            }
        }
    }
}

/// The counts by type are listed most frequent first.
pub proof fn law_types_most_frequent_first(s: Seq<(EventType, usize)>)
    ensures
        forall|i: int, j: int|
            0 <= i < j < sorted_by_count(s).len() ==> sorted_by_count(s)[i].1 >= sorted_by_count(s)[j].1,
        sorted_by_count(s).len() == s.len(),
    decreases s.len(),
{
    lemma_sorted_by_count_len(s);
    if s.len() > 0 {
        let t = sorted_by_count(s.drop_last());
        law_types_most_frequent_first(s.drop_last());
        let c = s.last().1;
        lemma_lead_at_least_split(t, c);
        let k = lead_at_least(t, c) as int;
        let u = t.insert(k, s.last());
        assert forall|i: int, j: int| 0 <= i < j < u.len() implies u[i].1 >= u[j].1 by {
            if j < k {
            } else if j == k {
            } else if i < k {
                assert(u[j] == t[j - 1]);
            } else if i == k {
                assert(u[j] == t[j - 1]);
            } else {
                assert(u[i] == t[i - 1]);
                assert(u[j] == t[j - 1]);
            }
        }
    }
}

/// The leading run of pairs with a task below `id`, and what follows it.
proof fn lemma_lead_below_split(t: Seq<(u32, usize)>, id: u32)
    requires
        forall|i: int, j: int| 0 <= i < j < t.len() ==> t[i].0 <= t[j].0,
    ensures
        lead_below(t, id) <= t.len(),
        forall|i: int| 0 <= i < lead_below(t, id) ==> t[i].0 < id,
        forall|i: int| lead_below(t, id) <= i < t.len() ==> t[i].0 >= id,
    decreases t.len(),
{
    if t.len() > 0 {
        lemma_lead_below_split(t.drop_first(), id);
        if t[0].0 < id {
            assert forall|i: int| 0 <= i < lead_below(t, id) implies t[i].0 < id by {
                if i > 0 {
                    assert(t[i] == t.drop_first()[i - 1]);
                }
            }
            assert forall|i: int| lead_below(t, id) <= i < t.len() implies t[i].0 >= id by {
                assert(t[i] == t.drop_first()[i - 1]);
            }
        } else {
            assert forall|i: int| 0 <= i < t.len() implies t[i].0 >= id by {
                if i > 0 {
                    assert(t[0].0 <= t[i].0);
                }
            }
        }
    }
}

/// The counts by task are listed in increasing task order.
pub proof fn law_tasks_in_increasing_order(s: Seq<(u32, usize)>)
    ensures
        forall|i: int, j: int|
            0 <= i < j < sorted_by_task(s).len() ==> sorted_by_task(s)[i].0 <= sorted_by_task(s)[j].0,
        sorted_by_task(s).len() == s.len(),
    decreases s.len(),
{
    lemma_sorted_by_task_len(s);
    if s.len() > 0 {
        let t = sorted_by_task(s.drop_last());
        law_tasks_in_increasing_order(s.drop_last());
        let id = s.last().0;
        lemma_lead_below_split(t, id);
        let k = lead_below(t, id) as int;
        let u = t.insert(k, s.last());
        assert forall|i: int, j: int| 0 <= i < j < u.len() implies u[i].0 <= u[j].0 by {
            if j < k {
            } else if j == k {
            } else if i < k {
                assert(u[j] == t[j - 1]);
            } else if i == k {
                assert(u[j] == t[j - 1]);
            } else {
                assert(u[i] == t[i - 1]);
                assert(u[j] == t[j - 1]);
            }
        }
    }
}

} // verus!
