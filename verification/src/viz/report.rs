//! HTML report of a recorded run.
use vstd::prelude::*;
use crate::recording::format::{Event, Header};
use crate::util::fmt::{dec, push_dec};
use std::collections::HashMap;
use crate::viz::sequence::{
    SequenceDiagram, SequenceMessage, SendKey, SeqMsgView, latency_total, msg_views, received, received_count, size_total,
    u64_modulus,
};
use crate::viz::timeline::{
    EntryView, TaskView, Timeline, TimelineBuilder, TimelineEntry, entry_of, entry_views, is_failure, task_views,
    tasks_after,
};
use crate::recording::format::EventPayload;

verus! {

broadcast use vstd::std_specs::hash::group_hash_axioms;

/// The page up to the title.
pub const HEAD_OPEN: &'static str = r##"<!DOCTYPE html>
<html lang="en">
<head>
    <meta charset="UTF-8">
    <meta name="viewport" content="width=device-width, initial-scale=1.0">
    <title>"##;

/// The page from the title to the body: the style sheet.
pub const HEAD_CLOSE: &'static str = r##"</title>
    <style>
        :root {
            --bg: #1a1a2e;
            --surface: #16213e;
            --primary: #0f3460;
            --accent: #e94560;
            --text: #eee;
            --muted: #888;
        }
        body {
            font-family: -apple-system, BlinkMacSystemFont, 'Segoe UI', Roboto, sans-serif;
            background: var(--bg);
            color: var(--text);
            margin: 0;
            padding: 20px;
            line-height: 1.6;
        }
        .container {
            max-width: 1200px;
            margin: 0 auto;
        }
        h1, h2 { color: var(--accent); }
        .stats {
            display: grid;
            grid-template-columns: repeat(auto-fit, minmax(200px, 1fr));
            gap: 20px;
            margin: 20px 0;
        }
        .stat-card {
            background: var(--surface);
            padding: 20px;
            border-radius: 8px;
            text-align: center;
        }
        .stat-value {
            font-size: 2em;
            font-weight: bold;
            color: var(--accent);
        }
        .stat-label {
            color: var(--muted);
            font-size: 0.9em;
        }
        .timeline {
            background: var(--surface);
            padding: 20px;
            border-radius: 8px;
            margin: 20px 0;
            overflow-x: auto;
        }
        .timeline-entry {
            display: flex;
            align-items: center;
            padding: 8px 0;
            border-bottom: 1px solid var(--primary);
        }
        .timeline-time {
            width: 100px;
            color: var(--muted);
            font-family: monospace;
            font-size: 0.85em;
        }
        .timeline-task {
            width: 80px;
            text-align: center;
        }
        .timeline-event {
            flex: 1;
        }
        .badge {
            display: inline-block;
            padding: 2px 8px;
            border-radius: 4px;
            font-size: 0.8em;
            margin-right: 8px;
        }
        .badge.spawn { background: #2ecc71; color: #000; }
        .badge.complete { background: #3498db; color: #fff; }
        .badge.yield { background: #9b59b6; color: #fff; }
        .badge.network { background: #f39c12; color: #000; }
        .badge.schedule { background: #1abc9c; color: #000; }
        .badge.failure { background: var(--accent); color: #fff; }
        .badge.time { background: #95a5a6; color: #000; }
        .badge.random { background: #e67e22; color: #fff; }
        .sequence {
            background: var(--surface);
            padding: 20px;
            border-radius: 8px;
            margin: 20px 0;
        }
        .message {
            display: flex;
            align-items: center;
            padding: 8px 0;
            border-bottom: 1px solid var(--primary);
        }
        .message-arrow {
            flex: 1;
            text-align: center;
            color: var(--accent);
        }
        .failures {
            background: rgba(233, 69, 96, 0.2);
            border: 1px solid var(--accent);
            padding: 20px;
            border-radius: 8px;
            margin: 20px 0;
        }
        .failures h2 { margin-top: 0; }
    </style>
</head>
"##;

/// The statistics up to the event count.
pub const STATS_EVENTS: &'static str = r##"<div class="stats">
    <div class="stat-card">
        <div class="stat-value">"##;

/// Between the event count and the task count.
pub const STATS_TASKS: &'static str = r##"</div>
        <div class="stat-label">Events</div>
    </div>
    <div class="stat-card">
        <div class="stat-value">"##;

/// Between the task count and the message count.
pub const STATS_MESSAGES: &'static str = r##"</div>
        <div class="stat-label">Tasks</div>
    </div>
    <div class="stat-card">
        <div class="stat-value">"##;

/// Between the message count and the failure count.
pub const STATS_FAILURES: &'static str = r##"</div>
        <div class="stat-label">Messages</div>
    </div>
    <div class="stat-card">
        <div class="stat-value">"##;

/// Between the failure count and the strategy.
pub const STATS_STRATEGY: &'static str = r##"</div>
        <div class="stat-label">Failures</div>
    </div>
    <div class="stat-card">
        <div class="stat-value">"##;

/// Between the strategy and the seed.
pub const STATS_SEED: &'static str = r##"</div>
        <div class="stat-label">Strategy</div>
    </div>
    <div class="stat-card">
        <div class="stat-value" style="font-size: 1em;">"##;

/// After the seed.
pub const STATS_END: &'static str = r##"</div>
        <div class="stat-label">Seed</div>
    </div>
</div>
"##;

/// HTML report configuration.
#[derive(Debug)]
pub struct ReportConfig {
    /// Report title.
    pub title: String,
    /// Include timeline view.
    pub include_timeline: bool,
    /// Include sequence diagram.
    pub include_sequence: bool,
    /// Include statistics.
    pub include_stats: bool,
}

impl Clone for ReportConfig {
    fn clone(&self) -> (r: Self)
        ensures
            r.title@ == self.title@,
            r.include_timeline == self.include_timeline,
            r.include_sequence == self.include_sequence,
            r.include_stats == self.include_stats,
    {
        ReportConfig {
            title: self.title.clone(),
            include_timeline: self.include_timeline,
            include_sequence: self.include_sequence,
            include_stats: self.include_stats,
        }
    }
}

impl Default for ReportConfig {
    /// Every section, titled "Chronos Test Report".
    fn default() -> (r: Self)
        ensures
            r.title@ == "Chronos Test Report"@,
            r.include_timeline,
            r.include_sequence,
            r.include_stats,
    {
        ReportConfig {
            title: String::from_str("Chronos Test Report"),
            include_timeline: true,
            include_sequence: true,
            include_stats: true,
        }
    }
}

/// The task record after a run of events.
pub open spec fn tasks_through(events: Seq<Event>) -> Map<u32, TaskView>
    decreases events.len(),
{
    if events.len() == 0 {
        Map::empty()
    } else {
        tasks_after(tasks_through(events.drop_last()), events.last())
    }
}

/// The timeline entries of a run of events.
pub open spec fn entries_through(events: Seq<Event>) -> Seq<EntryView>
    decreases events.len(),
{
    if events.len() == 0 {
        Seq::empty()
    } else {
        entries_through(events.drop_last()).push(entry_of(tasks_through(events.drop_last()), events.last()))
    }
}

/// The failure entries of a run of events.
pub open spec fn failures_through(events: Seq<Event>) -> Seq<EntryView>
    decreases events.len(),
{
    if events.len() == 0 {
        Seq::empty()
    } else if is_failure(events.last()) {
        failures_through(events.drop_last()).push(entry_of(tasks_through(events.drop_last()), events.last()))
    } else {
        failures_through(events.drop_last())
    }
}

/// The participants' names after a run of events.
pub open spec fn names_through(events: Seq<Event>) -> Map<u32, Seq<char>>
    decreases events.len(),
{
    if events.len() == 0 {
        Map::empty()
    } else {
        let before = names_through(events.drop_last());
        match events.last().payload {
            EventPayload::TaskSpawn { name, .. } => before.insert(events.last().task_id, name@),
            _ => before,
        }
    }
}

/// The sends not received yet after a run of events.
pub open spec fn pending_through(events: Seq<Event>) -> Map<SendKey, u64>
    decreases events.len(),
{
    if events.len() == 0 {
        Map::empty()
    } else {
        let before = pending_through(events.drop_last());
        let e = events.last();
        match e.payload {
            EventPayload::NetSend { dst, data } => before.insert(
                SendKey { from: e.task_id, to: dst, size: data@.len() as usize },
                e.timestamp,
            ),
            EventPayload::NetRecv { src, data } => before.remove(SendKey { from: src, to: e.task_id, size: data@.len() as usize }),
            _ => before,
        }
    }
}

/// The messages of a run of events: one per receive, in order.
pub open spec fn messages_through(events: Seq<Event>) -> Seq<SeqMsgView>
    decreases events.len(),
{
    if events.len() == 0 {
        Seq::empty()
    } else {
        let before = messages_through(events.drop_last());
        let e = events.last();
        match e.payload {
            EventPayload::NetRecv { src, data } => before.push(
                received(pending_through(events.drop_last()), src, e.task_id, data@.len() as usize, e.timestamp),
            ),
            _ => before,
        }
    }
}

/// The strategy name shown for a header's strategy code.
pub open spec fn strategy_label(header: Option<Header>) -> Seq<char> {
    match header {
        Some(h) => if h.strategy == 0 {
            "FIFO"@
        } else if h.strategy == 1 {
            "Random"@
        } else if h.strategy == 2 {
            "PCT"@
        } else {
            "Unknown"@
        },
        None => "Unknown"@,
    }
}

/// The seed shown for a header.
pub open spec fn seed_label(header: Option<Header>) -> Seq<char> {
    match header {
        Some(h) => dec(h.seed as nat),
        None => "N/A"@,
    }
}

/// The page's head for a title.
pub open spec fn head_text(title: Seq<char>) -> Seq<char> {
    HEAD_OPEN@ + title + HEAD_CLOSE@
}

/// The statistics cards.
pub open spec fn stats_text(events: nat, tasks: nat, messages: nat, failures: nat, header: Option<Header>) -> Seq<char> {
    STATS_EVENTS@ + dec(events) + STATS_TASKS@ + dec(tasks) + STATS_MESSAGES@ + dec(messages) + STATS_FAILURES@
        + dec(failures) + STATS_STRATEGY@ + strategy_label(header) + STATS_SEED@ + seed_label(header) + STATS_END@
}

/// One line of the failures section.
pub open spec fn failure_row(e: EntryView) -> Seq<char> {
    "<div class=\"timeline-entry\"><span class=\"timeline-time\">"@ + dec(e.timestamp as nat)
        + "ns</span><span class=\"badge failure\">"@ + e.event_type + "</span><span>"@ + e.description
        + "</span></div>\n"@
}

/// The lines of the failures section.
pub open spec fn failure_rows(s: Seq<EntryView>) -> Seq<char>
    decreases s.len(),
{
    if s.len() == 0 { Seq::empty() } else { failure_rows(s.drop_last()) + failure_row(s.last()) }
}

/// The failures section.
pub open spec fn failures_text(s: Seq<EntryView>) -> Seq<char> {
    "<div class=\"failures\">\n<h2>Failures</h2>\n"@ + failure_rows(s) + "</div>\n"@
}

/// One line of the timeline section.
pub open spec fn timeline_row(e: EntryView) -> Seq<char> {
    "<div class=\"timeline-entry\"><span class=\"timeline-time\">"@ + dec(e.timestamp as nat)
        + "ns</span><span class=\"timeline-task\">T"@ + dec(e.task_id as nat) + "</span><span class=\"badge "@
        + e.css_class + "\">"@ + e.event_type + "</span><span class=\"timeline-event\">"@ + e.description
        + "</span></div>\n"@
}

/// The lines of the timeline section.
pub open spec fn timeline_rows(s: Seq<EntryView>) -> Seq<char>
    decreases s.len(),
{
    if s.len() == 0 { Seq::empty() } else { timeline_rows(s.drop_last()) + timeline_row(s.last()) }
}

/// The timeline section.
pub open spec fn timeline_text(s: Seq<EntryView>) -> Seq<char> {
    "<div class=\"timeline\">\n<h2>Timeline</h2>\n"@ + timeline_rows(s) + "</div>\n"@
}

/// A participant's name, or "?" for one never spawned.
pub open spec fn name_or_unknown(names: Map<u32, Seq<char>>, t: u32) -> Seq<char> {
    if names.contains_key(t) { names[t] } else { "?"@ }
}

/// One line of the message section.
pub open spec fn message_row(names: Map<u32, Seq<char>>, m: SequenceMessage) -> Seq<char> {
    "<div class=\"message\"><span>"@ + name_or_unknown(names, m.from) + " (T"@ + dec(m.from as nat)
        + ")</span><span class=\"message-arrow\">--["@ + dec(m.size as nat) + " bytes]--></span><span>"@
        + name_or_unknown(names, m.to) + " (T"@ + dec(m.to as nat) + ")</span></div>\n"@
}

/// The lines of the message section.
pub open spec fn message_rows(names: Map<u32, Seq<char>>, s: Seq<SequenceMessage>) -> Seq<char>
    decreases s.len(),
{
    if s.len() == 0 { Seq::empty() } else { message_rows(names, s.drop_last()) + message_row(names, s.last()) }
}

/// The average latency line, when some message was received.
pub open spec fn latency_text(s: Seq<SequenceMessage>) -> Seq<char> {
    if received_count(s) == 0 {
        Seq::empty()
    } else {
        "<p>Average latency: "@ + dec(
            (((latency_total(s) as int) % u64_modulus()) / (received_count(s) as int)) as nat,
        ) + "ns</p>\n"@
    }
}

/// The message section.
pub open spec fn sequence_text(names: Map<u32, Seq<char>>, s: Seq<SequenceMessage>) -> Seq<char> {
    "<div class=\"sequence\">\n<h2>Message Sequence</h2>\n"@ + latency_text(s) + "<p>Total bytes: "@
        + dec(((size_total(s) as int) % (usize::MAX as int + 1)) as nat) + "</p>\n"@ + message_rows(names, s)
        + "</div>\n"@
}

/// HTML report builder.
pub struct Report {
    config: ReportConfig,
    header: Option<Header>,
    timeline: Timeline,
    sequence: SequenceDiagram,
}

impl Report {
    /// The report's title.
    pub closed spec fn title(&self) -> Seq<char> {
        self.config.title@
    }

    /// Which sections the report has: (stats, timeline, sequence).
    pub closed spec fn sections(&self) -> (bool, bool, bool) {
        (self.config.include_stats, self.config.include_timeline, self.config.include_sequence)
    }

    /// The recording header, if set.
    pub closed spec fn header_of(&self) -> Option<Header> {
        self.header
    }

    /// The timeline's entries.
    pub closed spec fn entries(&self) -> Seq<EntryView> {
        entry_views(self.timeline.entries@)
    }

    /// The timeline's failure entries.
    pub closed spec fn failures(&self) -> Seq<EntryView> {
        entry_views(self.timeline.failures@)
    }

    /// The timeline's tasks.
    pub closed spec fn tasks(&self) -> Map<u32, TaskView> {
        task_views(self.timeline.tasks@)
    }

    /// The sequence diagram's participants.
    pub closed spec fn names(&self) -> Map<u32, Seq<char>> {
        self.sequence.names()
    }

    /// The sequence diagram's messages.
    pub closed spec fn messages(&self) -> Seq<SequenceMessage> {
        self.sequence.message_list()
    }

    /// The whole page for this report.
    pub open spec fn html(&self) -> Seq<char> {
        let title = self.title();
        let (stats, timeline, sequence) = self.sections();
        head_text(title) + "<body>\n<div class=\"container\">\n"@ + "<h1>"@ + title + "</h1>\n"@
            + (if stats {
                stats_text(
                    self.entries().len(),
                    self.tasks().dom().len(),
                    self.messages().len(),
                    self.failures().len(),
                    self.header_of(),
                )
            } else {
                Seq::empty()
            }) + (if self.failures().len() > 0 { failures_text(self.failures()) } else { Seq::empty() })
            + (if timeline { timeline_text(self.entries()) } else { Seq::empty() })
            + (if sequence && self.messages().len() > 0 {
                sequence_text(self.names(), self.messages())
            } else {
                Seq::empty()
            }) + "</div>\n</body>\n"@ + "</html>"@
    }

    /// Create a report from events: its timeline and message sequence are
    /// those of the events in order; it has no header.
    pub fn from_events(events: &[Event], config: ReportConfig) -> (r: Self)
        ensures
            r.title() == config.title@,
            r.sections() == (config.include_stats, config.include_timeline, config.include_sequence),
            r.header_of() is None,
            r.entries() == entries_through(events@),
            r.failures() == failures_through(events@),
            r.tasks() == tasks_through(events@),
            r.names() == names_through(events@),
            msg_views(r.messages()) == messages_through(events@),
    {
        let mut builder = TimelineBuilder::new();
        let mut sequence = SequenceDiagram::new();
        let mut i: usize = 0;
        while i < events.len()
            invariant
                i <= events@.len(),
                builder.entry_list() == entries_through(events@.take(i as int)),
                builder.failure_list() == failures_through(events@.take(i as int)),
                builder.task_map() == tasks_through(events@.take(i as int)),
                sequence.names() == names_through(events@.take(i as int)),
                sequence.pending_sends() == pending_through(events@.take(i as int)),
                msg_views(sequence.message_list()) == messages_through(events@.take(i as int)),
            decreases events@.len() - i,
        {
            proof {
                let t = events@.take(i as int + 1);
                assert(t.drop_last() =~= events@.take(i as int));
                assert(t.last() == events@[i as int]);
            }
            builder.add_event(&events[i]);
            sequence.add_event(&events[i]);
            i = i + 1;
        }
        proof {
            assert(events@.take(events@.len() as int) =~= events@);
        }
        let timeline = builder.build();
        Report { config, header: None, timeline, sequence }
    }

    /// Set the recording header.
    pub fn with_header(self, header: Header) -> (r: Self)
        ensures
            r.header_of() == Some(header),
            r.title() == self.title(),
            r.sections() == self.sections(),
            r.entries() == self.entries(),
            r.failures() == self.failures(),
            r.tasks() == self.tasks(),
            r.names() == self.names(),
            r.messages() == self.messages(),
    {
        Report { header: Some(header), ..self }
    }

    /// Generate the HTML page.
    pub fn generate_html(&self) -> (r: String)
        ensures
            r@ == self.html(),
    {
        let mut html = String::from_str(HEAD_OPEN);
        html.append(self.config.title.as_str());
        html.append(HEAD_CLOSE);
        html.append("<body>\n<div class=\"container\">\n");
        html.append("<h1>");
        html.append(self.config.title.as_str());
        html.append("</h1>\n");
        let ghost upto_title = html@;
        if self.config.include_stats {
            self.push_stats(&mut html);
        }
        let ghost upto_stats = html@;
        if self.timeline.has_failures() {
            self.push_failures(&mut html);
        }
        let ghost upto_failures = html@;
        if self.config.include_timeline {
            self.push_timeline(&mut html);
        }
        let ghost upto_timeline = html@;
        if self.config.include_sequence && self.sequence.message_count() > 0 {
            self.push_sequence(&mut html);
        }
        let ghost upto_sequence = html@;
        html.append("</div>\n</body>\n");
        html.append("</html>");
        proof {
            assert(html@ =~= self.html());
        }
        html
    }

    /// Write the HTML page to a writer: the page of `generate_html`, handed
    /// over in one `write_all`.
    pub fn write_html<W: std::io::Write>(&self, writer: &mut W) -> std::io::Result<()> {
        let html = self.generate_html();
        write_text(writer, html.as_str())
    }

    /// Appends the statistics cards.
    fn push_stats(&self, out: &mut String)
        ensures
            final(out)@ == old(out)@ + stats_text(
                self.entries().len(),
                self.tasks().dom().len(),
                self.messages().len(),
                self.failures().len(),
                self.header_of(),
            ),
    {
        out.append(STATS_EVENTS);
        push_dec(out, self.timeline.event_count() as u64);
        out.append(STATS_TASKS);
        push_dec(out, self.timeline.task_count() as u64);
        out.append(STATS_MESSAGES);
        push_dec(out, self.sequence.message_count() as u64);
        out.append(STATS_FAILURES);
        push_dec(out, self.timeline.failure_count() as u64);
        out.append(STATS_STRATEGY);
        let strategy: &str = match &self.header {
            Some(h) => if h.strategy == 0 {
                "FIFO"
            } else if h.strategy == 1 {
                "Random"
            } else if h.strategy == 2 {
                "PCT"
            } else {
                "Unknown"
            },
            None => "Unknown",
        };
        out.append(strategy);
        out.append(STATS_SEED);
        match &self.header {
            Some(h) => push_dec(out, h.seed),
            None => out.append("N/A"),
        }
        out.append(STATS_END);
        proof {
            assert(self.tasks().dom() =~= self.timeline.tasks@.dom());
            assert(self.entries().len() == self.timeline.entries@.len());
            assert(self.failures().len() == self.timeline.failures@.len());
            assert(final(out)@ =~= old(out)@ + stats_text(
                self.entries().len(),
                self.tasks().dom().len(),
                self.messages().len(),
                self.failures().len(),
                self.header_of(),
            ));
        }
    }

    /// Appends the failures section.
    fn push_failures(&self, out: &mut String)
        ensures
            final(out)@ == old(out)@ + failures_text(self.failures()),
    {
        out.append("<div class=\"failures\">\n<h2>Failures</h2>\n");
        let ghost start = out@;
        let failures = &self.timeline.failures;
        let mut i: usize = 0;
        while i < failures.len()
            invariant
                i <= failures@.len(),
                out@ == start + failure_rows(entry_views(failures@).take(i as int)),
            decreases failures@.len() - i,
        {
            let e: &TimelineEntry = &failures[i];
            proof {
                let t = entry_views(failures@).take(i as int + 1);
                assert(t.drop_last() =~= entry_views(failures@).take(i as int));
                assert(t.last() == e@);
            }
            out.append("<div class=\"timeline-entry\"><span class=\"timeline-time\">");
            push_dec(out, e.timestamp);
            out.append("ns</span><span class=\"badge failure\">");
            out.append(e.event_type.as_str());
            out.append("</span><span>");
            out.append(e.description.as_str());
            out.append("</span></div>\n");
            proof {
                assert(out@ =~= start + failure_rows(entry_views(failures@).take(i as int + 1)));
            }
            i = i + 1;
        }
        out.append("</div>\n");
        proof {
            assert(entry_views(failures@).take(failures@.len() as int) =~= entry_views(failures@));
            assert(out@ =~= old(out)@ + failures_text(self.failures()));
        }
    }

    /// Appends the timeline section.
    fn push_timeline(&self, out: &mut String)
        ensures
            final(out)@ == old(out)@ + timeline_text(self.entries()),
    {
        out.append("<div class=\"timeline\">\n<h2>Timeline</h2>\n");
        let ghost start = out@;
        let entries = &self.timeline.entries;
        let mut i: usize = 0;
        while i < entries.len()
            invariant
                i <= entries@.len(),
                out@ == start + timeline_rows(entry_views(entries@).take(i as int)),
            decreases entries@.len() - i,
        {
            let e: &TimelineEntry = &entries[i];
            proof {
                let t = entry_views(entries@).take(i as int + 1);
                assert(t.drop_last() =~= entry_views(entries@).take(i as int));
                assert(t.last() == e@);
            }
            out.append("<div class=\"timeline-entry\"><span class=\"timeline-time\">");
            push_dec(out, e.timestamp);
            out.append("ns</span><span class=\"timeline-task\">T");
            push_dec(out, e.task_id as u64);
            out.append("</span><span class=\"badge ");
            out.append(e.css_class.as_str());
            out.append("\">");
            out.append(e.event_type.as_str());
            out.append("</span><span class=\"timeline-event\">");
            out.append(e.description.as_str());
            out.append("</span></div>\n");
            proof {
                assert(out@ =~= start + timeline_rows(entry_views(entries@).take(i as int + 1)));
            }
            i = i + 1;
        }
        out.append("</div>\n");
        proof {
            assert(entry_views(entries@).take(entries@.len() as int) =~= entry_views(entries@));
            assert(out@ =~= old(out)@ + timeline_text(self.entries()));
        }
    }

    /// Appends the message section.
    #[verifier::rlimit(40)]
    fn push_sequence(&self, out: &mut String)
        ensures
            final(out)@ == old(out)@ + sequence_text(self.names(), self.messages()),
    {
        out.append("<div class=\"sequence\">\n<h2>Message Sequence</h2>\n");
        let ghost head = out@;
        match self.sequence.avg_latency_ns() {
            Some(latency) => {
                out.append("<p>Average latency: ");
                push_dec(out, latency);
                out.append("ns</p>\n");
            },
            None => {},
        }
        let ghost after_latency = out@;
        out.append("<p>Total bytes: ");
        push_dec(out, self.sequence.total_bytes() as u64);
        out.append("</p>\n");
        let ghost start = out@;
        let participants = self.sequence.participants();
        let messages = self.sequence.messages();
        let mut i: usize = 0;
        while i < messages.len()
            invariant
                i <= messages@.len(),
                messages@ == self.messages(),
                participants@.map_values(|s: String| s@) == self.names(),
                out@ == start + message_rows(self.names(), messages@.take(i as int)),
            decreases messages@.len() - i,
        {
            let m: &SequenceMessage = &messages[i];
            proof {
                let t = messages@.take(i as int + 1);
                assert(t.drop_last() =~= messages@.take(i as int));
                assert(t.last() == *m);
            }
            out.append("<div class=\"message\"><span>");
            push_name(out, participants, m.from);
            out.append(" (T");
            push_dec(out, m.from as u64);
            out.append(")</span><span class=\"message-arrow\">--[");
            push_dec(out, m.size as u64);
            out.append(" bytes]--></span><span>");
            push_name(out, participants, m.to);
            out.append(" (T");
            push_dec(out, m.to as u64);
            out.append(")</span></div>\n");
            proof {
                assert(out@ =~= start + message_rows(self.names(), messages@.take(i as int + 1)));
            }
            i = i + 1;
        }
        out.append("</div>\n");
        proof {
            assert(messages@.take(messages@.len() as int) =~= messages@);
            assert(after_latency =~= head + latency_text(self.messages()));
            assert(out@ =~= old(out)@ + sequence_text(self.names(), self.messages()));
        }
    }
}

/// Calls `Write::write_all` with the bytes of `text`. What the writer does
/// with them is up to the writer: nothing is stated of the result.
#[verifier::external_body]
fn write_text<W: std::io::Write>(writer: &mut W, text: &str) -> std::io::Result<()> {
    writer.write_all(text.as_bytes())
}

/// Appends a participant's name, or "?" for one never spawned.
fn push_name(out: &mut String, participants: &HashMap<u32, String>, t: u32)
    ensures
        final(out)@ == old(out)@ + name_or_unknown(participants@.map_values(|s: String| s@), t),
{
    match participants.get(&t) {
        Some(name) => out.append(name.as_str()),
        None => out.append("?"),
    }
}

/// How many of the events are receives.
pub open spec fn receive_count(events: Seq<Event>) -> nat
    decreases events.len(),
{
    if events.len() == 0 {
        0
    } else {
        receive_count(events.drop_last()) + if events.last().payload is NetRecv { 1nat } else { 0nat }
    }
}

/// How many of the events are injected faults.
pub open spec fn fault_count(events: Seq<Event>) -> nat
    decreases events.len(),
{
    if events.len() == 0 {
        0
    } else {
        fault_count(events.drop_last()) + if is_failure(events.last()) { 1nat } else { 0nat }
    }
}

/// A report counts what happened: one timeline entry per event, one
/// failure per injected fault, and one message per receive.
pub proof fn law_report_counts(events: Seq<Event>)
    ensures
        entries_through(events).len() == events.len(),
        failures_through(events).len() == fault_count(events),
        messages_through(events).len() == receive_count(events),
    decreases events.len(),
{
    if events.len() > 0 {
        law_report_counts(events.drop_last());
    }
}

} // verus!
