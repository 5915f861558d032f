//! Systematic exploration of schedules: the state it checkpoints, the seeds
//! it hands to its workers, and the bugs it reports.
use std::collections::HashSet;
use std::path::PathBuf;
use std::time::Duration;
use vstd::prelude::*;
use vstd::std_specs::hash::spec_hash_keys_iter;
use vstd::std_specs::iter::IteratorSpec;
use crate::util::fmt::{dec, push_dec};
use crate::util::split::{
    chars_eq, contains_text, has_substring, lemma_split_plain, lemma_split_sep, lines_of, split_chars, split_fold, split_on,
    string_from_chars, strings_view, strip_cr, text_lines, vecs_view,
};
use crate::util::text::{chars_of, is_digit, unsigned_part, lemma_dec_digits, lemma_digits_lack, lemma_parse_dec, parse_u64, parsed_u64};

verus! {

broadcast use vstd::std_specs::hash::group_hash_axioms;

/// Arguments for the explore command.
#[derive(Debug)]
pub struct ExploreArgs {
    /// Test binary to explore.
    pub test_binary: String,
    /// Max exploration depth for DFS.
    pub depth: usize,
    /// Number of parallel exploration workers.
    pub threads: usize,
    /// Directory to save/resume exploration state.
    pub checkpoint: Option<PathBuf>,
    /// Write bug reports to this file.
    pub report: Option<PathBuf>,
    /// Starting random seed.
    pub seed: u64,
    /// Maximum number of schedules to explore.
    pub max_schedules: Option<u64>,
    /// Timeout per schedule (seconds).
    pub timeout: u64,
    /// Stop after finding this many bugs.
    pub max_bugs: u32,
    /// Verbose output.
    pub verbose: bool,
    /// Use PCT strategy instead of random.
    pub pct: bool,
    /// PCT bug depth parameter.
    pub pct_depth: usize,
    /// Run as cargo test.
    pub cargo: bool,
}

/// A bug found during exploration.
#[derive(Debug, Clone)]
pub struct Bug {
    pub seed: u64,
    pub schedule_id: u64,
    pub description: String,
    pub trace: Vec<String>,
}

/// Exploration state that can be checkpointed.
#[derive(Debug)]
pub struct ExplorationState {
    /// Seeds that have been explored.
    pub explored_seeds: HashSet<u64>,
    /// Seeds that found bugs.
    pub bug_seeds: HashSet<u64>,
    /// Next seed to try.
    pub next_seed: u64,
    /// Total schedules explored.
    pub schedules_explored: u64,
}

/// Result of exploration.
#[derive(Debug)]
pub struct ExploreResult {
    pub schedules_explored: u64,
    pub bugs_found: Vec<Bug>,
    pub elapsed: Duration,
    pub interrupted: bool,
}

/// What an exploration state holds, as plain values.
pub struct StateView {
    pub explored: Set<u64>,
    pub bugs: Set<u64>,
    pub next_seed: u64,
    pub schedules_explored: u64,
}

impl View for ExplorationState {
    type V = StateView;

    open spec fn view(&self) -> StateView {
        StateView {
            explored: self.explored_seeds@,
            bugs: self.bug_seeds@,
            next_seed: self.next_seed,
            schedules_explored: self.schedules_explored,
        }
    }
}

/// The state of a fresh exploration from `start_seed`.
pub open spec fn fresh_state(start_seed: u64) -> StateView {
    StateView { explored: Set::empty(), bugs: Set::empty(), next_seed: start_seed, schedules_explored: 0 }
}

impl ExplorationState {
    /// A fresh exploration from `start_seed`: nothing explored, no bugs.
    pub fn new(start_seed: u64) -> (r: Self)
        ensures
            r@ == fresh_state(start_seed),
    {
        ExplorationState {
            explored_seeds: HashSet::new(),
            bug_seeds: HashSet::new(),
            next_seed: start_seed,
            schedules_explored: 0,
        }
    }
}

/// A parsed number, or zero when the text is not one.
pub open spec fn or_zero(p: Option<u64>) -> u64 {
    match p {
        Some(n) => n,
        None => 0,
    }
}

/// `s` with the seeds of `pieces` that parse as numbers added.
pub open spec fn add_seeds(s: Set<u64>, pieces: Seq<Seq<char>>) -> Set<u64>
    decreases pieces.len(),
{
    if pieces.len() == 0 {
        s
    } else {
        let before = add_seeds(s, pieces.drop_last());
        match parsed_u64(pieces.last()) {
            Some(n) => before.insert(n),
            None => before,
        }
    }
}

/// The state after reading one checkpoint line `key=value`; other lines,
/// and unknown keys, change nothing.
pub open spec fn apply_line(st: StateView, line: Seq<char>) -> StateView {
    let parts = split_on(line, '=');
    if parts.len() != 2 {
        st
    } else if parts[0] == "next_seed"@ {
        StateView { next_seed: or_zero(parsed_u64(parts[1])), ..st }
    } else if parts[0] == "schedules_explored"@ {
        StateView { schedules_explored: or_zero(parsed_u64(parts[1])), ..st }
    } else if parts[0] == "explored"@ {
        StateView { explored: add_seeds(st.explored, split_on(parts[1], ',')), ..st }
    } else if parts[0] == "bugs"@ {
        StateView { bugs: add_seeds(st.bugs, split_on(parts[1], ',')), ..st }
    } else {
        st
    }
}

/// The state after reading checkpoint lines in order.
pub open spec fn apply_lines(st: StateView, lines: Seq<Seq<char>>) -> StateView
    decreases lines.len(),
{
    if lines.len() == 0 {
        st
    } else {
        apply_line(apply_lines(st, lines.drop_last()), lines.last())
    }
}

/// The state a checkpoint text describes, read over a fresh state from 0.
pub open spec fn parsed_state(text: Seq<char>) -> StateView {
    apply_lines(fresh_state(0), text_lines(text))
}

/// Adds to `set` the seeds of `pieces` that parse as numbers.
fn insert_seeds(set: &mut HashSet<u64>, pieces: &Vec<Vec<char>>)
    ensures
        final(set)@ == add_seeds(old(set)@, vecs_view(pieces@)),
{
    let ghost start = set@;
    let ghost ps = vecs_view(pieces@);
    let mut i: usize = 0;
    proof {
        assert(ps.take(0) =~= Seq::<Seq<char>>::empty());
    }
    while i < pieces.len()
        invariant
            ps == vecs_view(pieces@),
            i <= pieces@.len(),
            set@ == add_seeds(start, ps.take(i as int)),
        decreases pieces@.len() - i,
    {
        proof {
            let q = ps.take(i as int + 1);
            assert(q.drop_last() =~= ps.take(i as int));
            assert(q.last() == pieces@[i as int]@);
        }
        match parse_u64(pieces[i].as_slice()) {
            Some(n) => {
                set.insert(n);
            },
            None => {},
        }
        i = i + 1;
    }
    proof {
        assert(ps.take(pieces@.len() as int) =~= ps);
    }
}

impl ExplorationState {
    /// Reads one checkpoint line.
    fn read_line(&mut self, line: &Vec<char>)
        ensures
            final(self)@ == apply_line(old(self)@, line@),
    {
        let parts = split_chars(line.as_slice(), '=');
        if parts.len() != 2 {
            return;
        }
        let key = parts[0].as_slice();
        let value = parts[1].as_slice();
        proof {
            assert(vecs_view(parts@)[0] == parts@[0]@);
            assert(vecs_view(parts@)[1] == parts@[1]@);
        }
        if chars_eq(key, chars_of("next_seed").as_slice()) {
            self.next_seed = match parse_u64(value) {
                Some(n) => n,
                None => 0,
            };
        } else if chars_eq(key, chars_of("schedules_explored").as_slice()) {
            self.schedules_explored = match parse_u64(value) {
                Some(n) => n,
                None => 0,
            };
        } else if chars_eq(key, chars_of("explored").as_slice()) {
            let seeds = split_chars(value, ',');
            insert_seeds(&mut self.explored_seeds, &seeds);
        } else if chars_eq(key, chars_of("bugs").as_slice()) {
            let seeds = split_chars(value, ',');
            insert_seeds(&mut self.bug_seeds, &seeds);
        }
    }

    /// Reads a checkpoint text: lines `key=value` for the keys
    /// `next_seed`, `schedules_explored`, `explored` and `bugs` (the last
    /// two list seeds separated by commas); other lines and pieces that are
    /// not numbers are passed over, and a number that does not parse reads
    /// as zero.
    pub fn parse(text: &str) -> (r: Self)
        ensures
            r@ == parsed_state(text@),
    {
        let chars = chars_of(text);
        let lines = lines_of(chars.as_slice());
        let ghost ls = vecs_view(lines@);
        let mut state = ExplorationState::new(0);
        let mut i: usize = 0;
        proof {
            assert(ls.take(0) =~= Seq::<Seq<char>>::empty());
        }
        while i < lines.len()
            invariant
                ls == vecs_view(lines@),
                ls == text_lines(text@),
                i <= lines@.len(),
                state@ == apply_lines(fresh_state(0), ls.take(i as int)),
            decreases lines@.len() - i,
        {
            proof {
                let q = ls.take(i as int + 1);
                assert(q.drop_last() =~= ls.take(i as int));
                assert(q.last() == lines@[i as int]@);
            }
            state.read_line(&lines[i]);
            i = i + 1;
        }
        proof {
            assert(ls.take(lines@.len() as int) =~= ls);
        }
        state
    }
}

/// The seeds of a set, each once, in the order the set is walked.
fn seeds_of(set: &HashSet<u64>) -> (r: Vec<u64>)
    ensures
        r@.to_set() == set@,
        r@.no_duplicates(),
{
    let ghost walk = spec_hash_keys_iter(set).remaining();
    let mut out: Vec<u64> = Vec::new();
    for x in it: set.iter()
        invariant
            it.seq() == walk,
            out@ == it.seq().take(it.index()).map_values(|p: &u64| *p),
    {
        proof {
            assert(it.seq().take(it.index() + 1) =~= it.seq().take(it.index()).push(x));
        }
        out.push(*x);
        proof {
            assert(out@ =~= it.seq().take(it.index() + 1).map_values(|p: &u64| *p));
        }
    }
    proof {
        assert(out@ =~= walk.map_values(|p: &u64| *p));
        assert(walk.unref() =~= walk.map_values(|p: &u64| *p));
    }
    out
}

/// How many explored seeds a checkpoint keeps at most.
pub const CHECKPOINT_SEEDS: usize = 10000;

/// Seeds in decimal, separated by commas.
pub open spec fn joined_seeds(s: Seq<u64>) -> Seq<char>
    decreases s.len(),
{
    if s.len() == 0 {
        Seq::empty()
    } else if s.len() == 1 {
        dec(s[0] as nat)
    } else {
        joined_seeds(s.drop_last()) + ","@ + dec(s.last() as nat)
    }
}

/// At most the first `n` items.
pub open spec fn first_n(s: Seq<u64>, n: nat) -> Seq<u64> {
    if s.len() <= n { s } else { s.take(n as int) }
}

/// The checkpoint text of a state whose sets are walked as `explored` and
/// `bugs`: one line per key, the explored seeds cut to the first
/// `CHECKPOINT_SEEDS`.
pub open spec fn checkpoint_text(next_seed: u64, schedules: u64, explored: Seq<u64>, bugs: Seq<u64>) -> Seq<char> {
    "next_seed="@ + dec(next_seed as nat) + "\n"@ + "schedules_explored="@ + dec(schedules as nat) + "\n"@
        + "explored="@ + joined_seeds(first_n(explored, CHECKPOINT_SEEDS as nat)) + "\n"@ + "bugs="@
        + joined_seeds(bugs) + "\n"@
}

/// Appends seeds in decimal, separated by commas.
fn push_seeds(out: &mut String, seeds: &[u64])
    ensures
        final(out)@ == old(out)@ + joined_seeds(seeds@),
{
    let mut i: usize = 0;
    while i < seeds.len()
        invariant
            i <= seeds@.len(),
            out@ == old(out)@ + joined_seeds(seeds@.take(i as int)),
        decreases seeds@.len() - i,
    {
        let ghost before = out@;
        if i > 0 {
            out.append(",");
        }
        push_dec(out, seeds[i]);
        proof {
            let t = seeds@.take(i as int + 1);
            assert(t.drop_last() =~= seeds@.take(i as int));
            assert(t.last() == seeds@[i as int]);
            if i == 0 {
                assert(seeds@.take(0) =~= Seq::<u64>::empty());
                assert(out@ =~= old(out)@ + joined_seeds(t));
            } else {
                assert(out@ =~= old(out)@ + joined_seeds(t));
            }
        }
        i = i + 1;
    }
    proof {
        assert(seeds@.take(seeds@.len() as int) =~= seeds@);
    }
}

/// The checkpoint text for the given values and walks of the two sets.
pub fn checkpoint_lines(next_seed: u64, schedules: u64, explored: &[u64], bugs: &[u64]) -> (r: String)
    ensures
        r@ == checkpoint_text(next_seed, schedules, explored@, bugs@),
{
    let mut s = String::from_str("next_seed=");
    push_dec(&mut s, next_seed);
    s.append("\n");
    s.append("schedules_explored=");
    push_dec(&mut s, schedules);
    s.append("\n");
    s.append("explored=");
    let kept = if explored.len() <= CHECKPOINT_SEEDS {
        explored
    } else {
        vstd::slice::slice_subrange(explored, 0, CHECKPOINT_SEEDS)
    };
    proof {
        assert(kept@ =~= first_n(explored@, CHECKPOINT_SEEDS as nat));
    }
    push_seeds(&mut s, kept);
    s.append("\n");
    s.append("bugs=");
    push_seeds(&mut s, bugs);
    s.append("\n");
    s
}

impl ExplorationState {
    /// The checkpoint text of the state. The sets are written in the order
    /// they are walked, which the hash set leaves open: each seed once.
    pub fn to_text(&self) -> (r: String)
        ensures
            exists|e: Seq<u64>, b: Seq<u64>|
                {
                    &&& e.to_set() == self.explored_seeds@
                    &&& e.no_duplicates()
                    &&& b.to_set() == self.bug_seeds@
                    &&& b.no_duplicates()
                    &&& r@ == checkpoint_text(self.next_seed, self.schedules_explored, e, b)
                },
    {
        let e = seeds_of(&self.explored_seeds);
        let b = seeds_of(&self.bug_seeds);
        let r = checkpoint_lines(self.next_seed, self.schedules_explored, e.as_slice(), b.as_slice());
        proof {
            assert(e@.to_set() == self.explored_seeds@);
        }
        r
    }
}

/// The seeds `start + i` for `i < count` that are not in `explored`, in
/// order.
pub open spec fn fresh_seeds(start: u64, count: nat, explored: Set<u64>) -> Seq<u64>
    decreases count,
{
    if count == 0 {
        Seq::empty()
    } else {
        let before = fresh_seeds(start, (count - 1) as nat, explored);
        let s = (start + count - 1) as u64;
        if explored.contains(s) {
            before
        } else {
            before.push(s)
        }
    }
}

/// How many seeds the first fill of the queue looks at: ten per worker, at
/// most `max_schedules`.
pub open spec fn first_fill(threads: nat, max_schedules: u64) -> nat {
    if threads * 10 < max_schedules { threads * 10 } else { max_schedules as nat }
}

impl ExplorationState {
    /// The seeds that first fill the work queue: ten per worker from
    /// `next_seed` on (at most `max_schedules`), leaving out explored ones;
    /// `next_seed` then moves ten per worker on.
    pub fn initial_seeds(&mut self, threads: usize, max_schedules: u64) -> (r: Vec<u64>)
        requires
            threads * 10 <= u64::MAX,
            old(self).next_seed + threads * 10 <= u64::MAX,
        ensures
            r@ == fresh_seeds(old(self).next_seed, first_fill(threads as nat, max_schedules), old(self).explored_seeds@),
            final(self).next_seed == old(self).next_seed + threads * 10,
            final(self).explored_seeds@ == old(self).explored_seeds@,
            final(self).bug_seeds@ == old(self).bug_seeds@,
            final(self).schedules_explored == old(self).schedules_explored,
    {
        let per: u64 = threads as u64 * 10;
        let count: u64 = if per < max_schedules { per } else { max_schedules };
        let mut out: Vec<u64> = Vec::new();
        let mut i: u64 = 0;
        while i < count
            invariant
                count == first_fill(threads as nat, max_schedules),
                count <= per,
                per == threads * 10,
                self.next_seed + per <= u64::MAX,
                i <= count,
                out@ == fresh_seeds(self.next_seed, i as nat, self.explored_seeds@),
            decreases count - i,
        {
            let seed = self.next_seed + i;
            if !self.explored_seeds.contains(&seed) {
                out.push(seed);
            }
            i = i + 1;
        }
        self.next_seed = self.next_seed + per;
        out
    }
}

/// How many seeds a refill hands out: up to `batch`, stopping before
/// `limit`.
pub open spec fn refill_count(next_seed: u64, limit: u64, batch: nat) -> nat {
    if next_seed >= limit {
        0
    } else if limit - next_seed < batch {
        (limit - next_seed) as nat
    } else {
        batch
    }
}

/// The refill of the work queue: when it holds fewer than two seeds per
/// worker, five seeds per worker from `next_seed` on, stopping before
/// `limit`. Returns the seeds and the next seed after them.
pub fn refill_seeds(next_seed: u64, limit: u64, queue_len: usize, threads: usize) -> (r: (Vec<u64>, u64))
    requires
        threads * 5 <= usize::MAX,
    ensures
        queue_len >= threads * 2 ==> r.0@.len() == 0 && r.1 == next_seed,
        queue_len < threads * 2 ==> {
            let k = refill_count(next_seed, limit, threads as nat * 5);
            &&& r.0@ == Seq::new(k, |i: int| (next_seed + i) as u64)
            &&& r.1 == next_seed + k
        },
{
    let mut out: Vec<u64> = Vec::new();
    let mut next = next_seed;
    if queue_len < threads * 2 {
        let batch = threads * 5;
        let mut j: usize = 0;
        while j < batch
            invariant
                batch == threads * 5,
                j <= batch,
                next == next_seed + refill_count(next_seed, limit, j as nat),
                out@ == Seq::new(refill_count(next_seed, limit, j as nat), |i: int| (next_seed + i) as u64),
            decreases batch - j,
        {
            if next < limit {
                out.push(next);
                next = next + 1;
                proof {
                    assert(out@ =~= Seq::new(refill_count(next_seed, limit, j as nat + 1), |i: int| (next_seed + i) as u64));
                }
            }
            j = j + 1;
        }
    }
    (out, next)
}

/// Whether a line tells what failed: it mentions an assertion or a panic.
pub open spec fn describes_failure(l: Seq<char>) -> bool {
    has_substring(l, "assertion"@) || has_substring(l, "panic"@)
}

/// Whether a line belongs to a failure's trace.
pub open spec fn is_trace_line(l: Seq<char>) -> bool {
    has_substring(l, "at "@) || has_substring(l, "thread"@) || has_substring(l, "error"@)
}

/// The last line that tells what failed, or `Test failed`.
pub open spec fn failure_description(lines: Seq<Seq<char>>) -> Seq<char>
    decreases lines.len(),
{
    if lines.len() == 0 {
        "Test failed"@
    } else if describes_failure(lines.last()) {
        lines.last()
    } else {
        failure_description(lines.drop_last())
    }
}

/// The lines that belong to a failure's trace, in order.
pub open spec fn trace_of(lines: Seq<Seq<char>>) -> Seq<Seq<char>>
    decreases lines.len(),
{
    if lines.len() == 0 {
        Seq::empty()
    } else if is_trace_line(lines.last()) {
        trace_of(lines.drop_last()).push(lines.last())
    } else {
        trace_of(lines.drop_last())
    }
}

/// What a bug holds, as plain values.
pub struct BugView {
    pub seed: u64,
    pub schedule_id: u64,
    pub description: Seq<char>,
    pub trace: Seq<Seq<char>>,
}

impl View for Bug {
    type V = BugView;

    open spec fn view(&self) -> BugView {
        BugView {
            seed: self.seed,
            schedule_id: self.schedule_id,
            description: self.description@,
            trace: strings_view(self.trace@),
        }
    }
}

/// The bug of a failed run with seed `seed`, from the lines of its output.
pub open spec fn bug_of(seed: u64, lines: Seq<Seq<char>>) -> BugView {
    BugView { seed: seed, schedule_id: seed, description: failure_description(lines), trace: trace_of(lines) }
}

/// Reads more output lines after `prefix`: the description and the trace
/// become those of all lines read so far.
fn read_output_lines(
    lines: &Vec<Vec<char>>,
    description: &mut String,
    trace: &mut Vec<String>,
    Ghost(prefix): Ghost<Seq<Seq<char>>>,
)
    requires
        old(description)@ == failure_description(prefix),
        strings_view(old(trace)@) == trace_of(prefix),
    ensures
        final(description)@ == failure_description(prefix + vecs_view(lines@)),
        strings_view(final(trace)@) == trace_of(prefix + vecs_view(lines@)),
{
    let ghost ls = vecs_view(lines@);
    let assertion = chars_of("assertion");
    let panic = chars_of("panic");
    let at = chars_of("at ");
    let thread = chars_of("thread");
    let error = chars_of("error");
    let mut i: usize = 0;
    proof {
        assert(prefix + ls.take(0) =~= prefix);
    }
    while i < lines.len()
        invariant
            ls == vecs_view(lines@),
            assertion@ == "assertion"@,
            panic@ == "panic"@,
            at@ == "at "@,
            thread@ == "thread"@,
            error@ == "error"@,
            i <= lines@.len(),
            description@ == failure_description(prefix + ls.take(i as int)),
            strings_view(trace@) == trace_of(prefix + ls.take(i as int)),
        decreases lines@.len() - i,
    {
        let line = &lines[i];
        proof {
            let q = prefix + ls.take(i as int + 1);
            assert(q.drop_last() =~= prefix + ls.take(i as int));
            assert(q.last() == line@);
        }
        if contains_text(line.as_slice(), assertion.as_slice()) || contains_text(line.as_slice(), panic.as_slice()) {
            *description = string_from_chars(line.as_slice());
        }
        if contains_text(line.as_slice(), at.as_slice()) || contains_text(line.as_slice(), thread.as_slice())
            || contains_text(line.as_slice(), error.as_slice()) {
            let ghost t0 = trace@;
            trace.push(string_from_chars(line.as_slice()));
            proof {
                assert(strings_view(trace@) =~= strings_view(t0).push(line@));
            }
        }
        i = i + 1;
    }
    proof {
        assert(ls.take(lines@.len() as int) =~= ls);
    }
}

/// The bug of a failed run, from the text of its error output and of its
/// standard output: the lines of the first, then of the second.
pub fn bug_from_text(seed: u64, stderr: &str, stdout: &str) -> (r: Bug)
    ensures
        r@ == bug_of(seed, text_lines(stderr@) + text_lines(stdout@)),
{
    let err_lines = lines_of(chars_of(stderr).as_slice());
    let out_lines = lines_of(chars_of(stdout).as_slice());
    let mut description = String::from_str("Test failed");
    let mut trace: Vec<String> = Vec::new();
    proof {
        assert(strings_view(trace@) =~= Seq::<Seq<char>>::empty());
    }
    read_output_lines(&err_lines, &mut description, &mut trace, Ghost(Seq::empty()));
    proof {
        assert(Seq::<Seq<char>>::empty() + vecs_view(err_lines@) =~= vecs_view(err_lines@));
    }
    read_output_lines(&out_lines, &mut description, &mut trace, Ghost(vecs_view(err_lines@)));
    Bug { seed: seed, schedule_id: seed, description: description, trace: trace }
}

/// What `String::from_utf8_lossy` returns for a byte list.
pub uninterp spec fn lossy_text(b: Seq<u8>) -> Seq<char>;

/// Calls `String::from_utf8_lossy`, which decodes UTF-8 and puts a
/// replacement character for each invalid sequence; the result is named
/// `lossy_text`.
#[verifier::external_body]
pub(crate) fn lossy(b: &[u8]) -> (r: String)
    ensures
        r@ == lossy_text(b@),
{
    String::from_utf8_lossy(b).into_owned()
}

/// The outcome of one schedule: nothing when the run succeeded, else the
/// bug its output describes.
pub fn schedule_outcome(seed: u64, success: bool, stderr: &[u8], stdout: &[u8]) -> (r: Option<Bug>)
    ensures
        success ==> r is None,
        !success ==> (r matches Some(b) && b@ == bug_of(
            seed,
            text_lines(lossy_text(stderr@)) + text_lines(lossy_text(stdout@)),
        )),
{
    if success {
        None
    } else {
        let err = lossy(stderr);
        let out = lossy(stdout);
        Some(bug_from_text(seed, err.as_str(), out.as_str()))
    }
}

/// Lines, each followed by a line feed.
pub open spec fn lines_text(lines: Seq<Seq<char>>) -> Seq<char>
    decreases lines.len(),
{
    if lines.len() == 0 {
        Seq::empty()
    } else {
        lines_text(lines.drop_last()) + lines.last() + "\n"@
    }
}

/// The trace block of a bug report, empty when there is no trace.
pub open spec fn trace_block(trace: Seq<Seq<char>>) -> Seq<char> {
    if trace.len() == 0 {
        Seq::empty()
    } else {
        "### Trace\n"@ + "```\n"@ + lines_text(trace) + "```\n"@
    }
}

/// The section of the bug numbered `number` in a report.
pub open spec fn bug_section(number: nat, bug: BugView, test_binary: Seq<char>) -> Seq<char> {
    "## Bug "@ + dec(number) + "\n"@ + "\n"@ + "- Seed: "@ + dec(bug.seed as nat) + "\n"@ + "- Description: "@
        + bug.description + "\n"@ + "- Replay: `chronos run "@ + test_binary + " --seed "@ + dec(bug.seed as nat)
        + "`\n"@ + "\n"@ + trace_block(bug.trace) + "\n"@
}

/// The sections of the bugs, numbered from 1.
pub open spec fn bug_sections(bugs: Seq<BugView>, test_binary: Seq<char>) -> Seq<char>
    decreases bugs.len(),
{
    if bugs.len() == 0 {
        Seq::empty()
    } else {
        bug_sections(bugs.drop_last(), test_binary) + bug_section(bugs.len(), bugs.last(), test_binary)
    }
}

/// The views of a list of bugs.
pub open spec fn bug_views(bugs: Seq<Bug>) -> Seq<BugView> {
    bugs.map_values(|b: Bug| b@)
}

/// A bug report: a title, the test, the number of bugs, then a section for
/// each bug with its seed, description, replay command and trace.
pub open spec fn report_text(test_binary: Seq<char>, bugs: Seq<BugView>) -> Seq<char> {
    "# Chronos Bug Report\n"@ + "\n"@ + "Test: "@ + test_binary + "\n"@ + "Bugs found: "@ + dec(bugs.len()) + "\n"@
        + "\n"@ + bug_sections(bugs, test_binary)
}

/// Appends the trace block of a bug.
fn push_trace(out: &mut String, trace: &Vec<String>)
    ensures
        final(out)@ == old(out)@ + trace_block(strings_view(trace@)),
{
    if trace.len() == 0 {
        proof {
            assert(old(out)@ + Seq::<char>::empty() =~= old(out)@);
        }
        return;
    }
    let ghost start = out@;
    let ghost ts = strings_view(trace@);
    out.append("### Trace\n");
    out.append("```\n");
    let ghost head = out@;
    let mut i: usize = 0;
    proof {
        assert(ts.take(0) =~= Seq::<Seq<char>>::empty());
        assert(head + lines_text(ts.take(0)) =~= head);
    }
    while i < trace.len()
        invariant
            ts == strings_view(trace@),
            i <= trace@.len(),
            out@ == head + lines_text(ts.take(i as int)),
        decreases trace@.len() - i,
    {
        out.append(trace[i].as_str());
        out.append("\n");
        proof {
            let q = ts.take(i as int + 1);
            assert(q.drop_last() =~= ts.take(i as int));
            assert(q.last() == trace@[i as int]@);
            assert(out@ =~= head + lines_text(q));
        }
        i = i + 1;
    }
    out.append("```\n");
    proof {
        assert(ts.take(trace@.len() as int) =~= ts);
        assert(out@ =~= start + trace_block(ts));
    }
}

/// Appends the section of bug `b`, numbered `number`.
fn push_bug_section(s: &mut String, number: u64, b: &Bug, test_binary: &str)
    ensures
        final(s)@ == old(s)@ + bug_section(number as nat, b@, test_binary@),
{
    s.append("## Bug ");
    push_dec(s, number);
    s.append("\n");
    s.append("\n");
    s.append("- Seed: ");
    push_dec(s, b.seed);
    s.append("\n");
    s.append("- Description: ");
    s.append(b.description.as_str());
    s.append("\n");
    s.append("- Replay: `chronos run ");
    s.append(test_binary);
    s.append(" --seed ");
    push_dec(s, b.seed);
    s.append("`\n");
    s.append("\n");
    push_trace(s, &b.trace);
    s.append("\n");
    proof {
        assert(s@ =~= old(s)@ + bug_section(number as nat, b@, test_binary@));
    }
}

/// The bug report of an exploration of `test_binary`.
pub fn bug_report_text(test_binary: &str, bugs: &[Bug]) -> (r: String)
    ensures
        r@ == report_text(test_binary@, bug_views(bugs@)),
{
    let ghost bs = bug_views(bugs@);
    let mut s = String::from_str("# Chronos Bug Report\n");
    s.append("\n");
    s.append("Test: ");
    s.append(test_binary);
    s.append("\n");
    s.append("Bugs found: ");
    push_dec(&mut s, bugs.len() as u64);
    s.append("\n");
    s.append("\n");
    let ghost head = s@;
    let mut i: usize = 0;
    proof {
        assert(bs.take(0) =~= Seq::<BugView>::empty());
        assert(head + bug_sections(bs.take(0), test_binary@) =~= head);
    }
    while i < bugs.len()
        invariant
            bs == bug_views(bugs@),
            i <= bugs@.len(),
            s@ == head + bug_sections(bs.take(i as int), test_binary@),
        decreases bugs@.len() - i,
    {
        let b = &bugs[i];
        let ghost before = s@;
        push_bug_section(&mut s, i as u64 + 1, b, test_binary);
        proof {
            let q = bs.take(i as int + 1);
            assert(q.drop_last() =~= bs.take(i as int));
            assert(q.last() == b@);
            assert(s@ =~= before + bug_section((i + 1) as nat, b@, test_binary@));
            assert(s@ =~= head + bug_sections(q, test_binary@));
        }
        i = i + 1;
    }
    proof {
        assert(bs.take(bugs@.len() as int) =~= bs);
        assert(s@ =~= report_text(test_binary@, bs));
    }
    s
}

/// Seeds joined by commas hold only digits and commas.
proof fn lemma_joined_chars(s: Seq<u64>)
    ensures
        forall|i: int| 0 <= i < joined_seeds(s).len() ==> is_digit(#[trigger] joined_seeds(s)[i]) || joined_seeds(s)[i] == ',',
    decreases s.len(),
{
    if s.len() == 1 {
        lemma_dec_digits(s[0] as nat);
    } else if s.len() > 1 {
        lemma_joined_chars(s.drop_last());
        lemma_dec_digits(s.last() as nat);
        reveal_strlit(",");
        let j = joined_seeds(s.drop_last());
        let d = dec(s.last() as nat);
        let t = joined_seeds(s);
        assert(t == j + ","@ + d);
        assert forall|i: int| 0 <= i < t.len() implies is_digit(#[trigger] t[i]) || t[i] == ',' by {
            if i < j.len() {
                assert(t[i] == j[i]);
            } else if i == j.len() {
                assert(t[i] == ',');
            } else {
                assert(t[i] == d[i - j.len() - 1]);
            }
        }
    }
}

/// Text of digits and commas holds no character that is neither.
proof fn lemma_joined_lacks(s: Seq<u64>, c: char)
    requires
        !is_digit(c),
        c != ',',
    ensures
        !joined_seeds(s).contains(c),
{
    lemma_joined_chars(s);
    if joined_seeds(s).contains(c) {
        let i = choose|i: int| 0 <= i < joined_seeds(s).len() && joined_seeds(s)[i] == c;
        assert(is_digit(joined_seeds(s)[i]) || joined_seeds(s)[i] == ',');
    }
}

/// The decimal texts of seeds.
pub open spec fn dec_seeds(s: Seq<u64>) -> Seq<Seq<char>> {
    s.map_values(|x: u64| dec(x as nat))
}

/// Splitting seeds joined by commas gives the seeds' decimal texts.
proof fn lemma_split_joined(s: Seq<u64>)
    requires
        s.len() > 0,
    ensures
        split_fold(joined_seeds(s), ',') == (dec_seeds(s.drop_last()), dec(s.last() as nat)),
    decreases s.len(),
{
    let d = dec(s.last() as nat);
    lemma_dec_digits(s.last() as nat);
    lemma_digits_lack(d, ',');
    if s.len() == 1 {
        lemma_split_plain(Seq::empty(), d, ',');
        assert(Seq::<char>::empty() + d =~= d);
        assert(dec_seeds(s.drop_last()) =~= Seq::<Seq<char>>::empty());
        assert(s.last() == s[0]);
    } else {
        let p = s.drop_last();
        lemma_split_joined(p);
        let j = joined_seeds(p);
        reveal_strlit(",");
        assert(","@ =~= seq![',']);
        lemma_split_sep(j, ',');
        lemma_split_plain(j + seq![','], d, ',');
        assert(joined_seeds(s) == j + ","@ + d);
        assert(Seq::<char>::empty() + d =~= d);
        assert(dec_seeds(p.drop_last()).push(dec(p.last() as nat)) =~= dec_seeds(p));
    }
}

/// Adding the seeds read from decimal texts adds the seeds.
proof fn lemma_add_dec_seeds(st: Set<u64>, s: Seq<u64>)
    ensures
        add_seeds(st, dec_seeds(s)) == st.union(s.to_set()),
    decreases s.len(),
{
    if s.len() == 0 {
        assert(dec_seeds(s) =~= Seq::<Seq<char>>::empty());
        assert(st.union(s.to_set()) =~= st);
    } else {
        let p = s.drop_last();
        lemma_add_dec_seeds(st, p);
        assert(dec_seeds(s).drop_last() =~= dec_seeds(p));
        assert(dec_seeds(s).last() == dec(s.last() as nat));
        lemma_parse_dec(s.last());
        assert(st.union(s.to_set()) =~= st.union(p.to_set()).insert(s.last())) by {
            assert forall|x: u64| s.contains(x) <==> p.contains(x) || x == s.last() by {
                if s.contains(x) {
                    let i = choose|i: int| 0 <= i < s.len() && s[i] == x;
                    if i < s.len() - 1 {
                        assert(p[i] == x);
                    }
                }
                if p.contains(x) {
                    let i = choose|i: int| 0 <= i < p.len() && p[i] == x;
                    assert(s[i] == x);
                }
                assert(s[s.len() - 1] == s.last());
            }
        }
    }
}

/// Reading back seeds written joined by commas gives the set of the seeds.
proof fn lemma_read_seeds(s: Seq<u64>)
    ensures
        add_seeds(Set::empty(), split_on(joined_seeds(s), ',')) == s.to_set(),
{
    if s.len() == 0 {
        let pieces = seq![Seq::<char>::empty()];
        assert(split_on(joined_seeds(s), ',') =~= pieces);
        assert(pieces.drop_last() =~= Seq::<Seq<char>>::empty());
        assert(pieces.last() == Seq::<char>::empty());
        assert(unsigned_part(Seq::<char>::empty()).len() == 0);
        assert(parsed_u64(pieces.last()) is None);
        assert(add_seeds(Set::empty(), pieces) == add_seeds(Set::empty(), pieces.drop_last()));
        assert(s.to_set() =~= Set::<u64>::empty());
    } else {
        lemma_split_joined(s);
        assert(split_on(joined_seeds(s), ',') =~= dec_seeds(s));
        lemma_add_dec_seeds(Set::empty(), s);
        assert(Set::<u64>::empty().union(s.to_set()) =~= s.to_set());
    }
}

/// A line `key=value`, where neither holds `=`, splits into the key and
/// the value.
proof fn lemma_key_line(key: Seq<char>, keq: Seq<char>, value: Seq<char>)
    requires
        keq == key + seq!['='],
        !key.contains('='),
        !value.contains('='),
    ensures
        split_on(keq + value, '=') == seq![key, value],
{
    lemma_split_plain(Seq::empty(), key, '=');
    assert(Seq::<char>::empty() + key =~= key);
    lemma_split_sep(key, '=');
    lemma_split_plain(keq, value, '=');
    assert(Seq::<char>::empty() + value =~= value);
    assert(seq![Seq::<char>::empty() + key] =~= seq![key]);
}

/// A line ending in a digit, a comma or `=` keeps its last character.
proof fn lemma_no_cr(key: Seq<char>, value: Seq<char>)
    requires
        key.len() > 0,
        key.last() == '=',
        forall|i: int| 0 <= i < value.len() ==> is_digit(#[trigger] value[i]) || value[i] == ',',
    ensures
        strip_cr(key + value) == key + value,
{
    let l = key + value;
    if value.len() > 0 {
        assert(l.last() == value[value.len() - 1]);
    } else {
        assert(l.last() == key.last());
    }
}

/// Reading a checkpoint text gives back what was written: the two numbers,
/// the set of the bug seeds, and the set of the explored seeds the text
/// keeps (the first `CHECKPOINT_SEEDS` of them).
pub proof fn law_checkpoint_round_trip(next_seed: u64, schedules: u64, explored: Seq<u64>, bugs: Seq<u64>)
    ensures
        parsed_state(checkpoint_text(next_seed, schedules, explored, bugs)) == (StateView {
            explored: first_n(explored, CHECKPOINT_SEEDS as nat).to_set(),
            bugs: bugs.to_set(),
            next_seed: next_seed,
            schedules_explored: schedules,
        }),
{
    reveal_strlit("next_seed=");
    reveal_strlit("next_seed");
    reveal_strlit("schedules_explored=");
    reveal_strlit("schedules_explored");
    reveal_strlit("explored=");
    reveal_strlit("explored");
    reveal_strlit("bugs=");
    reveal_strlit("bugs");
    reveal_strlit("\n");
    let nl = "\n"@;
    assert(nl =~= seq!['\n']);
    let e = first_n(explored, CHECKPOINT_SEEDS as nat);
    let d1 = dec(next_seed as nat);
    let d2 = dec(schedules as nat);
    let j3 = joined_seeds(e);
    let j4 = joined_seeds(bugs);
    let l1 = "next_seed="@ + d1;
    let l2 = "schedules_explored="@ + d2;
    let l3 = "explored="@ + j3;
    let l4 = "bugs="@ + j4;
    lemma_dec_digits(next_seed as nat);
    lemma_dec_digits(schedules as nat);
    lemma_joined_chars(e);
    lemma_joined_chars(bugs);
    assert forall|i: int| 0 <= i < d1.len() implies is_digit(#[trigger] d1[i]) || d1[i] == ',' by {}
    assert forall|i: int| 0 <= i < d2.len() implies is_digit(#[trigger] d2[i]) || d2[i] == ',' by {}
    // the lines
    let text = checkpoint_text(next_seed, schedules, explored, bugs);
    let b1 = l1 + nl;
    let a2 = b1 + l2;
    let b2 = a2 + nl;
    let a3 = b2 + l3;
    let b3 = a3 + nl;
    let a4 = b3 + l4;
    let b4 = a4 + nl;
    assert(text =~= b4);
    lemma_digits_lack(d1, '\n');
    lemma_digits_lack(d2, '\n');
    lemma_joined_lacks(e, '\n');
    lemma_joined_lacks(bugs, '\n');
    assert(!l1.contains('\n')) by {
        if l1.contains('\n') {
            let i = choose|i: int| 0 <= i < l1.len() && l1[i] == '\n';
            if i >= 10 {
                assert(d1[i - 10] == '\n');
            }
        }
    }
    assert(!l2.contains('\n')) by {
        if l2.contains('\n') {
            let i = choose|i: int| 0 <= i < l2.len() && l2[i] == '\n';
            if i >= 19 {
                assert(d2[i - 19] == '\n');
            }
        }
    }
    assert(!l3.contains('\n')) by {
        if l3.contains('\n') {
            let i = choose|i: int| 0 <= i < l3.len() && l3[i] == '\n';
            if i >= 9 {
                assert(j3[i - 9] == '\n');
            }
        }
    }
    assert(!l4.contains('\n')) by {
        if l4.contains('\n') {
            let i = choose|i: int| 0 <= i < l4.len() && l4[i] == '\n';
            if i >= 5 {
                assert(j4[i - 5] == '\n');
            }
        }
    }
    lemma_split_plain(Seq::empty(), l1, '\n');
    assert(Seq::<char>::empty() + l1 =~= l1);
    assert(Seq::<char>::empty() + l2 =~= l2);
    assert(Seq::<char>::empty() + l3 =~= l3);
    assert(Seq::<char>::empty() + l4 =~= l4);
    lemma_split_sep(l1, '\n');
    lemma_split_plain(b1, l2, '\n');
    lemma_split_sep(a2, '\n');
    lemma_split_plain(b2, l3, '\n');
    lemma_split_sep(a3, '\n');
    lemma_split_plain(b3, l4, '\n');
    lemma_split_sep(a4, '\n');
    assert(split_fold(text, '\n').0 =~= seq![l1, l2, l3, l4]);
    assert(split_fold(text, '\n').1.len() == 0);
    lemma_no_cr("next_seed="@, d1);
    lemma_no_cr("schedules_explored="@, d2);
    lemma_no_cr("explored="@, j3);
    lemma_no_cr("bugs="@, j4);
    let ls = seq![l1, l2, l3, l4];
    assert(text_lines(text) =~= ls);
    // each line
    lemma_digits_lack(d1, '=');
    lemma_digits_lack(d2, '=');
    lemma_joined_lacks(e, '=');
    lemma_joined_lacks(bugs, '=');
    assert("next_seed="@ =~= "next_seed"@ + seq!['=']);
    assert("schedules_explored="@ =~= "schedules_explored"@ + seq!['=']);
    assert("explored="@ =~= "explored"@ + seq!['=']);
    assert("bugs="@ =~= "bugs"@ + seq!['=']);
    lemma_key_line("next_seed"@, "next_seed="@, d1);
    lemma_key_line("schedules_explored"@, "schedules_explored="@, d2);
    lemma_key_line("explored"@, "explored="@, j3);
    lemma_key_line("bugs"@, "bugs="@, j4);
    lemma_parse_dec(next_seed);
    lemma_parse_dec(schedules);
    lemma_read_seeds(e);
    lemma_read_seeds(bugs);
    let s0 = fresh_state(0);
    let s1 = apply_line(s0, l1);
    let s2 = apply_line(s1, l2);
    let s3 = apply_line(s2, l3);
    let s4 = apply_line(s3, l4);
    assert(s3.explored =~= Set::<u64>::empty().union(e.to_set()));
    assert(Set::<u64>::empty().union(e.to_set()) =~= e.to_set());
    assert(ls.drop_last() =~= seq![l1, l2, l3]);
    assert(seq![l1, l2, l3].drop_last() =~= seq![l1, l2]);
    assert(seq![l1, l2].drop_last() =~= seq![l1]);
    assert(seq![l1].drop_last() =~= Seq::<Seq<char>>::empty());
    assert(apply_lines(s0, Seq::<Seq<char>>::empty()) == s0);
    assert(seq![l1].last() == l1);
    assert(seq![l1, l2].last() == l2);
    assert(seq![l1, l2, l3].last() == l3);
    assert(ls.last() == l4);
    assert(apply_lines(s0, seq![l1]) == s1);
    assert(apply_lines(s0, seq![l1, l2]) == s2);
    assert(apply_lines(s0, seq![l1, l2, l3]) == s3);
    assert(apply_lines(s0, ls) == s4);
}

/// A state saved as text and read back is the same state, when it has
/// explored at most `CHECKPOINT_SEEDS` seeds: `e` and `b` are the walks of
/// its two sets that the text was written in.
pub proof fn law_saved_state_reads_back(st: StateView, e: Seq<u64>, b: Seq<u64>)
    requires
        e.to_set() == st.explored,
        e.len() <= CHECKPOINT_SEEDS,
        b.to_set() == st.bugs,
    ensures
        parsed_state(checkpoint_text(st.next_seed, st.schedules_explored, e, b)) == st,
{
    law_checkpoint_round_trip(st.next_seed, st.schedules_explored, e, b);
}

} // verus!
