//! Run command options and results.
use std::path::PathBuf;
use std::time::Duration;
use vstd::prelude::*;
use vstd::std_specs::convert::FromSpecImpl;
use crate::cli::explore::{lossy, lossy_text};
use crate::cli::output::TraceEntry;
use crate::util::fmt::{dec, push_dec};
use crate::util::split::{lines_of, lines_with_any, push_lines_with_any, string_from_chars, strings_view, text_lines, vecs_view};
use crate::util::text::chars_of;
use crate::recording::format::{since_unix_epoch, stamp, stamp_of, wall_clock_now};
use crate::scheduler::strategy::Strategy;
use crate::time::duration::{duration_as_nanos, duration_from_secs, nanos_of};

verus! {

/// A path of the file system.
#[verifier::external_type_specification]
#[verifier::external_body]
pub struct ExPathBuf(PathBuf);

/// Calls `PathBuf::clone`, which std documents as a copy of the path: the
/// copy is the same path.
#[verifier::external_body]
fn copy_path(p: &PathBuf) -> (r: PathBuf)
    ensures
        r == *p,
{
    p.clone()
}

/// Scheduling strategy options.
#[derive(Debug, Clone, Copy, PartialEq, Eq, Structural)]
pub enum StrategyArg {
    /// First-in-first-out scheduling.
    Fifo,
    /// Random scheduling with seed.
    Random,
    /// Probabilistic Concurrency Testing.
    Pct,
    /// Depth-first search.
    Dfs,
    /// Context-bounded scheduling.
    ContextBound,
}

impl Default for StrategyArg {
    /// Random scheduling.
    fn default() -> (r: Self)
        ensures
            r == StrategyArg::Random,
    {
        StrategyArg::Random
    }
}

/// The strategy an option stands for, with the given seed and the default
/// parameters (bug depth 3, depth 100, 3 preemptions).
pub open spec fn default_strategy(arg: StrategyArg, seed: u64) -> Strategy {
    match arg {
        StrategyArg::Fifo => Strategy::Fifo,
        StrategyArg::Random => Strategy::Random { seed },
        StrategyArg::Pct => Strategy::PCT { seed, bug_depth: 3 },
        StrategyArg::Dfs => Strategy::DepthFirst { max_depth: 100 },
        StrategyArg::ContextBound => Strategy::ContextBound { max_preemptions: 3, seed },
    }
}

/// The name of a strategy option.
pub open spec fn arg_name(arg: StrategyArg) -> Seq<char> {
    match arg {
        StrategyArg::Fifo => "FIFO"@,
        StrategyArg::Random => "Random"@,
        StrategyArg::Pct => "PCT"@,
        StrategyArg::Dfs => "DFS"@,
        StrategyArg::ContextBound => "ContextBound"@,
    }
}

impl StrategyArg {
    /// Convert to a Strategy with the given seed.
    pub fn to_strategy(self, seed: u64) -> (r: Strategy)
        ensures
            r == default_strategy(self, seed),
    {
        match self {
            StrategyArg::Fifo => Strategy::Fifo,
            StrategyArg::Random => Strategy::Random { seed },
            StrategyArg::Pct => Strategy::PCT { seed, bug_depth: 3 },
            StrategyArg::Dfs => Strategy::DepthFirst { max_depth: 100 },
            StrategyArg::ContextBound => Strategy::ContextBound { max_preemptions: 3, seed },
        }
    }

    /// Get the name of the strategy.
    pub fn name(&self) -> (r: &'static str)
        ensures
            r@ == arg_name(*self),
    {
        match self {
            StrategyArg::Fifo => "FIFO",
            StrategyArg::Random => "Random",
            StrategyArg::Pct => "PCT",
            StrategyArg::Dfs => "DFS",
            StrategyArg::ContextBound => "ContextBound",
        }
    }
}

/// Arguments for the run command.
#[derive(Debug)]
pub struct RunArgs {
    /// Test binary or test name to run.
    pub test_binary: String,
    /// Random seed for reproducibility.
    pub seed: Option<u64>,
    /// Scheduling strategy.
    pub strategy: StrategyArg,
    /// Number of iterations.
    pub iterations: u32,
    /// Max simulated time (seconds) before timeout.
    pub timeout: Option<u64>,
    /// Record execution to file.
    pub record: Option<PathBuf>,
    /// Replay from recorded file.
    pub replay: Option<PathBuf>,
    /// Show scheduling decisions.
    pub verbose: bool,
    /// PCT bug depth parameter.
    pub pct_depth: usize,
    /// Max preemptions for context-bound.
    pub max_preemptions: usize,
    /// DFS max depth.
    pub dfs_depth: usize,
    /// Run as cargo test (prepends "cargo test --").
    pub cargo: bool,
    /// Additional arguments to pass to the test binary.
    pub args: Vec<String>,
}

/// The strategy the run options stand for, with the given seed.
pub open spec fn chosen_strategy(args: RunArgs, seed: u64) -> Strategy {
    match args.strategy {
        StrategyArg::Fifo => Strategy::Fifo,
        StrategyArg::Random => Strategy::Random { seed },
        StrategyArg::Pct => Strategy::PCT { seed, bug_depth: args.pct_depth },
        StrategyArg::Dfs => Strategy::DepthFirst { max_depth: args.dfs_depth },
        StrategyArg::ContextBound => Strategy::ContextBound { max_preemptions: args.max_preemptions, seed },
    }
}

/// The seed a run without one takes from the time since the epoch: the
/// low 64 bits of its nanoseconds, or 42 where the clock stands before the
/// epoch.
pub fn clock_seed(since: Option<Duration>) -> (r: u64)
    ensures
        r == stamp_of(since, 42),
{
    stamp(since, 42)
}

impl RunArgs {
    /// The seed to run with: the one given, else one taken from the wall
    /// clock (nanoseconds since the epoch, low 64 bits), else 42.
    pub fn effective_seed(&self) -> (r: u64)
        ensures
            self.seed matches Some(s) ==> r == s,
            self.seed is None ==> exists|since: Option<Duration>| r == stamp_of(since, 42),
    {
        match self.seed {
            Some(s) => s,
            None => {
                let now = wall_clock_now();
                let since = since_unix_epoch(&now);
                let r = clock_seed(since);
                proof {
                    assert(r == stamp_of(since, 42));
                }
                r
            },
        }
    }

    /// Get the strategy with custom parameters.
    pub fn to_strategy(&self, seed: u64) -> (r: Strategy)
        ensures
            r == chosen_strategy(*self, seed),
    {
        match self.strategy {
            StrategyArg::Fifo => Strategy::Fifo,
            StrategyArg::Random => Strategy::Random { seed },
            StrategyArg::Pct => Strategy::PCT { seed, bug_depth: self.pct_depth },
            StrategyArg::Dfs => Strategy::DepthFirst { max_depth: self.dfs_depth },
            StrategyArg::ContextBound => Strategy::ContextBound { max_preemptions: self.max_preemptions, seed },
        }
    }
}

/// Configuration for a simulation run.
#[derive(Debug)]
pub struct RunConfig {
    pub test_binary: String,
    pub seed: u64,
    pub strategy: Strategy,
    pub strategy_name: String,
    pub iterations: u32,
    pub timeout: Duration,
    pub record_path: Option<PathBuf>,
    pub replay_path: Option<PathBuf>,
    pub verbose: bool,
    pub cargo: bool,
    pub extra_args: Vec<String>,
}

/// Copies an optional path.
fn copy_opt_path(p: &Option<PathBuf>) -> (r: Option<PathBuf>)
    ensures
        r == *p,
{
    match p {
        Some(path) => Some(copy_path(path)),
        None => None,
    }
}

/// Copies a list of strings.
fn copy_strings(v: &Vec<String>) -> (r: Vec<String>)
    ensures
        r@.len() == v@.len(),
        forall|i: int| 0 <= i < v@.len() ==> #[trigger] r@[i]@ == v@[i]@,
{
    let mut out: Vec<String> = Vec::new();
    let mut i: usize = 0;
    while i < v.len()
        invariant
            i <= v@.len(),
            out@.len() == i,
            forall|j: int| 0 <= j < i ==> #[trigger] out@[j]@ == v@[j]@,
        decreases v@.len() - i,
    {
        out.push(v[i].clone());
        i = i + 1;
    }
    out
}

impl RunConfig {
    /// The run configuration for command-line options: the effective seed,
    /// the strategy chosen with it, and a 60 s timeout unless one is given.
    pub fn from_args(args: &RunArgs) -> (r: Self)
        ensures
            r.test_binary@ == args.test_binary@,
            args.seed matches Some(s) ==> r.seed == s,
            r.strategy == chosen_strategy(*args, r.seed),
            r.strategy_name@ == arg_name(args.strategy),
            r.iterations == args.iterations,
            nanos_of(r.timeout) == (match args.timeout {
                Some(t) => t,
                None => 60u64,
            }) as u128 * 1_000_000_000,
            r.record_path == args.record,
            r.replay_path == args.replay,
            r.verbose == args.verbose,
            r.cargo == args.cargo,
            r.extra_args@.len() == args.args@.len(),
            forall|i: int| 0 <= i < args.args@.len() ==> #[trigger] r.extra_args@[i]@ == args.args@[i]@,
    {
        let seed = args.effective_seed();
        let secs: u64 = match args.timeout {
            Some(t) => t,
            None => 60,
        };
        RunConfig {
            seed,
            test_binary: args.test_binary.clone(),
            strategy: args.to_strategy(seed),
            strategy_name: String::from_str(args.strategy.name()),
            iterations: args.iterations,
            timeout: duration_from_secs(secs),
            record_path: copy_opt_path(&args.record),
            replay_path: copy_opt_path(&args.replay),
            verbose: args.verbose,
            cargo: args.cargo,
            extra_args: copy_strings(&args.args),
        }
    }
}

impl<'a> From<&'a RunArgs> for RunConfig {
    fn from(args: &'a RunArgs) -> (r: Self) {
        RunConfig::from_args(args)
    }
}

impl<'a> FromSpecImpl<&'a RunArgs> for RunConfig {
    /// The seed may come from the wall clock, so the conversion is no
    /// function of the options.
    open spec fn obeys_from_spec() -> bool {
        false
    }

    open spec fn from_spec(v: &'a RunArgs) -> Self {
        arbitrary()
    }
}

/// Result of a simulation run.
#[derive(Debug)]
pub struct RunResult {
    pub iterations_run: u32,
    pub bugs_found: u32,
    pub seed_used: u64,
    pub schedules_explored: u32,
    pub simulated_time: Duration,
    pub real_time: Duration,
    pub failure_trace: Option<Vec<TraceEntry>>,
    pub failure_reason: Option<String>,
    pub exit_code: i32,
}

/// An integer in decimal, with a minus sign when negative.
pub open spec fn signed_dec(n: int) -> Seq<char> {
    if n < 0 {
        "-"@ + dec((-n) as nat)
    } else {
        dec(n as nat)
    }
}

/// Appends an exit code in decimal.
fn push_code(out: &mut String, code: i32)
    ensures
        final(out)@ == old(out)@ + signed_dec(code as int),
{
    if code < 0 {
        out.append("-");
        let magnitude: i64 = -(code as i64);
        push_dec(out, magnitude as u64);
    } else {
        push_dec(out, code as u64);
    }
}

/// The seed of iteration `iteration` of a run from `seed`.
pub fn iteration_seed(seed: u64, iteration: u32) -> (r: u64)
    ensures
        r == (if seed + iteration > u64::MAX { seed + iteration - 0x1_0000_0000_0000_0000 } else { seed + iteration }),
{
    seed.wrapping_add(iteration as u64)
}

/// The reason a run of a test binary failed.
pub fn exit_failure_reason(exit_code: i32) -> (r: String)
    ensures
        r@ == "Test failed with exit code "@ + signed_dec(exit_code as int),
{
    let mut s = String::from_str("Test failed with exit code ");
    push_code(&mut s, exit_code);
    s
}

/// The texts a failed test binary's output is searched for.
pub open spec fn binary_needles() -> Seq<Seq<char>> {
    seq!["assertion"@, "panic"@, "FAIL"@]
}

/// The texts a failed `cargo test`'s output is searched for.
pub open spec fn cargo_needles() -> Seq<Seq<char>> {
    seq!["assertion"@, "panic"@, "FAILED"@, "error["@]
}

/// The lines found, or the fallback line when none is.
pub open spec fn lines_or(lines: Seq<Seq<char>>, fallback: Seq<char>) -> Seq<Seq<char>> {
    if lines.len() == 0 {
        seq![fallback]
    } else {
        lines
    }
}

/// The descriptions of a trace.
pub open spec fn descriptions(t: Seq<TraceEntry>) -> Seq<Seq<char>> {
    t.map_values(|e: TraceEntry| e.description@)
}

/// Every entry is at time zero, on no node, with no fault.
pub open spec fn plain_entries(t: Seq<TraceEntry>) -> bool {
    forall|i: int| 0 <= i < t.len() ==> (#[trigger] t[i]).time_ns == 0 && t[i].node is None && t[i].fault is None
}

/// The trace of a failed run: the lines of the error output, then of the
/// standard output, that hold one of `needles`; the fallback line when
/// none does.
fn failure_trace_from(stderr: &str, stdout: &str, needles: &Vec<Vec<char>>, fallback: String) -> (r: Vec<TraceEntry>)
    ensures
        descriptions(r@) == lines_or(
            lines_with_any(text_lines(stderr@) + text_lines(stdout@), vecs_view(needles@)),
            fallback@,
        ),
        plain_entries(r@),
{
    let err_lines = lines_of(chars_of(stderr).as_slice());
    let out_lines = lines_of(chars_of(stdout).as_slice());
    let mut found: Vec<String> = Vec::new();
    proof {
        assert(strings_view(found@) =~= Seq::<Seq<char>>::empty());
    }
    push_lines_with_any(&err_lines, needles, &mut found);
    push_lines_with_any(&out_lines, needles, &mut found);
    proof {
        lemma_lines_with_any_concat(vecs_view(err_lines@), vecs_view(out_lines@), vecs_view(needles@));
        assert(Seq::<Seq<char>>::empty() + lines_with_any(vecs_view(err_lines@), vecs_view(needles@))
            =~= lines_with_any(vecs_view(err_lines@), vecs_view(needles@)));
    }
    let mut trace: Vec<TraceEntry> = Vec::new();
    if found.len() == 0 {
        trace.push(TraceEntry::new(0, fallback));
        proof {
            assert(descriptions(trace@) =~= seq![fallback@]);
        }
        return trace;
    }
    let ghost fs = strings_view(found@);
    let mut i: usize = 0;
    proof {
        assert(descriptions(trace@) =~= fs.take(0));
    }
    while i < found.len()
        invariant
            fs == strings_view(found@),
            i <= found@.len(),
            descriptions(trace@) == fs.take(i as int),
            plain_entries(trace@),
        decreases found@.len() - i,
    {
        let ghost t0 = trace@;
        trace.push(TraceEntry::new(0, string_from_chars(chars_of(found[i].as_str()).as_slice())));
        proof {
            assert(descriptions(trace@) =~= descriptions(t0).push(found@[i as int]@));
            assert(fs.take(i as int + 1) =~= fs.take(i as int).push(fs[i as int]));
        }
        i = i + 1;
    }
    proof {
        assert(fs.take(found@.len() as int) =~= fs);
    }
    trace
}

proof fn lemma_lines_with_any_concat(a: Seq<Seq<char>>, b: Seq<Seq<char>>, ns: Seq<Seq<char>>)
    ensures
        lines_with_any(a + b, ns) == lines_with_any(a, ns) + lines_with_any(b, ns),
    decreases b.len(),
{
    if b.len() == 0 {
        assert(a + b =~= a);
        assert(lines_with_any(a, ns) + Seq::<Seq<char>>::empty() =~= lines_with_any(a, ns));
    } else {
        lemma_lines_with_any_concat(a, b.drop_last(), ns);
        assert((a + b).drop_last() =~= a + b.drop_last());
        assert((a + b).last() == b.last());
    }
}

/// The needle texts as character lists.
fn needle_chars(texts: &[&str]) -> (r: Vec<Vec<char>>)
    ensures
        r@.len() == texts@.len(),
        forall|i: int| 0 <= i < texts@.len() ==> (#[trigger] r@[i])@ == texts@[i]@,
{
    let mut out: Vec<Vec<char>> = Vec::new();
    let mut i: usize = 0;
    while i < texts.len()
        invariant
            i <= texts@.len(),
            out@.len() == i,
            forall|k: int| 0 <= k < i ==> (#[trigger] out@[k])@ == texts@[k]@,
        decreases texts@.len() - i,
    {
        out.push(chars_of(texts[i]));
        i = i + 1;
    }
    out
}

/// The trace of a failed run of a test binary, from the text of its
/// outputs: the lines that mention an assertion, a panic or a failure, or
/// the exit code when none does.
pub fn binary_failure_trace(exit_code: i32, stderr: &str, stdout: &str) -> (r: Vec<TraceEntry>)
    ensures
        descriptions(r@) == lines_or(
            lines_with_any(text_lines(stderr@) + text_lines(stdout@), binary_needles()),
            "Exit code: "@ + signed_dec(exit_code as int),
        ),
        plain_entries(r@),
{
    let needles = needle_chars(&["assertion", "panic", "FAIL"]);
    proof {
        assert(vecs_view(needles@) =~= binary_needles());
    }
    let mut fallback = String::from_str("Exit code: ");
    push_code(&mut fallback, exit_code);
    failure_trace_from(stderr, stdout, &needles, fallback)
}

/// The trace of a failed `cargo test`, from the text of its outputs: the
/// lines that mention an assertion, a panic, a failed test or a compiler
/// error, or `Test failed` when none does.
pub fn cargo_failure_trace(stderr: &str, stdout: &str) -> (r: Vec<TraceEntry>)
    ensures
        descriptions(r@) == lines_or(
            lines_with_any(text_lines(stderr@) + text_lines(stdout@), cargo_needles()),
            "Test failed"@,
        ),
        plain_entries(r@),
{
    let needles = needle_chars(&["assertion", "panic", "FAILED", "error["]);
    proof {
        assert(vecs_view(needles@) =~= cargo_needles());
    }
    failure_trace_from(stderr, stdout, &needles, String::from_str("Test failed"))
}

/// The lines of a failed run's trace: the lines of its outputs that
/// mention a failure, or a stand-in line when none does.
pub open spec fn trace_lines(cargo: bool, exit_code: i32, stderr: Seq<u8>, stdout: Seq<u8>) -> Seq<Seq<char>> {
    if cargo {
        lines_or(
            lines_with_any(text_lines(lossy_text(stderr)) + text_lines(lossy_text(stdout)), cargo_needles()),
            "Test failed"@,
        )
    } else {
        lines_or(
            lines_with_any(text_lines(lossy_text(stderr)) + text_lines(lossy_text(stdout)), binary_needles()),
            "Exit code: "@ + signed_dec(exit_code as int),
        )
    }
}

/// The trace of a failed run, from the bytes of its outputs, decoded as
/// `String::from_utf8_lossy` does: the binary's trace, or `cargo test`'s.
pub fn output_failure_trace(cargo: bool, exit_code: i32, stderr: &[u8], stdout: &[u8]) -> (r: Vec<TraceEntry>)
    ensures
        descriptions(r@) == trace_lines(cargo, exit_code, stderr@, stdout@),
        plain_entries(r@),
{
    let err = lossy(stderr);
    let out = lossy(stdout);
    if cargo {
        cargo_failure_trace(err.as_str(), out.as_str())
    } else {
        binary_failure_trace(exit_code, err.as_str(), out.as_str())
    }
}


/// What one iteration of a run came to.
pub enum IterationOutcome {
    /// The test ran and exited with success.
    Passed { exit_code: i32 },
    /// The test ran and failed, with its outputs.
    Failed { exit_code: i32, stderr: Vec<u8>, stdout: Vec<u8> },
    /// The test could not be started; `message` says why.
    LaunchFailed { message: String },
}

/// Where a run stands between iterations: how far it got, and the first
/// failure, once there is one (the run stops there).
pub struct RunProgress {
    pub iteration: u32,
    pub schedules_explored: u32,
    pub bugs_found: u32,
    pub last_exit_code: i32,
    pub failure_reason: Option<String>,
    pub failure_trace: Option<Vec<TraceEntry>>,
    pub stopped: bool,
}

impl RunProgress {
    /// A run before its first iteration.
    pub fn new() -> (r: Self)
        ensures
            r.iteration == 0 && r.schedules_explored == 0 && r.bugs_found == 0 && r.last_exit_code == 0,
            r.failure_reason is None && r.failure_trace is None && !r.stopped,
    {
        RunProgress {
            iteration: 0,
            schedules_explored: 0,
            bugs_found: 0,
            last_exit_code: 0,
            failure_reason: None,
            failure_trace: None,
            stopped: false,
        }
    }

    /// The seed of the next iteration of a run of `iterations` from `seed`,
    /// or `None` when the run is over: all iterations ran, or one failed.
    pub fn next_seed(&self, seed: u64, iterations: u32) -> (r: Option<u64>)
        ensures
            r == (if !self.stopped && self.iteration < iterations {
                Some(
                    (if seed + self.iteration > u64::MAX {
                        seed + self.iteration - 0x1_0000_0000_0000_0000
                    } else {
                        seed + self.iteration
                    }) as u64,
                )
            } else {
                None
            }),
    {
        if !self.stopped && self.iteration < iterations {
            Some(iteration_seed(seed, self.iteration))
        } else {
            None
        }
    }

    /// Takes in what the current iteration came to: a pass moves on; a
    /// failure is counted, its reason and trace kept, and the run stops.
    pub fn record(&mut self, cargo: bool, outcome: IterationOutcome)
        requires
            !old(self).stopped,
            old(self).iteration < u32::MAX,
            old(self).schedules_explored <= old(self).iteration,
            old(self).bugs_found == 0,
        ensures
            final(self).iteration == old(self).iteration + 1,
            final(self).schedules_explored <= final(self).iteration,
            match outcome {
                IterationOutcome::Passed { exit_code } => {
                    &&& final(self).schedules_explored == old(self).schedules_explored + 1
                    &&& final(self).last_exit_code == exit_code
                    &&& final(self).bugs_found == 0
                    &&& !final(self).stopped
                    &&& final(self).failure_reason == old(self).failure_reason
                    &&& final(self).failure_trace == old(self).failure_trace
                },
                IterationOutcome::Failed { exit_code, stderr, stdout } => {
                    &&& final(self).schedules_explored == old(self).schedules_explored + 1
                    &&& final(self).last_exit_code == exit_code
                    &&& final(self).bugs_found == 1
                    &&& final(self).stopped
                    &&& final(self).failure_reason matches Some(m) && m@ == (if cargo {
                        "cargo test failed"@
                    } else {
                        "Test failed with exit code "@ + signed_dec(exit_code as int)
                    })
                    &&& final(self).failure_trace matches Some(t) && descriptions(t@) == trace_lines(
                        cargo,
                        exit_code,
                        stderr@,
                        stdout@,
                    )
                        && plain_entries(t@)
                },
                IterationOutcome::LaunchFailed { message } => {
                    &&& final(self).schedules_explored == old(self).schedules_explored
                    &&& final(self).last_exit_code == old(self).last_exit_code
                    &&& final(self).bugs_found == 1
                    &&& final(self).stopped
                    &&& final(self).failure_reason matches Some(m) && m@ == (if cargo {
                        "Failed to run cargo test: "@
                    } else {
                        "Failed to execute test: "@
                    }) + message@
                    &&& final(self).failure_trace matches Some(t) && t@.len() == 1 && t@[0].time_ns == 0
                        && t@[0].description@ == message@ && t@[0].node is None && t@[0].fault is None
                },
            },
    {
        self.iteration = self.iteration + 1;
        match outcome {
            IterationOutcome::Passed { exit_code } => {
                self.last_exit_code = exit_code;
                self.schedules_explored = self.schedules_explored + 1;
            },
            IterationOutcome::Failed { exit_code, stderr, stdout } => {
                self.last_exit_code = exit_code;
                self.schedules_explored = self.schedules_explored + 1;
                self.bugs_found = 1;
                self.failure_reason = Some(
                    if cargo {
                        String::from_str("cargo test failed")
                    } else {
                        exit_failure_reason(exit_code)
                    },
                );
                self.failure_trace = Some(output_failure_trace(cargo, exit_code, stderr.as_slice(), stdout.as_slice()));
                self.stopped = true;
            },
            IterationOutcome::LaunchFailed { message } => {
                let mut reason = String::from_str(if cargo {
                    "Failed to run cargo test: "
                } else {
                    "Failed to execute test: "
                });
                reason.append(message.as_str());
                self.failure_reason = Some(reason);
                let mut trace: Vec<TraceEntry> = Vec::new();
                trace.push(TraceEntry::new(0, message));
                self.failure_trace = Some(trace);
                self.bugs_found = 1;
                self.stopped = true;
            },
        }
    }
}

} // verus!
