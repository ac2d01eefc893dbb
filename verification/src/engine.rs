//! The concurrent generation engine's verified core: one task per selected
//! plugin runs the sandbox protocol, then its outcome is applied — generated
//! files written in order, one terminal log entry per task — with per-plugin
//! failure isolation. Application order models the completion order of the
//! worker pool; the laws below hold for every order.

use vstd::prelude::*;

verus! {

use crate::config::{Config, has_section};
use crate::logs::{add_log, formatted, LogKind, Logs};
use crate::plugin::Plugin;
use crate::sandbox::{
    distinct_paths,
    run_plugin,
    GenerationFailure,
    PluginBundleLayout,
};
use vstd::string::StringExecFns;

// ---------------------------------------------------------------------------
// The filesystem model.
// ---------------------------------------------------------------------------

/// The map a journal of writes leaves on disk: each write applied in order,
/// unconditionally overwriting.
pub open spec fn fs_map(w: Seq<(String, String)>) -> Map<Seq<char>, Seq<char>>
    decreases w.len(),
{
    if w.len() == 0 {
        Map::empty()
    } else {
        fs_map(w.drop_last()).insert(w.last().0@, w.last().1@)
    }
}

/// The files the run has written so far: a journal of `(path, contents)`
/// writes, viewed as the path-to-contents map the last write of each path
/// leaves behind. The engine appends; nothing is ever removed during a run.
pub struct FsModel {
    writes: Vec<(String, String)>,
}

impl View for FsModel {
    type V = Map<Seq<char>, Seq<char>>;

    closed spec fn view(&self) -> Map<Seq<char>, Seq<char>> {
        fs_map(self.writes@)
    }
}

impl FsModel {
    /// A filesystem with nothing written yet.
    pub fn new() -> (r: FsModel)
        ensures
            r@ =~= Map::<Seq<char>, Seq<char>>::empty(),
    {
        FsModel { writes: Vec::new() }
    }

    /// Records one write: `path` now holds `contents`, overwriting
    /// unconditionally.
    pub fn write_file(&mut self, path: String, contents: String)
        ensures
            final(self)@ == old(self)@.insert(path@, contents@),
    {
        let ghost w0 = self.writes@;
        self.writes.push((path, contents));
        proof {
            assert(self.writes@.drop_last() =~= w0);
        }
    }

    /// The contents the last write left at `path`, if any write named it.
    pub fn read_file(&self, path: &String) -> (r: Option<&String>)
        ensures
            r is Some <==> self@.dom().contains(path@),
            r is Some ==> r->0@ == self@[path@],
    {
        let mut i: usize = self.writes.len();
        while i > 0
            invariant
                i <= self.writes@.len(),
                forall|k: int| i <= k < self.writes@.len() ==> self.writes@[k].0@ != path@,
            decreases i,
        {
            i = i - 1;
            if self.writes[i].0.eq(path) {
                proof {
                    lemma_fs_map_agrees(self.writes@, i + 1, path@);
                    assert(self.writes@.take(i + 1 as int).drop_last() =~= self.writes@.take(
                        i as int,
                    ));
                    assert(self.writes@.take(i + 1 as int).last() == self.writes@[i as int]);
                }
                return Some(&self.writes[i].1);
            }
        }
        proof {
            lemma_fs_map_agrees(self.writes@, 0, path@);
            assert(self.writes@.take(0) =~= Seq::<(String, String)>::empty());
        }
        None
    }
}

/// Where a suffix of the journal never names `path`, the journal and the
/// suffix-less prefix agree about `path`.
proof fn lemma_fs_map_agrees(w: Seq<(String, String)>, n: int, path: Seq<char>)
    requires
        0 <= n <= w.len(),
        forall|k: int| n <= k < w.len() ==> w[k].0@ != path,
    ensures
        fs_map(w).dom().contains(path) == fs_map(w.take(n)).dom().contains(path),
        fs_map(w.take(n)).dom().contains(path) ==> fs_map(w)[path] == fs_map(w.take(n))[path],
    decreases w.len() - n,
{
    if n < w.len() {
        assert(w.last().0@ != path);
        assert(w.drop_last().take(n) =~= w.take(n));
        lemma_fs_map_agrees(w.drop_last(), n, path);
    } else {
        assert(w.take(n) =~= w);
    }
}

// ---------------------------------------------------------------------------
// Task outcomes and their application.
// ---------------------------------------------------------------------------

/// What one generation task produced: the files to write, or the reason it
/// failed.
pub enum GenerationOutcome {
    Success { files: Vec<(String, String)> },
    Failure { reason: GenerationFailure },
}

/// Whether the task succeeded.
pub open spec fn outcome_ok(o: GenerationOutcome) -> bool {
    o is Success
}

/// The files a task asks to write; none for a failed task.
pub open spec fn outcome_files(o: GenerationOutcome) -> Seq<(String, String)> {
    match o {
        GenerationOutcome::Success { files } => files@,
        GenerationOutcome::Failure { .. } => Seq::empty(),
    }
}

/// One finished task: which plugin ran, what it produced, and what its script
/// reported through the injected `log` helpers.
pub struct TaskReport {
    pub plugin_id: String,
    pub outcome: GenerationOutcome,
    pub script_logs: Vec<(LogKind, String)>,
}

/// The description a failed task logs.
pub open spec fn spec_failure_message(f: GenerationFailure) -> Seq<char> {
    match f {
        GenerationFailure::MissingConfig => "missing plugin configuration"@,
        GenerationFailure::UnreadableCode => "unreadable plugin code"@,
        GenerationFailure::ValidationFailed => "plugin config validation failed"@,
        GenerationFailure::GenerationFailed => "plugin config generation failed"@,
        GenerationFailure::WriteFailed => "failed to write generated files"@,
    }
}

/// The description a failed task logs.
pub fn failure_message(f: GenerationFailure) -> (r: String)
    ensures
        r@ == spec_failure_message(f),
{
    match f {
        GenerationFailure::MissingConfig => String::from_str("missing plugin configuration"),
        GenerationFailure::UnreadableCode => String::from_str("unreadable plugin code"),
        GenerationFailure::ValidationFailed => String::from_str("plugin config validation failed"),
        GenerationFailure::GenerationFailed => String::from_str("plugin config generation failed"),
        GenerationFailure::WriteFailed => String::from_str("failed to write generated files"),
    }
}

/// The message of a successful task's terminal entry, naming the plugin id.
pub open spec fn spec_success_message(id: Seq<char>) -> Seq<char> {
    "Generated "@ + id + " config successfully"@
}

fn success_message(id: &String) -> (r: String)
    ensures
        r@ == spec_success_message(id@),
{
    String::from_str("Generated ").concat(id.as_str()).concat(" config successfully")
}

/// The one terminal log entry a task appends once it is done: a success entry
/// naming the plugin id, or an error entry with the failure's description.
pub open spec fn terminal_entry(id: Seq<char>, o: GenerationOutcome) -> (LogKind, Seq<char>) {
    match o {
        GenerationOutcome::Success { .. } => (
            LogKind::Success,
            formatted(LogKind::Success, spec_success_message(id)),
        ),
        GenerationOutcome::Failure { reason } => (
            LogKind::Error,
            formatted(LogKind::Error, spec_failure_message(reason)),
        ),
    }
}

/// The files of one task applied in order, each overwriting.
pub open spec fn apply_files(m: Map<Seq<char>, Seq<char>>, files: Seq<(String, String)>) -> Map<
    Seq<char>,
    Seq<char>,
>
    decreases files.len(),
{
    if files.len() == 0 {
        m
    } else {
        apply_files(m, files.drop_last()).insert(files.last().0@, files.last().1@)
    }
}

/// What one outcome leaves on disk: a success writes its files; a failure
/// writes nothing.
pub open spec fn apply_outcome_spec(
    m: Map<Seq<char>, Seq<char>>,
    o: GenerationOutcome,
) -> Map<Seq<char>, Seq<char>> {
    match o {
        GenerationOutcome::Success { files } => apply_files(m, files@),
        GenerationOutcome::Failure { .. } => m,
    }
}

/// What a whole run leaves on disk: the outcomes applied in completion order.
pub open spec fn apply_reports(m: Map<Seq<char>, Seq<char>>, rs: Seq<TaskReport>) -> Map<
    Seq<char>,
    Seq<char>,
>
    decreases rs.len(),
{
    if rs.len() == 0 {
        m
    } else {
        apply_outcome_spec(apply_reports(m, rs.drop_last()), rs.last().outcome)
    }
}

/// The view of a task's script-reported entries once appended to the log.
pub open spec fn script_entries(r: TaskReport) -> Seq<(LogKind, Seq<char>)> {
    r.script_logs@.map(|i: int, e: (LogKind, String)| (e.0, formatted(e.0, e.1@)))
}

/// Everything one task appends to the log: its script entries in order, then
/// exactly one terminal entry.
pub open spec fn task_trace(r: TaskReport) -> Seq<(LogKind, Seq<char>)> {
    script_entries(r).push(terminal_entry(r.plugin_id@, r.outcome))
}

/// Everything a run appends to the log, task by task in completion order.
pub open spec fn log_trace(rs: Seq<TaskReport>) -> Seq<(LogKind, Seq<char>)>
    decreases rs.len(),
{
    if rs.len() == 0 {
        Seq::empty()
    } else {
        log_trace(rs.drop_last()) + task_trace(rs.last())
    }
}

/// Applies one finished task: a success writes every generated file in order
/// and then appends exactly one success entry naming the plugin id; a failure
/// writes nothing and appends exactly one error entry with the failure's
/// description.
pub fn apply_outcome(id: &String, outcome: &GenerationOutcome, fs: &mut FsModel, logs: &mut Logs)
    ensures
        final(fs)@ == apply_outcome_spec(old(fs)@, *outcome),
        final(logs)@ == old(logs)@.push(terminal_entry(id@, *outcome)),
        !outcome_ok(*outcome) ==> final(fs)@ == old(fs)@,
        outcome_ok(*outcome) && distinct_paths(outcome_files(*outcome)) ==> forall|k: int|
            0 <= k < outcome_files(*outcome).len() ==> final(fs)@.dom().contains(
                (#[trigger] outcome_files(*outcome)[k]).0@,
            ) && final(fs)@[outcome_files(*outcome)[k].0@] == outcome_files(*outcome)[k].1@,
{
    match outcome {
        GenerationOutcome::Success { files } => {
            let ghost m0 = fs@;
            let mut k: usize = 0;
            proof {
                assert(files@.take(0) =~= Seq::<(String, String)>::empty());
            }
            while k < files.len()
                invariant
                    k <= files@.len(),
                    fs@ == apply_files(m0, files@.take(k as int)),
                decreases files@.len() - k,
            {
                proof {
                    assert(files@.take(k + 1 as int).drop_last() =~= files@.take(k as int));
                    assert(files@.take(k + 1 as int).last() == files@[k as int]);
                }
                fs.write_file(files[k].0.clone(), files[k].1.clone());
                k = k + 1;
            }
            proof {
                assert(files@.take(files@.len() as int) =~= files@);
                if distinct_paths(files@) {
                    assert forall|j: int|
                        0 <= j < files@.len() implies fs@.dom().contains(
                        (#[trigger] files@[j]).0@,
                    ) && fs@[files@[j].0@] == files@[j].1@ by {
                        lemma_apply_files_last(m0, files@, j);
                    }
                }
            }
            add_log(logs, LogKind::Success, success_message(id));
        },
        GenerationOutcome::Failure { reason } => {
            add_log(logs, LogKind::Error, failure_message(*reason));
        },
    }
}

/// Law: every `(path, contents)` pair of a task's result is on disk after the
/// task is applied, provided no later pair of the same task overwrote it —
/// in particular, with pairwise-distinct paths, every pair is written
/// byte-for-byte.
pub proof fn lemma_apply_files_last(
    m: Map<Seq<char>, Seq<char>>,
    files: Seq<(String, String)>,
    k: int,
)
    requires
        0 <= k < files.len(),
        forall|j: int| k < j < files.len() ==> files[j].0@ != files[k].0@,
    ensures
        apply_files(m, files).dom().contains(files[k].0@),
        apply_files(m, files)[files[k].0@] == files[k].1@,
    decreases files.len(),
{
    if k == files.len() - 1 {
    } else {
        assert(files.last().0@ != files[k].0@);
        assert(files.drop_last()[k] == files[k]);
        lemma_apply_files_last(m, files.drop_last(), k);
    }
}

/// A task that never names `path` leaves `path` as it was.
pub proof fn lemma_apply_files_absent(
    m: Map<Seq<char>, Seq<char>>,
    files: Seq<(String, String)>,
    path: Seq<char>,
)
    requires
        forall|j: int| 0 <= j < files.len() ==> files[j].0@ != path,
    ensures
        apply_files(m, files).dom().contains(path) == m.dom().contains(path),
        m.dom().contains(path) ==> apply_files(m, files)[path] == m[path],
    decreases files.len(),
{
    if files.len() > 0 {
        assert(files.last().0@ != path);
        lemma_apply_files_absent(m, files.drop_last(), path);
    }
}

/// Runs one plugin's task end to end: the sandbox protocol against the shared
/// configuration, the script's log entries appended in order, then the
/// outcome applied. A configuration with no section for the plugin's id fails
/// the task with the missing-configuration outcome — and with zero file
/// writes — before anything executes; that failure arises on no other input.
pub fn execute_task(
    plugin: &Plugin,
    config: &Config,
    layout: &PluginBundleLayout,
    fs: &mut FsModel,
    logs: &mut Logs,
) -> (r: TaskReport)
    ensures
        r.plugin_id@ == plugin.details.id@,
        final(logs)@ == old(logs)@ + task_trace(r),
        final(fs)@ == apply_outcome_spec(old(fs)@, r.outcome),
        outcome_ok(r.outcome) ==> distinct_paths(outcome_files(r.outcome)),
        outcome_ok(r.outcome) ==> forall|k: int|
            0 <= k < outcome_files(r.outcome).len() ==> final(fs)@.dom().contains(
                (#[trigger] outcome_files(r.outcome)[k]).0@,
            ) && final(fs)@[outcome_files(r.outcome)[k].0@] == outcome_files(r.outcome)[k].1@,
        !has_section(config.linters@, plugin.details.id@) <==> r.outcome == (
        GenerationOutcome::Failure { reason: GenerationFailure::MissingConfig }),
        !has_section(config.linters@, plugin.details.id@) ==> final(fs)@ == old(fs)@
            && r.script_logs@ =~= Seq::<(LogKind, String)>::empty(),
{
    let ghost logs0 = logs@;
    let (result, script_logs) = run_plugin(plugin, config, layout);
    let mut j: usize = 0;
    proof {
        assert(script_logs@.take(0).map(
            |i: int, e: (LogKind, String)| (e.0, formatted(e.0, e.1@)),
        ) =~= Seq::<(LogKind, Seq<char>)>::empty());
    }
    while j < script_logs.len()
        invariant
            j <= script_logs@.len(),
            logs@ == logs0 + script_logs@.take(j as int).map(
                |i: int, e: (LogKind, String)| (e.0, formatted(e.0, e.1@)),
            ),
        decreases script_logs@.len() - j,
    {
        add_log(logs, script_logs[j].0, script_logs[j].1.clone());
        proof {
            assert(logs@ =~= logs0 + script_logs@.take(j + 1 as int).map(
                |i: int, e: (LogKind, String)| (e.0, formatted(e.0, e.1@)),
            ));
        }
        j = j + 1;
    }
    proof {
        assert(script_logs@.take(script_logs@.len() as int) =~= script_logs@);
    }
    let outcome = match result {
        Ok(files) => GenerationOutcome::Success { files },
        Err(reason) => GenerationOutcome::Failure { reason },
    };
    let id = plugin.details.id.clone();
    apply_outcome(&id, &outcome, fs, logs);
    let r = TaskReport { plugin_id: id, outcome, script_logs };
    proof {
        assert(final(logs)@ =~= logs0 + task_trace(r));
    }
    r
}

/// Runs one generation task per selected plugin against the shared read-only
/// configuration, in submission order, and applies each outcome as it
/// completes. Failures are isolated per plugin: a failed task never prevents
/// a sibling from succeeding, and every task yields exactly one terminal log
/// entry.
pub fn generate_all(
    plugins: &Vec<Plugin>,
    config: &Config,
    layouts: &Vec<PluginBundleLayout>,
    fs: &mut FsModel,
    logs: &mut Logs,
) -> (reports: Vec<TaskReport>)
    requires
        plugins@.len() == layouts@.len(),
    ensures
        reports@.len() == plugins@.len(),
        forall|k: int|
            0 <= k < reports@.len() ==> (#[trigger] reports@[k]).plugin_id@
                == plugins@[k].details.id@,
        final(logs)@ == old(logs)@ + log_trace(reports@),
        final(fs)@ == apply_reports(old(fs)@, reports@),
        forall|k: int|
            0 <= k < reports@.len() && !has_section(
                config.linters@,
                plugins@[k].details.id@,
            ) ==> (#[trigger] reports@[k]).outcome == (GenerationOutcome::Failure {
                reason: GenerationFailure::MissingConfig,
            }),
        forall|k: int|
            0 <= k < reports@.len() && outcome_ok((#[trigger] reports@[k]).outcome)
                ==> distinct_paths(outcome_files(reports@[k].outcome)),
{
    let ghost logs0 = logs@;
    let ghost m0 = fs@;
    let mut reports: Vec<TaskReport> = Vec::new();
    let mut i: usize = 0;
    proof {
        assert(log_trace(reports@) =~= Seq::<(LogKind, Seq<char>)>::empty());
        assert(logs@ =~= logs0 + log_trace(reports@));
    }
    while i < plugins.len()
        invariant
            i <= plugins@.len(),
            plugins@.len() == layouts@.len(),
            reports@.len() == i,
            forall|k: int|
                0 <= k < reports@.len() ==> (#[trigger] reports@[k]).plugin_id@
                    == plugins@[k].details.id@,
            logs@ == logs0 + log_trace(reports@),
            fs@ == apply_reports(m0, reports@),
            forall|k: int|
                0 <= k < reports@.len() && !has_section(
                    config.linters@,
                    plugins@[k].details.id@,
                ) ==> (#[trigger] reports@[k]).outcome == (GenerationOutcome::Failure {
                    reason: GenerationFailure::MissingConfig,
                }),
            forall|k: int|
                0 <= k < reports@.len() && outcome_ok((#[trigger] reports@[k]).outcome)
                    ==> distinct_paths(outcome_files(reports@[k].outcome)),
        decreases plugins@.len() - i,
    {
        let ghost reports0 = reports@;
        let report = execute_task(&plugins[i], config, &layouts[i], fs, logs);
        reports.push(report);
        proof {
            assert(reports@.drop_last() =~= reports0);
            assert(logs@ =~= logs0 + log_trace(reports@));
        }
        i = i + 1;
    }
    reports
}

// ---------------------------------------------------------------------------
// Laws of a whole run.
// ---------------------------------------------------------------------------

/// How many entries the scripts of a run reported, across all tasks.
pub open spec fn total_script_entries(rs: Seq<TaskReport>) -> nat
    decreases rs.len(),
{
    if rs.len() == 0 {
        0
    } else {
        total_script_entries(rs.drop_last()) + rs.last().script_logs@.len()
    }
}

/// Law: a run of N tasks appends exactly N terminal entries to the log — one
/// per task, after that task's script entries — however the tasks' completion
/// order interleaved them and whatever the worker pool's size was.
pub proof fn lemma_one_terminal_entry_per_task(rs: Seq<TaskReport>)
    ensures
        log_trace(rs).len() == total_script_entries(rs) + rs.len(),
    decreases rs.len(),
{
    if rs.len() > 0 {
        lemma_one_terminal_entry_per_task(rs.drop_last());
    }
}

/// Law: a task's terminal entry is a success entry naming the plugin id
/// exactly when the task succeeded, and an error entry with the failure's
/// description otherwise.
pub proof fn lemma_terminal_entry_kind(id: Seq<char>, o: GenerationOutcome)
    ensures
        outcome_ok(o) ==> terminal_entry(id, o) == (
            LogKind::Success,
            formatted(LogKind::Success, spec_success_message(id)),
        ),
        !outcome_ok(o) ==> terminal_entry(id, o).0 == LogKind::Error,
{
}

/// Law: when several tasks write one output path, the write applied last
/// determines the final contents — last writer wins, with no detection or
/// warning — while each writing task still appends its own success terminal
/// entry (see `lemma_terminal_entry_kind`). Here `rs[t]`'s `k`-th pair is the
/// last write of its path within task `t`, and no later-applied task names
/// that path.
pub proof fn lemma_last_writer_wins(
    m: Map<Seq<char>, Seq<char>>,
    rs: Seq<TaskReport>,
    t: int,
    k: int,
)
    requires
        0 <= t < rs.len(),
        outcome_ok(rs[t].outcome),
        0 <= k < outcome_files(rs[t].outcome).len(),
        forall|j: int|
            k < j < outcome_files(rs[t].outcome).len() ==> outcome_files(rs[t].outcome)[j].0@
                != outcome_files(rs[t].outcome)[k].0@,
        forall|t2: int, j: int|
            t < t2 < rs.len() && 0 <= j < outcome_files(rs[t2].outcome).len() ==> outcome_files(
                rs[t2].outcome,
            )[j].0@ != outcome_files(rs[t].outcome)[k].0@,
    ensures
        apply_reports(m, rs).dom().contains(outcome_files(rs[t].outcome)[k].0@),
        apply_reports(m, rs)[outcome_files(rs[t].outcome)[k].0@] == outcome_files(
            rs[t].outcome,
        )[k].1@,
    decreases rs.len(),
{
    let path = outcome_files(rs[t].outcome)[k].0@;
    if t == rs.len() - 1 {
        lemma_apply_files_last(apply_reports(m, rs.drop_last()), outcome_files(rs[t].outcome), k);
    } else {
        assert(rs.drop_last()[t] == rs[t]);
        lemma_last_writer_wins(m, rs.drop_last(), t, k);
        let before = apply_reports(m, rs.drop_last());
        match rs.last().outcome {
            GenerationOutcome::Success { files } => {
                assert(rs.last() == rs[rs.len() - 1]);
                assert(outcome_files(rs.last().outcome) == files@);
                assert forall|j: int| 0 <= j < files@.len() implies files@[j].0@ != path by {
                    assert(outcome_files(rs[rs.len() - 1].outcome)[j].0@ != path);
                }
                lemma_apply_files_absent(before, files@, path);
            },
            GenerationOutcome::Failure { .. } => {
            },
        }
    }
}

} // verus!
