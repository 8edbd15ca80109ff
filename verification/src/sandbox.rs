//! Execution-lifecycle coordinator for isolated worker processes.
//!
//! The coordinator owns a registry of execution records, one per
//! submitted request. A record moves from `Queued` to `Running` when a
//! worker process exists, and from there to exactly one terminal state:
//! `Completed` or `Failed` after a real exit, `TimedOut` when the
//! deadline supervisor gave up on it, or `Killed` on a caller's request.
//! Terminal records never transition again.
//!
//! The coordinator itself performs no process or file work: launching,
//! waiting and stream reading happen outside, and their results come
//! back in as plain values (a [`WorkerOutcome`], a clock reading), so
//! the whole lifecycle logic is verified for every value they may take.

use vstd::prelude::*;

use crate::capture::spec_truncated;
use crate::capture::truncate_output;
use crate::clock::now_millis;
use crate::keyed::entry_of_key;
use crate::keyed::has_key;
use crate::keyed::index_of_key;
use crate::keyed::keys_unique;
use crate::keyed::lemma_entry_at;
use crate::keyed::lemma_push_entry;
use crate::keyed::lemma_update_entry;
use crate::keyed::Keyed;

verus! {

/// Exit-code sentinel recorded when a worker left through a signal
/// rather than a normal exit.
pub const ABNORMAL_EXIT_CODE: i32 = -1;

// ---------------------------------------------------------------------
// Data model
// ---------------------------------------------------------------------

/// Process-wide sandbox configuration, read-only after construction.
#[derive(Debug)]
pub struct SandboxConfig {
    /// Default wall-clock limit for one execution, in seconds.
    pub max_execution_time: u64,
    /// Default memory ceiling for one worker, in MiB.
    pub max_memory_mb: u64,
    /// Default CPU-time limit for one worker, in seconds.
    pub max_cpu_time: u64,
    /// Ceiling on each captured output stream, in bytes of its UTF-8
    /// encoding.
    pub max_output_size: usize,
    /// Modules the guest code may import.
    pub allowed_modules: Vec<String>,
    /// Modules the guest code must not import.
    pub blocked_modules: Vec<String>,
    /// Whether the worker is denied network access.
    pub network_isolation: bool,
    /// Whether the worker gets a private temporary workspace.
    pub filesystem_isolation: bool,
    /// Path of the guest interpreter.
    pub python_path: String,
}

/// The character views of a sequence of strings.
pub open spec fn views_of(v: Seq<String>) -> Seq<Seq<char>> {
    Seq::new(v.len(), |i: int| v[i]@)
}

/// The stock module allow-list: harmless computation and formatting.
pub open spec fn default_allowed_modules() -> Seq<Seq<char>> {
    seq![
        "math"@,
        "random"@,
        "statistics"@,
        "itertools"@,
        "functools"@,
        "operator"@,
        "collections"@,
        "datetime"@,
        "time"@,
        "json"@,
        "csv"@,
        "re"@,
        "string"@,
        "typing"@,
    ]
}

/// The stock module deny-list: process, filesystem and introspection
/// escapes.
pub open spec fn default_blocked_modules() -> Seq<Seq<char>> {
    seq![
        "os"@,
        "sys"@,
        "subprocess"@,
        "importlib"@,
        "execfile"@,
        "compile"@,
        "eval"@,
        "exec"@,
        "__import__"@,
        "globals"@,
        "locals"@,
        "vars"@,
        "dir"@,
        "hasattr"@,
        "getattr"@,
        "setattr"@,
        "delattr"@,
        "open"@,
        "file"@,
        "input"@,
        "raw_input"@,
    ]
}

impl Default for SandboxConfig {
    /// The stock configuration: thirty seconds of wall clock and CPU,
    /// half a GiB of memory, a one-MiB output ceiling, both isolation
    /// switches on, the stock module lists, and `python3` as the
    /// interpreter.
    fn default() -> (r: SandboxConfig)
        ensures
            r.max_execution_time == 30,
            r.max_memory_mb == 512,
            r.max_cpu_time == 30,
            r.max_output_size == 1048576,
            views_of(r.allowed_modules@) == default_allowed_modules(),
            views_of(r.blocked_modules@) == default_blocked_modules(),
            r.network_isolation,
            r.filesystem_isolation,
            r.python_path@ == "python3"@,
    {
        let mut allowed_modules: Vec<String> = Vec::new();
        allowed_modules.push("math".to_owned());
        allowed_modules.push("random".to_owned());
        allowed_modules.push("statistics".to_owned());
        allowed_modules.push("itertools".to_owned());
        allowed_modules.push("functools".to_owned());
        allowed_modules.push("operator".to_owned());
        allowed_modules.push("collections".to_owned());
        allowed_modules.push("datetime".to_owned());
        allowed_modules.push("time".to_owned());
        allowed_modules.push("json".to_owned());
        allowed_modules.push("csv".to_owned());
        allowed_modules.push("re".to_owned());
        allowed_modules.push("string".to_owned());
        allowed_modules.push("typing".to_owned());
        let mut blocked_modules: Vec<String> = Vec::new();
        blocked_modules.push("os".to_owned());
        blocked_modules.push("sys".to_owned());
        blocked_modules.push("subprocess".to_owned());
        blocked_modules.push("importlib".to_owned());
        blocked_modules.push("execfile".to_owned());
        blocked_modules.push("compile".to_owned());
        blocked_modules.push("eval".to_owned());
        blocked_modules.push("exec".to_owned());
        blocked_modules.push("__import__".to_owned());
        blocked_modules.push("globals".to_owned());
        blocked_modules.push("locals".to_owned());
        blocked_modules.push("vars".to_owned());
        blocked_modules.push("dir".to_owned());
        blocked_modules.push("hasattr".to_owned());
        blocked_modules.push("getattr".to_owned());
        blocked_modules.push("setattr".to_owned());
        blocked_modules.push("delattr".to_owned());
        blocked_modules.push("open".to_owned());
        blocked_modules.push("file".to_owned());
        blocked_modules.push("input".to_owned());
        blocked_modules.push("raw_input".to_owned());
        proof {
            assert(views_of(allowed_modules@) =~= default_allowed_modules());
            assert(views_of(blocked_modules@) =~= default_blocked_modules());
        }
        SandboxConfig {
            max_execution_time: 30,
            max_memory_mb: 512,
            max_cpu_time: 30,
            max_output_size: 1048576,
            allowed_modules,
            blocked_modules,
            network_isolation: true,
            filesystem_isolation: true,
            python_path: "python3".to_owned(),
        }
    }
}

/// Immutable input of one execution request; consumed by `submit`.
#[derive(Debug)]
pub struct ExecutionRequest {
    /// Guest source code to execute.
    pub code: String,
    /// Optional payload for the worker's standard input.
    pub stdin: Option<String>,
    /// Per-request override of the wall-clock limit, in seconds.
    pub timeout: Option<u64>,
    /// Per-request override of the memory ceiling, in MiB.
    pub memory_limit: Option<u64>,
}

/// Lifecycle state of one execution record.
#[derive(Clone, Copy, Debug, PartialEq, Eq, Structural)]
pub enum ExecutionStatus {
    /// Submitted, no worker process yet.
    Queued,
    /// A worker process exists and has not been resolved.
    Running,
    /// The worker exited normally with code zero.
    Completed,
    /// The worker exited with a non-zero code, left through a signal,
    /// or could not be launched or observed at all.
    Failed,
    /// The deadline elapsed before the worker exited.
    TimedOut,
    /// A caller's kill request terminated the worker.
    Killed,
}

/// Captured outcome of a worker that really exited.
#[derive(Debug)]
pub struct ExecutionResult {
    /// The worker's exit code, or [`ABNORMAL_EXIT_CODE`] after a signal.
    pub exit_code: i32,
    /// Captured standard output, bounded by the output ceiling.
    pub stdout: String,
    /// Captured standard error, bounded by the output ceiling.
    pub stderr: String,
    /// Wall-clock time from submission to resolution, in milliseconds.
    pub duration_ms: u64,
    /// Memory used by the worker, in MiB; not tracked, recorded as zero.
    pub memory_mb: u64,
    /// CPU time used by the worker, in ms; not tracked, recorded as zero.
    pub cpu_time_ms: u64,
}

impl Clone for ExecutionResult {
    fn clone(&self) -> (r: Self)
        ensures
            r == *self,
    {
        ExecutionResult {
            exit_code: self.exit_code,
            stdout: self.stdout.clone(),
            stderr: self.stderr.clone(),
            duration_ms: self.duration_ms,
            memory_mb: self.memory_mb,
            cpu_time_ms: self.cpu_time_ms,
        }
    }
}

/// One tracked execution: the registry entry behind an identifier.
#[derive(Debug)]
pub struct ExecutionInfo {
    /// The identifier handed out by `submit`.
    pub id: u64,
    /// Clock reading at submission, in milliseconds.
    pub started_at: u64,
    /// Identifier of the worker process, absent while `Queued`.
    pub pid: Option<i32>,
    /// Current lifecycle state.
    pub status: ExecutionStatus,
    /// The captured result; present only in `Completed` and `Failed`.
    pub result: Option<ExecutionResult>,
}

impl Clone for ExecutionInfo {
    fn clone(&self) -> (r: Self)
        ensures
            r == *self,
    {
        ExecutionInfo {
            id: self.id,
            started_at: self.started_at,
            pid: self.pid,
            status: self.status,
            result: match &self.result {
                Some(res) => Some(res.clone()),
                None => None,
            },
        }
    }
}

/// What the outside supervision of one worker reported back.
#[derive(Debug)]
pub enum WorkerOutcome {
    /// The worker exited normally, with its captured streams.
    Exited { exit_code: i32, stdout: String, stderr: String },
    /// The worker left through a signal not sent by this subsystem.
    Signaled { stdout: String, stderr: String },
    /// The deadline elapsed and the worker was forcefully terminated.
    TimedOut,
    /// Observing the worker's state failed at the OS level.
    WaitFailed,
    /// No worker process could be created at all.
    LaunchFailed,
}

/// Errors of the coordinator itself. A worker's own failure is never an
/// error here: it is recorded in the execution's status instead.
#[derive(Clone, Copy, Debug, PartialEq, Eq, Structural)]
pub enum SandboxError {
    /// The configuration names no interpreter.
    InterpreterMissing,
    /// The module lists could not be rendered into the guest prelude.
    Encoding,
}

// ---------------------------------------------------------------------
// Status and outcome classification
// ---------------------------------------------------------------------

/// A terminal state admits no further transition.
pub open spec fn spec_is_terminal(st: ExecutionStatus) -> bool {
    match st {
        ExecutionStatus::Queued => false,
        ExecutionStatus::Running => false,
        ExecutionStatus::Completed => true,
        ExecutionStatus::Failed => true,
        ExecutionStatus::TimedOut => true,
        ExecutionStatus::Killed => true,
    }
}

impl ExecutionStatus {
    /// Whether this state is terminal.
    pub fn is_terminal(&self) -> (r: bool)
        ensures
            r == spec_is_terminal(*self),
    {
        match *self {
            ExecutionStatus::Queued => false,
            ExecutionStatus::Running => false,
            _ => true,
        }
    }
}

/// The terminal state that a worker outcome resolves a record to: a
/// zero exit completes, every other outcome fails, except the deadline
/// which is its own state.
pub open spec fn spec_outcome_status(o: WorkerOutcome) -> ExecutionStatus {
    match o {
        WorkerOutcome::Exited { exit_code, .. } => if exit_code == 0 {
            ExecutionStatus::Completed
        } else {
            ExecutionStatus::Failed
        },
        WorkerOutcome::Signaled { .. } => ExecutionStatus::Failed,
        WorkerOutcome::TimedOut => ExecutionStatus::TimedOut,
        WorkerOutcome::WaitFailed => ExecutionStatus::Failed,
        WorkerOutcome::LaunchFailed => ExecutionStatus::Failed,
    }
}

/// Which records an outcome may resolve: a launch failure resolves a
/// record that never got a worker, every other outcome resolves a
/// running one. No outcome applies to a terminal record.
pub open spec fn spec_outcome_applies(st: ExecutionStatus, o: WorkerOutcome) -> bool {
    match o {
        WorkerOutcome::LaunchFailed => st is Queued,
        _ => st is Running,
    }
}

/// Wall-clock span between two readings, zero when the clock stepped
/// backwards.
pub open spec fn spec_duration(now_ms: u64, started_at: u64) -> u64 {
    if now_ms >= started_at {
        (now_ms - started_at) as u64
    } else {
        0
    }
}

/// A single record is internally consistent: no worker handle before
/// launch, and a captured result exactly where a real exit was seen.
pub open spec fn record_ok(r: ExecutionInfo) -> bool {
    &&& (r.status is Queued ==> r.pid is None)
    &&& (r.result is Some ==> (r.status is Completed || r.status is Failed))
    &&& (r.status is Completed ==> r.result is Some)
}

// ---------------------------------------------------------------------
// Registry model: a sequence of records addressed by identifier
// ---------------------------------------------------------------------

impl Keyed<u64> for ExecutionInfo {
    /// A record is addressed by its identifier.
    open spec fn key(self) -> u64 {
        self.id
    }
}

// ---------------------------------------------------------------------
// The coordinator
// ---------------------------------------------------------------------

/// Coordinator and registry for sandboxed executions of guest code.
pub struct PythonSandbox {
    /// The shared configuration of every execution.
    pub config: SandboxConfig,
    /// The registry: one record per submitted execution.
    pub records: Vec<ExecutionInfo>,
    /// The next identifier to hand out; all issued ones are below it.
    pub next_id: u64,
}

impl PythonSandbox {
    /// Registry well-formedness: identifiers are unique, all below the
    /// allocator's watermark, and each record is internally consistent.
    pub open spec fn wf(self) -> bool {
        &&& keys_unique(self.records@)
        &&& forall|i: int|
            0 <= i < self.records@.len() ==> (#[trigger] self.records@[i]).id < self.next_id
                && record_ok(self.records@[i])
    }

    /// Whether an identifier names a record.
    pub open spec fn spec_has(self, id: u64) -> bool {
        has_key(self.records@, id)
    }

    /// The record behind an identifier, when there is one.
    pub open spec fn spec_record(self, id: u64) -> ExecutionInfo {
        entry_of_key(self.records@, id)
    }

    /// What a status query returns: absence for an unknown identifier.
    pub open spec fn spec_status(self, id: u64) -> Option<ExecutionStatus> {
        if self.spec_has(id) {
            Some(self.spec_record(id).status)
        } else {
            None
        }
    }

    /// What a result query returns: absence for an unknown identifier
    /// and for a record that has no captured result.
    pub open spec fn spec_result(self, id: u64) -> Option<ExecutionResult> {
        if self.spec_has(id) {
            self.spec_record(id).result
        } else {
            None
        }
    }

    /// Everything outside one identifier is untouched.
    pub open spec fn unchanged_except(pre: PythonSandbox, post: PythonSandbox, id: u64) -> bool {
        &&& post.next_id == pre.next_id
        &&& post.config == pre.config
        &&& forall|other: u64|
            other != id ==> #[trigger] post.spec_has(other) == pre.spec_has(other)
        &&& forall|other: u64|
            other != id && pre.spec_has(other) ==> #[trigger] post.spec_record(other)
                == pre.spec_record(other)
    }

    /// Creates a coordinator with an empty registry. Fails exactly when
    /// the configuration names no interpreter; probing that the named
    /// interpreter actually runs is the caller's concern.
    pub fn new(config: SandboxConfig) -> (r: Result<PythonSandbox, SandboxError>)
        ensures
            config.python_path@.len() > 0 ==> (r matches Ok(s) && s.wf() && s.config == config
                && s.records@ == Seq::<ExecutionInfo>::empty() && s.next_id == 0),
            config.python_path@.len() == 0 ==> (r matches Err(e) && e
                == SandboxError::InterpreterMissing),
    {
        if config.python_path.as_str().unicode_len() == 0 {
            Err(SandboxError::InterpreterMissing)
        } else {
            let s = PythonSandbox { config, records: Vec::new(), next_id: 0 };
            assert(s.records@ == Seq::<ExecutionInfo>::empty());
            Ok(s)
        }
    }

    /// The wall-clock limit one request runs under: its own override,
    /// or the configured default.
    pub fn effective_timeout(&self, request: &ExecutionRequest) -> (r: u64)
        ensures
            r == (match request.timeout {
                Some(t) => t,
                None => self.config.max_execution_time,
            }),
    {
        match request.timeout {
            Some(t) => t,
            None => self.config.max_execution_time,
        }
    }

    /// Position of a record in the registry, by identifier.
    fn position_of(&self, id: u64) -> (r: Option<usize>)
        ensures
            match r {
                Some(i) => i < self.records@.len() && self.records@[i as int].id == id,
                None => !has_key(self.records@, id),
            },
    {
        let n = self.records.len();
        let mut k: usize = 0;
        while k < n
            invariant
                n == self.records@.len(),
                k <= n,
                forall|j: int| 0 <= j < k ==> (#[trigger] self.records@[j]).id != id,
            decreases n - k,
        {
            if self.records[k].id == id {
                return Some(k);
            }
            k = k + 1;
        }
        proof {
            if has_key(self.records@, id) {
                let w = index_of_key(self.records@, id);
                assert(0 <= w < self.records@.len() && self.records@[w].id == id);
            }
        }
        None
    }

    /// What one submission does: it hands out the allocator's watermark
    /// as a fresh identifier never issued before, appends a `Queued`
    /// record for it, and touches nothing else. A status query for the
    /// new identifier answers `Queued`, never absence.
    pub open spec fn submit_transition(
        pre: PythonSandbox,
        post: PythonSandbox,
        id: u64,
        now_ms: u64,
    ) -> bool {
        &&& id == pre.next_id
        &&& !pre.spec_has(id)
        &&& post.next_id == pre.next_id + 1
        &&& post.config == pre.config
        &&& post.records@ == pre.records@.push(
            (ExecutionInfo {
                id,
                started_at: now_ms,
                pid: None,
                status: ExecutionStatus::Queued,
                result: None,
            }),
        )
        &&& post.spec_has(id)
        &&& post.spec_status(id) == Some(ExecutionStatus::Queued)
        &&& post.spec_result(id) == None::<ExecutionResult>
        &&& post.spec_record(id).started_at == now_ms
        &&& forall|other: u64|
            other != id ==> #[trigger] post.spec_has(other) == pre.spec_has(other)
        &&& forall|other: u64|
            other != id && pre.spec_has(other) ==> #[trigger] post.spec_record(other)
                == pre.spec_record(other)
    }

    /// Accepts a request at a given clock reading: allocates a fresh
    /// identifier and inserts its `Queued` record. The request carries
    /// no identity; launching its worker is the caller's next step.
    pub fn submit_at(&mut self, request: &ExecutionRequest, now_ms: u64) -> (id: u64)
        requires
            old(self).wf(),
            old(self).next_id < u64::MAX,
        ensures
            final(self).wf(),
            Self::submit_transition(*old(self), *final(self), id, now_ms),
    {
        let id = self.next_id;
        let rec = ExecutionInfo {
            id,
            started_at: now_ms,
            pid: None,
            status: ExecutionStatus::Queued,
            result: None,
        };
        proof {
            if has_key(self.records@, id) {
                let w = index_of_key(self.records@, id);
                assert(0 <= w < self.records@.len() && self.records@[w].id == id);
            }
        }
        self.next_id = self.next_id + 1;
        self.records.push(rec);
        proof {
            let pre = old(self).records@;
            let post = self.records@;
            assert(post == pre.push(rec));
            lemma_push_entry(pre, rec, id);
            assert forall|other: u64| other != id implies #[trigger] self.spec_has(other)
                == old(self).spec_has(other) by {
                lemma_push_entry(pre, rec, other);
            }
            assert forall|other: u64| other != id && old(self).spec_has(other) implies #[trigger]
            self.spec_record(other) == old(self).spec_record(other) by {
                lemma_push_entry(pre, rec, other);
            }
        }
        id
    }

    /// Accepts a request against the live clock. The identifier and the
    /// `Queued` record are exactly those of [`Self::submit_at`]; only
    /// the recorded submission time comes from the environment.
    pub fn submit(&mut self, request: &ExecutionRequest) -> (id: u64)
        requires
            old(self).wf(),
            old(self).next_id < u64::MAX,
        ensures
            final(self).wf(),
            exists|now_ms: u64|
                Self::submit_transition(*old(self), *final(self), id, now_ms),
    {
        let now_ms = now_millis();
        let id = self.submit_at(request, now_ms);
        proof {
            assert(Self::submit_transition(*old(self), *self, id, now_ms));
        }
        id
    }

    /// Marks a queued record as running under a worker handle. The
    /// handle is set here and never again; a record that is not queued
    /// is left untouched.
    pub fn mark_running(&mut self, id: u64, pid: i32) -> (r: bool)
        requires
            old(self).wf(),
        ensures
            final(self).wf(),
            Self::unchanged_except(*old(self), *final(self), id),
            r == (old(self).spec_status(id) == Some(ExecutionStatus::Queued)),
            r ==> final(self).spec_has(id) && final(self).spec_record(id) == (ExecutionInfo {
                pid: Some(pid),
                status: ExecutionStatus::Running,
                ..old(self).spec_record(id)
            }),
            !r ==> *final(self) == *old(self),
    {
        let pos = self.position_of(id);
        match pos {
            None => {
                proof {
                    assert(!old(self).spec_has(id));
                }
                false
            },
            Some(i) => {
                proof {
                    lemma_entry_at(self.records@, i as int);
                }
                let queued = self.records[i].status == ExecutionStatus::Queued;
                if queued {
                    let mut rec = self.records[i].clone();
                    rec.pid = Some(pid);
                    rec.status = ExecutionStatus::Running;
                    let ghost pre = self.records@;
                    self.records[i] = rec;
                    proof {
                        assert(self.records@ == pre.update(i as int, rec));
                        lemma_update_entry(pre, i as int, rec, rec.id);
                        assert forall|other: u64| other != id implies #[trigger] self.spec_has(
                            other,
                        ) == old(self).spec_has(other) by {
                            lemma_update_entry(pre, i as int, rec, other);
                        }
                        assert forall|other: u64|
                            other != id && old(self).spec_has(other) implies #[trigger]
                        self.spec_record(other) == old(self).spec_record(other) by {
                            lemma_update_entry(pre, i as int, rec, other);
                        }
                    }
                    true
                } else {
                    false
                }
            },
        }
    }

    /// What resolving one record with a worker outcome does: the
    /// record keeps its identity, submission time and worker handle,
    /// its status becomes the outcome's classification, a real exit
    /// stores the captured streams cut to the byte ceiling with the
    /// wall-clock span at the given reading, and every other outcome
    /// stores no result.
    pub open spec fn outcome_transition(
        pre: PythonSandbox,
        post: PythonSandbox,
        id: u64,
        outcome: WorkerOutcome,
        now_ms: u64,
    ) -> bool {
        let prer = pre.spec_record(id);
        let postr = post.spec_record(id);
        &&& post.spec_has(id)
        &&& postr.id == prer.id
        &&& postr.started_at == prer.started_at
        &&& postr.pid == prer.pid
        &&& postr.status == spec_outcome_status(outcome)
        &&& (outcome matches WorkerOutcome::Exited { exit_code, stdout, stderr } ==>
            postr.result matches Some(res) && res.exit_code == exit_code && res.stdout@
                == spec_truncated(stdout@, pre.config.max_output_size as nat) && res.stderr@
                == spec_truncated(stderr@, pre.config.max_output_size as nat) && res.duration_ms
                == spec_duration(now_ms, prer.started_at) && res.memory_mb == 0 && res.cpu_time_ms
                == 0)
        &&& (outcome matches WorkerOutcome::Signaled { stdout, stderr } ==>
            postr.result matches Some(res) && res.exit_code == ABNORMAL_EXIT_CODE && res.stdout@
                == spec_truncated(stdout@, pre.config.max_output_size as nat) && res.stderr@
                == spec_truncated(stderr@, pre.config.max_output_size as nat) && res.duration_ms
                == spec_duration(now_ms, prer.started_at) && res.memory_mb == 0 && res.cpu_time_ms
                == 0)
        &&& ((outcome is TimedOut || outcome is WaitFailed || outcome is LaunchFailed)
            ==> postr.result is None)
    }

    /// Resolves a record with what the outside supervision reported.
    /// A real exit stores the captured streams, each cut to the output
    /// ceiling; the other outcomes store no result. A record the
    /// outcome does not apply to — above all a terminal one — is left
    /// untouched, so whichever of a kill and a natural completion comes
    /// first wins and the later one is a no-op.
    pub fn apply_outcome_at(&mut self, id: u64, outcome: WorkerOutcome, now_ms: u64) -> (r: bool)
        requires
            old(self).wf(),
        ensures
            final(self).wf(),
            Self::unchanged_except(*old(self), *final(self), id),
            r == (old(self).spec_has(id) && spec_outcome_applies(
                old(self).spec_record(id).status,
                outcome,
            )),
            !r ==> *final(self) == *old(self),
            r ==> Self::outcome_transition(*old(self), *final(self), id, outcome, now_ms),
    {
        let ceiling = self.config.max_output_size;
        let pos = self.position_of(id);
        match pos {
            None => false,
            Some(i) => {
                proof {
                    lemma_entry_at(self.records@, i as int);
                }
                let st = self.records[i].status;
                let applies = match &outcome {
                    WorkerOutcome::LaunchFailed => st == ExecutionStatus::Queued,
                    _ => st == ExecutionStatus::Running,
                };
                if !applies {
                    false
                } else {
                    let started = self.records[i].started_at;
                    let duration_ms = if now_ms >= started {
                        now_ms - started
                    } else {
                        0
                    };
                    let mut rec = self.records[i].clone();
                    match outcome {
                        WorkerOutcome::Exited { exit_code, stdout, stderr } => {
                            rec.status = if exit_code == 0 {
                                ExecutionStatus::Completed
                            } else {
                                ExecutionStatus::Failed
                            };
                            rec.result = Some(
                                ExecutionResult {
                                    exit_code,
                                    stdout: truncate_output(stdout.as_str(), ceiling),
                                    stderr: truncate_output(stderr.as_str(), ceiling),
                                    duration_ms,
                                    memory_mb: 0,
                                    cpu_time_ms: 0,
                                },
                            );
                        },
                        WorkerOutcome::Signaled { stdout, stderr } => {
                            rec.status = ExecutionStatus::Failed;
                            rec.result = Some(
                                ExecutionResult {
                                    exit_code: ABNORMAL_EXIT_CODE,
                                    stdout: truncate_output(stdout.as_str(), ceiling),
                                    stderr: truncate_output(stderr.as_str(), ceiling),
                                    duration_ms,
                                    memory_mb: 0,
                                    cpu_time_ms: 0,
                                },
                            );
                        },
                        WorkerOutcome::TimedOut => {
                            rec.status = ExecutionStatus::TimedOut;
                            rec.result = None;
                        },
                        WorkerOutcome::WaitFailed => {
                            rec.status = ExecutionStatus::Failed;
                            rec.result = None;
                        },
                        WorkerOutcome::LaunchFailed => {
                            rec.status = ExecutionStatus::Failed;
                            rec.result = None;
                        },
                    }
                    let ghost pre = self.records@;
                    self.records[i] = rec;
                    proof {
                        assert(self.records@ == pre.update(i as int, rec));
                        lemma_update_entry(pre, i as int, rec, rec.id);
                        assert forall|other: u64| other != id implies #[trigger] self.spec_has(
                            other,
                        ) == old(self).spec_has(other) by {
                            lemma_update_entry(pre, i as int, rec, other);
                        }
                        assert forall|other: u64|
                            other != id && old(self).spec_has(other) implies #[trigger]
                        self.spec_record(other) == old(self).spec_record(other) by {
                            lemma_update_entry(pre, i as int, rec, other);
                        }
                    }
                    true
                }
            },
        }
    }

    /// Resolves a record against the live clock: the full transition of
    /// [`Self::apply_outcome_at`] holds at whatever reading the
    /// environment's clock gave, so only the recorded duration depends
    /// on the environment — the status, exit code and captured streams
    /// do not.
    pub fn record_outcome(&mut self, id: u64, outcome: WorkerOutcome) -> (r: bool)
        requires
            old(self).wf(),
        ensures
            final(self).wf(),
            Self::unchanged_except(*old(self), *final(self), id),
            r == (old(self).spec_has(id) && spec_outcome_applies(
                old(self).spec_record(id).status,
                outcome,
            )),
            !r ==> *final(self) == *old(self),
            r ==> exists|now_ms: u64|
                #[trigger] Self::outcome_transition(*old(self), *final(self), id, outcome, now_ms),
    {
        let now_ms = now_millis();
        let r = self.apply_outcome_at(id, outcome, now_ms);
        proof {
            if r {
                assert(Self::outcome_transition(*old(self), *self, id, outcome, now_ms));
            }
        }
        r
    }

    /// Requests termination of a running worker: sends it the
    /// termination signal and, when delivery succeeded, moves the
    /// record to `Killed`. Returns whether a live worker was actually
    /// signaled. A record that is queued (no worker yet), terminal,
    /// unknown, or whose handle is not a real process id (kill(2)
    /// addresses process groups through non-positive values) is left
    /// untouched and the answer is false.
    pub fn kill(&mut self, id: u64) -> (r: bool)
        requires
            old(self).wf(),
        ensures
            final(self).wf(),
            Self::unchanged_except(*old(self), *final(self), id),
            ({
                let can = old(self).spec_has(id) && old(self).spec_record(id).status
                    is Running && (old(self).spec_record(id).pid matches Some(p) && p > 0);
                &&& !can ==> r == false && *final(self) == *old(self)
                &&& (can && r) ==> final(self).spec_has(id) && final(self).spec_record(id)
                    == (ExecutionInfo { status: ExecutionStatus::Killed, ..old(self).spec_record(id) })
                &&& (can && !r) ==> *final(self) == *old(self)
            }),
            old(self).spec_status(id) == Some(ExecutionStatus::Queued) ==> r == false
                && *final(self) == *old(self),
            old(self).spec_has(id) && spec_is_terminal(old(self).spec_record(id).status) ==> r
                == false && *final(self) == *old(self),
    {
        let pos = self.position_of(id);
        match pos {
            None => false,
            Some(i) => {
                proof {
                    lemma_entry_at(self.records@, i as int);
                }
                let running = self.records[i].status == ExecutionStatus::Running;
                let pid = self.records[i].pid;
                match pid {
                    Some(p) => if !running || p <= 0 {
                        false
                    } else {
                        let signaled = send_sigterm(p);
                        if signaled {
                            let mut rec = self.records[i].clone();
                            rec.status = ExecutionStatus::Killed;
                            let ghost pre = self.records@;
                            self.records[i] = rec;
                            proof {
                                assert(self.records@ == pre.update(i as int, rec));
                                lemma_update_entry(pre, i as int, rec, rec.id);
                                assert forall|other: u64| other != id implies #[trigger]
                                self.spec_has(other) == old(self).spec_has(other) by {
                                    lemma_update_entry(pre, i as int, rec, other);
                                }
                                assert forall|other: u64|
                                    other != id && old(self).spec_has(other) implies #[trigger]
                                self.spec_record(other) == old(self).spec_record(other) by {
                                    lemma_update_entry(pre, i as int, rec, other);
                                }
                            }
                            true
                        } else {
                            false
                        }
                    },
                    None => false,
                }
            },
        }
    }

    /// Removes every terminal record and retains the queued and running
    /// ones untouched, in their order. A caller who has not read a
    /// result before this sweep loses it.
    pub fn cleanup(&mut self)
        requires
            old(self).wf(),
        ensures
            final(self).wf(),
            final(self).next_id == old(self).next_id,
            final(self).config == old(self).config,
            final(self).records@ == old(self).records@.filter(
                |r: ExecutionInfo| !spec_is_terminal(r.status),
            ),
            forall|id: u64|
                #[trigger] final(self).spec_has(id) <==> (old(self).spec_has(id)
                    && !spec_is_terminal(old(self).spec_record(id).status)),
            forall|id: u64|
                #[trigger] final(self).spec_has(id) ==> final(self).spec_record(id) == old(
                    self,
                ).spec_record(id),
    {
        let ghost all = self.records@;
        let ghost p = |r: ExecutionInfo| !spec_is_terminal(r.status);
        let n = self.records.len();
        let mut kept: Vec<ExecutionInfo> = Vec::new();
        let mut k: usize = 0;
        proof {
            reveal(Seq::filter);
            assert(all.take(0) =~= Seq::<ExecutionInfo>::empty());
        }
        while k < n
            invariant
                n == all.len(),
                k <= n,
                self.records@ == all,
                kept@ == all.take(k as int).filter(p),
                p == (|r: ExecutionInfo| !spec_is_terminal(r.status)),
            decreases n - k,
        {
            let terminal = self.records[k].status.is_terminal();
            proof {
                reveal(Seq::filter);
                assert(all.take(k + 1).drop_last() =~= all.take(k as int));
                assert(all.take(k + 1).last() == all[k as int]);
            }
            if !terminal {
                let rec = self.records[k].clone();
                kept.push(rec);
            }
            k = k + 1;
        }
        proof {
            assert(all.take(n as int) =~= all);
        }
        self.records = kept;
        proof {
            lemma_filter_find(all, p, 0);
            let f = all.filter(p);
            assert forall|i: int|
                0 <= i < f.len() implies (#[trigger] f[i]).id < self.next_id && record_ok(f[i]) by {
                assert(all.contains(f[i]));
                let j = choose|j: int| 0 <= j < all.len() && all[j] == f[i];
                assert(all[j].id < old(self).next_id && record_ok(all[j]));
            }
            assert forall|id: u64|
                #[trigger] self.spec_has(id) <==> (old(self).spec_has(id) && !spec_is_terminal(
                    old(self).spec_record(id).status,
                )) by {
                lemma_filter_find(all, p, id);
            }
            assert forall|id: u64| #[trigger] self.spec_has(id) implies self.spec_record(id)
                == old(self).spec_record(id) by {
                lemma_filter_find(all, p, id);
            }
        }
    }

    /// Pure lookup of a record's lifecycle state; absence, not an
    /// error, for an unknown identifier.
    pub fn get_status(&self, id: u64) -> (r: Option<ExecutionStatus>)
        requires
            self.wf(),
        ensures
            r == self.spec_status(id),
    {
        match self.position_of(id) {
            None => None,
            Some(i) => {
                proof {
                    lemma_entry_at(self.records@, i as int);
                }
                Some(self.records[i].status)
            },
        }
    }

    /// Pure lookup of a record's captured result; absence both for an
    /// unknown identifier and for a record not resolved by a real exit.
    pub fn get_result(&self, id: u64) -> (r: Option<ExecutionResult>)
        requires
            self.wf(),
        ensures
            r == self.spec_result(id),
    {
        match self.position_of(id) {
            None => None,
            Some(i) => {
                proof {
                    lemma_entry_at(self.records@, i as int);
                }
                match &self.records[i].result {
                    Some(res) => Some(res.clone()),
                    None => None,
                }
            },
        }
    }
}

// ---------------------------------------------------------------------
// Trusted boundary
// ---------------------------------------------------------------------

/// Relies on nix::sys::signal::kill to deliver SIGTERM to the worker
/// process. Whether delivery succeeds depends on the live process
/// table, so nothing is promised of the answer. A non-positive value
/// would address a process group rather than one worker, so such
/// handles are left out.
#[verifier::external_body]
fn send_sigterm(pid: i32) -> (ok: bool)
    requires
        pid > 0,
{
    nix::sys::signal::kill(
        nix::unistd::Pid::from_raw(pid),
        nix::sys::signal::Signal::SIGTERM,
    ).is_ok()
}

// ---------------------------------------------------------------------
// Lemmas about filtering the registry
// ---------------------------------------------------------------------

/// Filtering a registry with unique identifiers keeps identifiers
/// unique, keeps only records of the registry itself, and finds an
/// identifier exactly when its record satisfies the predicate — then
/// unchanged.
proof fn lemma_filter_find(s: Seq<ExecutionInfo>, p: spec_fn(ExecutionInfo) -> bool, id: u64)
    requires
        keys_unique(s),
    ensures
        keys_unique(s.filter(p)),
        forall|k: int| 0 <= k < s.filter(p).len() ==> s.contains(#[trigger] s.filter(p)[k]),
        has_key(s.filter(p), id) <==> (has_key(s, id) && p(entry_of_key(s, id))),
        has_key(s.filter(p), id) ==> entry_of_key(s.filter(p), id) == entry_of_key(s, id),
    decreases s.len(),
{
    reveal(Seq::filter);
    let f = s.filter(p);
    if s.len() == 0 {
        assert(f =~= s);
        assert(!has_key(s, id));
        assert(!has_key(f, id));
    } else {
        let s0 = s.drop_last();
        let x = s.last();
        let f0 = s0.filter(p);
        assert forall|i: int, j: int| 0 <= i < j < s0.len() implies (#[trigger] s0[i]).id != (
        #[trigger] s0[j]).id by {
            assert(s0[i] == s[i] && s0[j] == s[j]);
        }
        lemma_filter_find(s0, p, id);
        // Every identifier of the prefix differs from the last record's.
        assert forall|i: int| 0 <= i < s0.len() implies (#[trigger] s0[i]).id != x.id by {
            assert(s0[i] == s[i] && x == s[s.len() - 1]);
        }
        // Elements of the filtered prefix occur in the whole sequence.
        assert forall|k: int| 0 <= k < f.len() implies s.contains(#[trigger] f[k]) by {
            if p(x) {
                assert(f == f0.push(x));
                if k < f0.len() {
                    assert(f[k] == f0[k]);
                    assert(s0.contains(f0[k]));
                    let j = choose|j: int| 0 <= j < s0.len() && s0[j] == f0[k];
                    assert(s[j] == f[k]);
                } else {
                    assert(f[k] == x && s[s.len() - 1] == x);
                }
            } else {
                assert(f == f0);
                assert(s0.contains(f0[k]));
                let j = choose|j: int| 0 <= j < s0.len() && s0[j] == f0[k];
                assert(s[j] == f[k]);
            }
        }
        // Identifiers stay unique in the filtered sequence.
        assert forall|i: int, j: int| 0 <= i < j < f.len() implies (#[trigger] f[i]).id != (
        #[trigger] f[j]).id by {
            if p(x) {
                assert(f == f0.push(x));
                if j == f0.len() {
                    assert(f[i] == f0[i]);
                    assert(s0.contains(f0[i]));
                    let w = choose|w: int| 0 <= w < s0.len() && s0[w] == f0[i];
                    assert(s0[w].id != x.id);
                } else {
                    assert(f[i] == f0[i] && f[j] == f0[j]);
                }
            } else {
                assert(f == f0);
            }
        }
        if id == x.id {
            assert(!has_key(s0, id)) by {
                if has_key(s0, id) {
                    let w = index_of_key(s0, id);
                    assert(0 <= w < s0.len() && s0[w].id == id);
                }
            }
            lemma_entry_at(s, s.len() - 1);
            assert(entry_of_key(s, id) == x);
            assert(has_key(s, id));
            if p(x) {
                assert(f == f0.push(x));
                assert(f[f0.len() as int] == x);
                assert(has_key(f, id));
                lemma_entry_at(f, f0.len() as int);
            } else {
                assert(f == f0);
                assert(!has_key(f, id));
            }
        } else {
            // The last record is not the one sought: both the full
            // sequence and its filtering agree with the prefix.
            assert(has_key(s, id) == has_key(s0, id)) by {
                if has_key(s0, id) {
                    let w = index_of_key(s0, id);
                    assert(0 <= w < s0.len() && s0[w].id == id);
                    assert(s[w].id == id);
                }
                if has_key(s, id) {
                    let w = index_of_key(s, id);
                    assert(0 <= w < s.len() && s[w].id == id);
                    assert(w != s.len() - 1);
                    assert(s0[w].id == id);
                }
            }
            if has_key(s0, id) {
                let w = index_of_key(s0, id);
                assert(0 <= w < s0.len() && s0[w].id == id);
                lemma_entry_at(s0, w);
                assert(s[w] == s0[w]);
                lemma_entry_at(s, w);
            }
            assert(has_key(f, id) == has_key(f0, id)) by {
                if has_key(f0, id) {
                    let w = index_of_key(f0, id);
                    assert(0 <= w < f0.len() && f0[w].id == id);
                    if p(x) {
                        assert(f == f0.push(x));
                        assert(f[w].id == id);
                    }
                    assert(has_key(f, id));
                }
                if has_key(f, id) {
                    let w = index_of_key(f, id);
                    assert(0 <= w < f.len() && f[w].id == id);
                    if p(x) {
                        assert(f == f0.push(x));
                        assert(w != f0.len());
                        assert(f0[w].id == id);
                    }
                    assert(has_key(f0, id));
                }
            }
            if has_key(f, id) {
                let w = index_of_key(f0, id);
                assert(0 <= w < f0.len() && f0[w].id == id);
                lemma_entry_at(f0, w);
                if p(x) {
                    assert(f == f0.push(x));
                    assert(f[w] == f0[w]);
                }
                lemma_entry_at(f, w);
            }
        }
    }
}

// ---------------------------------------------------------------------
// Laws of the lifecycle
// ---------------------------------------------------------------------

/// Two submissions, one after the other, never hand out the same
/// identifier; afterwards both records exist independently, each
/// freshly queued, and the second submission left the first one's
/// record exactly as the first made it.
pub proof fn lemma_submitted_ids_distinct(
    s0: PythonSandbox,
    s1: PythonSandbox,
    s2: PythonSandbox,
    id1: u64,
    id2: u64,
    t1: u64,
    t2: u64,
)
    requires
        PythonSandbox::submit_transition(s0, s1, id1, t1),
        PythonSandbox::submit_transition(s1, s2, id2, t2),
    ensures
        id1 != id2,
        s2.spec_has(id1),
        s2.spec_has(id2),
        s2.spec_status(id1) == Some(ExecutionStatus::Queued),
        s2.spec_status(id2) == Some(ExecutionStatus::Queued),
        s2.spec_record(id1) == s1.spec_record(id1),
{
}

/// A record that has reached a terminal state is settled: no worker
/// outcome applies to it any more, and it is not running, so a kill
/// request does not address it either. Whichever of a kill and a
/// natural resolution came first decided the record's single terminal
/// state.
pub proof fn lemma_terminal_is_stable(st: ExecutionStatus, o: WorkerOutcome)
    requires
        spec_is_terminal(st),
    ensures
        !spec_outcome_applies(st, o),
        !(st is Running),
{
}

/// Every worker outcome resolves a record to a terminal state: no
/// execution that an outcome was recorded for is left unresolved.
pub proof fn lemma_outcome_is_terminal(o: WorkerOutcome)
    ensures
        spec_is_terminal(spec_outcome_status(o)),
{
}

} // verus!
