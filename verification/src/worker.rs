//! The decisions of the transcode worker, one FFmpeg run and one queue at a
//! time. The host starts the process, polls it, sends signals, moves files and
//! reports each outcome here as a [`JobSignal`]; [`job_step`] answers with the
//! actions to take next, in order. [`queue_step`] decides which file runs next
//! and when the queue stops.
use vstd::prelude::*;

use crate::text::{owned, push_str};
use crate::transcode::{failure_message, failure_text, TranscodeError, WorkerEvent};

verus! {

/// Prefix of the message for a process that could not be started.
pub const START_FAILED_PREFIX: &'static str = "Failed to start FFmpeg: ";

/// Prefix of the message for a process that could no longer be waited on.
pub const WAIT_FAILED_PREFIX: &'static str = "Failed while waiting for FFmpeg: ";

/// How long a cancelled FFmpeg may take to stop on SIGINT before it is killed.
pub const KILL_GRACE_MS: u64 = 3000;

/// What the host observed about the job it runs.
#[derive(Debug)]
pub enum JobSignal {
    /// FFmpeg started with this process id.
    Spawned { pid: u32 },
    /// FFmpeg could not be started; the operating system's reason.
    SpawnFailed(String),
    /// The user asked to cancel, at `at_ms` on the host's clock.
    CancelRequested { at_ms: u64 },
    /// The process is still running at `now_ms`.
    Tick { now_ms: u64 },
    /// The process ended, and its output streams are drained.
    Exited { success: bool, code: Option<i32> },
    /// Waiting on the process failed; the operating system's reason.
    WaitFailed(String),
    /// Whether something now exists at the final output path.
    OutputChecked { exists: bool },
    /// The temporary output was moved to the final path, or why not.
    Persisted { result: Result<(), String>, now_ms: u64 },
}

/// What the host does next for the job.
#[derive(Debug)]
pub enum JobAction {
    /// Reports an event to the interface.
    Send(WorkerEvent),
    /// Sends SIGINT, asking FFmpeg to stop cleanly.
    Interrupt,
    /// Kills the process.
    Kill,
    /// Looks whether the final output path is taken.
    CheckOutput,
    /// Moves the temporary output to the final path.
    Persist,
    /// Deletes the job's private temporary directory.
    RemoveTemporary,
    /// The job is over; no more signals are needed.
    Finish,
}

#[derive(Debug, Clone, Copy, PartialEq, Eq, Structural)]
pub enum JobPhase {
    /// FFmpeg has not been started yet.
    Starting,
    /// FFmpeg runs.
    Running,
    /// FFmpeg succeeded; the final path is being looked at.
    Checking,
    /// The output is being moved into place.
    Moving,
    /// The job is over.
    Done,
}

/// One job of the queue, as far as the worker has taken it.
#[derive(Debug)]
pub struct JobRun {
    /// The job's place in the queue.
    pub index: usize,
    /// Where the finished file goes.
    pub output: String,
    /// When the job began, on the host's clock.
    pub started_ms: u64,
    pub phase: JobPhase,
    /// FFmpeg's process id, once it started.
    pub pid: Option<u32>,
    /// When a cancel was acted on.
    pub cancel_at: Option<u64>,
    /// Whether the process was seen to end.
    pub exited: bool,
}

/// Milliseconds from `start` to `now`; nothing when the clock ran backwards.
pub open spec fn elapsed_between(start: u64, now: u64) -> u64 {
    if now >= start {
        (now - start) as u64
    } else {
        0
    }
}

/// Whether a cancel acted on at `cancel_at` has waited long enough at `now`
/// for the process to be killed.
pub open spec fn kill_due(cancel_at: Option<u64>, now: u64) -> bool {
    cancel_at matches Some(at) && now >= at + KILL_GRACE_MS
}

/// The three closing actions of a job that failed with `text`.
pub open spec fn fails_with(actions: Seq<JobAction>, index: usize, text: Seq<char>) -> bool {
    &&& actions.len() == 3
    &&& actions[0] matches JobAction::Send(WorkerEvent::Failed { index: i, error }) && i == index
        && error@ == text
    &&& actions[1] == JobAction::RemoveTemporary
    &&& actions[2] == JobAction::Finish
}

/// Whether `event` ends the job at `index`.
pub open spec fn ends_job(event: WorkerEvent, index: usize) -> bool {
    match event {
        WorkerEvent::Finished { index: i, .. } => i == index,
        WorkerEvent::Failed { index: i, .. } => i == index,
        WorkerEvent::Cancelled { index: i } => i == index,
        _ => false,
    }
}

/// The events among `actions`, in order.
pub open spec fn sent(actions: Seq<JobAction>) -> Seq<WorkerEvent>
    decreases actions.len(),
{
    if actions.len() == 0 {
        Seq::empty()
    } else {
        let rest = sent(actions.drop_last());
        match actions.last() {
            JobAction::Send(event) => rest.push(event),
            _ => rest,
        }
    }
}

impl JobRun {
    /// A job that has not started yet.
    pub open spec fn fresh(self, index: usize, output: Seq<char>, started_ms: u64) -> bool {
        &&& self.index == index
        &&& self.output@ == output
        &&& self.started_ms == started_ms
        &&& self.phase == JobPhase::Starting
        &&& self.pid is None
        &&& self.cancel_at is None
        &&& !self.exited
    }

    /// The job after `signal`, and the actions it calls for: `next` and
    /// `actions` are exactly what one step from `self` gives.
    pub open spec fn steps(self, next: JobRun, signal: JobSignal, actions: Seq<JobAction>) -> bool {
        let same = next == self && actions.len() == 0;
        let done = JobRun { phase: JobPhase::Done, ..self };
        match self.phase {
            JobPhase::Starting => match signal {
                JobSignal::Spawned { pid } => {
                    &&& next == (JobRun { phase: JobPhase::Running, pid: Some(pid), ..self })
                    &&& actions == seq![JobAction::Send(WorkerEvent::Started { index: self.index, pid })]
                },
                JobSignal::SpawnFailed(reason) => next == done && fails_with(
                    actions,
                    self.index,
                    START_FAILED_PREFIX@ + reason@,
                ),
                _ => same,
            },
            JobPhase::Running => match signal {
                JobSignal::CancelRequested { at_ms } => if self.cancel_at is None {
                    &&& next == (JobRun { cancel_at: Some(at_ms), ..self })
                    &&& actions == seq![JobAction::Interrupt]
                } else {
                    same
                },
                JobSignal::Tick { now_ms } => next == self && actions == (if kill_due(
                    self.cancel_at,
                    now_ms,
                ) {
                    seq![JobAction::Kill]
                } else {
                    Seq::empty()
                }),
                JobSignal::Exited { success, code } => if self.cancel_at is Some {
                    &&& next == (JobRun { exited: true, ..done })
                    &&& actions == seq![
                        JobAction::Send(WorkerEvent::Cancelled { index: self.index }),
                        JobAction::RemoveTemporary,
                        JobAction::Finish,
                    ]
                } else if success {
                    &&& next == (JobRun { phase: JobPhase::Checking, exited: true, ..self })
                    &&& actions == seq![JobAction::CheckOutput]
                } else {
                    next == (JobRun { exited: true, ..done }) && fails_with(
                        actions,
                        self.index,
                        failure_text(code),
                    )
                },
                JobSignal::WaitFailed(reason) => {
                    &&& next == done
                    &&& actions.len() == 4
                    &&& actions[0] == JobAction::Kill
                    &&& fails_with(actions.drop_first(), self.index, WAIT_FAILED_PREFIX@ + reason@)
                },
                _ => same,
            },
            JobPhase::Checking => match signal {
                JobSignal::OutputChecked { exists } => if exists {
                    next == done && fails_with(
                        actions,
                        self.index,
                        TranscodeError::OutputExists.message_text(),
                    )
                } else {
                    &&& next == (JobRun { phase: JobPhase::Moving, ..self })
                    &&& actions == seq![JobAction::Persist]
                },
                _ => same,
            },
            JobPhase::Moving => match signal {
                JobSignal::Persisted { result, now_ms } => next == done && match result {
                    Ok(()) => {
                        &&& actions.len() == 3
                        &&& actions[0] matches JobAction::Send(
                            WorkerEvent::Finished { index: i, output, elapsed_ms },
                        ) && i == self.index && output@ == self.output@ && elapsed_ms
                            == elapsed_between(self.started_ms, now_ms)
                        &&& actions[1] == JobAction::RemoveTemporary
                        &&& actions[2] == JobAction::Finish
                    },
                    Err(reason) => fails_with(
                        actions,
                        self.index,
                        TranscodeError::Io(reason).message_text(),
                    ),
                },
                _ => same,
            },
            JobPhase::Done => same,
        }
    }

    /// What holds of a job and of `history`, every action taken for it so far:
    /// at most one `Started`, and it comes first; once the job is over, exactly
    /// one closing event, last, followed by the removal of the temporary
    /// directory and `Finish`; `Cancelled` exactly when a cancel was acted on
    /// before the process ended, and then nothing was persisted; `Finished`
    /// only after a persist.
    pub open spec fn accounts_for(self, history: Seq<JobAction>) -> bool {
        let started = match self.pid {
            Some(pid) => seq![WorkerEvent::Started { index: self.index, pid }],
            None => Seq::empty(),
        };
        match self.phase {
            JobPhase::Starting => {
                &&& history.len() == 0
                &&& self.pid is None
                &&& self.cancel_at is None
                &&& !self.exited
            },
            JobPhase::Done => {
                &&& history.len() > 0
                &&& history.last() == JobAction::Finish
                &&& history.contains(JobAction::RemoveTemporary)
                &&& sent(history).len() == started.len() + 1
                &&& sent(history).take(started.len() as int) == started
                &&& ends_job(sent(history).last(), self.index)
                &&& (sent(history).last() is Cancelled <==> self.cancel_at is Some && self.exited)
                &&& (self.cancel_at is Some ==> !history.contains(JobAction::Persist))
                &&& (sent(history).last() is Finished ==> history.contains(JobAction::Persist))
            },
            _ => {
                &&& self.pid is Some
                &&& sent(history) == started
                &&& !history.contains(JobAction::Finish)
                &&& !history.contains(JobAction::RemoveTemporary)
                &&& (self.phase == JobPhase::Running ==> !history.contains(JobAction::Persist))
                &&& (self.phase == JobPhase::Running ==> !self.exited)
                &&& (self.phase != JobPhase::Running ==> self.cancel_at is None && self.exited)
                &&& (self.phase == JobPhase::Moving ==> history.contains(JobAction::Persist))
            },
        }
    }

    /// A job at `index` that writes `output` and begins at `started_ms`.
    pub fn new(index: usize, output: String, started_ms: u64) -> (r: JobRun)
        ensures
            r.fresh(index, output@, started_ms),
            r.accounts_for(Seq::empty()),
    {
        JobRun {
            index,
            output,
            started_ms,
            phase: JobPhase::Starting,
            pid: None,
            cancel_at: None,
            exited: false,
        }
    }

    /// Whether the job was cancelled; meaningful once it is over.
    pub fn was_cancelled(&self) -> (r: bool)
        ensures
            r == self.cancel_at is Some,
    {
        self.cancel_at.is_some()
    }

    /// Whether the host should still look for a cancel request.
    pub fn listens_for_cancel(&self) -> (r: bool)
        ensures
            r == (self.phase == JobPhase::Running && self.cancel_at is None),
    {
        self.phase == JobPhase::Running && self.cancel_at.is_none()
    }
}

fn failed(index: usize, error: String) -> (r: Vec<JobAction>)
    ensures
        fails_with(r@, index, error@),
{
    let mut r: Vec<JobAction> = Vec::new();
    r.push(JobAction::Send(WorkerEvent::Failed { index, error }));
    r.push(JobAction::RemoveTemporary);
    r.push(JobAction::Finish);
    r
}

fn prefixed(prefix: &str, reason: &String) -> (r: String)
    ensures
        r@ == prefix@ + reason@,
{
    let mut r = owned(prefix);
    push_str(&mut r, reason.as_str());
    r
}

/// Takes one observation of the host and answers with the actions that follow
/// from it, in order. Signals that do not fit the job's phase change nothing.
pub fn job_step(run: &mut JobRun, signal: JobSignal) -> (actions: Vec<JobAction>)
    ensures
        old(run).steps(*final(run), signal, actions@),
{
    let index = run.index;
    match run.phase {
        JobPhase::Starting => match signal {
            JobSignal::Spawned { pid } => {
                run.phase = JobPhase::Running;
                run.pid = Some(pid);
                let mut r: Vec<JobAction> = Vec::new();
                r.push(JobAction::Send(WorkerEvent::Started { index, pid }));
                r
            },
            JobSignal::SpawnFailed(reason) => {
                run.phase = JobPhase::Done;
                failed(index, prefixed(START_FAILED_PREFIX, &reason))
            },
            _ => Vec::new(),
        },
        JobPhase::Running => match signal {
            JobSignal::CancelRequested { at_ms } => {
                if run.cancel_at.is_none() {
                    run.cancel_at = Some(at_ms);
                    let mut r: Vec<JobAction> = Vec::new();
                    r.push(JobAction::Interrupt);
                    r
                } else {
                    Vec::new()
                }
            },
            JobSignal::Tick { now_ms } => {
                let due = match run.cancel_at {
                    Some(at) => now_ms >= at && now_ms - at >= KILL_GRACE_MS,
                    None => false,
                };
                let mut r: Vec<JobAction> = Vec::new();
                if due {
                    r.push(JobAction::Kill);
                }
                r
            },
            JobSignal::Exited { success, code } => {
                run.exited = true;
                if run.cancel_at.is_some() {
                    run.phase = JobPhase::Done;
                    let mut r: Vec<JobAction> = Vec::new();
                    r.push(JobAction::Send(WorkerEvent::Cancelled { index }));
                    r.push(JobAction::RemoveTemporary);
                    r.push(JobAction::Finish);
                    assert(r@ =~= seq![
                        JobAction::Send(WorkerEvent::Cancelled { index }),
                        JobAction::RemoveTemporary,
                        JobAction::Finish,
                    ]);
                    r
                } else if success {
                    run.phase = JobPhase::Checking;
                    let mut r: Vec<JobAction> = Vec::new();
                    r.push(JobAction::CheckOutput);
                    r
                } else {
                    run.phase = JobPhase::Done;
                    failed(index, failure_message(code))
                }
            },
            JobSignal::WaitFailed(reason) => {
                run.phase = JobPhase::Done;
                let error = prefixed(WAIT_FAILED_PREFIX, &reason);
                let mut r: Vec<JobAction> = Vec::new();
                r.push(JobAction::Kill);
                r.push(JobAction::Send(WorkerEvent::Failed { index, error }));
                r.push(JobAction::RemoveTemporary);
                r.push(JobAction::Finish);
                assert(r@.drop_first()[0] == r@[1]);
                r
            },
            _ => Vec::new(),
        },
        JobPhase::Checking => match signal {
            JobSignal::OutputChecked { exists } => {
                if exists {
                    run.phase = JobPhase::Done;
                    failed(index, TranscodeError::OutputExists.message())
                } else {
                    run.phase = JobPhase::Moving;
                    let mut r: Vec<JobAction> = Vec::new();
                    r.push(JobAction::Persist);
                    r
                }
            },
            _ => Vec::new(),
        },
        JobPhase::Moving => match signal {
            JobSignal::Persisted { result, now_ms } => {
                run.phase = JobPhase::Done;
                match result {
                    Ok(()) => {
                        let elapsed_ms = if now_ms >= run.started_ms {
                            now_ms - run.started_ms
                        } else {
                            0
                        };
                        let output = owned(run.output.as_str());
                        let mut r: Vec<JobAction> = Vec::new();
                        r.push(JobAction::Send(WorkerEvent::Finished { index, output, elapsed_ms }));
                        r.push(JobAction::RemoveTemporary);
                        r.push(JobAction::Finish);
                        r
                    },
                    Err(reason) => failed(index, TranscodeError::Io(reason).message()),
                }
            },
            _ => Vec::new(),
        },
        JobPhase::Done => Vec::new(),
    }
}

/// Where the queue of jobs stands.
#[derive(Debug, Clone, Copy)]
pub struct QueueRun {
    /// How many files the queue holds.
    pub total: usize,
    /// How many of them were handed out.
    pub started: usize,
    /// Whether a job ended cancelled.
    pub cancelled: bool,
}

/// What the queue does next.
#[derive(Debug)]
pub enum QueueNext {
    /// Runs the file at `index`.
    Start { index: usize },
    /// Stops, with the report to send.
    Stop(WorkerEvent),
}

impl QueueRun {
    /// The queue after the job before ended (cancelled or not; `false` before
    /// the first job) at `elapsed_ms` into the queue, and what it does next:
    /// after a cancellation it stops and reports the files never started;
    /// otherwise it hands out the next file, or stops when none is left.
    pub open spec fn steps(
        self,
        next: QueueRun,
        last_cancelled: bool,
        elapsed_ms: u64,
        r: QueueNext,
    ) -> bool {
        let cancelled = self.cancelled || last_cancelled;
        if cancelled || self.started >= self.total {
            &&& next == (QueueRun { cancelled, ..self })
            &&& r matches QueueNext::Stop(
                WorkerEvent::QueueFinished { elapsed_ms: e, cancelled: c, remaining },
            ) && e == elapsed_ms && c == cancelled && remaining == (if cancelled && self.started
                < self.total {
                self.total - self.started
            } else {
                0
            })
        } else {
            &&& next == (QueueRun { started: (self.started + 1) as usize, ..self })
            &&& r == QueueNext::Start { index: self.started }
        }
    }

    /// A queue of `total` files, none started.
    pub fn new(total: usize) -> (r: QueueRun)
        ensures
            r.total == total && r.started == 0 && !r.cancelled,
    {
        QueueRun { total, started: 0, cancelled: false }
    }
}

/// Decides what the queue does once the job before it ended.
pub fn queue_step(queue: &mut QueueRun, last_cancelled: bool, elapsed_ms: u64) -> (r: QueueNext)
    ensures
        old(queue).steps(*final(queue), last_cancelled, elapsed_ms, r),
{
    let cancelled = queue.cancelled || last_cancelled;
    if cancelled || queue.started >= queue.total {
        queue.cancelled = cancelled;
        let remaining = if cancelled && queue.started < queue.total {
            queue.total - queue.started
        } else {
            0
        };
        QueueNext::Stop(WorkerEvent::QueueFinished { elapsed_ms, cancelled, remaining })
    } else {
        let index = queue.started;
        queue.started = queue.started + 1;
        QueueNext::Start { index }
    }
}

/// The queue hands out its files once each, in order, never past its end; a
/// cancellation stops it for good, and the stop reports as remaining exactly
/// the files that were never handed out.
pub proof fn lemma_queue_runs_in_order(
    queue: QueueRun,
    next: QueueRun,
    last_cancelled: bool,
    elapsed_ms: u64,
    r: QueueNext,
)
    requires
        queue.started <= queue.total,
        queue.steps(next, last_cancelled, elapsed_ms, r),
    ensures
        next.started <= next.total,
        next.total == queue.total,
        r matches QueueNext::Start { index } ==> index == queue.started && index < queue.total
            && next.started == index + 1,
        r is Stop ==> next.started == queue.started,
        (queue.cancelled || last_cancelled) ==> next.cancelled && (r matches QueueNext::Stop(
            WorkerEvent::QueueFinished { remaining, cancelled: true, .. },
        ) && remaining == queue.total - queue.started),
{
}

proof fn lemma_sent_append(a: Seq<JobAction>, b: Seq<JobAction>)
    ensures
        sent(a + b) == sent(a) + sent(b),
    decreases b.len(),
{
    if b.len() == 0 {
        assert(a + b =~= a);
        assert(sent(a) + sent(b) =~= sent(a));
    } else {
        lemma_sent_append(a, b.drop_last());
        assert((a + b).drop_last() =~= a + b.drop_last());
        assert((a + b).last() == b.last());
        match b.last() {
            JobAction::Send(event) => {
                assert(sent(a) + sent(b.drop_last()).push(event) =~= (sent(a) + sent(
                    b.drop_last(),
                )).push(event));
            },
            _ => {},
        }
    }
}

proof fn lemma_contains_append(a: Seq<JobAction>, b: Seq<JobAction>, x: JobAction)
    ensures
        (a + b).contains(x) <==> a.contains(x) || b.contains(x),
{
    if a.contains(x) {
        let i = choose|i: int| 0 <= i < a.len() && a[i] == x;
        assert((a + b)[i] == x);
    }
    if b.contains(x) {
        let i = choose|i: int| 0 <= i < b.len() && b[i] == x;
        assert((a + b)[a.len() + i] == x);
    }
    if (a + b).contains(x) {
        let i = choose|i: int| 0 <= i < (a + b).len() && (a + b)[i] == x;
        if i < a.len() {
            assert(a[i] == x);
        } else {
            assert(b[i - a.len()] == x);
        }
    }
}

/// The closing actions of a failed job: one event, then cleanup and `Finish`.
proof fn lemma_fails_with(actions: Seq<JobAction>, index: usize, text: Seq<char>)
    requires
        fails_with(actions, index, text),
    ensures
        sent(actions).len() == 1,
        sent(actions)[0] is Failed && ends_job(sent(actions)[0], index),
        actions.contains(JobAction::RemoveTemporary),
        !actions.contains(JobAction::Persist),
        actions.last() == JobAction::Finish,
{
    reveal_with_fuel(sent, 4);
    assert(actions.drop_last().drop_last().drop_last() =~= Seq::<JobAction>::empty());
    assert(actions[1] == JobAction::RemoveTemporary);
    if actions.contains(JobAction::Persist) {
        let i = choose|i: int| 0 <= i < actions.len() && actions[i] == JobAction::Persist;
        assert(i == 0 || i == 1 || i == 2);
    }
}

/// Every step keeps the account of a job: whatever the host reports and in
/// whatever order, a job sends at most one `Started`, first; once it is over
/// it has sent exactly one closing event, last, removed its temporary
/// directory and finished; it reports `Cancelled` exactly when a cancel was
/// acted on, and then never persisted; and it reports `Finished` only after
/// the output was moved into place.
pub proof fn lemma_job_step_keeps_account(
    run: JobRun,
    signal: JobSignal,
    next: JobRun,
    actions: Seq<JobAction>,
    history: Seq<JobAction>,
)
    requires
        run.accounts_for(history),
        run.steps(next, signal, actions),
    ensures
        next.accounts_for(history + actions),
{
    let all = history + actions;
    lemma_sent_append(history, actions);
    lemma_contains_append(history, actions, JobAction::Finish);
    lemma_contains_append(history, actions, JobAction::RemoveTemporary);
    lemma_contains_append(history, actions, JobAction::Persist);
    if actions.len() == 0 {
        assert(all =~= history);
        return;
    }
    reveal_with_fuel(sent, 4);
    match run.phase {
        JobPhase::Starting => match signal {
            JobSignal::Spawned { pid } => {
                assert(all =~= actions);
            },
            JobSignal::SpawnFailed(reason) => {
                lemma_fails_with(actions, run.index, START_FAILED_PREFIX@ + reason@);
                assert(all =~= actions);
                assert(sent(all).take(0) =~= Seq::<WorkerEvent>::empty());
            },
            _ => {},
        },
        JobPhase::Running => match signal {
            JobSignal::CancelRequested { at_ms } => {
                assert(!actions.contains(JobAction::Finish));
                assert(!actions.contains(JobAction::RemoveTemporary));
                assert(!actions.contains(JobAction::Persist));
                assert(sent(actions) =~= Seq::<WorkerEvent>::empty());
                assert(sent(all) =~= sent(history));
            },
            JobSignal::Tick { now_ms } => {
                assert(!actions.contains(JobAction::Finish));
                assert(!actions.contains(JobAction::RemoveTemporary));
                assert(!actions.contains(JobAction::Persist));
                assert(sent(actions) =~= Seq::<WorkerEvent>::empty());
                assert(sent(all) =~= sent(history));
            },
            JobSignal::Exited { success, code } => {
                if run.cancel_at is Some {
                    assert(actions[1] == JobAction::RemoveTemporary);
                    if actions.contains(JobAction::Persist) {
                        let i = choose|i: int|
                            0 <= i < actions.len() && actions[i] == JobAction::Persist;
                        assert(i == 0 || i == 1 || i == 2);
                    }
                    assert(actions.drop_last().drop_last().drop_last() =~= Seq::<JobAction>::empty());
                    assert(sent(actions) =~= seq![WorkerEvent::Cancelled { index: run.index }]);
                    assert(sent(all).take(1) =~= sent(history));
                } else if success {
                    assert(!actions.contains(JobAction::Finish));
                    assert(!actions.contains(JobAction::RemoveTemporary));
                    assert(sent(actions) =~= Seq::<WorkerEvent>::empty());
                    assert(sent(all) =~= sent(history));
                } else {
                    lemma_fails_with(actions, run.index, failure_text(code));
                    assert(sent(all).take(1) =~= sent(history));
                }
            },
            JobSignal::WaitFailed(reason) => {
                let rest = actions.drop_first();
                lemma_fails_with(rest, run.index, WAIT_FAILED_PREFIX@ + reason@);
                assert(actions =~= seq![JobAction::Kill] + rest);
                lemma_sent_append(seq![JobAction::Kill], rest);
                assert(sent(seq![JobAction::Kill]) =~= Seq::<WorkerEvent>::empty());
                lemma_contains_append(seq![JobAction::Kill], rest, JobAction::RemoveTemporary);
                lemma_contains_append(seq![JobAction::Kill], rest, JobAction::Persist);
                assert(sent(all).take(1) =~= sent(history));
            },
            _ => {},
        },
        JobPhase::Checking => match signal {
            JobSignal::OutputChecked { exists } => {
                if exists {
                    lemma_fails_with(
                        actions,
                        run.index,
                        TranscodeError::OutputExists.message_text(),
                    );
                    assert(sent(all).take(1) =~= sent(history));
                } else {
                    assert(actions[0] == JobAction::Persist);
                    assert(actions.contains(JobAction::Persist));
                    assert(!actions.contains(JobAction::Finish));
                    assert(!actions.contains(JobAction::RemoveTemporary));
                    assert(sent(actions) =~= Seq::<WorkerEvent>::empty());
                    assert(sent(all) =~= sent(history));
                }
            },
            _ => {},
        },
        JobPhase::Moving => match signal {
            JobSignal::Persisted { result, now_ms } => match result {
                Ok(()) => {
                    assert(actions[1] == JobAction::RemoveTemporary);
                    assert(actions.drop_last().drop_last().drop_last() =~= Seq::<JobAction>::empty());
                    assert(sent(actions).len() == 1);
                    assert(sent(actions)[0] is Finished);
                    assert(sent(all).take(1) =~= sent(history));
                },
                Err(reason) => {
                    lemma_fails_with(actions, run.index, TranscodeError::Io(reason).message_text());
                    assert(sent(all).take(1) =~= sent(history));
                },
            },
            _ => {},
        },
        JobPhase::Done => {},
    }
}

/// The process is killed only after a cancel has waited out its grace period,
/// or when it can no longer be waited on.
pub proof fn lemma_kill_only_when_due(
    run: JobRun,
    signal: JobSignal,
    next: JobRun,
    actions: Seq<JobAction>,
)
    requires
        run.steps(next, signal, actions),
        actions.contains(JobAction::Kill),
    ensures
        run.phase == JobPhase::Running,
        signal is WaitFailed || (signal matches JobSignal::Tick { now_ms } && kill_due(
            run.cancel_at,
            now_ms,
        )),
{
    let i = choose|i: int| 0 <= i < actions.len() && actions[i] == JobAction::Kill;
    if run.phase != JobPhase::Running || !(signal is WaitFailed || signal is Tick) {
        assert(actions[i] != JobAction::Kill);
    }
}

} // verus!
