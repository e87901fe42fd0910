//! The decisions of the loop that drives a job over a link. The caller sends,
//! sleeps and listens; the pump says which, keeps the log, and gives up on a
//! job that does not move.

use crate::fixed_point::secs;
use crate::protocol::job::{Action, JobStats, PrintJob};
use crate::protocol::notifications::Notification;
use crate::protocol_x6::job::X6PrintJob;
use crate::protocol_x6::notifications::X6Notification;
use crate::transport::labels::is_raster;
use crate::transport::log::{
    job_summary, observe, JobLog, Level, LogLine, NoPaper, Setback, NOTEWORTHY_PAUSE,
};
use crate::transport::stall::{stall_message, Progress, StallGuard, STALL_TIMEOUT};
use vstd::prelude::*;
#[allow(unused_imports)]
use crate::fixed_point::secs_text;
#[allow(unused_imports)]
use crate::protocol::job::{JobModel, Step};
#[allow(unused_imports)]
use crate::protocol_x6::job::X6Model;
#[allow(unused_imports)]
use crate::transport::log::{
    fresh_log, lines_of, observed_lines, observed_log, reports_no_paper, summary_text,
    SetbackText,
};
#[allow(unused_imports)]
use crate::transport::stall::{progress_of, stall_text};

verus! {

/// How long to wait for an expected notification before giving up, in
/// milliseconds.
///
/// This catches a printer that has gone off the air entirely. It does *not*
/// catch a printer that keeps talking without doing anything — see
/// [`STALL_TIMEOUT`].
pub const NOTIFICATION_TIMEOUT_MS: u64 = 10_000;

/// What the caller does next.
#[derive(Debug)]
pub enum Next {
    /// Write these bytes.
    Write(Vec<u8>),
    /// Sleep for this many milliseconds.
    Sleep(u64),
    /// Wait up to [`NOTIFICATION_TIMEOUT_MS`] for a notification.
    Await,
    /// The job is over; see [`Pump::finish`].
    Finished,
    /// The job has not moved for too long and is given up.
    Stalled(String),
}

/// A [`Next`] with the bytes and the text as sequences.
pub enum NextStep {
    Write(Seq<u8>),
    Sleep(u64),
    Await,
    Finished,
    Stalled(Seq<char>),
}

impl View for Next {
    type V = NextStep;

    open spec fn view(&self) -> NextStep {
        match *self {
            Next::Write(bytes) => NextStep::Write(bytes@),
            Next::Sleep(ms) => NextStep::Sleep(ms),
            Next::Await => NextStep::Await,
            Next::Finished => NextStep::Finished,
            Next::Stalled(text) => NextStep::Stalled(text@),
        }
    }
}

/// The outside side of an action of a job.
pub open spec fn next_of(step: Step) -> NextStep {
    match step {
        Step::Send(bytes) => NextStep::Write(bytes),
        Step::WaitMs(ms) => NextStep::Sleep(ms),
        Step::WaitNotification => NextStep::Await,
        Step::Done => NextStep::Finished,
    }
}

fn to_next(action: Action) -> (next: Next)
    ensures
        next@ == next_of(action@),
{
    match action {
        Action::Send(bytes) => Next::Write(bytes),
        Action::WaitMs(ms) => Next::Sleep(ms),
        Action::WaitNotification => Next::Await,
        Action::Done => Next::Finished,
    }
}

/// What is said when a pause of some length ends.
pub open spec fn resumed_lines(held: Option<u64>) -> Seq<(Level, Seq<char>)> {
    match held {
        Some(ns) => seq![
            (
                if ns >= NOTEWORTHY_PAUSE {
                    Level::Info
                } else {
                    Level::Debug
                },
                "printing resumed after "@ + secs_text(ns as nat),
            ),
        ],
        None => Seq::empty(),
    }
}

fn resume_lines(held: Option<u64>) -> (lines: Vec<LogLine>)
    ensures
        lines_of(lines@) == resumed_lines(held),
{
    let mut lines: Vec<LogLine> = Vec::new();
    if let Some(ns) = held {
        let level: Level = if ns >= NOTEWORTHY_PAUSE {
            Level::Info
        } else {
            Level::Debug
        };
        let mut text: String = "printing resumed after ".to_owned();
        text.append(secs(ns).as_str());
        lines.push(LogLine { level, text });
    }
    assert(lines_of(lines@) =~= resumed_lines(held));
    lines
}

/// What is said when a job is given up.
pub open spec fn abandon_lines(idle: u64) -> Seq<(Level, Seq<char>)> {
    seq![
        (
            Level::Warn,
            "printer stalled for "@ + secs_text(idle as nat) + "; abandoning the job"@,
        ),
    ]
}

fn give_up_lines(idle: u64) -> (lines: Vec<LogLine>)
    ensures
        lines_of(lines@) == abandon_lines(idle),
{
    let mut text: String = "printer stalled for ".to_owned();
    text.append(secs(idle).as_str());
    text.append("; abandoning the job");
    let mut lines: Vec<LogLine> = Vec::new();
    lines.push(LogLine { level: Level::Warn, text });
    assert(lines_of(lines@) =~= abandon_lines(idle));
    lines
}

/// How long the open pause window lasted, if one is open.
pub open spec fn held_for(log: JobLog, now: u64) -> Option<u64> {
    match log.paused_since {
        Some(since) => Some(crate::transport::log::elapsed(since, now)),
        None => None,
    }
}

/// Whether an action writes a raster packet.
pub open spec fn writes_raster(step: Step) -> bool {
    step matches Step::Send(bytes) && bytes.len() > 0 && bytes[0] == 0x55
}

/// Everything a [`Pump`] knows.
#[verifier::ext_equal]
pub struct PumpModel {
    pub job: JobModel,
    pub log: JobLog,
    pub stall: StallGuard,
    pub started: u64,
}

impl PumpModel {
    /// How long the job has gone without moving.
    pub open spec fn idle(self, now: u64) -> u64 {
        self.stall.idle(now, progress_of(self.job.stats))
    }

    /// Whether the job is given up at `now`.
    pub open spec fn gives_up(self, now: u64) -> bool {
        self.idle(now) >= STALL_TIMEOUT
    }

    /// What the caller does at `now`.
    pub open spec fn next(self, now: u64) -> NextStep {
        if self.gives_up(now) {
            NextStep::Stalled(stall_text(self.idle(now), self.log.total_paused(now)))
        } else {
            next_of(self.job.action())
        }
    }

    /// The pump once the caller has been told.
    pub open spec fn after_next(self, now: u64) -> PumpModel {
        let stall = self.stall.after(now, progress_of(self.job.stats));
        if self.gives_up(now) {
            PumpModel { stall, ..self }
        } else {
            PumpModel {
                job: self.job.after_action(),
                log: if writes_raster(self.job.action()) {
                    self.log.resumed(now)
                } else {
                    self.log
                },
                stall,
                ..self
            }
        }
    }

    /// What goes to the log meanwhile.
    pub open spec fn next_lines(self, now: u64) -> Seq<(Level, Seq<char>)> {
        if self.gives_up(now) {
            abandon_lines(self.idle(now))
        } else if writes_raster(self.job.action()) {
            resumed_lines(held_for(self.log, now))
        } else {
            Seq::empty()
        }
    }

    /// The pump once a notification has come in. One that says there is no
    /// paper ends the job and does not reach it.
    pub open spec fn after_notification(self, n: Notification, now: u64) -> PumpModel {
        PumpModel {
            job: if reports_no_paper(n) {
                self.job
            } else {
                self.job.after_notification(n)
            },
            log: observed_log(n, self.log, now),
            ..self
        }
    }
}

/// The text that ends a job in the log.
pub open spec fn end_text(summary: Seq<char>, failure: Option<Seq<char>>) -> Seq<char> {
    match failure {
        None => "print job finished: "@ + summary,
        Some(e) => "print job aborted after "@ + summary + ": "@ + e,
    }
}

/// The words for what stopped a job, if anything did.
pub open spec fn setback_text(failure: Option<Setback>) -> Option<Seq<char>> {
    match failure {
        None => None,
        Some(e) => Some(e@.wording()),
    }
}

fn end_line(summary: String, failure: &Option<Setback>) -> (line: LogLine)
    ensures
        line@ == (Level::Info, end_text(summary@, setback_text(*failure))),
{
    let text: String = match failure {
        None => {
            let mut text: String = "print job finished: ".to_owned();
            text.append(summary.as_str());
            text
        },
        Some(e) => {
            let mut text: String = "print job aborted after ".to_owned();
            text.append(summary.as_str());
            text.append(": ");
            text.append(e.message().as_str());
            text
        },
    };
    LogLine { level: Level::Info, text }
}

/// What is said of a printer that does not answer at all.
pub fn silence_message() -> (text: String)
    ensures
        text@ == "printer went silent (no BLE notification at all for 10s)"@,
{
    "printer went silent (no BLE notification at all for 10s)".to_owned()
}

/// Drives one LX-D02 job over a link.
#[derive(Debug)]
pub struct Pump {
    pub job: PrintJob,
    pub log: JobLog,
    pub stall: StallGuard,
    pub started: u64,
}

impl View for Pump {
    type V = PumpModel;

    open spec fn view(&self) -> PumpModel {
        PumpModel { job: self.job@, log: self.log, stall: self.stall, started: self.started }
    }
}

impl Pump {
    /// A pump for a job that starts now.
    pub fn new(job: PrintJob, now: u64) -> (pump: Self)
        ensures
            pump@ == (PumpModel {
                job: job@,
                log: fresh_log(),
                stall: StallGuard { last: progress_of(job@.stats), since: now },
                started: now,
            }),
    {
        let progress: Progress = Progress::of(&job);
        Pump { job, log: JobLog::default(), stall: StallGuard::new(now, progress), started: now }
    }

    /// Feed in a notification. A no-paper status aborts the job here rather
    /// than having it die later on a misleading timeout.
    pub fn on_notification(&mut self, n: Notification, now: u64) -> (r: (
        Vec<LogLine>,
        Result<(), NoPaper>,
    ))
        ensures
            final(self)@ == old(self)@.after_notification(n, now),
            lines_of(r.0@) == observed_lines(n, old(self)@.log, now),
            r.1 is Err <==> reports_no_paper(n),
    {
        let (lines, paper) = observe(&n, &mut self.log, now);
        if paper.is_ok() {
            self.job.on_notification(n);
        }
        (lines, paper)
    }

    /// What to do next, once every notification that has come in was fed in.
    pub fn step(&mut self, now: u64) -> (r: (Next, Vec<LogLine>))
        ensures
            r.0@ == old(self)@.next(now),
            final(self)@ == old(self)@.after_next(now),
            lines_of(r.1@) == old(self)@.next_lines(now),
    {
        let progress: Progress = Progress::of(&self.job);
        let idle: u64 = self.stall.observe(now, progress);
        if idle >= STALL_TIMEOUT {
            let text: String = stall_message(idle, self.log.paused_total(now));
            return (Next::Stalled(text), give_up_lines(idle));
        }
        let action: Action = self.job.next_action();
        // A raster write is the printer letting us move again.
        let raster: bool = match &action {
            Action::Send(bytes) => is_raster(bytes.as_slice()),
            _ => false,
        };
        let lines: Vec<LogLine> = if raster {
            resume_lines(self.log.resume(now))
        } else {
            Vec::new()
        };
        assert(!raster ==> lines_of(lines@) =~= Seq::empty());
        (to_next(action), lines)
    }

    /// End the job: what came of it, and the line that says so. `failure` is
    /// what stopped the transport, if anything did; a job that failed by
    /// itself (rejected auth) is a failure just the same.
    pub fn finish(&self, failure: Option<Setback>, now: u64) -> (r: (
        Result<JobStats, Setback>,
        LogLine,
    ))
        ensures
            failure matches Some(e) ==> r.0 == Err::<JobStats, Setback>(e),
            failure is None ==> match self@.job.error {
                Some(e) => r.0 matches Err(why) && why@ == SetbackText::Other(e.wording()),
                None => r.0 == Ok::<JobStats, Setback>(self@.job.stats),
            },
            r.1@ == (
                Level::Info,
                end_text(
                    summary_text(
                        crate::transport::log::elapsed(self.started, now),
                        self.log.total_paused(now),
                        self@.job.stats,
                    ),
                    match r.0 {
                        Err(why) => Some(why@.wording()),
                        Ok(_) => None,
                    },
                ),
            ),
    {
        let stats: JobStats = self.job.stats();
        let failed: Option<Setback> = match failure {
            Some(e) => Some(e),
            None => match self.job.error() {
                Some(e) => Some(Setback::Other(e.message())),
                None => None,
            },
        };
        let summary: String = job_summary(
            now.saturating_sub(self.started),
            self.log.paused_total(now),
            stats,
        );
        let line: LogLine = end_line(summary, &failed);
        match failed {
            Some(e) => (Err(e), line),
            None => (Ok(stats), line),
        }
    }
}

/// Everything an [`X6Pump`] knows.
#[verifier::ext_equal]
pub struct X6PumpModel {
    pub job: X6Model,
    pub log: JobLog,
    pub stall: StallGuard,
    pub started: u64,
}

impl X6PumpModel {
    /// How long the job has gone without moving.
    pub open spec fn idle(self, now: u64) -> u64 {
        self.stall.idle(now, progress_of(self.job.stats))
    }

    /// Whether the job is given up at `now`.
    pub open spec fn gives_up(self, now: u64) -> bool {
        self.idle(now) >= STALL_TIMEOUT
    }

    /// What the caller does at `now`.
    pub open spec fn next(self, now: u64) -> NextStep {
        if self.gives_up(now) {
            NextStep::Stalled(stall_text(self.idle(now), self.log.total_paused(now)))
        } else {
            next_of(self.job.action())
        }
    }

    /// The pump once the caller has been told.
    pub open spec fn after_next(self, now: u64) -> X6PumpModel {
        let stall = self.stall.after(now, progress_of(self.job.stats));
        if self.gives_up(now) {
            X6PumpModel { stall, ..self }
        } else {
            X6PumpModel {
                job: self.job.after_action(),
                log: if self.job.action() is Send {
                    self.log.resumed(now)
                } else {
                    self.log
                },
                stall,
                ..self
            }
        }
    }

    /// What goes to the log meanwhile.
    pub open spec fn next_lines(self, now: u64) -> Seq<(Level, Seq<char>)> {
        if self.gives_up(now) {
            abandon_lines(self.idle(now))
        } else if self.job.action() is Send {
            resumed_lines(held_for(self.log, now))
        } else {
            Seq::empty()
        }
    }

    /// The pump once a notification has come in: a full buffer opens a pause.
    pub open spec fn after_notification(self, n: X6Notification, now: u64) -> X6PumpModel {
        X6PumpModel {
            job: self.job.after_notification(n),
            log: if n is BufferFull {
                self.log.paused(now)
            } else {
                self.log
            },
            ..self
        }
    }
}

/// Drives one X6 job over a link.
#[derive(Debug)]
pub struct X6Pump {
    pub job: X6PrintJob,
    pub log: JobLog,
    pub stall: StallGuard,
    pub started: u64,
}

impl View for X6Pump {
    type V = X6PumpModel;

    open spec fn view(&self) -> X6PumpModel {
        X6PumpModel { job: self.job@, log: self.log, stall: self.stall, started: self.started }
    }
}

impl X6Pump {
    /// A pump for a job that starts now.
    pub fn new(job: X6PrintJob, now: u64) -> (pump: Self)
        ensures
            pump@ == (X6PumpModel {
                job: job@,
                log: fresh_log(),
                stall: StallGuard { last: progress_of(job@.stats), since: now },
                started: now,
            }),
    {
        let progress: Progress = Progress::of_stats(job.stats());
        X6Pump { job, log: JobLog::default(), stall: StallGuard::new(now, progress), started: now }
    }

    /// Feed in a notification.
    pub fn on_notification(&mut self, n: X6Notification, now: u64)
        ensures
            final(self)@ == old(self)@.after_notification(n, now),
    {
        if let X6Notification::BufferFull = n {
            self.log.pause(now);
        }
        self.job.on_notification(n);
    }

    /// What to do next, once every notification that has come in was fed in.
    pub fn step(&mut self, now: u64) -> (r: (Next, Vec<LogLine>))
        ensures
            r.0@ == old(self)@.next(now),
            final(self)@ == old(self)@.after_next(now),
            lines_of(r.1@) == old(self)@.next_lines(now),
    {
        let progress: Progress = Progress::of_stats(self.job.stats());
        let idle: u64 = self.stall.observe(now, progress);
        if idle >= STALL_TIMEOUT {
            let text: String = stall_message(idle, self.log.paused_total(now));
            return (Next::Stalled(text), give_up_lines(idle));
        }
        let action: Action = self.job.next_action();
        let sends: bool = match &action {
            Action::Send(_) => true,
            _ => false,
        };
        let lines: Vec<LogLine> = if sends {
            resume_lines(self.log.resume(now))
        } else {
            Vec::new()
        };
        assert(!sends ==> lines_of(lines@) =~= Seq::empty());
        (to_next(action), lines)
    }

    /// End the job: what came of it, and the line that says so.
    pub fn finish(&self, failure: Option<Setback>, now: u64) -> (r: (
        Result<JobStats, Setback>,
        LogLine,
    ))
        ensures
            r.0 == match failure {
                Some(e) => Err::<JobStats, Setback>(e),
                None => Ok::<JobStats, Setback>(self@.job.stats),
            },
            r.1@ == (
                Level::Info,
                end_text(
                    summary_text(
                        crate::transport::log::elapsed(self.started, now),
                        self.log.total_paused(now),
                        self@.job.stats,
                    ),
                    setback_text(failure),
                ),
            ),
    {
        let stats: JobStats = self.job.stats();
        let summary: String = job_summary(
            now.saturating_sub(self.started),
            self.log.paused_total(now),
            stats,
        );
        let line: LogLine = end_line(summary, &failure);
        match failure {
            Some(e) => (Err(e), line),
            None => (Ok(stats), line),
        }
    }
}

/// A run of notifications with the times at which they come in.
pub open spec fn fed(pump: PumpModel, incoming: Seq<(Notification, u64)>) -> PumpModel
    decreases incoming.len(),
{
    if incoming.len() == 0 {
        pump
    } else {
        fed(pump, incoming.drop_last()).after_notification(incoming.last().0, incoming.last().1)
    }
}

/// A printer that keeps the radio busy without taking data is still stalled:
/// however many frames come in, as long as none asks for a packet again, the
/// job is given up once a minute has passed since it last moved.
pub proof fn talking_is_not_moving(
    pump: PumpModel,
    incoming: Seq<(Notification, u64)>,
    now: u64,
)
    requires
        pump.stall.last == progress_of(pump.job.stats),
        forall|i: int| 0 <= i < incoming.len() ==> !((#[trigger] incoming[i]).0 is LostPacket),
        now >= pump.stall.since + STALL_TIMEOUT,
    ensures
        fed(pump, incoming).next(now) is Stalled,
{
    lemma_fed_keeps_progress(pump, incoming);
}

proof fn lemma_fed_keeps_progress(pump: PumpModel, incoming: Seq<(Notification, u64)>)
    requires
        forall|i: int| 0 <= i < incoming.len() ==> !((#[trigger] incoming[i]).0 is LostPacket),
    ensures
        progress_of(fed(pump, incoming).job.stats) == progress_of(pump.job.stats),
        fed(pump, incoming).stall == pump.stall,
    decreases incoming.len(),
{
    if incoming.len() > 0 {
        lemma_fed_keeps_progress(pump, incoming.drop_last());
        assert(incoming[incoming.len() - 1] == incoming.last());
        crate::transport::stall::flow_control_is_not_progress(
            fed(pump, incoming.drop_last()).job,
            incoming.last().0,
        );
    }
}

/// A job that moves is never given up: the step after a raster packet went out
/// carries on, as long as it comes within a minute.
pub proof fn a_printer_that_takes_packets_never_stalls(pump: PumpModel, now: u64, later: u64)
    requires
        pump.job.wf(),
        pump.stall.last == progress_of(pump.job.stats),
        writes_raster(pump.job.action()),
        pump.job.stats.packets_sent < u32::MAX,
        !pump.gives_up(now),
    ensures
        !pump.after_next(now).gives_up(later),
{
    let m = pump.job;
    if m.state != crate::protocol::job::State::Streaming {
        lemma_control_frames_are_not_raster(m);
    }
    crate::transport::stall::a_packet_is_progress(m);
}

proof fn lemma_control_frames_are_not_raster(m: JobModel)
    requires
        m.state != crate::protocol::job::State::Streaming,
    ensures
        !writes_raster(m.action()),
{
}

/// A no-paper status never reaches the job, and every other notification does.
pub proof fn paper_is_checked_first(pump: PumpModel, n: Notification, now: u64)
    ensures
        reports_no_paper(n) ==> pump.after_notification(n, now).job == pump.job,
        !reports_no_paper(n) ==> pump.after_notification(n, now).job
            == pump.job.after_notification(n),
{
}

} // verus!
