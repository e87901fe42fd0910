//! Telling a slow print from one that does not move.

use crate::fixed_point::secs;
use crate::protocol::job::{JobStats, PrintJob};
use vstd::prelude::*;
#[allow(unused_imports)]
use crate::fixed_point::secs_text;
#[allow(unused_imports)]
use crate::protocol::job::JobModel;
#[allow(unused_imports)]
use crate::protocol::notifications::Notification;
#[allow(unused_imports)]
use crate::transport::log::elapsed;

verus! {

/// How long the job may go without moving before it is abandoned, in
/// nanoseconds.
///
/// The notification deadline measures radio silence and is re-armed by any
/// frame at all, including the periodic unsolicited `5A 02` Status
/// heartbeats. A printer that holds the stream and then never resumes keeps
/// sending those, so the notification deadline is never reached and the job
/// waits forever — as does any HTTP client behind it. This deadline measures
/// something the printer cannot fake: whether raster data is actually moving.
///
/// A minute is deliberately generous. A genuine thermal cooldown resumes in
/// seconds, so anything past this is a printer that is not coming back.
pub const STALL_TIMEOUT: u64 = 60_000_000_000;

/// A cheap fingerprint of how far a job has actually got.
///
/// Deliberately narrow. Raster packets written and resends requested are the
/// only counters that move when the printer is taking data; the flow-control
/// counters (`holds`, `cooldowns`) and the pending action are excluded on
/// purpose, because a printer that emits `Cooldown` every 100 ms while
/// refusing another packet churns both of those, and that churn is precisely
/// the stall this exists to catch.
///
/// Nothing else in the job runs long: the handshake is a few round trips, so
/// a minute with the packet count frozen means the print is not moving,
/// whatever state the FSM is in.
#[derive(Debug, Clone, Copy, PartialEq, Eq, Structural)]
pub struct Progress {
    pub packets_sent: u32,
    pub retransmits: u32,
}

/// The progress that some counters show.
pub open spec fn progress_of(stats: JobStats) -> Progress {
    Progress { packets_sent: stats.packets_sent, retransmits: stats.retransmits }
}

impl Progress {
    /// The progress of a job.
    pub fn of(job: &PrintJob) -> (p: Self)
        ensures
            p == progress_of(job@.stats),
    {
        let stats: JobStats = job.stats();
        Progress::of_stats(stats)
    }

    /// The progress that some counters show.
    pub fn of_stats(stats: JobStats) -> (p: Self)
        ensures
            p == progress_of(stats),
    {
        Progress { packets_sent: stats.packets_sent, retransmits: stats.retransmits }
    }
}

/// What to tell the user about an abandoned job.
pub open spec fn stall_text(idle: u64, paused: u64) -> Seq<char> {
    if paused == 0 {
        "printer stalled for "@ + secs_text(idle as nat)
            + " without making progress; it is still sending frames, so the connection is up but the print is not moving"@
    } else {
        "printer stalled for "@ + secs_text(idle as nat) + " without resuming, "@ + secs_text(
            paused as nat,
        )
            + " of this job spent paused for thermal flow control; the print head may be overheating — try a lower --density"@
    }
}

/// What to tell the user about an abandoned job.
///
/// A job that stalled after real thermal flow control gets the density hint.
/// One that stalled having never been asked to pause did not overheat, and
/// blaming the print head would send the user after the wrong thing — so that
/// message says what it does know: the link is up, the job is not moving.
pub fn stall_message(idle: u64, paused: u64) -> (text: String)
    ensures
        text@ == stall_text(idle, paused),
{
    let mut text: String = "printer stalled for ".to_owned();
    text.append(secs(idle).as_str());
    if paused == 0 {
        text.append(
            " without making progress; it is still sending frames, so the connection is up but the print is not moving",
        );
    } else {
        text.append(" without resuming, ");
        text.append(secs(paused).as_str());
        text.append(
            " of this job spent paused for thermal flow control; the print head may be overheating — try a lower --density",
        );
    }
    text
}

/// Tracks when a job last moved, so a printer that keeps the radio busy
/// without taking data cannot hold the caller forever.
#[derive(Debug, Clone, Copy)]
pub struct StallGuard {
    pub last: Progress,
    pub since: u64,
}

impl StallGuard {
    /// The guard once the job's progress has been looked at.
    pub open spec fn after(self, now: u64, progress: Progress) -> StallGuard {
        if progress != self.last {
            StallGuard { last: progress, since: now }
        } else {
            self
        }
    }

    /// How long the job has gone without moving.
    pub open spec fn idle(self, now: u64, progress: Progress) -> u64 {
        elapsed(self.after(now, progress).since, now)
    }

    pub fn new(now: u64, progress: Progress) -> (guard: Self)
        ensures
            guard == (StallGuard { last: progress, since: now }),
    {
        StallGuard { last: progress, since: now }
    }

    /// Record where the job is now, and report how long it has gone without
    /// moving. Zero means it just moved.
    pub fn observe(&mut self, now: u64, progress: Progress) -> (idle: u64)
        ensures
            *final(self) == old(self).after(now, progress),
            idle == old(self).idle(now, progress),
    {
        if progress != self.last {
            self.last = progress;
            self.since = now;
        }
        now.saturating_sub(self.since)
    }
}

/// Flow control is not progress: holds, cooldowns and status frames leave the
/// fingerprint of a job as it is.
pub proof fn flow_control_is_not_progress(m: JobModel, n: Notification)
    requires
        !(n is LostPacket),
    ensures
        progress_of(m.after_notification(n).stats) == progress_of(m.stats),
{
}

/// A raster packet that goes out is progress, as long as the counter moves.
pub proof fn a_packet_is_progress(m: JobModel)
    requires
        m.wf(),
        m.state == crate::protocol::job::State::Streaming,
        m.pending_ms is None,
        m.has_next(),
        m.stats.packets_sent < u32::MAX,
    ensures
        progress_of(m.after_action().stats) != progress_of(m.stats),
{
}

/// While nothing moves the idle time runs on from the last movement, and any
/// movement sets it back to zero.
pub proof fn idle_time_runs_until_progress(
    guard: StallGuard,
    first: u64,
    later: u64,
    progress: Progress,
)
    requires
        guard.since <= first <= later,
    ensures
        progress == guard.last ==> guard.after(first, progress).idle(later, progress) == later
            - guard.since,
        progress != guard.last ==> guard.idle(first, progress) == 0,
{
}

} // verus!
