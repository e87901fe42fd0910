//! Per-job logging state and the texts that end up in the log.

use crate::fixed_point::secs;
use crate::protocol::job::JobStats;
use crate::protocol::notifications::Notification;
use crate::strings::decimal;
use vstd::prelude::*;
#[allow(unused_imports)]
use crate::fixed_point::secs_text;
#[allow(unused_imports)]
use crate::protocol::job::bump;
#[allow(unused_imports)]
use crate::strings::decimal_digits;

verus! {

/// Shortest pause worth an info-level "resumed after" line, in nanoseconds.
/// Below this the printer barely broke stride (a lone cooldown is a fixed
/// 100 ms back-off) and the summary at the end of the job covers it.
pub const NOTEWORTHY_PAUSE: u64 = 250_000_000;

/// Minimum gap between info-level cooldown reports, in nanoseconds. A printer
/// running hot emits a cooldown per packet; one line each would bury
/// everything else.
pub const COOLDOWN_REPORT_GAP: u64 = 2_000_000_000;

/// How loud a log line is.
#[derive(Debug, Clone, Copy, PartialEq, Eq, Structural)]
pub enum Level {
    Warn,
    Info,
    Debug,
}

/// One line for the log.
#[derive(Debug, Clone)]
pub struct LogLine {
    pub level: Level,
    pub text: String,
}

/// The level and text of a line.
impl View for LogLine {
    type V = (Level, Seq<char>);

    open spec fn view(&self) -> (Level, Seq<char>) {
        (self.level, self.text@)
    }
}

/// The lines of a list.
pub open spec fn lines_of(lines: Seq<LogLine>) -> Seq<(Level, Seq<char>)> {
    Seq::new(lines.len(), |i: int| lines[i]@)
}

/// The time from `from` to `to`, none if the clock ran backwards.
pub open spec fn elapsed(from: u64, to: u64) -> u64 {
    if to >= from {
        (to - from) as u64
    } else {
        0
    }
}

/// The sum of two times, staying at the top of the range.
pub open spec fn total(a: u64, b: u64) -> u64 {
    if a + b > u64::MAX {
        u64::MAX
    } else {
        (a + b) as u64
    }
}

/// Per-job logging state: how long the printer has kept us waiting, and what
/// has already been reported so a repeating condition is not logged forever.
/// Times are nanoseconds on a clock of the caller's.
#[derive(Debug, Clone, Copy)]
pub struct JobLog {
    /// Start of the pause the printer currently has us in, if any.
    pub paused_since: Option<u64>,
    /// Time already spent paused, excluding any open window.
    pub paused_before: u64,
    /// Cooldowns seen since the last one reported at info level.
    pub cooldowns_pending: u32,
    pub last_cooldown_report: Option<u64>,
    pub warned_overheat: bool,
    pub warned_low_battery: bool,
}

/// A log that has recorded nothing.
pub open spec fn fresh_log() -> JobLog {
    JobLog {
        paused_since: None,
        paused_before: 0,
        cooldowns_pending: 0,
        last_cooldown_report: None,
        warned_overheat: false,
        warned_low_battery: false,
    }
}

impl Default for JobLog {
    fn default() -> (log: Self)
        ensures
            log == fresh_log(),
    {
        JobLog {
            paused_since: None,
            paused_before: 0,
            cooldowns_pending: 0,
            last_cooldown_report: None,
            warned_overheat: false,
            warned_low_battery: false,
        }
    }
}

impl JobLog {
    /// The log with a pause window open.
    pub open spec fn paused(self, now: u64) -> JobLog {
        JobLog {
            paused_since: if self.paused_since is Some {
                self.paused_since
            } else {
                Some(now)
            },
            ..self
        }
    }

    /// The log with no pause window open.
    pub open spec fn resumed(self, now: u64) -> JobLog {
        match self.paused_since {
            Some(since) => JobLog {
                paused_since: None,
                paused_before: total(self.paused_before, elapsed(since, now)),
                ..self
            },
            None => self,
        }
    }

    /// The total time paused, counting a window that is still open.
    pub open spec fn total_paused(self, now: u64) -> u64 {
        match self.paused_since {
            Some(since) => total(self.paused_before, elapsed(since, now)),
            None => self.paused_before,
        }
    }

    /// Whether a cooldown report is due.
    pub open spec fn report_due(self, now: u64) -> bool {
        match self.last_cooldown_report {
            Some(last) => elapsed(last, now) >= COOLDOWN_REPORT_GAP,
            None => true,
        }
    }

    /// The log with one more cooldown counted, or with all of them reported.
    pub open spec fn with_cooldown(self, now: u64) -> JobLog {
        if self.report_due(now) {
            JobLog { last_cooldown_report: Some(now), cooldowns_pending: 0, ..self }
        } else {
            JobLog { cooldowns_pending: bump(self.cooldowns_pending), ..self }
        }
    }

    /// Open a pause window, if one is not already open.
    pub fn pause(&mut self, now: u64)
        ensures
            *final(self) == old(self).paused(now),
    {
        if self.paused_since.is_none() {
            self.paused_since = Some(now);
        }
    }

    /// Close the open pause window, returning how long it lasted.
    pub fn resume(&mut self, now: u64) -> (held: Option<u64>)
        ensures
            *final(self) == old(self).resumed(now),
            held == match old(self).paused_since {
                Some(since) => Some(elapsed(since, now)),
                None => None,
            },
    {
        match self.paused_since {
            Some(since) => {
                let held: u64 = now.saturating_sub(since);
                self.paused_since = None;
                self.paused_before = self.paused_before.saturating_add(held);
                Some(held)
            },
            None => None,
        }
    }

    /// Total time paused, counting a window that is still open.
    pub fn paused_total(&self, now: u64) -> (t: u64)
        ensures
            t == self.total_paused(now),
    {
        match self.paused_since {
            Some(since) => self.paused_before.saturating_add(now.saturating_sub(since)),
            None => self.paused_before,
        }
    }

    /// Record a cooldown, returning how many to report if one is due.
    ///
    /// The first cooldown always reports; after that at most one report per
    /// [`COOLDOWN_REPORT_GAP`], carrying the number suppressed in between.
    pub fn note_cooldown(&mut self, now: u64) -> (report: Option<u32>)
        ensures
            *final(self) == old(self).with_cooldown(now),
            report == if old(self).report_due(now) {
                Some(bump(old(self).cooldowns_pending))
            } else {
                None
            },
    {
        let pending: u32 = self.cooldowns_pending.saturating_add(1);
        let due: bool = match self.last_cooldown_report {
            Some(last) => now.saturating_sub(last) >= COOLDOWN_REPORT_GAP,
            None => true,
        };
        if !due {
            self.cooldowns_pending = pending;
            return None;
        }
        self.last_cooldown_report = Some(now);
        self.cooldowns_pending = 0;
        Some(pending)
    }
}

/// The log after a notification.
pub open spec fn observed_log(n: Notification, log: JobLog, now: u64) -> JobLog {
    match n {
        Notification::Hold => log.paused(now),
        Notification::Cooldown => log.paused(now).with_cooldown(now),
        Notification::Status(s) => JobLog {
            warned_overheat: log.warned_overheat || s.overheat,
            warned_low_battery: log.warned_low_battery || s.low_battery,
            ..log
        },
        _ => log,
    }
}

/// What a notification has to be told about.
pub open spec fn observed_lines(n: Notification, log: JobLog, now: u64) -> Seq<(Level, Seq<char>)> {
    match n {
        Notification::Hold => seq![
            (
                Level::Info,
                "printer paused the stream (print head too hot); waiting to resume…"@,
            ),
        ],
        Notification::Cooldown => if !log.report_due(now) {
            seq![(Level::Debug, "cooldown requested"@)]
        } else if bump(log.cooldowns_pending) == 1 {
            seq![(Level::Info, "printer is cooling down"@)]
        } else {
            seq![
                (
                    Level::Info,
                    "printer is cooling down ("@ + decimal_digits(
                        bump(log.cooldowns_pending) as nat,
                    ) + " requests since the last report)"@,
                ),
            ]
        },
        Notification::LostPacket { index } => seq![
            (
                Level::Info,
                "printer requested a resend from packet "@ + decimal_digits(index as nat),
            ),
        ],
        Notification::Finished { num_packets } => seq![
            (
                Level::Debug,
                "printer reported the job finished after "@ + decimal_digits(num_packets as nat)
                    + " packets"@,
            ),
        ],
        Notification::Status(s) => (if s.overheat && !log.warned_overheat {
            seq![(Level::Warn, "printer reports the print head is overheating"@)]
        } else {
            Seq::empty()
        }) + (if s.low_battery && !log.warned_low_battery {
            seq![
                (
                    Level::Warn,
                    "printer battery is low ("@ + decimal_digits(s.battery_pct as nat) + "%)"@,
                ),
            ]
        } else {
            Seq::empty()
        }),
        _ => Seq::empty(),
    }
}

/// Whether a notification is a status frame that reports no paper.
pub open spec fn reports_no_paper(n: Notification) -> bool {
    n matches Notification::Status(s) && s.no_paper
}

/// The printer reported it is out of paper.
#[derive(Debug, Clone, Copy, PartialEq, Eq, Structural)]
pub struct NoPaper;

impl NoPaper {
    /// One line for the user.
    pub fn message(&self) -> (text: String)
        ensures
            text@ == "printer is out of paper"@,
    {
        "printer is out of paper".to_owned()
    }
}

/// Why a job ended before its time.
#[derive(Debug)]
pub enum Setback {
    /// The printer ran out of paper.
    NoPaper(NoPaper),
    /// Anything else, in words.
    Other(String),
}

/// A [`Setback`] with the words as a sequence.
pub enum SetbackText {
    NoPaper,
    Other(Seq<char>),
}

impl SetbackText {
    /// One line for the user.
    pub open spec fn wording(self) -> Seq<char> {
        match self {
            SetbackText::NoPaper => "printer is out of paper"@,
            SetbackText::Other(text) => text,
        }
    }
}

impl View for Setback {
    type V = SetbackText;

    open spec fn view(&self) -> SetbackText {
        match *self {
            Setback::NoPaper(_) => SetbackText::NoPaper,
            Setback::Other(text) => SetbackText::Other(text@),
        }
    }
}

impl Setback {
    /// One line for the user.
    pub fn message(&self) -> (text: String)
        ensures
            text@ == self@.wording(),
    {
        match self {
            Setback::NoPaper(e) => e.message(),
            Setback::Other(text) => text.as_str().to_owned(),
        }
    }
}

/// Bail if a notification is a Status frame reporting no paper.
pub fn check_paper(n: &Notification) -> (r: Result<(), NoPaper>)
    ensures
        r is Err <==> reports_no_paper(*n),
{
    if let Notification::Status(s) = n {
        if s.no_paper {
            return Err(NoPaper);
        }
    }
    Ok(())
}

fn line(level: Level, before: &str, n: u32, after: &str) -> (l: LogLine)
    ensures
        l@ == (level, before@ + decimal_digits(n as nat) + after@),
{
    let mut text: String = before.to_owned();
    text.append(decimal(n as u128).as_str());
    text.append(after);
    LogLine { level, text }
}

fn plain(level: Level, words: &str) -> (l: LogLine)
    ensures
        l@ == (level, words@),
{
    LogLine { level, text: words.to_owned() }
}

/// Say what an incoming notification means for the job, and abort on the one
/// condition the FSM does not handle (no paper).
///
/// The flow-control events land at info: they are the whole reason a print
/// appears to hang, and the user asked to be told rather than left guessing.
pub fn observe(n: &Notification, log: &mut JobLog, now: u64) -> (r: (
    Vec<LogLine>,
    Result<(), NoPaper>,
))
    ensures
        *final(log) == observed_log(*n, *old(log), now),
        lines_of(r.0@) == observed_lines(*n, *old(log), now),
        r.1 is Err <==> reports_no_paper(*n),
{
    let mut lines: Vec<LogLine> = Vec::new();
    let ghost before = *log;
    match *n {
        Notification::Hold => {
            log.pause(now);
            lines.push(
                plain(
                    Level::Info,
                    "printer paused the stream (print head too hot); waiting to resume…",
                ),
            );
        },
        Notification::Cooldown => {
            log.pause(now);
            match log.note_cooldown(now) {
                Some(count) => {
                    if count == 1 {
                        lines.push(plain(Level::Info, "printer is cooling down"));
                    } else {
                        lines.push(
                            line(
                                Level::Info,
                                "printer is cooling down (",
                                count,
                                " requests since the last report)",
                            ),
                        );
                    }
                },
                None => {
                    lines.push(plain(Level::Debug, "cooldown requested"));
                },
            }
        },
        Notification::LostPacket { index } => {
            let l: LogLine = line(
                Level::Info,
                "printer requested a resend from packet ",
                index as u32,
                "",
            );
            proof {
                reveal_strlit("");
                assert(l@.1 =~= "printer requested a resend from packet "@ + decimal_digits(
                    index as nat,
                ));
            }
            lines.push(l);
        },
        Notification::Finished { num_packets } => {
            lines.push(
                line(
                    Level::Debug,
                    "printer reported the job finished after ",
                    num_packets as u32,
                    " packets",
                ),
            );
        },
        Notification::Status(s) => {
            if s.overheat && !log.warned_overheat {
                log.warned_overheat = true;
                lines.push(
                    plain(Level::Warn, "printer reports the print head is overheating"),
                );
            }
            if s.low_battery && !log.warned_low_battery {
                log.warned_low_battery = true;
                lines.push(
                    line(Level::Warn, "printer battery is low (", s.battery_pct as u32, "%)"),
                );
            }
        },
        _ => {},
    }
    assert(lines_of(lines@) =~= observed_lines(*n, before, now));
    let paper: Result<(), NoPaper> = check_paper(n);
    (lines, paper)
}

/// A count with its name, left out where it is zero.
pub open spec fn counted(n: u32, name: Seq<char>) -> Seq<char> {
    if n > 0 {
        ", "@ + decimal_digits(n as nat) + name
    } else {
        Seq::empty()
    }
}

/// One-line account of how a job went.
pub open spec fn summary_text(elapsed_ns: u64, paused_ns: u64, stats: JobStats) -> Seq<char> {
    secs_text(elapsed_ns as nat) + ", "@ + decimal_digits(stats.packets_sent as nat)
        + " packets sent"@ + counted(stats.holds, " holds"@) + counted(
        stats.cooldowns,
        " cooldowns"@,
    ) + counted(stats.retransmits, " resends"@) + if stats.holds > 0 || stats.cooldowns > 0 {
        ", "@ + secs_text(paused_ns as nat) + " paused for thermal flow control"@
    } else {
        Seq::empty()
    }
}

fn append_count(text: &mut String, n: u32, name: &str)
    ensures
        final(text)@ == old(text)@ + counted(n, name@),
{
    if n > 0 {
        text.append(", ");
        text.append(decimal(n as u128).as_str());
        text.append(name);
    }
    assert(text@ =~= old(text)@ + counted(n, name@));
}

/// One-line account of how a job went, for the log at the end of it.
///
/// This is the line that answers "why did that take so long": a job whose
/// elapsed time dwarfs its packet count spent the difference paused, and the
/// counters say so. Flow-control terms are omitted entirely when the printer
/// never invoked any, so a healthy print stays a short line.
pub fn job_summary(elapsed_ns: u64, paused_ns: u64, stats: JobStats) -> (text: String)
    ensures
        text@ == summary_text(elapsed_ns, paused_ns, stats),
{
    let mut text: String = secs(elapsed_ns);
    text.append(", ");
    text.append(decimal(stats.packets_sent as u128).as_str());
    text.append(" packets sent");
    append_count(&mut text, stats.holds, " holds");
    append_count(&mut text, stats.cooldowns, " cooldowns");
    append_count(&mut text, stats.retransmits, " resends");
    if stats.holds > 0 || stats.cooldowns > 0 {
        text.append(", ");
        text.append(secs(paused_ns).as_str());
        text.append(" paused for thermal flow control");
    }
    assert(text@ =~= summary_text(elapsed_ns, paused_ns, stats));
    text
}

/// One window of any length is measured exactly, and the total after it does
/// not move any more.
pub proof fn a_pause_is_measured_once(log: JobLog, from: u64, to: u64, later: u64)
    requires
        log.paused_since is None,
        from <= to,
        log.paused_before + (to - from) <= u64::MAX,
    ensures
        log.paused(from).resumed(to).total_paused(later) == log.paused_before + (to - from),
        log.paused(from).total_paused(to) == log.paused_before + (to - from),
{
}

/// A second pause inside an open window does not restart the clock.
pub proof fn overlapping_pauses_are_one(log: JobLog, from: u64, again: u64)
    ensures
        log.paused(from).paused(again) == log.paused(from),
{
}

/// Cooldowns are never lost: those not yet reported are counted until a report
/// carries them all.
pub proof fn cooldowns_are_reported_together(log: JobLog, now: u64)
    requires
        log.cooldowns_pending < u32::MAX,
    ensures
        log.report_due(now) ==> log.with_cooldown(now).cooldowns_pending == 0,
        !log.report_due(now) ==> log.with_cooldown(now).cooldowns_pending == log.cooldowns_pending
            + 1,
        log.report_due(now) ==> !log.with_cooldown(now).report_due(now),
{
}

/// A job without flow control is summed up without mention of it.
pub proof fn healthy_summary_is_short(elapsed_ns: u64, paused_ns: u64, packets_sent: u32)
    ensures
        summary_text(
            elapsed_ns,
            paused_ns,
            (JobStats { packets_sent, retransmits: 0, holds: 0, cooldowns: 0 }),
        ) == secs_text(elapsed_ns as nat) + ", "@ + decimal_digits(packets_sent as nat)
            + " packets sent"@,
{
    let short = secs_text(elapsed_ns as nat) + ", "@ + decimal_digits(packets_sent as nat)
        + " packets sent"@;
    let stats = JobStats { packets_sent, retransmits: 0, holds: 0, cooldowns: 0 };
    assert(summary_text(elapsed_ns, paused_ns, stats) =~= short);
}

/// The printer is warned of once for each fault and job: what a status report had
/// to be told about is not told again.
pub proof fn warnings_are_given_once(
    s: crate::protocol::notifications::Status,
    again: crate::protocol::notifications::Status,
    log: JobLog,
    now: u64,
    later: u64,
)
    ensures
        ({
            let lines = observed_lines(Notification::Status(s), log, now);
            let after = observed_log(Notification::Status(s), log, now);
            let more = observed_lines(Notification::Status(again), after, later);
            let hot = s.overheat && !log.warned_overheat;
            let low = s.low_battery && !log.warned_low_battery;
            &&& lines.len() == (if hot {
                1int
            } else {
                0
            }) + if low {
                1int
            } else {
                0
            }
            &&& forall|i: int| 0 <= i < lines.len() ==> (#[trigger] lines[i]).0 == Level::Warn
            &&& (s.overheat || !again.overheat) && (s.low_battery || !again.low_battery)
                ==> more.len() == 0
            &&& after.paused_since == log.paused_since && after.paused_before == log.paused_before
        }),
{
}

/// Cooldowns are told aloud two seconds apart at the least, and all others in a
/// whisper.
pub proof fn cooldowns_are_told_two_seconds_apart(log: JobLog, now: u64, later: u64)
    requires
        log.report_due(now),
        now <= later,
    ensures
        ({
            let aloud = observed_lines(Notification::Cooldown, log, now);
            let after = observed_log(Notification::Cooldown, log, now);
            let next = observed_lines(Notification::Cooldown, after, later);
            &&& aloud.len() == 1 && aloud[0].0 == Level::Info
            &&& next.len() == 1
            &&& next[0].0 == if later - now >= 2_000_000_000 {
                Level::Info
            } else {
                Level::Debug
            }
        }),
{
}

} // verus!
