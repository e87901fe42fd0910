//! Shared print pipeline of the command line and the HTTP server: the failures
//! that callers tell apart, and the course of a print from the connect to the
//! last copy.

use crate::model::PrinterModel;
use crate::protocol::job::{JobError, JobStats, PrintJob};
use crate::protocol::notifications::Status;
use crate::protocol_x6::job::X6PrintJob;
use crate::raster::bitmap::Bitmap;
use crate::strings::decimal;
use crate::transport::log::{NoPaper, Setback};
use vstd::prelude::*;
#[allow(unused_imports)]
use crate::protocol::job::{fresh_job, no_stats};
#[allow(unused_imports)]
use crate::protocol_x6::job::fresh_x6_job;
#[allow(unused_imports)]
use crate::protocol_x6::packets::setup_frames;
#[allow(unused_imports)]
use crate::raster::bitmap::{blank_rows, payloads_of};
#[allow(unused_imports)]
use crate::strings::decimal_digits;
#[allow(unused_imports)]
use crate::transport::log::SetbackText;

verus! {

/// How long a connect keeps scanning for a matching device, in milliseconds.
pub const SCAN_TIMEOUT_MS: u64 = 10_000;

/// How long a print waits for a status frame before it starts, in
/// milliseconds.
pub const STATUS_WAIT_MS: u64 = 3_000;

/// Delay between raster packet writes, in milliseconds.
pub const INTER_PACKET_DELAY_MS: u64 = 15;

/// No matching printer was discovered before the scan timeout.
#[derive(Debug, Clone, Copy, PartialEq, Eq, Structural)]
pub struct NoPrinterFound;

impl NoPrinterFound {
    /// One line for the user.
    pub fn message(&self) -> (text: String)
        ensures
            text@ == "no supported printer found. Is the printer on and in range?"@,
    {
        "no supported printer found. Is the printer on and in range?".to_owned()
    }
}

/// A device with the right name was found, but nothing answered on it.
///
/// This is not the same fault as [`NoPrinterFound`], and the difference
/// matters to whoever is standing next to the printer: the radio found the
/// device, so it is in range and paired — it just is not listening.
///
/// Shares [`NoPrinterFound`]'s exit code (2) and HTTP status (503): from a
/// caller's point of view there is still no printer to print on.
#[derive(Debug)]
pub struct PrinterNotResponding {
    /// The advertised name of the device that stayed silent.
    pub name: String,
}

impl PrinterNotResponding {
    pub fn new(name: &str) -> (e: Self)
        ensures
            e.name@ == name@,
    {
        PrinterNotResponding { name: name.to_owned() }
    }

    /// One line for the user.
    pub fn message(&self) -> (text: String)
        ensures
            text@ == "found "@ + self.name@
                + " but it did not respond — is the printer powered on?"@,
    {
        let mut text: String = "found ".to_owned();
        text.append(self.name.as_str());
        text.append(" but it did not respond — is the printer powered on?");
        text
    }
}

/// Authentication or printing failed (exit code 4).
#[derive(Debug, Clone, Copy, PartialEq, Eq, Structural)]
pub struct PrintFailure;

impl PrintFailure {
    /// One line for the user.
    pub fn message(&self) -> (text: String)
        ensures
            text@ == "print failed"@,
    {
        "print failed".to_owned()
    }
}

/// Why a command failed.
#[derive(Debug)]
pub enum Failure {
    NoPrinter(NoPrinterFound),
    NotResponding(PrinterNotResponding),
    NoPaper(NoPaper),
    /// The print failed, with what caused it. Paper that runs out on the way is
    /// told apart here too.
    Print(PrintFailure, Setback),
    /// The job cannot be printed at all: it has too many rows.
    TooLarge(String),
    /// Anything else.
    Other(String),
}

impl Failure {
    /// The wording of [`Failure::message`].
    pub open spec fn wording(&self) -> Seq<char> {
        match *self {
            Failure::NoPrinter(_) => "no supported printer found. Is the printer on and in range?"@,
            Failure::NotResponding(e) => "found "@ + e.name@
                + " but it did not respond — is the printer powered on?"@,
            Failure::NoPaper(_) => "printer is out of paper"@,
            Failure::Print(_, cause) => "print failed"@ + ": "@ + cause@.wording(),
            Failure::TooLarge(text) => text@,
            Failure::Other(text) => text@,
        }
    }

    /// Whether it was the paper that ran out, before the print or during it.
    pub open spec fn is_paper(&self) -> bool {
        match *self {
            Failure::NoPaper(_) => true,
            Failure::Print(_, cause) => cause@ is NoPaper,
            _ => false,
        }
    }

    /// The exit code that stands for the failure.
    pub open spec fn code(&self) -> i32 {
        if self.is_paper() {
            3
        } else {
            match *self {
                Failure::NoPrinter(_) | Failure::NotResponding(_) => 2,
                Failure::Print(..) => 4,
                _ => 1,
            }
        }
    }

    /// The HTTP status that stands for the failure of a print.
    pub open spec fn http(&self) -> u16 {
        if self.is_paper() {
            409
        } else {
            match *self {
                Failure::NoPrinter(_) | Failure::NotResponding(_) => 503,
                Failure::TooLarge(_) => 400,
                _ => 500,
            }
        }
    }

    /// One line for the user, with what caused the failure.
    pub fn message(&self) -> (text: String)
        ensures
            text@ == self.wording(),
    {
        match self {
            Failure::NoPrinter(e) => e.message(),
            Failure::NotResponding(e) => e.message(),
            Failure::NoPaper(e) => e.message(),
            Failure::Print(e, cause) => {
                let mut text: String = e.message();
                text.append(": ");
                text.append(cause.message().as_str());
                text
            },
            Failure::TooLarge(text) => text.as_str().to_owned(),
            Failure::Other(text) => text.as_str().to_owned(),
        }
    }
}

/// Distinct exit codes: 2 no usable printer (none found, or one found that
/// never answered), 3 no paper, 4 auth/print failure, 1 anything else.
pub fn exit_code(e: &Failure) -> (code: i32)
    ensures
        code == e.code(),
{
    match e {
        Failure::NoPrinter(_) | Failure::NotResponding(_) => 2,
        Failure::NoPaper(_) => 3,
        Failure::Print(_, Setback::NoPaper(_)) => 3,
        Failure::Print(..) => 4,
        Failure::TooLarge(_) | Failure::Other(_) => 1,
    }
}

/// Knobs for a print job, independent of what is being printed.
#[derive(Debug, Clone, Copy)]
pub struct PrintOptions {
    /// Print density, 1-7. On the LX-D02 this is the `5A 0C` density
    /// command; on the X6 it maps to feed speed and printhead energy.
    pub density: u8,
    /// Blank feed lines appended after the content.
    pub feed: usize,
    /// Number of copies, 1-20.
    pub copies: u16,
}

/// What a completed print actually did, across every copy.
///
/// Carries the flow-control counters as well as the line count so callers can
/// explain a slow print instead of just reporting success.
#[derive(Debug, Clone, Copy)]
pub struct PrintOutcome {
    /// Total lines printed (bitmap height times copies).
    pub lines: usize,
    /// Counters summed over every copy.
    pub stats: JobStats,
    /// Wall clock from the start of the connect to the last copy finishing,
    /// in nanoseconds.
    pub elapsed: u64,
}

/// Clamp a feed request to the u16 the X6 feed command carries. The CLI
/// deliberately leaves `--feed` unbounded, so out-of-range saturates rather
/// than failing a job over blank paper.
pub fn feed_px(feed: usize) -> (px: u16)
    ensures
        px == clamped_feed(feed as int),
{
    if feed > 65535 {
        65535
    } else {
        feed as u16
    }
}

/// A feed request within the range of the X6 feed command.
pub open spec fn clamped_feed(feed: int) -> u16 {
    if feed > 65535 {
        65535
    } else {
        feed as u16
    }
}

/// The sum of two counts, staying at the top of the range.
pub open spec fn sum_count(a: u32, b: u32) -> u32 {
    if a + b > u32::MAX {
        u32::MAX
    } else {
        (a + b) as u32
    }
}

/// Two copies' worth of counters.
pub open spec fn sum_stats(a: JobStats, b: JobStats) -> JobStats {
    JobStats {
        packets_sent: sum_count(a.packets_sent, b.packets_sent),
        retransmits: sum_count(a.retransmits, b.retransmits),
        holds: sum_count(a.holds, b.holds),
        cooldowns: sum_count(a.cooldowns, b.cooldowns),
    }
}

/// Sum two copies' worth of counters.
pub fn add_stats(a: JobStats, b: JobStats) -> (sum: JobStats)
    ensures
        sum == sum_stats(a, b),
{
    JobStats {
        packets_sent: a.packets_sent.saturating_add(b.packets_sent),
        retransmits: a.retransmits.saturating_add(b.retransmits),
        holds: a.holds.saturating_add(b.holds),
        cooldowns: a.cooldowns.saturating_add(b.cooldowns),
    }
}

/// Where a print stands.
#[derive(Debug, Clone, Copy, PartialEq, Eq, Structural)]
pub enum Stage {
    /// A printer is still to be found.
    Connecting,
    /// Waiting for a status frame before the first copy.
    Checking,
    /// This copy, counted from 1, is under way.
    Printing { copy: u16 },
    /// The link is to be taken down.
    Over,
}

/// What the caller does next.
#[derive(Debug)]
pub enum Order {
    /// Wait up to [`STATUS_WAIT_MS`] for a status frame, then call
    /// [`PrintFlow::status`].
    WaitStatus,
    /// Run one job ([`PrintFlow::lx_job`] or [`PrintFlow::x6_job`]), then call
    /// [`PrintFlow::copy_done`].
    RunCopy,
    /// Disconnect; the print is complete.
    Finish,
    /// Disconnect; the print has failed.
    Abort(Failure),
}

/// A step of a print as plain values.
pub enum OrderStep {
    WaitStatus,
    RunCopy,
    Finish,
    Abort { code: i32, http: u16, wording: Seq<char> },
}

impl View for Order {
    type V = OrderStep;

    open spec fn view(&self) -> OrderStep {
        match *self {
            Order::WaitStatus => OrderStep::WaitStatus,
            Order::RunCopy => OrderStep::RunCopy,
            Order::Finish => OrderStep::Finish,
            Order::Abort(f) => OrderStep::Abort {
                code: f.code(),
                http: f.http(),
                wording: f.wording(),
            },
        }
    }
}

/// Everything a [`PrintFlow`] knows.
#[verifier::ext_equal]
pub struct FlowModel {
    pub rows: Seq<Seq<u8>>,
    pub density: u8,
    pub feed: nat,
    pub copies: u16,
    pub model: PrinterModel,
    pub stage: Stage,
    pub stats: JobStats,
}

/// The most rows that a LX-D02 job can have.
pub const MAX_LX_ROWS: usize = 131_070;

impl FlowModel {
    /// What holds of every print: there is something to print, the line count
    /// fits, and what reaches an LX-D02 is not too large for it.
    pub open spec fn wf(self) -> bool {
        &&& self.rows.len() > 0
        &&& self.rows.len() * self.copies <= usize::MAX
        &&& MAX_LX_ROWS * self.copies <= usize::MAX
        &&& (self.stage is Checking || self.stage is Printing) && self.model == PrinterModel::LxD02
            ==> self.rows.len() <= MAX_LX_ROWS
        &&& self.stage matches Stage::Printing { copy } ==> 1 <= copy <= self.copies
    }

    /// The step that starts the first copy, if any is asked for.
    pub open spec fn first_copy(self) -> (FlowModel, OrderStep) {
        if self.copies == 0 {
            (FlowModel { stage: Stage::Over, ..self }, OrderStep::Finish)
        } else {
            (FlowModel { stage: Stage::Printing { copy: 1 }, ..self }, OrderStep::RunCopy)
        }
    }

    /// The step after a printer was connected to.
    pub open spec fn on_connected(self, model: PrinterModel) -> (FlowModel, OrderStep) {
        match model {
            PrinterModel::LxD02 => {
                if self.rows.len() + self.feed > MAX_LX_ROWS {
                    (
                        FlowModel { model, stage: Stage::Over, ..self },
                        OrderStep::Abort {
                            code: 1,
                            http: 400,
                            wording: "cannot print this job: "@ + (JobError::TooLarge {
                                packets: ((self.rows.len() + self.feed + 1) / 2) as usize,
                            }).wording(),
                        },
                    )
                } else {
                    (
                        FlowModel {
                            model,
                            stage: Stage::Checking,
                            rows: self.rows + blank_rows(self.feed),
                            ..self
                        },
                        OrderStep::WaitStatus,
                    )
                }
            },
            PrinterModel::X6 => (FlowModel { model, ..self }).first_copy(),
        }
    }

    /// The step after a status frame came in, or none did.
    pub open spec fn on_status(self, status: Option<Status>) -> (FlowModel, OrderStep) {
        if status matches Some(s) && s.no_paper {
            (
                FlowModel { stage: Stage::Over, ..self },
                OrderStep::Abort { code: 3, http: 409, wording: "printer is out of paper"@ },
            )
        } else {
            self.first_copy()
        }
    }

    /// The step after a copy was run.
    pub open spec fn on_copy(self, result: Result<JobStats, SetbackText>) -> (FlowModel, OrderStep) {
        match result {
            Err(cause) => (
                FlowModel { stage: Stage::Over, ..self },
                OrderStep::Abort {
                    code: if cause is NoPaper {
                        3
                    } else {
                        4
                    },
                    http: if cause is NoPaper {
                        409
                    } else {
                        500
                    },
                    wording: "print failed"@ + ": "@ + cause.wording(),
                },
            ),
            Ok(stats) => {
                let counted = FlowModel { stats: sum_stats(self.stats, stats), ..self };
                let copy = self.stage->copy;
                if copy < self.copies {
                    (
                        FlowModel { stage: Stage::Printing { copy: (copy + 1) as u16 }, ..counted },
                        OrderStep::RunCopy,
                    )
                } else {
                    (FlowModel { stage: Stage::Over, ..counted }, OrderStep::Finish)
                }
            },
        }
    }
}

/// A print before a printer is found.
pub open spec fn fresh_flow(
    rows: Seq<Seq<u8>>,
    opts: PrintOptions,
) -> FlowModel {
    FlowModel {
        rows,
        density: opts.density,
        feed: opts.feed as nat,
        copies: opts.copies,
        model: PrinterModel::LxD02,
        stage: Stage::Connecting,
        stats: no_stats(),
    }
}

/// The course of one print: connect, check, and run every copy over one
/// connection.
///
/// Feed handling and validation are per-model, so both happen after connect,
/// once the model is known: the LX appends the feed as blank raster lines to
/// the bitmap, the X6 sends the feed as its own command. An oversized LX job
/// is therefore rejected after the connect rather than before it.
#[derive(Debug)]
pub struct PrintFlow {
    bitmap: Bitmap,
    opts: PrintOptions,
    model: PrinterModel,
    stage: Stage,
    stats: JobStats,
}

impl View for PrintFlow {
    type V = FlowModel;

    closed spec fn view(&self) -> FlowModel {
        FlowModel {
            rows: self.bitmap@,
            density: self.opts.density,
            feed: self.opts.feed as nat,
            copies: self.opts.copies,
            model: self.model,
            stage: self.stage,
            stats: self.stats,
        }
    }
}

/// What a print says between copies.
pub open spec fn copy_text(copy: u16, copies: u16) -> Seq<char> {
    "Printed copy "@ + decimal_digits(copy as nat) + "/"@ + decimal_digits(copies as nat) + "."@
}

impl PrintFlow {
    #[verifier::type_invariant]
    spec fn holds_together(&self) -> bool {
        self@.wf()
    }

    /// A print of `bitmap`. An empty bitmap is refused before the radio is
    /// touched: with content of height 0 an X6 job would still consume paper
    /// (its blank lead row plus the feed), and an LX job would print only the
    /// feed.
    ///
    /// The lines of all copies have to be counted in a `usize`: those of the
    /// bitmap, and those of the largest job an LX-D02 takes, which any number
    /// of copies keeps within 64 bits. The feed is not bounded.
    pub fn new(bitmap: Bitmap, opts: PrintOptions) -> (r: Result<Self, Failure>)
        requires
            bitmap@.len() * opts.copies <= usize::MAX,
            MAX_LX_ROWS * opts.copies <= usize::MAX,
        ensures
            r is Err <==> bitmap@.len() == 0,
            r matches Err(e) ==> e is Other && e.wording()
                == "nothing to print: bitmap is empty"@,
            r matches Ok(flow) ==> flow@ == fresh_flow(bitmap@, opts) && flow@.wf(),
    {
        if bitmap.height() == 0 {
            return Err(Failure::Other("nothing to print: bitmap is empty".to_owned()));
        }
        Ok(
            PrintFlow {
                bitmap,
                opts,
                model: PrinterModel::LxD02,
                stage: Stage::Connecting,
                stats: JobStats { packets_sent: 0, retransmits: 0, holds: 0, cooldowns: 0 },
            },
        )
    }

    fn start_copies(self) -> (r: (PrintFlow, Order))
        requires
            self@.model == PrinterModel::LxD02 ==> self@.rows.len() <= MAX_LX_ROWS,
        ensures
            (r.0@, r.1@) == self@.first_copy(),
            r.0@.wf(),
    {
        proof {
            use_type_invariant(&self);
        }
        let PrintFlow { bitmap, opts, model, stage: _, stats } = self;
        if opts.copies == 0 {
            (PrintFlow { bitmap, opts, model, stage: Stage::Over, stats }, Order::Finish)
        } else {
            (
                PrintFlow { bitmap, opts, model, stage: Stage::Printing { copy: 1 }, stats },
                Order::RunCopy,
            )
        }
    }

    /// A printer is connected.
    pub fn connected(self, model: PrinterModel) -> (r: (PrintFlow, Order))
        requires
            self@.stage == Stage::Connecting,
        ensures
            (r.0@, r.1@) == self@.on_connected(model),
            r.0@.wf(),
    {
        proof {
            use_type_invariant(&self);
        }
        let PrintFlow { mut bitmap, opts, model: _, stage, stats } = self;
        match model {
            PrinterModel::LxD02 => {
                // Reject an oversized job here, so that it fails without
                // sitting out the status wait.
                let height: usize = bitmap.height();
                if height > MAX_LX_ROWS || opts.feed > MAX_LX_ROWS - height {
                    let e: JobError = JobError::TooLarge {
                        packets: height / 2 + opts.feed / 2 + (height % 2 + opts.feed % 2 + 1) / 2,
                    };
                    let mut text: String = "cannot print this job: ".to_owned();
                    text.append(e.message().as_str());
                    return (
                        PrintFlow { bitmap, opts, model, stage: Stage::Over, stats },
                        Order::Abort(Failure::TooLarge(text)),
                    );
                }
                // The feed rides along as blank raster lines on this model.
                bitmap.extend_blank(opts.feed);
                assert(bitmap@ =~= self@.rows + blank_rows(opts.feed as nat));
                proof {
                    assert(bitmap@.len() * opts.copies <= MAX_LX_ROWS * opts.copies)
                        by (nonlinear_arith)
                        requires
                            bitmap@.len() <= MAX_LX_ROWS,
                            opts.copies >= 0,
                    ;
                }
                (
                    PrintFlow { bitmap, opts, model, stage: Stage::Checking, stats },
                    Order::WaitStatus,
                )
            },
            PrinterModel::X6 => {
                PrintFlow { bitmap, opts, model, stage, stats }.start_copies()
            },
        }
    }

    /// A status frame came in while one was waited for, or none did: not
    /// receiving one is not fatal. The second result says whether to warn of a
    /// low battery.
    pub fn status(self, status: Option<Status>) -> (r: (PrintFlow, Order, bool))
        requires
            self@.stage == Stage::Checking,
        ensures
            (r.0@, r.1@) == self@.on_status(status),
            r.0@.wf(),
            r.2 == (status matches Some(s) && !s.no_paper && s.low_battery),
    {
        proof {
            use_type_invariant(&self);
        }
        let low: bool = match status {
            Some(s) => {
                if s.no_paper {
                    let PrintFlow { bitmap, opts, model, stage: _, stats } = self;
                    return (
                        PrintFlow { bitmap, opts, model, stage: Stage::Over, stats },
                        Order::Abort(Failure::NoPaper(NoPaper)),
                        false,
                    );
                }
                s.low_battery
            },
            None => false,
        };
        let (flow, order) = self.start_copies();
        (flow, order, low)
    }

    /// A copy has been run. The text, if any, says that it is out.
    pub fn copy_done(self, result: Result<JobStats, Setback>) -> (r: (
        PrintFlow,
        Order,
        Option<String>,
    ))
        requires
            self@.stage is Printing,
        ensures
            (r.0@, r.1@) == self@.on_copy(
                match result {
                    Ok(s) => Ok(s),
                    Err(e) => Err(e@),
                },
            ),
            r.0@.wf(),
            r.2 is Some <==> result is Ok && self@.copies > 1,
            r.2 matches Some(text) ==> text@ == copy_text(self@.stage->copy, self@.copies),
    {
        proof {
            use_type_invariant(&self);
        }
        let PrintFlow { bitmap, opts, model, stage, stats } = self;
        let copy: u16 = match stage {
            Stage::Printing { copy } => copy,
            _ => 0,
        };
        match result {
            Err(cause) => (
                PrintFlow { bitmap, opts, model, stage: Stage::Over, stats },
                Order::Abort(Failure::Print(PrintFailure, cause)),
                None,
            ),
            Ok(s) => {
                let said: Option<String> = if opts.copies > 1 {
                    let mut text: String = "Printed copy ".to_owned();
                    text.append(decimal(copy as u128).as_str());
                    text.append("/");
                    text.append(decimal(opts.copies as u128).as_str());
                    text.append(".");
                    Some(text)
                } else {
                    None
                };
                let total: JobStats = add_stats(stats, s);
                if copy < opts.copies {
                    (
                        PrintFlow {
                            bitmap,
                            opts,
                            model,
                            stage: Stage::Printing { copy: copy + 1 },
                            stats: total,
                        },
                        Order::RunCopy,
                        said,
                    )
                } else {
                    (
                        PrintFlow { bitmap, opts, model, stage: Stage::Over, stats: total },
                        Order::Finish,
                        said,
                    )
                }
            },
        }
    }

    /// The model that is printed on.
    pub fn model(&self) -> (model: PrinterModel)
        ensures
            model == self@.model,
    {
        self.model
    }

    /// The job of one copy on an LX-D02, with a fresh challenge.
    pub fn lx_job(&self, challenge: [u8; 10]) -> (job: Result<PrintJob, JobError>)
        requires
            self@.stage is Printing,
            self@.model == PrinterModel::LxD02,
        ensures
            job matches Ok(j) && j@ == fresh_job(
                payloads_of(self@.rows),
                self@.density,
                challenge@,
                INTER_PACKET_DELAY_MS,
            ) && j@.wf(),
    {
        proof {
            use_type_invariant(self);
        }
        PrintJob::new(&self.bitmap, self.opts.density, challenge, INTER_PACKET_DELAY_MS)
    }

    /// The job of one copy on an X6: the feed is a command carrying a pixel
    /// count, sent by the job after the raster.
    pub fn x6_job(&self) -> (job: X6PrintJob)
        ensures
            job@ == fresh_x6_job(
                setup_frames(self@.density),
                self@.rows,
                clamped_feed(self@.feed as int),
                INTER_PACKET_DELAY_MS,
            ),
            job@.wf(),
    {
        X6PrintJob::with_density(
            &self.bitmap,
            self.opts.density,
            feed_px(self.opts.feed),
            INTER_PACKET_DELAY_MS,
        )
    }

    /// What the print did. On the LX the feed lines are part of the bitmap by
    /// now; on the X6 they are fed, not printed, and are not counted.
    pub fn outcome(&self, elapsed: u64) -> (outcome: PrintOutcome)
        ensures
            outcome == (PrintOutcome {
                lines: (self@.rows.len() * self@.copies) as usize,
                stats: self@.stats,
                elapsed,
            }),
    {
        proof {
            use_type_invariant(self);
        }
        PrintOutcome {
            lines: self.bitmap.height() * (self.opts.copies as usize),
            stats: self.stats,
            elapsed,
        }
    }
}

/// The text of the line after a print: one copy says how much it printed.
pub open spec fn printed_text(lines: usize) -> Seq<char> {
    "Printed "@ + decimal_digits(lines as nat) + " lines."@
}

/// What is said after a print, if anything is.
pub fn printed_line(copies: u16, lines: usize) -> (text: Option<String>)
    ensures
        text is Some <==> copies == 1,
        text matches Some(t) ==> t@ == printed_text(lines),
{
    if copies != 1 {
        return None;
    }
    let mut t: String = "Printed ".to_owned();
    t.append(decimal(lines as u128).as_str());
    t.append(" lines.");
    Some(t)
}

/// The counters after some copies that all went well.
pub open spec fn stats_of(start: JobStats, copies: Seq<JobStats>) -> JobStats
    decreases copies.len(),
{
    if copies.len() == 0 {
        start
    } else {
        sum_stats(stats_of(start, copies.drop_last()), copies.last())
    }
}

/// A print after some copies that all went well.
pub open spec fn after_copies(flow: FlowModel, copies: Seq<JobStats>) -> (FlowModel, OrderStep)
    decreases copies.len(),
{
    if copies.len() == 0 {
        flow.first_copy()
    } else {
        after_copies(flow, copies.drop_last()).0.on_copy(Ok(copies.last()))
    }
}

/// Every copy is printed, one after the other, and none is printed twice: the
/// print asks for another copy exactly until `copies` of them went well, and
/// then counts what all of them did.
pub proof fn every_copy_is_printed_once(flow: FlowModel, done: Seq<JobStats>)
    requires
        flow.wf(),
        done.len() <= flow.copies,
    ensures
        done.len() < flow.copies ==> after_copies(flow, done) == (
            FlowModel {
                stage: Stage::Printing { copy: (done.len() + 1) as u16 },
                stats: stats_of(flow.stats, done),
                ..flow
            },
            OrderStep::RunCopy,
        ),
        done.len() == flow.copies ==> after_copies(flow, done) == (
            FlowModel { stage: Stage::Over, stats: stats_of(flow.stats, done), ..flow },
            OrderStep::Finish,
        ),
    decreases done.len(),
{
    if done.len() > 0 {
        every_copy_is_printed_once(flow, done.drop_last());
    }
}

/// Nothing is printed on a printer that says it has no paper.
pub proof fn no_paper_prints_nothing(flow: FlowModel, status: Status)
    requires
        status.no_paper,
    ensures
        flow.on_status(Some(status)).0.stage == Stage::Over,
        flow.on_status(Some(status)).1 is Abort,
{
}

/// A copy that fails ends the print, with the copies after it not started.
pub proof fn a_failed_copy_ends_the_print(flow: FlowModel, cause: SetbackText)
    ensures
        flow.on_copy(Err(cause)).0.stage == Stage::Over,
        flow.on_copy(Err(cause)).1 is Abort,
        flow.on_copy(Err(cause)).0.stats == flow.stats,
{
}

/// Paper that has run out is reported the same way whether it was missing
/// before the print or ran out during a copy.
pub proof fn paper_is_reported_alike(before: FlowModel, during: FlowModel, status: Status)
    requires
        status.no_paper,
    ensures
        before.on_status(Some(status)).1 matches OrderStep::Abort { code, http, .. } && during.on_copy(
            Err(SetbackText::NoPaper),
        ).1 matches OrderStep::Abort { code: later, http: later_http, .. } && code == later && http
            == later_http,
{
}

/// Callers over HTTP can tell the same failures apart that the exit code tells
/// apart: each status goes with one exit code, and only an oversized job is set
/// off further.
pub proof fn statuses_follow_exit_codes(a: Failure, b: Failure)
    ensures
        a.http() == b.http() && a.http() != 500 ==> a.code() == b.code(),
        a.code() == b.code() && a.code() != 1 ==> a.http() == b.http(),
        a.http() == 400 ==> a is TooLarge,
{
}

/// The feed is printed as blank rows on an LX-D02, as far as the job can hold
/// them, and not at all on an X6, which prints whatever the feed is.
pub proof fn feed_counts_on_the_lx_only(flow: FlowModel)
    requires
        flow.wf(),
        flow.stage == Stage::Connecting,
    ensures
        flow.rows.len() + flow.feed <= MAX_LX_ROWS ==> flow.on_connected(PrinterModel::LxD02).0.rows
            == flow.rows + blank_rows(flow.feed),
        flow.rows.len() + flow.feed > MAX_LX_ROWS ==> flow.on_connected(PrinterModel::LxD02).1
            is Abort,
        flow.on_connected(PrinterModel::X6) == (FlowModel {
            model: PrinterModel::X6,
            ..flow
        }).first_copy(),
{
}

/// What a print reports when every copy went well: on an LX-D02 the rows and
/// the feed of each copy, on an X6 the rows alone, and the counters of all
/// copies together.
pub proof fn a_complete_print_counts_every_line(
    bitmap: Seq<Seq<u8>>,
    opts: PrintOptions,
    status: Option<Status>,
    done: Seq<JobStats>,
)
    requires
        fresh_flow(bitmap, opts).wf(),
        done.len() == opts.copies,
        status matches Some(s) ==> !s.no_paper,
    ensures
        bitmap.len() + opts.feed <= MAX_LX_ROWS ==> {
            let checked = fresh_flow(bitmap, opts).on_connected(PrinterModel::LxD02).0;
            let end = after_copies(checked, done);
            &&& checked.on_status(status) == checked.first_copy()
            &&& end.1 == OrderStep::Finish
            &&& end.0.rows.len() * end.0.copies == opts.copies * (bitmap.len() + opts.feed)
            &&& end.0.stats == stats_of(no_stats(), done)
        },
        ({
            let found = FlowModel { model: PrinterModel::X6, ..fresh_flow(bitmap, opts) };
            let end = after_copies(found, done);
            &&& fresh_flow(bitmap, opts).on_connected(PrinterModel::X6) == found.first_copy()
            &&& end.1 == OrderStep::Finish
            &&& end.0.rows.len() * end.0.copies == opts.copies * bitmap.len()
            &&& end.0.stats == stats_of(no_stats(), done)
        }),
{
    let fresh = fresh_flow(bitmap, opts);
    let found = FlowModel { model: PrinterModel::X6, ..fresh };
    every_copy_is_printed_once(found, done);
    assert(bitmap.len() * opts.copies == opts.copies * bitmap.len()) by (nonlinear_arith);
    if bitmap.len() + opts.feed <= MAX_LX_ROWS {
        let checked = fresh.on_connected(PrinterModel::LxD02).0;
        let rows = bitmap.len() + opts.feed;
        assert(rows * opts.copies <= MAX_LX_ROWS * opts.copies) by (nonlinear_arith)
            requires
                rows <= MAX_LX_ROWS,
                opts.copies >= 0,
        ;
        assert(checked.rows.len() == rows);
        every_copy_is_printed_once(checked, done);
        assert(rows * opts.copies == opts.copies * rows) by (nonlinear_arith);
    }
}

/// Failures have their exit codes and their statuses: no printer, or one that
/// does not answer, 2 and 503; no paper, before or during a print, 3 and 409; a
/// print that fails otherwise 4 and 500; a job that is too large 1 and 400; and
/// anything else 1 and 500.
pub proof fn failures_have_their_codes(f: Failure)
    ensures
        f is NoPrinter || f is NotResponding ==> f.code() == 2 && f.http() == 503,
        f is NoPaper ==> f.code() == 3 && f.http() == 409,
        f matches Failure::Print(_, cause) ==> (cause@ is NoPaper ==> f.code() == 3 && f.http()
            == 409) && (!(cause@ is NoPaper) ==> f.code() == 4 && f.http() == 500),
        f is TooLarge ==> f.code() == 1 && f.http() == 400,
        f is Other ==> f.code() == 1 && f.http() == 500,
{
}

/// The counters of two copies add up, each with its own, up to the top of the
/// range.
pub proof fn counters_add_up(a: JobStats, b: JobStats)
    ensures
        ({
            let s = sum_stats(a, b);
            &&& a.packets_sent + b.packets_sent <= u32::MAX ==> s.packets_sent == a.packets_sent
                + b.packets_sent
            &&& a.retransmits + b.retransmits <= u32::MAX ==> s.retransmits == a.retransmits
                + b.retransmits
            &&& a.holds + b.holds <= u32::MAX ==> s.holds == a.holds + b.holds
            &&& a.cooldowns + b.cooldowns <= u32::MAX ==> s.cooldowns == a.cooldowns + b.cooldowns
            &&& a.packets_sent + b.packets_sent > u32::MAX ==> s.packets_sent == u32::MAX
            &&& a.retransmits + b.retransmits > u32::MAX ==> s.retransmits == u32::MAX
            &&& a.holds + b.holds > u32::MAX ==> s.holds == u32::MAX
            &&& a.cooldowns + b.cooldowns > u32::MAX ==> s.cooldowns == u32::MAX
        }),
{
}

/// A feed of an X6 is as long as asked for, up to 65535 rows.
pub proof fn an_x6_feeds_what_is_asked_for(feed: int)
    requires
        0 <= feed,
    ensures
        feed <= 65_535 ==> clamped_feed(feed) == feed,
        feed > 65_535 ==> clamped_feed(feed) == 65_535,
{
}

/// A print that is too large for an LX-D02 is refused before anything is printed:
/// one of more than 131070 rows, feed included. Any other waits for a report of
/// the printer first.
pub proof fn an_oversized_print_is_refused(flow: FlowModel)
    requires
        flow.wf(),
        flow.stage == Stage::Connecting,
    ensures
        ({
            let (next, order) = flow.on_connected(PrinterModel::LxD02);
            &&& flow.rows.len() + flow.feed > 131_070 ==> next.stage == Stage::Over && (
            order matches OrderStep::Abort { code, http, .. } && code == 1 && http == 400)
            &&& flow.rows.len() + flow.feed <= 131_070 ==> next.stage == Stage::Checking
                && order == OrderStep::WaitStatus && next.rows.take(flow.rows.len() as int)
                == flow.rows && next.rows.len() == flow.rows.len() + flow.feed
            &&& next.density == flow.density && next.copies == flow.copies
        }),
{
    let next = flow.on_connected(PrinterModel::LxD02).0;
    if flow.rows.len() + flow.feed <= 131_070 {
        assert(next.rows.take(flow.rows.len() as int) =~= flow.rows);
    }
}

/// A printer with paper, or one that says nothing, prints: the missing report is
/// no failure.
pub proof fn silence_does_not_stop_a_print(flow: FlowModel, s: Status)
    requires
        flow.copies > 0,
        !s.no_paper,
    ensures
        flow.on_status(None).1 == OrderStep::RunCopy,
        flow.on_status(Some(s)).1 == OrderStep::RunCopy,
        flow.on_status(None).0.stage == (Stage::Printing { copy: 1 }),
{
}

} // verus!
