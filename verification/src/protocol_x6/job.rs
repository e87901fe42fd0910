//! Sans-IO X6 print job state machine.
//!
//! Far simpler than the LX-D02 flow: no hello, no auth, no completion
//! notification. Stream one 0xA2 scanline frame per bitmap row (plus one
//! blank lead row — the printer prints artifacts if the first row has ink),
//! pause on BufferFull / resume on Ready, then feed and settle.

use crate::protocol::job::{Action, JobStats};
use crate::protocol_x6::notifications::X6Notification;
use crate::protocol_x6::packets;
use crate::raster::bitmap::{Bitmap, BYTES_PER_ROW};
use vstd::prelude::*;
use vstd::slice::slice_to_vec;
#[allow(unused_imports)]
use crate::protocol::job::{bump, no_stats, Step};
#[allow(unused_imports)]
use crate::protocol::packets::zeros;
#[allow(unused_imports)]
use crate::protocol_x6::packets::{feed_frame, scanline_frame, setup_frames};

verus! {

/// Wait after the final feed before declaring the job done, so the transport
/// does not tear the link down while the printer is still draining its
/// buffer. The printer sends no completion event, so this is a guess; tune
/// against hardware.
pub const SETTLE_MS: u64 = 500;

/// Where a job stands.
#[derive(Debug, Clone, Copy, PartialEq, Eq, Structural)]
pub enum State {
    Streaming,
    /// Printer said BufferFull; waiting for Ready.
    Paused,
    /// The feed is out; the printer drains its buffer.
    Settle,
    Done,
}

/// Everything an [`X6PrintJob`] knows.
#[verifier::ext_equal]
pub struct X6Model {
    pub state: State,
    /// Frames that go out before the first scanline.
    pub setup: Seq<Seq<u8>>,
    pub setup_idx: int,
    pub rows: Seq<Seq<u8>>,
    pub send_idx: int,
    pub feed_px: u16,
    pub delay_ms: u64,
    pub pending_ms: Option<u64>,
    pub stats: JobStats,
}

impl X6Model {
    /// What holds of every job.
    pub open spec fn wf(self) -> bool {
        &&& 0 <= self.setup_idx <= self.setup.len()
        &&& 0 <= self.send_idx <= self.rows.len()
        &&& self.send_idx > 0 ==> self.setup_idx == self.setup.len()
        &&& self.rows.len() > 0
        &&& self.rows[0] == zeros(BYTES_PER_ROW as nat)
        &&& self.pending_ms is Some ==> self.state == State::Streaming && self.has_next()
        &&& self.state == State::Settle || self.state == State::Done ==> !self.in_setup()
            && !self.has_next()
        &&& self.stats.retransmits == 0
        &&& self.stats.cooldowns == 0
    }

    pub open spec fn in_setup(self) -> bool {
        self.setup_idx < self.setup.len()
    }

    pub open spec fn has_next(self) -> bool {
        self.send_idx < self.rows.len()
    }

    /// The action that is due.
    pub open spec fn action(self) -> Step {
        if let Some(ms) = self.pending_ms {
            Step::WaitMs(ms)
        } else {
            match self.state {
                State::Streaming => if self.in_setup() {
                    Step::Send(self.setup[self.setup_idx])
                } else if self.has_next() {
                    Step::Send(scanline_frame(self.rows[self.send_idx]))
                } else if self.feed_px == 0 {
                    Step::WaitMs(SETTLE_MS)
                } else {
                    Step::Send(feed_frame(self.feed_px))
                },
                State::Settle => Step::WaitMs(SETTLE_MS),
                State::Paused => Step::WaitNotification,
                State::Done => Step::Done,
            }
        }
    }

    /// The job once the action that is due has been handed out.
    pub open spec fn after_action(self) -> X6Model {
        if self.pending_ms is Some {
            X6Model { pending_ms: None, ..self }
        } else {
            match self.state {
                State::Streaming => if self.in_setup() {
                    X6Model { setup_idx: self.setup_idx + 1, ..self }
                } else if self.has_next() {
                    X6Model {
                        send_idx: self.send_idx + 1,
                        pending_ms: if self.delay_ms > 0 && self.send_idx + 1 < self.rows.len() {
                            Some(self.delay_ms)
                        } else {
                            None
                        },
                        stats: JobStats {
                            packets_sent: bump(self.stats.packets_sent),
                            ..self.stats
                        },
                        ..self
                    }
                } else if self.feed_px == 0 {
                    X6Model { state: State::Done, ..self }
                } else {
                    X6Model { state: State::Settle, ..self }
                },
                State::Settle => X6Model { state: State::Done, ..self },
                _ => self,
            }
        }
    }

    /// The job once a notification has been fed in. One that makes no sense
    /// where the job stands changes nothing.
    pub open spec fn after_notification(self, n: X6Notification) -> X6Model {
        match n {
            X6Notification::BufferFull => if self.state == State::Streaming {
                X6Model {
                    state: State::Paused,
                    pending_ms: None,
                    stats: JobStats { holds: bump(self.stats.holds), ..self.stats },
                    ..self
                }
            } else {
                self
            },
            X6Notification::Ready => if self.state == State::Paused {
                X6Model { state: State::Streaming, ..self }
            } else {
                self
            },
        }
    }
}

/// The job at its start: a blank lead row stands before the bitmap's rows.
pub open spec fn fresh_x6_job(
    setup: Seq<Seq<u8>>,
    rows: Seq<Seq<u8>>,
    feed_px: u16,
    delay_ms: u64,
) -> X6Model {
    X6Model {
        state: State::Streaming,
        setup,
        setup_idx: 0,
        rows: seq![zeros(BYTES_PER_ROW as nat)] + rows,
        send_idx: 0,
        feed_px,
        delay_ms,
        pending_ms: None,
        stats: no_stats(),
    }
}

/// Sans-IO driver for one X6 print job. Same drive contract as
/// [`crate::protocol::job::PrintJob`]: call `next_action`, perform it, feed
/// notifications back in.
#[derive(Debug)]
pub struct X6PrintJob {
    setup: Vec<Vec<u8>>,
    setup_idx: usize,
    rows: Vec<[u8; BYTES_PER_ROW]>,
    state: State,
    send_idx: usize,
    feed_px: u16,
    inter_packet_delay_ms: u64,
    pending_wait_ms: Option<u64>,
    stats: JobStats,
}

impl View for X6PrintJob {
    type V = X6Model;

    closed spec fn view(&self) -> X6Model {
        X6Model {
            state: self.state,
            setup: Seq::new(self.setup@.len(), |i: int| self.setup@[i]@),
            setup_idx: self.setup_idx as int,
            rows: Seq::new(self.rows@.len(), |i: int| self.rows@[i]@),
            send_idx: self.send_idx as int,
            feed_px: self.feed_px,
            delay_ms: self.inter_packet_delay_ms,
            pending_ms: self.pending_wait_ms,
            stats: self.stats,
        }
    }
}

impl X6PrintJob {
    #[verifier::type_invariant]
    spec fn holds_together(&self) -> bool {
        self@.wf()
    }

    /// A job that prints `bitmap`, then feeds `feed_px` rows of blank paper.
    ///
    /// Unlike the LX-D02 job this cannot fail to construct: there is no
    /// packet-index limit and no auth challenge. The darkness stays as the
    /// printer has it.
    pub fn new(bitmap: &Bitmap, feed_px: u16, inter_packet_delay_ms: u64) -> (job: Self)
        ensures
            job@ == fresh_x6_job(Seq::empty(), bitmap@, feed_px, inter_packet_delay_ms),
            job@.wf(),
    {
        let job: X6PrintJob = X6PrintJob::start(
            Vec::new(),
            bitmap,
            feed_px,
            inter_packet_delay_ms,
        );
        assert(job@.setup =~= Seq::<Seq<u8>>::empty());
        job
    }

    /// The same, with feed speed and printhead energy set from `density` (1-7)
    /// before the first scanline.
    pub fn with_density(
        bitmap: &Bitmap,
        density: u8,
        feed_px: u16,
        inter_packet_delay_ms: u64,
    ) -> (job: Self)
        ensures
            job@ == fresh_x6_job(setup_frames(density), bitmap@, feed_px, inter_packet_delay_ms),
            job@.wf(),
    {
        let job: X6PrintJob = X6PrintJob::start(
            packets::density_setup(density),
            bitmap,
            feed_px,
            inter_packet_delay_ms,
        );
        assert(job@.setup =~= setup_frames(density));
        job
    }

    fn start(
        setup: Vec<Vec<u8>>,
        bitmap: &Bitmap,
        feed_px: u16,
        inter_packet_delay_ms: u64,
    ) -> (job: Self)
        ensures
            job@ == fresh_x6_job(
                Seq::new(setup@.len(), |i: int| setup@[i]@),
                bitmap@,
                feed_px,
                inter_packet_delay_ms,
            ),
            job@.wf(),
    {
        // Blank lead row: the printer misprints if row 0 carries ink.
        let mut rows: Vec<[u8; BYTES_PER_ROW]> = Vec::new();
        let lead: [u8; BYTES_PER_ROW] = [0u8; BYTES_PER_ROW];
        assert(lead@ =~= zeros(BYTES_PER_ROW as nat));
        rows.push(lead);
        let mut y: usize = 0;
        while y < bitmap.height()
            invariant
                y <= bitmap@.len(),
                rows@.len() == y + 1,
                rows@[0]@ == zeros(BYTES_PER_ROW as nat),
                forall|i: int| 0 <= i < y ==> rows@[i + 1]@ == #[trigger] bitmap@[i],
            decreases bitmap@.len() - y,
        {
            rows.push(*bitmap.row(y));
            y = y + 1;
        }
        let job: X6PrintJob = X6PrintJob {
            setup,
            setup_idx: 0,
            rows,
            state: State::Streaming,
            send_idx: 0,
            feed_px,
            inter_packet_delay_ms,
            pending_wait_ms: None,
            stats: JobStats { packets_sent: 0, retransmits: 0, holds: 0, cooldowns: 0 },
        };
        assert(job@.rows =~= seq![zeros(BYTES_PER_ROW as nat)] + bitmap@) by {
            assert forall|k: int| 0 <= k < job@.rows.len() implies job@.rows[k] == (seq![
                zeros(BYTES_PER_ROW as nat),
            ] + bitmap@)[k] by {
                if k > 0 {
                    assert(rows@[(k - 1) + 1]@ == bitmap@[k - 1]);
                }
            }
        }
        job
    }

    /// Returns the next action the caller should perform.
    #[must_use]
    pub fn next_action(&mut self) -> (action: Action)
        ensures
            action@ == old(self)@.action(),
            final(self)@ == old(self)@.after_action(),
            final(self)@.wf(),
    {
        proof {
            use_type_invariant(&*self);
        }
        if let Some(ms) = self.pending_wait_ms {
            self.pending_wait_ms = None;
            return Action::WaitMs(ms);
        }
        match self.state {
            State::Streaming => {
                if self.setup_idx < self.setup.len() {
                    let packet: Vec<u8> = slice_to_vec(self.setup[self.setup_idx].as_slice());
                    self.setup_idx = self.setup_idx + 1;
                    Action::Send(packet)
                } else if self.send_idx < self.rows.len() {
                    let packet: Vec<u8> = packets::raw_scanline(&self.rows[self.send_idx]);
                    self.send_idx = self.send_idx + 1;
                    self.stats =
                    JobStats {
                        packets_sent: self.stats.packets_sent.saturating_add(1),
                        retransmits: self.stats.retransmits,
                        holds: self.stats.holds,
                        cooldowns: self.stats.cooldowns,
                    };
                    if self.inter_packet_delay_ms > 0 && self.send_idx < self.rows.len() {
                        self.pending_wait_ms = Some(self.inter_packet_delay_ms);
                    }
                    Action::Send(packet)
                } else if self.feed_px == 0 {
                    self.state = State::Done;
                    Action::WaitMs(SETTLE_MS)
                } else {
                    self.state = State::Settle;
                    Action::Send(packets::feed_paper(self.feed_px))
                }
            },
            State::Settle => {
                self.state = State::Done;
                Action::WaitMs(SETTLE_MS)
            },
            State::Paused => Action::WaitNotification,
            State::Done => Action::Done,
        }
    }

    /// Feed a parsed notification from 0xAE02 into the state machine.
    /// Notifications that make no sense in the current state are ignored.
    pub fn on_notification(&mut self, n: X6Notification)
        ensures
            final(self)@ == old(self)@.after_notification(n),
            final(self)@.wf(),
    {
        proof {
            use_type_invariant(&*self);
        }
        match (self.state, n) {
            (State::Streaming, X6Notification::BufferFull) => {
                self.pending_wait_ms = None;
                self.state = State::Paused;
                self.stats =
                JobStats {
                    packets_sent: self.stats.packets_sent,
                    retransmits: self.stats.retransmits,
                    holds: self.stats.holds.saturating_add(1),
                    cooldowns: self.stats.cooldowns,
                };
            },
            (State::Paused, X6Notification::Ready) => {
                self.state = State::Streaming;
            },
            _ => {},
        }
    }

    /// Counters for what the job has done so far. `retransmits` and
    /// `cooldowns` are always 0 — the X6 protocol has no such events.
    pub fn stats(&self) -> (stats: JobStats)
        ensures
            stats == self@.stats,
            stats.retransmits == 0,
            stats.cooldowns == 0,
    {
        proof {
            use_type_invariant(self);
        }
        self.stats
    }
}

} // verus!
