//! Sans-IO print job state machine.
//!
//! Drives the full LX-D02 print flow (hello, auth, density, raster streaming,
//! flow control, finish) without doing any I/O. The caller asks for the next
//! [`Action`], performs it, and feeds incoming notifications back in via
//! [`PrintJob::on_notification`].

use crate::protocol::auth::auth_response;
use crate::protocol::notifications::Notification;
use crate::protocol::packets;
use crate::protocol::packets::RASTER_DATA_LEN;
use crate::raster::bitmap::Bitmap;
use crate::strings::decimal;
use vstd::prelude::*;
use vstd::slice::slice_to_vec;
#[allow(unused_imports)]
use crate::protocol::auth::auth_answer;
#[allow(unused_imports)]
use crate::protocol::packets::{
    challenge_packet, density_packet, end_packet, hello_packet, raster_packet, reply_packet,
    start_packet,
};
#[allow(unused_imports)]
use crate::raster::bitmap::payloads_of;
#[allow(unused_imports)]
use crate::strings::decimal_digits;

verus! {

/// How long to back off when the printer reports a thermal cooldown.
pub const COOLDOWN_MS: u64 = 100;

/// What the caller should do next.
#[derive(Debug)]
pub enum Action {
    /// Write these bytes to characteristic 0xFFE1.
    Send(Vec<u8>),
    /// Sleep for this many milliseconds, then call `next_action()` again.
    WaitMs(u64),
    /// Block on 0xFFE2 until a notification is fed via `on_notification()`.
    WaitNotification,
    /// The job is over. Check [`PrintJob::error`] for whether it failed.
    Done,
}

/// An [`Action`] with the bytes as a sequence.
pub enum Step {
    Send(Seq<u8>),
    WaitMs(u64),
    WaitNotification,
    Done,
}

impl View for Action {
    type V = Step;

    open spec fn view(&self) -> Step {
        match *self {
            Action::Send(bytes) => Step::Send(bytes@),
            Action::WaitMs(ms) => Step::WaitMs(ms),
            Action::WaitNotification => Step::WaitNotification,
            Action::Done => Step::Done,
        }
    }
}

/// Fatal print job errors.
#[derive(Debug, Clone, Copy, PartialEq, Eq, Structural)]
pub enum JobError {
    /// The printer rejected our `5A 0B` auth response.
    AuthFailed,
    /// The bitmap needs more raster packets than the protocol's 16-bit
    /// packet index can address.
    TooLarge { packets: usize },
}

impl JobError {
    /// The wording of [`JobError::message`].
    pub open spec fn wording(&self) -> Seq<char> {
        match *self {
            JobError::AuthFailed => "printer rejected authentication"@,
            JobError::TooLarge { packets } => "print too large: "@ + decimal_digits(packets as nat)
                + " raster packets exceeds the maximum of 65535"@,
        }
    }

    /// One line for the user.
    pub fn message(&self) -> (text: String)
        ensures
            text@ == self.wording(),
    {
        match *self {
            JobError::AuthFailed => "printer rejected authentication".to_owned(),
            JobError::TooLarge { packets } => {
                let mut text: String = "print too large: ".to_owned();
                text.append(decimal(packets as u128).as_str());
                text.append(" raster packets exceeds the maximum of 65535");
                text
            },
        }
    }
}

/// Counters for what a job has done so far.
#[derive(Debug, Clone, Copy, PartialEq, Eq, Structural)]
pub struct JobStats {
    /// Raster packets handed to the transport, repeats counted again.
    pub packets_sent: u32,
    /// Rewinds the printer asked for.
    pub retransmits: u32,
    /// Pauses the printer asked for.
    pub holds: u32,
    /// Thermal back-offs the printer asked for.
    pub cooldowns: u32,
}

/// Counters that have counted nothing.
pub open spec fn no_stats() -> JobStats {
    JobStats { packets_sent: 0, retransmits: 0, holds: 0, cooldowns: 0 }
}

/// One more, staying at the top of the range.
pub open spec fn bump(n: u32) -> u32 {
    if n == u32::MAX {
        n
    } else {
        (n + 1) as u32
    }
}

impl Default for JobStats {
    fn default() -> (stats: Self)
        ensures
            stats == no_stats(),
    {
        JobStats { packets_sent: 0, retransmits: 0, holds: 0, cooldowns: 0 }
    }
}

/// Where a job stands.
#[derive(Debug, Clone, Copy, PartialEq, Eq, Structural)]
pub enum State {
    SendHello,
    AwaitHello,
    SendChallenge,
    AwaitChallengeReply,
    SendAuthResponse,
    AwaitAuthResult,
    SendDensity,
    SendStart,
    /// Streaming raster packets; `send_idx` tracks the next one to send.
    Streaming,
    /// Printer asked us to pause; resumes on `LostPacket`, or ends when a
    /// `Finished` arrives.
    Holding,
    /// All packets sent; waiting for `Finished`.
    AwaitFinish,
    SendEnd,
    Done,
}

/// Everything a [`PrintJob`] knows.
#[verifier::ext_equal]
pub struct JobModel {
    pub state: State,
    pub payloads: Seq<Seq<u8>>,
    pub density: u8,
    pub challenge: Seq<u8>,
    pub mac: Seq<u8>,
    pub send_idx: int,
    pub delay_ms: u64,
    pub pending_ms: Option<u64>,
    pub error: Option<JobError>,
    pub stats: JobStats,
}

impl JobModel {
    /// What holds of every job: packet indices fit 16 bits, a job that failed
    /// is over, and a wait is due only while raster packets may flow.
    pub open spec fn wf(self) -> bool {
        &&& self.payloads.len() <= u16::MAX
        &&& forall|i: int|
            0 <= i < self.payloads.len() ==> (#[trigger] self.payloads[i]).len() == RASTER_DATA_LEN
        &&& self.challenge.len() == 10
        &&& self.mac.len() == 6
        &&& 0 <= self.send_idx <= u16::MAX
        &&& self.error is Some ==> self.state == State::Done
        &&& self.pending_ms is Some ==> self.in_transfer()
    }

    pub open spec fn num_packets(self) -> u16 {
        self.payloads.len() as u16
    }

    /// Whether the next packet of the stream is still to be sent.
    pub open spec fn has_next(self) -> bool {
        self.send_idx < self.payloads.len()
    }

    /// The action that is due.
    pub open spec fn action(self) -> Step {
        if self.error is Some {
            Step::Done
        } else if let Some(ms) = self.pending_ms {
            Step::WaitMs(ms)
        } else {
            match self.state {
                State::SendHello => Step::Send(hello_packet()),
                State::SendChallenge => Step::Send(challenge_packet(self.challenge)),
                State::SendAuthResponse => Step::Send(
                    reply_packet(auth_answer(self.challenge, self.mac)),
                ),
                State::SendDensity => Step::Send(density_packet(self.density)),
                State::SendStart => Step::Send(start_packet(self.num_packets())),
                State::Streaming => if self.has_next() {
                    Step::Send(raster_packet(self.send_idx as u16, self.payloads[self.send_idx]))
                } else {
                    Step::WaitNotification
                },
                State::SendEnd => Step::Send(end_packet(self.num_packets())),
                State::AwaitHello
                | State::AwaitChallengeReply
                | State::AwaitAuthResult
                | State::Holding
                | State::AwaitFinish => Step::WaitNotification,
                State::Done => Step::Done,
            }
        }
    }

    /// The job once the action that is due has been handed out.
    pub open spec fn after_action(self) -> JobModel {
        if self.error is Some {
            self
        } else if self.pending_ms is Some {
            JobModel { pending_ms: None, ..self }
        } else {
            match self.state {
                State::SendHello => JobModel { state: State::AwaitHello, ..self },
                State::SendChallenge => JobModel { state: State::AwaitChallengeReply, ..self },
                State::SendAuthResponse => JobModel { state: State::AwaitAuthResult, ..self },
                State::SendDensity => JobModel { state: State::SendStart, ..self },
                State::SendStart => JobModel { state: State::Streaming, ..self },
                State::Streaming => if self.has_next() {
                    JobModel {
                        send_idx: self.send_idx + 1,
                        pending_ms: if self.delay_ms > 0 && self.send_idx + 1
                            < self.payloads.len() {
                            Some(self.delay_ms)
                        } else {
                            None
                        },
                        stats: JobStats {
                            packets_sent: bump(self.stats.packets_sent),
                            ..self.stats
                        },
                        ..self
                    }
                } else {
                    JobModel { state: State::AwaitFinish, ..self }
                },
                State::SendEnd => JobModel { state: State::Done, ..self },
                _ => self,
            }
        }
    }

    /// Whether raster packets may flow: streaming, on hold, or all sent.
    pub open spec fn in_transfer(self) -> bool {
        self.state == State::Streaming || self.state == State::Holding || self.state
            == State::AwaitFinish
    }

    /// The job once a notification has been fed in. One that makes no sense
    /// where the job stands changes nothing.
    pub open spec fn after_notification(self, n: Notification) -> JobModel {
        match n {
            Notification::Hello { mac } => if self.state == State::AwaitHello {
                JobModel { mac: mac@, state: State::SendChallenge, ..self }
            } else {
                self
            },
            Notification::AuthChallengeReply => if self.state == State::AwaitChallengeReply {
                JobModel { state: State::SendAuthResponse, ..self }
            } else {
                self
            },
            Notification::AuthResult { ok } => if self.state == State::AwaitAuthResult {
                if ok {
                    JobModel { state: State::SendDensity, ..self }
                } else {
                    JobModel { error: Some(JobError::AuthFailed), state: State::Done, ..self }
                }
            } else {
                self
            },
            Notification::LostPacket { index } => if self.in_transfer() {
                JobModel {
                    send_idx: if index == 0 {
                        0
                    } else {
                        index - 1
                    },
                    pending_ms: None,
                    state: State::Streaming,
                    stats: JobStats { retransmits: bump(self.stats.retransmits), ..self.stats },
                    ..self
                }
            } else {
                self
            },
            Notification::Hold => if self.state == State::Streaming || self.state
                == State::AwaitFinish {
                JobModel {
                    state: State::Holding,
                    stats: JobStats { holds: bump(self.stats.holds), ..self.stats },
                    ..self
                }
            } else {
                self
            },
            Notification::Cooldown => if self.state == State::Streaming || self.state
                == State::AwaitFinish {
                JobModel {
                    pending_ms: Some(COOLDOWN_MS),
                    stats: JobStats { cooldowns: bump(self.stats.cooldowns), ..self.stats },
                    ..self
                }
            } else {
                self
            },
            Notification::Finished { .. } => if self.in_transfer() {
                JobModel { pending_ms: None, state: State::SendEnd, ..self }
            } else {
                self
            },
            Notification::Status(_) => self,
        }
    }
}

/// The job at its start.
pub open spec fn fresh_job(
    payloads: Seq<Seq<u8>>,
    density: u8,
    challenge: Seq<u8>,
    delay_ms: u64,
) -> JobModel {
    JobModel {
        state: State::SendHello,
        payloads,
        density,
        challenge,
        mac: packets::zeros(6),
        send_idx: 0,
        delay_ms,
        pending_ms: None,
        error: None,
        stats: no_stats(),
    }
}

/// Sans-IO driver for one print job.
#[derive(Debug)]
pub struct PrintJob {
    state: State,
    payloads: Vec<[u8; RASTER_DATA_LEN]>,
    density: u8,
    challenge: [u8; 10],
    /// Printer MAC, learned from the hello reply.
    mac: [u8; 6],
    /// Index of the next raster packet to send while `Streaming`.
    send_idx: u16,
    inter_packet_delay_ms: u64,
    /// One-shot wait to emit before the next action (inter-packet delay or
    /// cooldown back-off).
    pending_wait_ms: Option<u64>,
    error: Option<JobError>,
    stats: JobStats,
}

impl View for PrintJob {
    type V = JobModel;

    closed spec fn view(&self) -> JobModel {
        JobModel {
            state: self.state,
            payloads: Seq::new(self.payloads@.len(), |i: int| self.payloads@[i]@),
            density: self.density,
            challenge: self.challenge@,
            mac: self.mac@,
            send_idx: self.send_idx as int,
            delay_ms: self.inter_packet_delay_ms,
            pending_ms: self.pending_wait_ms,
            error: self.error,
            stats: self.stats,
        }
    }
}

impl PrintJob {
    #[verifier::type_invariant]
    spec fn holds_together(&self) -> bool {
        self@.wf()
    }

    /// Create a job that prints `bitmap` once the caller drives it.
    ///
    /// * `density` — print darkness, valid range 1-7.
    /// * `challenge` — caller-supplied randomness for the `5A 0A` auth
    ///   challenge, which keeps the state machine fully deterministic.
    /// * `inter_packet_delay_ms` — pause between raster packet sends;
    ///   15 ms is the recommended value for real hardware, 0 disables the
    ///   delay entirely.
    ///
    /// Errors with [`JobError::TooLarge`] if the bitmap needs more raster
    /// packets than the protocol's 16-bit packet index can address
    /// (i.e. more than 131,070 rows).
    pub fn new(
        bitmap: &Bitmap,
        density: u8,
        challenge: [u8; 10],
        inter_packet_delay_ms: u64,
    ) -> (job: Result<Self, JobError>)
        ensures
            job is Ok <==> bitmap@.len() <= 131_070,
            job matches Ok(j) ==> j@ == fresh_job(
                payloads_of(bitmap@),
                density,
                challenge@,
                inter_packet_delay_ms,
            ) && j@.wf(),
            job matches Err(e) ==> e == (JobError::TooLarge {
                packets: ((bitmap@.len() + 1) / 2) as usize,
            }),
    {
        let payloads: Vec<[u8; RASTER_DATA_LEN]> = bitmap.to_raster_payloads();
        if payloads.len() > 65535 {
            return Err(JobError::TooLarge { packets: payloads.len() });
        }
        let job: PrintJob = PrintJob {
            state: State::SendHello,
            payloads,
            density,
            challenge,
            mac: [0u8; 6],
            send_idx: 0,
            inter_packet_delay_ms,
            pending_wait_ms: None,
            error: None,
            stats: JobStats { packets_sent: 0, retransmits: 0, holds: 0, cooldowns: 0 },
        };
        assert(job@.mac =~= packets::zeros(6));
        assert(job@.payloads =~= payloads_of(bitmap@));
        Ok(job)
    }

    fn num_packets(&self) -> (n: u16)
        requires
            self@.wf(),
        ensures
            n == self@.num_packets(),
    {
        self.payloads.len() as u16
    }

    /// Returns the next action the caller should perform.
    ///
    /// Once a fatal error has been recorded this returns [`Action::Done`];
    /// callers must check [`PrintJob::error`] after the loop exits to tell
    /// success from failure.
    #[must_use]
    pub fn next_action(&mut self) -> (action: Action)
        ensures
            action@ == old(self)@.action(),
            final(self)@ == old(self)@.after_action(),
            final(self)@.wf(),
    {
        proof {
            use_type_invariant(&*self);
        }
        if self.error.is_some() {
            return Action::Done;
        }
        if let Some(ms) = self.pending_wait_ms {
            self.pending_wait_ms = None;
            return Action::WaitMs(ms);
        }
        match self.state {
            State::SendHello => {
                self.state = State::AwaitHello;
                Action::Send(slice_to_vec(&packets::hello()))
            },
            State::SendChallenge => {
                self.state = State::AwaitChallengeReply;
                Action::Send(slice_to_vec(&packets::auth_challenge(&self.challenge)))
            },
            State::SendAuthResponse => {
                self.state = State::AwaitAuthResult;
                let resp: [u8; 10] = auth_response(&self.challenge, &self.mac);
                Action::Send(slice_to_vec(&packets::auth_reply(&resp)))
            },
            State::SendDensity => {
                self.state = State::SendStart;
                Action::Send(slice_to_vec(&packets::set_density(self.density)))
            },
            State::SendStart => {
                self.state = State::Streaming;
                Action::Send(slice_to_vec(&packets::print_start(self.num_packets())))
            },
            State::Streaming => {
                let idx: u16 = self.send_idx;
                if (idx as usize) < self.payloads.len() {
                    let packet: Vec<u8> = slice_to_vec(
                        &packets::raster(idx, &self.payloads[idx as usize]),
                    );
                    self.send_idx = idx + 1;
                    self.stats =
                    JobStats {
                        packets_sent: self.stats.packets_sent.saturating_add(1),
                        retransmits: self.stats.retransmits,
                        holds: self.stats.holds,
                        cooldowns: self.stats.cooldowns,
                    };
                    // Inter-packet delay applies between raster sends; a
                    // zero delay is skipped entirely.
                    if self.inter_packet_delay_ms > 0 && (self.send_idx as usize)
                        < self.payloads.len() {
                        self.pending_wait_ms = Some(self.inter_packet_delay_ms);
                    }
                    Action::Send(packet)
                } else {
                    self.state = State::AwaitFinish;
                    Action::WaitNotification
                }
            },
            State::SendEnd => {
                self.state = State::Done;
                Action::Send(slice_to_vec(&packets::print_end(self.num_packets())))
            },
            State::AwaitHello
            | State::AwaitChallengeReply
            | State::AwaitAuthResult
            | State::Holding
            | State::AwaitFinish => Action::WaitNotification,
            State::Done => Action::Done,
        }
    }

    /// Feed a parsed notification from 0xFFE2 into the state machine.
    ///
    /// Notifications that make no sense in the current state are ignored.
    pub fn on_notification(&mut self, n: Notification)
        ensures
            final(self)@ == old(self)@.after_notification(n),
            final(self)@.wf(),
    {
        proof {
            use_type_invariant(&*self);
        }
        match (self.state, n) {
            (State::AwaitHello, Notification::Hello { mac }) => {
                self.mac = mac;
                self.state = State::SendChallenge;
            },
            (State::AwaitChallengeReply, Notification::AuthChallengeReply) => {
                self.state = State::SendAuthResponse;
            },
            (State::AwaitAuthResult, Notification::AuthResult { ok }) => {
                if ok {
                    self.state = State::SendDensity;
                } else {
                    self.state = State::Done;
                    self.error = Some(JobError::AuthFailed);
                }
            },
            // Flow control, valid both mid-stream and after the last packet.
            (
                State::Streaming | State::Holding | State::AwaitFinish,
                Notification::LostPacket { index },
            ) => {
                // Resend from one packet before the reported index — the
                // convention of the official app.
                self.send_idx = index.saturating_sub(1);
                self.pending_wait_ms = None;
                self.state = State::Streaming;
                self.stats =
                JobStats {
                    packets_sent: self.stats.packets_sent,
                    retransmits: self.stats.retransmits.saturating_add(1),
                    holds: self.stats.holds,
                    cooldowns: self.stats.cooldowns,
                };
            },
            (State::Streaming | State::AwaitFinish, Notification::Hold) => {
                self.state = State::Holding;
                self.stats =
                JobStats {
                    packets_sent: self.stats.packets_sent,
                    retransmits: self.stats.retransmits,
                    holds: self.stats.holds.saturating_add(1),
                    cooldowns: self.stats.cooldowns,
                };
            },
            (State::Streaming | State::AwaitFinish, Notification::Cooldown) => {
                self.pending_wait_ms = Some(COOLDOWN_MS);
                self.stats =
                JobStats {
                    packets_sent: self.stats.packets_sent,
                    retransmits: self.stats.retransmits,
                    holds: self.stats.holds,
                    cooldowns: self.stats.cooldowns.saturating_add(1),
                };
            },
            // The printer decides when the job is complete, even if we think
            // we are still streaming.
            (
                State::Streaming | State::Holding | State::AwaitFinish,
                Notification::Finished { .. },
            ) => {
                self.pending_wait_ms = None;
                self.state = State::SendEnd;
            },
            // Everything else (e.g. periodic Status frames) is ignored; paper
            // and battery checks live in the BLE layer, not this FSM.
            _ => {},
        }
    }

    /// The fatal error, if the job failed.
    pub fn error(&self) -> (error: Option<&JobError>)
        ensures
            error is Some <==> self@.error is Some,
            error matches Some(e) ==> Some(*e) == self@.error,
    {
        self.error.as_ref()
    }

    /// Counters for what the job has done so far.
    pub fn stats(&self) -> (stats: JobStats)
        ensures
            stats == self@.stats,
    {
        self.stats
    }
}

} // verus!
