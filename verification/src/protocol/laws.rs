//! What holds of an LX print job as a whole, over any run of actions and
//! notifications.

use vstd::prelude::*;
#[allow(unused_imports)]
use crate::protocol::auth::auth_answer;
#[allow(unused_imports)]
use crate::protocol::job::{bump, fresh_job, JobModel, State, Step};
#[allow(unused_imports)]
use crate::protocol::notifications::Notification;
#[allow(unused_imports)]
use crate::protocol::packets::{
    challenge_packet, density_packet, end_packet, hello_packet, raster_packet, reply_packet,
    start_packet,
};

verus! {

/// What a caller sends who performs the actions that are due until the job
/// waits for the printer or is over, together with the job at that point.
/// At most `fuel` actions are taken.
pub open spec fn drain(m: JobModel, fuel: nat) -> (JobModel, Seq<Seq<u8>>)
    decreases fuel,
{
    if fuel == 0 {
        (m, Seq::empty())
    } else {
        match m.action() {
            Step::Send(bytes) => {
                let rest = drain(m.after_action(), (fuel - 1) as nat);
                (rest.0, seq![bytes] + rest.1)
            },
            Step::WaitMs(_) => drain(m.after_action(), (fuel - 1) as nat),
            _ => (m.after_action(), Seq::empty()),
        }
    }
}

/// The raster packets from number `from` to the last.
pub open spec fn packets_from(m: JobModel, from: int) -> Seq<Seq<u8>> {
    Seq::new(
        (m.payloads.len() - from) as nat,
        |i: int| raster_packet((from + i) as u16, m.payloads[from + i]),
    )
}

/// Neither an action nor a notification breaks the invariant of a job.
pub proof fn job_keeps_its_invariant(m: JobModel, n: Notification)
    requires
        m.wf(),
    ensures
        m.after_action().wf(),
        m.after_notification(n).wf(),
{
}

/// A job that failed asks for nothing more, and no notification revives it.
pub proof fn failed_job_is_over(m: JobModel, n: Notification)
    requires
        m.wf(),
        m.error is Some,
    ensures
        m.action() is Done,
        m.after_action() == m,
        m.after_notification(n) == m,
{
}

/// A job that is done stays done.
pub proof fn finished_job_is_over(m: JobModel, n: Notification)
    requires
        m.wf(),
        m.state == State::Done,
    ensures
        m.action() is Done,
        m.after_action() == m,
        m.after_notification(n) == m,
{
}

/// Where the printer reports packet `index` lost, streaming goes on with the
/// packet before it (with the first one for index zero), whatever was pending.
pub proof fn lost_packet_resends_from_the_one_before(m: JobModel, index: u16)
    requires
        m.wf(),
        m.in_transfer(),
        index <= m.payloads.len(),
        m.payloads.len() > 0,
    ensures
        ({
            let from = if index == 0 {
                0
            } else {
                index - 1
            };
            m.after_notification(Notification::LostPacket { index }).action() == Step::Send(
                raster_packet(from as u16, m.payloads[from]),
            )
        }),
{
}

/// On hold nothing is sent, and nothing but a lost packet or the end of the
/// print lifts the hold.
pub proof fn hold_pauses_until_resumed(m: JobModel, n: Notification)
    requires
        m.wf(),
        m.state == State::Holding,
    ensures
        !(m.action() is Send),
        m.after_action().state == State::Holding,
        m.after_notification(n).state != State::Holding <==> (n is LostPacket || n is Finished),
{
}

/// A cooldown is waited out before anything else happens, and costs no packet.
pub proof fn cooldown_only_delays(m: JobModel)
    requires
        m.wf(),
        m.state == State::Streaming,
        m.pending_ms is None,
    ensures
        ({
            let cooled = m.after_notification(Notification::Cooldown);
            &&& cooled.action() == Step::WaitMs(crate::protocol::job::COOLDOWN_MS)
            &&& cooled.after_action().action() == m.action()
            &&& cooled.after_action().send_idx == m.send_idx
        }),
{
}

/// The printer decides when a print is complete: the end packet follows at
/// once, and then the job is over.
pub proof fn finished_ends_the_job(m: JobModel, num_packets: u16)
    requires
        m.wf(),
        m.in_transfer(),
    ensures
        ({
            let ended = m.after_notification(Notification::Finished { num_packets });
            &&& ended.action() == Step::Send(end_packet(m.num_packets()))
            &&& ended.after_action().state == State::Done
            &&& ended.after_action().action() is Done
        }),
{
}

/// `packets_sent` grows by one with every raster packet and with nothing else.
pub proof fn every_raster_packet_is_counted(m: JobModel, n: Notification)
    requires
        m.wf(),
    ensures
        m.after_action().stats.packets_sent == if m.action() is Send && m.state
            == State::Streaming {
            bump(m.stats.packets_sent)
        } else {
            m.stats.packets_sent
        },
        m.after_notification(n).stats.packets_sent == m.stats.packets_sent,
{
}

proof fn lemma_stream(m: JobModel, fuel: nat)
    requires
        m.wf(),
        m.error is None,
        m.pending_ms is None,
        m.state == State::Streaming,
        m.send_idx <= m.payloads.len(),
        fuel >= 2 * (m.payloads.len() - m.send_idx) + 1,
    ensures
        drain(m, fuel).1 == packets_from(m, m.send_idx),
        ({
            let end = drain(m, fuel).0;
            &&& end.wf()
            &&& end.state == State::AwaitFinish
            &&& end.payloads == m.payloads
            &&& end.send_idx == m.payloads.len()
            &&& end.error is None
            &&& end.pending_ms is None
        }),
    decreases m.payloads.len() - m.send_idx,
{
    reveal_with_fuel(drain, 3);
    let next = m.after_action();
    if m.has_next() {
        if next.pending_ms is Some {
            let waited = next.after_action();
            assert(waited == JobModel { pending_ms: None, ..next });
            lemma_stream(waited, (fuel - 2) as nat);
            assert(drain(next, (fuel - 1) as nat) == drain(waited, (fuel - 2) as nat));
            assert(packets_from(m, m.send_idx) =~= seq![
                raster_packet(m.send_idx as u16, m.payloads[m.send_idx]),
            ] + packets_from(waited, waited.send_idx));
        } else {
            lemma_stream(next, (fuel - 1) as nat);
            assert(packets_from(m, m.send_idx) =~= seq![
                raster_packet(m.send_idx as u16, m.payloads[m.send_idx]),
            ] + packets_from(next, next.send_idx));
        }
    } else {
        assert(packets_from(m, m.send_idx) =~= Seq::<Seq<u8>>::empty());
    }
}

/// Once the printer has accepted the auth response, a caller who keeps
/// performing the actions sends the density, the start packet and then every
/// raster packet once, in order, and ends up waiting for the printer.
pub proof fn accepted_job_sends_every_packet_in_order(m: JobModel, fuel: nat)
    requires
        m.wf(),
        m.error is None,
        m.state == State::SendDensity,
        m.send_idx == 0,
        fuel >= 2 * m.payloads.len() + 3,
    ensures
        drain(m, fuel).1 == seq![density_packet(m.density), start_packet(m.num_packets())]
            + packets_from(m, 0),
        drain(m, fuel).0.state == State::AwaitFinish,
        drain(m, fuel).0.wf(),
        drain(m, fuel).0.num_packets() == m.num_packets(),
{
    reveal_with_fuel(drain, 3);
    let a = m.after_action();
    let b = a.after_action();
    lemma_stream(b, (fuel - 2) as nat);
    assert(drain(m, fuel).1 =~= seq![
        density_packet(m.density),
        start_packet(m.num_packets()),
    ] + packets_from(m, 0));
}

/// After a rewind every packet from the one before the reported index to the
/// last is sent again, in order; past the last there is nothing to send again.
pub proof fn rewind_resends_the_tail_in_order(m: JobModel, index: u16, fuel: nat)
    requires
        m.wf(),
        m.in_transfer(),
        fuel >= 2 * m.payloads.len() + 1,
    ensures
        drain(m.after_notification(Notification::LostPacket { index }), fuel).1 == if index
            > m.payloads.len() {
            Seq::empty()
        } else {
            packets_from(
                m,
                if index == 0 {
                    0
                } else {
                    index - 1
                },
            )
        },
{
    let r = m.after_notification(Notification::LostPacket { index });
    if index > m.payloads.len() {
        reveal_with_fuel(drain, 2);
        assert(!r.has_next());
    } else {
        lemma_stream(r, fuel);
        assert(packets_from(m, r.send_idx) =~= packets_from(r, r.send_idx));
    }
}

/// The handshake: hello, challenge and auth response go out one at a time, each
/// after the printer's reply to the one before, and the response answers the
/// challenge for the MAC that the printer reported.
pub proof fn handshake_takes_its_course(
    payloads: Seq<Seq<u8>>,
    density: u8,
    challenge: Seq<u8>,
    delay_ms: u64,
    mac: [u8; 6],
)
    ensures
        ({
            let start = fresh_job(payloads, density, challenge, delay_ms);
            let greeted = start.after_action().after_notification(Notification::Hello { mac });
            let challenged = greeted.after_action().after_notification(
                Notification::AuthChallengeReply,
            );
            let accepted = challenged.after_action().after_notification(
                Notification::AuthResult { ok: true },
            );
            let rejected = challenged.after_action().after_notification(
                Notification::AuthResult { ok: false },
            );
            &&& start.action() == Step::Send(hello_packet())
            &&& start.after_action().action() is WaitNotification
            &&& greeted.action() == Step::Send(challenge_packet(challenge))
            &&& greeted.after_action().action() is WaitNotification
            &&& challenged.action() == Step::Send(reply_packet(auth_answer(challenge, mac@)))
            &&& challenged.after_action().action() is WaitNotification
            &&& accepted == JobModel { state: State::SendDensity, mac: mac@, ..start }
            &&& rejected.error == Some(crate::protocol::job::JobError::AuthFailed)
            &&& rejected.action() is Done
        }),
{
}

} // verus!
