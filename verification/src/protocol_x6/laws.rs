//! What holds of an X6 print job as a whole.

use vstd::prelude::*;
#[allow(unused_imports)]
use crate::protocol::job::{bump, Step};
#[allow(unused_imports)]
use crate::protocol::packets::zeros;
#[allow(unused_imports)]
use crate::protocol_x6::job::{fresh_x6_job, State, X6Model, SETTLE_MS};
#[allow(unused_imports)]
use crate::protocol_x6::notifications::X6Notification;
#[allow(unused_imports)]
use crate::protocol_x6::packets::{feed_frame, scanline_frame};
#[allow(unused_imports)]
use crate::raster::bitmap::BYTES_PER_ROW;

verus! {

/// What a caller sends who performs the actions that are due until the job
/// waits for the printer or is over, together with the job at that point.
/// At most `fuel` actions are taken.
pub open spec fn drain(m: X6Model, fuel: nat) -> (X6Model, Seq<Seq<u8>>)
    decreases fuel,
{
    if fuel == 0 {
        (m, Seq::empty())
    } else {
        match m.action() {
            Step::Send(bytes) => {
                let rest = drain(m.after_action(), (fuel - 1) as nat);
                (rest.0, seq![bytes] + rest.1)
            },
            Step::WaitMs(_) => drain(m.after_action(), (fuel - 1) as nat),
            _ => (m.after_action(), Seq::empty()),
        }
    }
}

/// What is still to be sent: the setup frames and scanlines that are left, in
/// order, and the feed command unless there is nothing to feed.
pub open spec fn left_to_send(m: X6Model) -> Seq<Seq<u8>> {
    m.setup.skip(m.setup_idx) + Seq::new(
        (m.rows.len() - m.send_idx) as nat,
        |i: int| scanline_frame(m.rows[m.send_idx + i]),
    ) + if m.feed_px == 0 {
        Seq::empty()
    } else {
        seq![feed_frame(m.feed_px)]
    }
}

/// Neither an action nor a notification breaks the invariant of a job.
pub proof fn x6_job_keeps_its_invariant(m: X6Model, n: X6Notification)
    requires
        m.wf(),
    ensures
        m.after_action().wf(),
        m.after_notification(n).wf(),
{
}

/// While paused nothing is sent; Ready, and nothing else, resumes with the
/// frame that was due. A delay that was still to be waited for is dropped.
pub proof fn buffer_full_pauses_until_ready(m: X6Model)
    requires
        m.wf(),
        m.state == State::Streaming,
    ensures
        ({
            let paused = m.after_notification(X6Notification::BufferFull);
            &&& paused.action() is WaitNotification
            &&& paused.after_action() == paused
            &&& paused.after_notification(X6Notification::BufferFull) == paused
            &&& paused.after_notification(X6Notification::Ready).action() == (X6Model {
                pending_ms: None,
                ..m
            }).action()
        }),
{
}

/// Ready is ignored unless the job is paused, and a job that is settling or
/// done ignores every notification.
pub proof fn stray_notifications_change_nothing(m: X6Model, n: X6Notification)
    requires
        m.wf(),
        m.state != State::Paused,
    ensures
        m.after_notification(X6Notification::Ready) == m,
        m.state != State::Streaming ==> m.after_notification(n) == m,
{
}

/// A job that is done stays done.
pub proof fn x6_finished_job_is_over(m: X6Model, n: X6Notification)
    requires
        m.wf(),
        m.state == State::Done,
    ensures
        m.action() is Done,
        m.after_action() == m,
        m.after_notification(n) == m,
{
}

/// Done is reached only by way of the settle wait.
pub proof fn settle_wait_comes_before_done(m: X6Model)
    requires
        m.wf(),
        m.state != State::Done,
        m.after_action().state == State::Done,
    ensures
        m.action() == Step::WaitMs(SETTLE_MS),
{
}

/// `packets_sent` counts scanlines, and neither setup frames nor the feed.
pub proof fn only_scanlines_are_counted(m: X6Model, n: X6Notification)
    requires
        m.wf(),
    ensures
        m.after_action().stats.packets_sent == if m.pending_ms is None && m.state
            == State::Streaming && !m.in_setup() && m.has_next() {
            bump(m.stats.packets_sent)
        } else {
            m.stats.packets_sent
        },
        m.after_notification(n).stats.packets_sent == m.stats.packets_sent,
{
}

proof fn lemma_drain_end(m: X6Model, fuel: nat)
    requires
        m.wf(),
        m.state == State::Streaming,
        m.pending_ms is None,
        !m.in_setup(),
        !m.has_next(),
        fuel >= 3,
    ensures
        drain(m, fuel).1 == left_to_send(m),
        drain(m, fuel).0.state == State::Done,
{
    let next = m.after_action();
    let settled = next.after_action();
    assert(m.setup.skip(m.setup_idx) =~= Seq::<Seq<u8>>::empty());
    if m.feed_px == 0 {
        assert(drain(next, (fuel - 1) as nat) == (next, Seq::<Seq<u8>>::empty()));
        assert(left_to_send(m) =~= Seq::<Seq<u8>>::empty());
    } else {
        assert(drain(settled, (fuel - 2) as nat) == (settled, Seq::<Seq<u8>>::empty()));
        assert(drain(next, (fuel - 1) as nat) == drain(settled, (fuel - 2) as nat));
        assert(left_to_send(m) =~= seq![feed_frame(m.feed_px)]);
        assert(drain(m, fuel).1 =~= seq![feed_frame(m.feed_px)]);
    }
}

proof fn lemma_left_after_scanline(m: X6Model, next: X6Model)
    requires
        m.wf(),
        !m.in_setup(),
        m.has_next(),
        next.setup == m.setup,
        next.setup_idx == m.setup_idx,
        next.rows == m.rows,
        next.send_idx == m.send_idx + 1,
        next.feed_px == m.feed_px,
    ensures
        left_to_send(m) == seq![scanline_frame(m.rows[m.send_idx])] + left_to_send(next),
{
    assert(m.setup.skip(m.setup_idx) =~= Seq::<Seq<u8>>::empty());
    assert(left_to_send(m) =~= seq![scanline_frame(m.rows[m.send_idx])] + left_to_send(next));
}

proof fn lemma_drain(m: X6Model, fuel: nat)
    requires
        m.wf(),
        m.state == State::Streaming,
        m.pending_ms is None,
        fuel >= (m.setup.len() - m.setup_idx) + 2 * (m.rows.len() - m.send_idx) + 3,
    ensures
        drain(m, fuel).1 == left_to_send(m),
        drain(m, fuel).0.state == State::Done,
    decreases (m.setup.len() - m.setup_idx) + (m.rows.len() - m.send_idx),
{
    let next = m.after_action();
    if m.in_setup() {
        lemma_drain(next, (fuel - 1) as nat);
        assert(left_to_send(m) =~= seq![m.setup[m.setup_idx]] + left_to_send(next));
    } else if m.has_next() {
        if next.pending_ms is Some {
            let waited = next.after_action();
            lemma_drain(waited, (fuel - 2) as nat);
            assert(drain(next, (fuel - 1) as nat) == drain(waited, (fuel - 2) as nat));
            lemma_left_after_scanline(m, waited);
        } else {
            lemma_drain(next, (fuel - 1) as nat);
            lemma_left_after_scanline(m, next);
        }
    } else {
        lemma_drain_end(m, fuel);
    }
}

/// Left alone by the printer, a job sends its setup frames, a blank lead row,
/// every row of the bitmap in order, and the feed command unless it feeds
/// nothing; then it is over.
pub proof fn x6_job_sends_everything_in_order(
    setup: Seq<Seq<u8>>,
    rows: Seq<Seq<u8>>,
    feed_px: u16,
    delay_ms: u64,
    fuel: nat,
)
    requires
        fuel >= setup.len() + 2 * rows.len() + 5,
    ensures
        drain(fresh_x6_job(setup, rows, feed_px, delay_ms), fuel).0.state == State::Done,
        drain(fresh_x6_job(setup, rows, feed_px, delay_ms), fuel).1 == setup + seq![
            scanline_frame(zeros(BYTES_PER_ROW as nat)),
        ] + rows.map_values(|row: Seq<u8>| scanline_frame(row)) + if feed_px == 0 {
            Seq::empty()
        } else {
            seq![feed_frame(feed_px)]
        },
{
    let m = fresh_x6_job(setup, rows, feed_px, delay_ms);
    lemma_drain(m, fuel);
    assert(left_to_send(m) =~= setup + seq![scanline_frame(zeros(BYTES_PER_ROW as nat))]
        + rows.map_values(|row: Seq<u8>| scanline_frame(row)) + if feed_px == 0 {
        Seq::empty()
    } else {
        seq![feed_frame(feed_px)]
    });
}

} // verus!
