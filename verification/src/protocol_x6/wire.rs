//! What goes over the air to an X6, byte by byte, and when.

use vstd::prelude::*;
#[allow(unused_imports)]
use crate::protocol::job::Step;
#[allow(unused_imports)]
use crate::protocol_x6::crc::crc8_of;
#[allow(unused_imports)]
use crate::protocol_x6::job::{fresh_x6_job, State, X6Model};
#[allow(unused_imports)]
use crate::protocol_x6::laws::left_to_send;
#[allow(unused_imports)]
use crate::protocol_x6::notifications::{event_of, X6Notification};
#[allow(unused_imports)]
use crate::protocol_x6::packets::{
    feed_frame, framed, le16, lsb_bit, scanline_frame, scanline_has_leftmost_pixel_lowest,
    setup_frames, wire_row,
};
#[allow(unused_imports)]
use crate::raster::bitmap::{row_pixel, rows_fill_the_head, Bitmap};

verus! {

/// A frame: two marks, the command, a zero for the direction, the length of the
/// payload with the low byte first, the payload, its checksum, and a mark.
pub proof fn a_frame_says_what_it_carries(cmd: u8, payload: Seq<u8>, k: int)
    requires
        payload.len() <= 0xFFFF,
        0 <= k < payload.len(),
    ensures
        ({
            let p = framed(cmd, payload);
            let n = payload.len() as int;
            &&& p.len() == n + 8
            &&& p[0] == 0x51 && p[1] == 0x78 && p[2] == cmd && p[3] == 0
            &&& p[4] + 256 * p[5] == n
            &&& p[6 + k] == payload[k]
            &&& p[6 + n] == crc8_of(payload)
            &&& p[7 + n] == 0xFF
        }),
{
}

/// The frame that feeds paper carries the rows to feed, low byte first.
pub proof fn a_feed_says_how_far(pixels: u16)
    ensures
        ({
            let p = feed_frame(pixels);
            p.len() == 10 && p[2] == 0xA1 && p[6] + 256 * p[7] == pixels
        }),
{
}

/// The darkness is set by three frames: a slower feed and more energy for each
/// step from 1 to 7, beyond which it does not go, and the command that puts them
/// into effect.
pub proof fn darkness_is_set_in_steps(density: u8)
    ensures
        ({
            let frames = setup_frames(density);
            let step = if density <= 1 {
                0
            } else if density >= 7 {
                6
            } else {
                density - 1
            };
            &&& frames.len() == 3
            &&& frames[0][2] == 0xBD && frames[0].len() == 9 && frames[0][6] == 8 + 4 * step
            &&& frames[1][2] == 0xAF && frames[1].len() == 10 && frames[1][6] + 256 * frames[1][7]
                == 12_000 + 6_000 * step
            &&& frames[2][2] == 0xBE && frames[2].len() == 9 && frames[2][6] == 1
        }),
{
}

/// Every pixel reaches the printer: behind the setup and a blank row comes a frame
/// for each row, top to bottom, eight pixels to a byte with the leftmost in the
/// lowest bit.
pub proof fn every_pixel_is_sent(
    b: &Bitmap,
    setup: Seq<Seq<u8>>,
    feed_px: u16,
    delay_ms: u64,
    x: int,
    y: int,
)
    requires
        0 <= x < 384,
        0 <= y < b@.len(),
    ensures
        ({
            let sent = left_to_send(fresh_x6_job(setup, b@, feed_px, delay_ms));
            let n = setup.len() as int;
            let lead = sent[n];
            let p = sent[n + 1 + y];
            let shift = (x % 8) as u8;
            &&& sent.len() == n + 1 + b@.len() + if feed_px == 0 {
                0int
            } else {
                1
            }
            &&& lead[2] == 0xA2 && lead.len() == 56 && lead[6 + x / 8] == 0
            &&& p[2] == 0xA2 && p.len() == 56
            &&& (p[6 + x / 8] & (1u8 << shift) != 0) == b.black(x, y)
        }),
{
    rows_fill_the_head(b);
    let m = fresh_x6_job(setup, b@, feed_px, delay_ms);
    let sent = left_to_send(m);
    let row = b@[y];
    assert(row.len() == 48);
    assert(m.rows[1 + y] == row);
    assert(sent[setup.len() + 1 + y] == scanline_frame(row));
    assert(sent[setup.len() as int] == scanline_frame(m.rows[0]));
    scanline_has_leftmost_pixel_lowest(row, x);
    assert(crate::protocol_x6::packets::reversed(0) == 0) by (bit_vector);
    assert(wire_row(m.rows[0])[x / 8] == 0);
}

/// Between two rows the job waits as long as it was told to.
pub proof fn rows_are_paced(m: X6Model)
    requires
        m.wf(),
        m.state == State::Streaming,
        m.pending_ms is None,
        !m.in_setup(),
        m.send_idx + 1 < m.rows.len(),
    ensures
        ({
            let next = m.after_action();
            let then = Step::Send(scanline_frame(m.rows[m.send_idx + 1]));
            &&& m.action() == Step::Send(scanline_frame(m.rows[m.send_idx]))
            &&& m.delay_ms > 0 ==> next.action() == Step::WaitMs(m.delay_ms)
                && next.after_action().action() == then
            &&& m.delay_ms == 0 ==> next.action() == then
        }),
{
}

/// Once all rows are out, the paper is fed if it is to be, and then the job waits
/// half a second before it is over.
pub proof fn a_job_ends_with_feed_and_wait(m: X6Model)
    requires
        m.wf(),
        m.state == State::Streaming,
        !m.in_setup(),
        !m.has_next(),
    ensures
        ({
            let fed = if m.feed_px == 0 {
                m
            } else {
                m.after_action()
            };
            &&& m.feed_px > 0 ==> m.action() == Step::Send(feed_frame(m.feed_px))
            &&& fed.action() == Step::WaitMs(500)
            &&& fed.after_action().action() is Done
        }),
{
}

/// A status of 0x10 pauses, one of zero resumes, and every pause is counted.
pub proof fn flow_control_is_heard(m: X6Model, data: Seq<u8>)
    requires
        m.wf(),
        data.len() >= 9,
        data.take(6) == seq![0x51u8, 0x78u8, 0xAEu8, 1u8, 1u8, 0u8],
    ensures
        data[6] == 0x10 ==> event_of(data) == Some(X6Notification::BufferFull),
        data[6] == 0 ==> event_of(data) == Some(X6Notification::Ready),
        data[6] != 0x10 && data[6] != 0 ==> event_of(data) is None,
        m.state == State::Streaming && m.stats.holds < u32::MAX ==> m.after_notification(
            X6Notification::BufferFull,
        ).stats.holds == m.stats.holds + 1,
        m.after_notification(X6Notification::BufferFull).send_idx == m.send_idx,
        m.after_notification(X6Notification::Ready).send_idx == m.send_idx,
{
    let head = data.take(6);
    assert(head[0] == data[0] && head[1] == data[1] && head[2] == data[2] && head[3] == data[3]
        && head[4] == data[4] && head[5] == data[5]);
}

} // verus!
