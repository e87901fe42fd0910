//! What goes over the air, byte by byte, and when.

use vstd::prelude::*;
#[allow(unused_imports)]
use crate::protocol::auth::{auth_answer, auth_byte};
#[allow(unused_imports)]
use crate::protocol::crc::crc16;
#[allow(unused_imports)]
use crate::protocol::job::{bump, fresh_job, JobModel, State, Step};
#[allow(unused_imports)]
use crate::protocol::laws::packets_from;
#[allow(unused_imports)]
use crate::protocol::notifications::{is_known_frame, says, status_of, Notification, Status};
#[allow(unused_imports)]
use crate::protocol::packets::{
    challenge_packet, density_packet, end_packet, hello_packet, raster_packet, reply_packet,
    start_packet, zeros,
};
#[allow(unused_imports)]
use crate::raster::bitmap::{blank_row_is_white, payload_of, payloads_of, rows_fill_the_head, Bitmap};

verus! {

/// A raster packet is a hundred bytes: its mark, its number with the high byte
/// first, the two rows as they are, and a zero.
pub proof fn a_raster_packet_says_what_it_carries(index: u16, data: Seq<u8>, k: int)
    requires
        data.len() == 96,
        0 <= k < 96,
    ensures
        ({
            let p = raster_packet(index, data);
            &&& p.len() == 100
            &&& p[0] == 0x55
            &&& 256 * p[1] + p[2] == index
            &&& p[3 + k] == data[k]
            &&& p[99] == 0
        }),
{
}

/// Every other command is marked by its first two bytes and carries what it is
/// given.
pub proof fn commands_say_what_they_are(count: u16, level: u8, payload: Seq<u8>, k: int)
    requires
        payload.len() == 10,
        0 <= k < 10,
    ensures
        ({
            let hello = hello_packet();
            let density = density_packet(level);
            let start = start_packet(count);
            let end = end_packet(count);
            let challenge = challenge_packet(payload);
            let reply = reply_packet(payload);
            &&& hello.len() == 12 && hello[0] == 0x5A && hello[1] == 0x01 && hello[2 + k] == 0
            &&& density == seq![0x5Au8, 0x0Cu8, level]
            &&& start.len() == 6 && start[0] == 0x5A && start[1] == 0x04 && 256 * start[2]
                + start[3] == count && start[4] == 0 && start[5] == 0
            &&& end.len() == 6 && end[0] == 0x5A && end[1] == 0x04 && 256 * end[2] + end[3] == count
                && end[4] == 1 && end[5] == 0
            &&& challenge.len() == 12 && challenge[0] == 0x5A && challenge[1] == 0x0A
                && challenge[2 + k] == payload[k]
            &&& reply.len() == 12 && reply[0] == 0x5A && reply[1] == 0x0B && reply[2 + k]
                == payload[k]
        }),
{
}

/// Each byte of a challenge is answered by the high byte of the checksum of that
/// byte and the printer's address.
pub proof fn challenges_are_answered_byte_by_byte(challenge: Seq<u8>, mac: Seq<u8>, i: int)
    requires
        0 <= i < challenge.len(),
    ensures
        auth_answer(challenge, mac).len() == challenge.len(),
        ({
            let check = crc16(seq![challenge[i]] + mac);
            auth_answer(challenge, mac)[i] * 256 <= check < auth_answer(challenge, mac)[i] * 256
                + 256
        }),
{
}

/// The report of a printer is read byte by byte: battery, paper, charging, heat,
/// weak battery, darkness and voltage, in this order, as far as the report goes.
pub proof fn reports_are_read_byte_by_byte(data: Seq<u8>, n: Notification)
    requires
        is_known_frame(data),
        says(data, n),
        data[1] == 2,
    ensures
        n matches Notification::Status(s) && {
            &&& s.battery_pct == data[2]
            &&& s.no_paper <==> data[3] != 0
            &&& s.charging <==> data[4] == 1
            &&& s.charged <==> data[4] == 2
            &&& data.len() > 5 ==> (s.overheat <==> data[5] != 0)
            &&& data.len() <= 5 ==> !s.overheat
            &&& data.len() > 6 ==> (s.low_battery <==> data[6] != 0)
            &&& data.len() <= 6 ==> !s.low_battery
            &&& data.len() > 7 ==> s.density == Some(data[7])
            &&& data.len() <= 7 ==> s.density is None
            &&& data.len() > 9 ==> s.voltage_mv == Some((256 * data[8] + data[9]) as u16)
            &&& data.len() <= 9 ==> s.voltage_mv is None
        },
{
}

/// A printer's other notices carry what stands in their frames.
pub proof fn notices_carry_what_stands_in_their_frames(data: Seq<u8>, n: Notification)
    requires
        is_known_frame(data),
        says(data, n),
        data[1] != 2,
    ensures
        data[0] == 0x5A,
        data[1] == 0x01 ==> (n matches Notification::Hello { mac } && forall|k: int|
            0 <= k < 6 ==> #[trigger] mac@[k] == data[4 + k]),
        data[1] == 0x05 ==> (n matches Notification::LostPacket { index } && index == 256 * data[2]
            + data[3]),
        data[1] == 0x06 ==> (n matches Notification::Finished { num_packets } && num_packets == 256
            * data[2] + data[3]),
        data[1] == 0x07 ==> n is Cooldown,
        data[1] == 0x08 ==> n is Hold,
        data[1] == 0x0A ==> n is AuthChallengeReply,
        data[1] == 0x0B ==> (n matches Notification::AuthResult { ok } && (ok <==> data[2] == 1)),
{
}

/// Every pixel reaches the printer: packet `y / 2` of a print holds row `y`, the
/// even rows first, eight pixels to a byte with the leftmost in the highest bit.
pub proof fn every_pixel_is_sent(
    b: &Bitmap,
    density: u8,
    challenge: Seq<u8>,
    delay_ms: u64,
    x: int,
    y: int,
)
    requires
        0 < b@.len() <= 131_070,
        0 <= x < 384,
        0 <= y < b@.len(),
    ensures
        ({
            let sent = packets_from(fresh_job(payloads_of(b@), density, challenge, delay_ms), 0);
            let byte = sent[y / 2][3 + 48 * (y % 2) + x / 8];
            let shift = (x % 8) as u8;
            &&& 2 * sent.len() - 1 <= b@.len() <= 2 * sent.len()
            &&& (byte & (0x80u8 >> shift) != 0) == b.black(x, y)
        }),
{
    rows_fill_the_head(b);
    let m = fresh_job(payloads_of(b@), density, challenge, delay_ms);
    let i = y / 2;
    let payload = payload_of(b@, i);
    assert(m.payloads[i] == payload);
    assert(b@[y].len() == 48 && b@[2 * i].len() == 48);
    assert(payload[48 * (y % 2) + x / 8] == b@[y][x / 8]);
    assert(packets_from(m, 0)[i] == raster_packet(i as u16, payload));
}

/// Between two raster packets the job waits as long as it was told to.
pub proof fn packets_are_paced(m: JobModel)
    requires
        m.wf(),
        m.state == State::Streaming,
        m.pending_ms is None,
        m.send_idx + 1 < m.payloads.len(),
    ensures
        ({
            let next = m.after_action();
            &&& m.action() == Step::Send(
                raster_packet(m.send_idx as u16, m.payloads[m.send_idx]),
            )
            &&& m.delay_ms > 0 ==> next.action() == Step::WaitMs(m.delay_ms)
                && next.after_action().action() == Step::Send(
                raster_packet((m.send_idx + 1) as u16, m.payloads[m.send_idx + 1]),
            )
            &&& m.delay_ms == 0 ==> next.action() == Step::Send(
                raster_packet((m.send_idx + 1) as u16, m.payloads[m.send_idx + 1]),
            )
        }),
{
}

/// A hold stops the stream at once, without losing its place, and is counted.
pub proof fn a_hold_stops_the_stream(m: JobModel)
    requires
        m.wf(),
        m.state == State::Streaming || m.state == State::AwaitFinish,
    ensures
        ({
            let held = m.after_notification(Notification::Hold);
            &&& held.state == State::Holding
            &&& !(held.action() is Send)
            &&& (JobModel { pending_ms: None, ..held }).action() is WaitNotification
            &&& held.send_idx == m.send_idx
            &&& held.stats.holds == if m.stats.holds == u32::MAX {
                u32::MAX
            } else {
                (m.stats.holds + 1) as u32
            }
        }),
{
}

/// Setbacks are counted by their kind: a lost packet as a retransmit, a cooldown,
/// which takes a tenth of a second, as a cooldown.
pub proof fn setbacks_are_counted(m: JobModel, index: u16)
    requires
        m.wf(),
        m.in_transfer(),
        m.stats.retransmits < u32::MAX,
        m.stats.cooldowns < u32::MAX,
    ensures
        ({
            let lost = m.after_notification(Notification::LostPacket { index });
            let hot = m.after_notification(Notification::Cooldown);
            &&& lost.stats.retransmits == m.stats.retransmits + 1
            &&& lost.stats.holds == m.stats.holds
            &&& lost.stats.cooldowns == m.stats.cooldowns
            &&& m.state != State::Holding ==> hot.pending_ms == Some(100u64)
                && hot.stats.cooldowns == m.stats.cooldowns + 1 && hot.state == m.state
            &&& m.state == State::Holding ==> hot == m
            &&& hot.stats.retransmits == m.stats.retransmits
            &&& hot.stats.holds == m.stats.holds
        }),
{
}

/// A report of the printer's state changes nothing about the job.
pub proof fn reports_change_nothing(m: JobModel, s: Status)
    ensures
        m.after_notification(Notification::Status(s)) == m,
{
}

} // verus!
