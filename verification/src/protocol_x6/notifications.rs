//! Parser for X6 frames received on characteristic 0xAE02.
//!
//! Only the 0xAE device-status frames are understood; everything else (battery
//! frames, device info, models that prefix frames with 0x12) parses to `None`
//! and is logged by the transport as an unparseable frame rather than treated
//! as fatal — the family has many undocumented variants.

use vstd::prelude::*;
#[allow(unused_imports)]
use crate::protocol_x6::packets::framed;

verus! {

const CMD_DEVICE_STATUS: u8 = 0xAE;

const PRINTER_TO_HOST: u8 = 0x01;

const STATUS_BUFFER_FULL: u8 = 0x10;

const STATUS_READY: u8 = 0x00;

#[derive(Debug, Clone, Copy, PartialEq, Eq, Structural)]
pub enum X6Notification {
    /// RX buffer full: stop sending scanlines.
    BufferFull,
    /// Buffer drained: sending may resume.
    Ready,
}

/// Whether a frame is a device status with a one-byte payload. The checksum
/// and the trailer are not looked at.
pub open spec fn is_status_frame(data: Seq<u8>) -> bool {
    &&& data.len() >= 9
    &&& data[0] == 0x51
    &&& data[1] == 0x78
    &&& data[2] == 0xAE
    &&& data[3] == 0x01
    &&& data[4] == 1
    &&& data[5] == 0
}

/// The flow-control event that a frame stands for.
pub open spec fn event_of(data: Seq<u8>) -> Option<X6Notification> {
    if !is_status_frame(data) {
        None
    } else if data[6] == 0x10 {
        Some(X6Notification::BufferFull)
    } else if data[6] == 0x00 {
        Some(X6Notification::Ready)
    } else {
        None
    }
}

/// Decodes one notification; `None` for anything but the two flow-control
/// frames.
pub fn parse(data: &[u8]) -> (n: Option<X6Notification>)
    ensures
        n == event_of(data@),
{
    // 51 78 | cmd | dir | len LE u16 | payload | crc | FF
    if data.len() < 9 || data[0] != 0x51 || data[1] != 0x78 {
        return None;
    }
    if data[3] != PRINTER_TO_HOST || data[2] != CMD_DEVICE_STATUS {
        return None;
    }
    let len: usize = (data[4] as usize) + 256 * (data[5] as usize);
    if len != 1 || data.len() < 6 + len + 2 {
        return None;
    }
    if data[6] == STATUS_BUFFER_FULL {
        Some(X6Notification::BufferFull)
    } else if data[6] == STATUS_READY {
        Some(X6Notification::Ready)
    } else {
        None
    }
}

/// A frame that the host builds for the printer is never taken for a
/// notification.
pub proof fn host_frames_are_no_notifications(cmd: u8, payload: Seq<u8>)
    ensures
        event_of(framed(cmd, payload)) is None,
{
}

} // verus!
