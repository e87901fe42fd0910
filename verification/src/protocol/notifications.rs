//! Parser for printer notifications received on BLE characteristic 0xFFE2.

use vstd::prelude::*;

verus! {

/// The printer's state report.
#[derive(Debug, Clone, Copy, PartialEq, Eq, Structural)]
pub struct Status {
    pub battery_pct: u8,
    pub no_paper: bool,
    pub charging: bool,
    pub charged: bool,
    pub overheat: bool,
    pub low_battery: bool,
    pub density: Option<u8>,
    pub voltage_mv: Option<u16>,
}

/// A decoded notification.
#[derive(Debug, Clone, Copy, PartialEq, Eq)]
pub enum Notification {
    Hello { mac: [u8; 6] },
    Status(Status),
    AuthChallengeReply,
    AuthResult { ok: bool },
    LostPacket { index: u16 },
    Finished { num_packets: u16 },
    Cooldown,
    Hold,
}

/// The number two bytes stand for, high byte first.
pub open spec fn from_be16(hi: u8, lo: u8) -> u16 {
    (hi * 256 + lo) as u16
}

/// The state report carried by a `5A 02` frame of at least five bytes. The
/// older, shorter frames leave out the fields at the end.
pub open spec fn status_of(data: Seq<u8>) -> Status {
    Status {
        battery_pct: data[2],
        no_paper: data[3] != 0,
        charging: data[4] == 1,
        charged: data[4] == 2,
        overheat: data.len() > 5 && data[5] != 0,
        low_battery: data.len() > 6 && data[6] != 0,
        density: if data.len() > 7 {
            Some(data[7])
        } else {
            None
        },
        voltage_mv: if data.len() > 9 {
            Some(from_be16(data[8], data[9]))
        } else {
            None
        },
    }
}

/// Whether a frame is one the parser knows, long enough for its kind.
pub open spec fn is_known_frame(data: Seq<u8>) -> bool {
    &&& data.len() >= 2
    &&& data[0] == 0x5A
    &&& match data[1] {
        0x01u8 => data.len() >= 10,
        0x02u8 => data.len() >= 5,
        0x05u8 => data.len() >= 4,
        0x06u8 => data.len() >= 4,
        0x07u8 => true,
        0x08u8 => true,
        0x0Au8 => true,
        0x0Bu8 => data.len() >= 3,
        _ => false,
    }
}

/// What a known frame says.
pub open spec fn says(data: Seq<u8>, n: Notification) -> bool {
    match n {
        Notification::Hello { mac } => data[1] == 0x01 && mac@ == data.subrange(4, 10),
        Notification::Status(s) => data[1] == 0x02 && s == status_of(data),
        Notification::LostPacket { index } => data[1] == 0x05 && index == from_be16(
            data[2],
            data[3],
        ),
        Notification::Finished { num_packets } => data[1] == 0x06 && num_packets == from_be16(
            data[2],
            data[3],
        ),
        Notification::Cooldown => data[1] == 0x07,
        Notification::Hold => data[1] == 0x08,
        Notification::AuthChallengeReply => data[1] == 0x0A,
        Notification::AuthResult { ok } => data[1] == 0x0B && ok == (data[2] == 0x01),
    }
}

fn from_be(hi: u8, lo: u8) -> (n: u16)
    ensures
        n == from_be16(hi, lo),
{
    (hi as u16) * 256 + (lo as u16)
}

/// Decodes one notification; `None` for a frame that is unknown or too short.
pub fn parse(data: &[u8]) -> (n: Option<Notification>)
    ensures
        n is Some <==> is_known_frame(data@),
        n matches Some(v) ==> says(data@, v),
{
    if data.len() < 2 || data[0] != 0x5A {
        return None;
    }
    let kind: u8 = data[1];
    if kind == 0x01 && data.len() >= 10 {
        let mac: [u8; 6] = [data[4], data[5], data[6], data[7], data[8], data[9]];
        assert(mac@ =~= data@.subrange(4, 10));
        Some(Notification::Hello { mac })
    } else if kind == 0x02 && data.len() >= 5 {
        let density: Option<u8> = if data.len() > 7 {
            Some(data[7])
        } else {
            None
        };
        let voltage_mv: Option<u16> = if data.len() > 9 {
            Some(from_be(data[8], data[9]))
        } else {
            None
        };
        Some(
            Notification::Status(
                Status {
                    battery_pct: data[2],
                    no_paper: data[3] != 0,
                    charging: data[4] == 1,
                    charged: data[4] == 2,
                    overheat: data.len() > 5 && data[5] != 0,
                    low_battery: data.len() > 6 && data[6] != 0,
                    density,
                    voltage_mv,
                },
            ),
        )
    } else if kind == 0x05 && data.len() >= 4 {
        Some(Notification::LostPacket { index: from_be(data[2], data[3]) })
    } else if kind == 0x06 && data.len() >= 4 {
        Some(Notification::Finished { num_packets: from_be(data[2], data[3]) })
    } else if kind == 0x07 {
        Some(Notification::Cooldown)
    } else if kind == 0x08 {
        Some(Notification::Hold)
    } else if kind == 0x0A {
        Some(Notification::AuthChallengeReply)
    } else if kind == 0x0B && data.len() >= 3 {
        Some(Notification::AuthResult { ok: data[2] == 0x01 })
    } else {
        None
    }
}

/// A frame says at most one thing.
pub proof fn a_frame_says_one_thing(data: Seq<u8>, a: Notification, b: Notification)
    requires
        is_known_frame(data),
        says(data, a),
        says(data, b),
    ensures
        a == b,
{
    if let Notification::Hello { mac: x } = a {
        if let Notification::Hello { mac: y } = b {
            assert(x@ == y@);
            assert(x =~= y) by {
                assert forall|i: int| 0 <= i < 6 implies x[i] == y[i] by {
                    assert(x@[i] == y@[i]);
                }
            }
        }
    }
}

/// The index a printer reports big-endian is read back as it was sent.
pub proof fn reported_index_is_read_back(index: u16, tail: Seq<u8>)
    ensures
        says(
            seq![0x5Au8, 0x05u8] + crate::protocol::packets::be16(index) + tail,
            (Notification::LostPacket { index }),
        ),
        says(
            seq![0x5Au8, 0x06u8] + crate::protocol::packets::be16(index) + tail,
            (Notification::Finished { num_packets: index }),
        ),
{
}

} // verus!
