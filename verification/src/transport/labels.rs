//! Short labels for frames on the wire.

use crate::strings::{decimal, digit};
use vstd::prelude::*;
#[allow(unused_imports)]
use crate::protocol::notifications::from_be16;
#[allow(unused_imports)]
use crate::protocol::packets::{
    challenge_packet, density_packet, end_packet, hello_packet, reply_packet, start_packet,
};
#[allow(unused_imports)]
use crate::strings::decimal_digits;

verus! {

/// A hexadecimal digit with small letters.
pub open spec fn hex_char(d: int) -> char {
    if d < 10 {
        (48 + d) as char
    } else {
        (87 + d) as char
    }
}

/// Bytes as hexadecimal digits, two each.
pub open spec fn hex_digits(bytes: Seq<u8>) -> Seq<char> {
    Seq::new(
        2 * bytes.len(),
        |i: int|
            if i % 2 == 0 {
                hex_char((bytes[i / 2] / 16) as int)
            } else {
                hex_char((bytes[i / 2] % 16) as int)
            },
    )
}

fn hex_digit(d: u8) -> (c: char)
    requires
        d < 16,
    ensures
        c == hex_char(d as int),
{
    if d < 10 {
        (48u8 + d) as char
    } else {
        (87u8 + d) as char
    }
}

/// Lowercase hex, for trace-logging raw frames. Notification frames are at
/// most a dozen bytes, so they are dumped whole.
pub fn hex(bytes: &[u8]) -> (text: String)
    ensures
        text@ == hex_digits(bytes@),
{
    let mut text: String = String::new();
    let mut i: usize = 0;
    while i < bytes.len()
        invariant
            i <= bytes@.len(),
            text@ == hex_digits(bytes@).take(2 * i),
        decreases bytes@.len() - i,
    {
        let b: u8 = bytes[i];
        text.push(hex_digit(b / 16));
        text.push(hex_digit(b % 16));
        i = i + 1;
        assert(text@ =~= hex_digits(bytes@).take(2 * i));
    }
    assert(text@ =~= hex_digits(bytes@));
    text
}

/// The label of an outgoing frame.
pub open spec fn write_label(bytes: Seq<u8>) -> Seq<char> {
    if bytes.len() >= 3 && bytes[0] == 0x55 {
        "raster idx="@ + decimal_digits(from_be16(bytes[1], bytes[2]) as nat)
    } else if bytes.len() >= 2 && bytes[0] == 0x5A && bytes[1] == 0x01 {
        "hello"@
    } else if bytes.len() >= 2 && bytes[0] == 0x5A && bytes[1] == 0x0A {
        "auth challenge"@
    } else if bytes.len() >= 2 && bytes[0] == 0x5A && bytes[1] == 0x0B {
        "auth response"@
    } else if bytes.len() >= 3 && bytes[0] == 0x5A && bytes[1] == 0x0C {
        "set density "@ + decimal_digits(bytes[2] as nat)
    } else if bytes.len() >= 5 && bytes[0] == 0x5A && bytes[1] == 0x04 && bytes[4] == 0x00 {
        "print start ("@ + decimal_digits(from_be16(bytes[2], bytes[3]) as nat) + " packets)"@
    } else if bytes.len() >= 4 && bytes[0] == 0x5A && bytes[1] == 0x04 {
        "print end ("@ + decimal_digits(from_be16(bytes[2], bytes[3]) as nat) + " packets)"@
    } else {
        "unknown frame "@ + hex_digits(bytes)
    }
}

/// `before`, a number, `after`.
fn with_number(before: &str, n: u32, after: &str) -> (text: String)
    ensures
        text@ == before@ + decimal_digits(n as nat) + after@,
{
    let mut text: String = before.to_owned();
    text.append(decimal(n as u128).as_str());
    text.append(after);
    text
}

fn be16_value(hi: u8, lo: u8) -> (n: u32)
    ensures
        n == from_be16(hi, lo),
{
    (hi as u32) * 256 + (lo as u32)
}

/// A short label for an outgoing frame.
///
/// Raster packets are named by index, never dumped: the payload is 96 bytes
/// of pixels per packet and a page is thousands of them.
pub fn describe_write(bytes: &[u8]) -> (text: String)
    ensures
        text@ == write_label(bytes@),
{
    let n: usize = bytes.len();
    if n >= 3 && bytes[0] == 0x55 {
        let mut text: String = "raster idx=".to_owned();
        text.append(decimal(be16_value(bytes[1], bytes[2]) as u128).as_str());
        text
    } else if n >= 2 && bytes[0] == 0x5A && bytes[1] == 0x01 {
        "hello".to_owned()
    } else if n >= 2 && bytes[0] == 0x5A && bytes[1] == 0x0A {
        "auth challenge".to_owned()
    } else if n >= 2 && bytes[0] == 0x5A && bytes[1] == 0x0B {
        "auth response".to_owned()
    } else if n >= 3 && bytes[0] == 0x5A && bytes[1] == 0x0C {
        let mut text: String = "set density ".to_owned();
        text.append(decimal(bytes[2] as u128).as_str());
        text
    } else if n >= 5 && bytes[0] == 0x5A && bytes[1] == 0x04 && bytes[4] == 0x00 {
        with_number("print start (", be16_value(bytes[2], bytes[3]), " packets)")
    } else if n >= 4 && bytes[0] == 0x5A && bytes[1] == 0x04 {
        with_number("print end (", be16_value(bytes[2], bytes[3]), " packets)")
    } else {
        let mut text: String = "unknown frame ".to_owned();
        text.append(hex(bytes).as_str());
        text
    }
}

/// Is this an outgoing raster packet (as opposed to a control frame)?
pub fn is_raster(bytes: &[u8]) -> (raster: bool)
    ensures
        raster == (bytes@.len() > 0 && bytes@[0] == 0x55),
{
    bytes.len() > 0 && bytes[0] == 0x55
}

/// A raster packet is labelled by its index, whatever its pixels.
pub proof fn raster_label_is_the_index(index: u16, data: Seq<u8>)
    ensures
        write_label(crate::protocol::packets::raster_packet(index, data)) == "raster idx="@
            + decimal_digits(index as nat),
{
    let p = crate::protocol::packets::raster_packet(index, data);
    assert(p[1] == (index / 256) as u8 && p[2] == (index % 256) as u8);
}

/// The number that a hexadecimal digit stands for.
pub open spec fn digit_value(c: char) -> int {
    if '0' <= c <= '9' {
        c as int - 48
    } else if 'a' <= c <= 'f' {
        c as int - 87
    } else {
        -1
    }
}

/// Hexadecimal digits are read back: two for each byte, in order, the high half
/// first.
pub proof fn hex_is_read_back(bytes: Seq<u8>, k: int)
    requires
        0 <= k < bytes.len(),
    ensures
        ({
            let text = hex_digits(bytes);
            let high = digit_value(text[2 * k]);
            let low = digit_value(text[2 * k + 1]);
            &&& text.len() == 2 * bytes.len()
            &&& 0 <= high < 16 && 0 <= low < 16
            &&& 16 * high + low == bytes[k]
        }),
{
    assert((2 * k) / 2 == k && (2 * k + 1) / 2 == k);
    assert((2 * k) % 2 == 0 && (2 * k + 1) % 2 == 1);
}

/// Every packet that is sent has the label of its kind, with the numbers in it.
pub proof fn packets_have_their_labels(n: u16, level: u8, ten: Seq<u8>)
    ensures
        write_label(hello_packet()) == "hello"@,
        write_label(challenge_packet(ten)) == "auth challenge"@,
        write_label(reply_packet(ten)) == "auth response"@,
        write_label(density_packet(level)) == "set density "@ + decimal_digits(level as nat),
        write_label(start_packet(n)) == "print start ("@ + decimal_digits(n as nat)
            + " packets)"@,
        write_label(end_packet(n)) == "print end ("@ + decimal_digits(n as nat) + " packets)"@,
{
    let start = start_packet(n);
    let end = end_packet(n);
    assert(start[2] == (n / 256) as u8 && start[3] == (n % 256) as u8);
    assert(end[2] == (n / 256) as u8 && end[3] == (n % 256) as u8);
    assert(start[0] == 0x5A && start[1] == 0x04 && start[4] == 0x00);
    assert(end[0] == 0x5A && end[1] == 0x04 && end[4] == 0x01);
    assert(challenge_packet(ten)[0] == 0x5A && challenge_packet(ten)[1] == 0x0A);
    assert(reply_packet(ten)[0] == 0x5A && reply_packet(ten)[1] == 0x0B);
}

} // verus!
