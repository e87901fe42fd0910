//! Command frame builders for the X6 wire protocol.
//!
//! Frame layout:
//! `51 78 | cmd | 00 | len LE u16 | payload | crc8(payload) | FF`.

use crate::protocol_x6::crc::crc8;
use crate::raster::bitmap::BYTES_PER_ROW;
use vstd::prelude::*;
#[allow(unused_imports)]
use crate::protocol_x6::crc::crc8_of;
#[allow(unused_imports)]
use crate::raster::bitmap::{msb_bit, row_pixel, WIDTH};

verus! {

const HOST_TO_PRINTER: u8 = 0x00;

const TRAILER: u8 = 0xFF;

pub const CMD_FEED_PAPER: u8 = 0xA1;

pub const CMD_RAW_SCANLINE: u8 = 0xA2;

pub const CMD_SET_ENERGY: u8 = 0xAF;

pub const CMD_SET_SPEED: u8 = 0xBD;

pub const CMD_APPLY_ENERGY: u8 = 0xBE;

/// A 16-bit number as two bytes, low byte first.
pub open spec fn le16(n: u16) -> Seq<u8> {
    seq![(n % 256) as u8, (n / 256) as u8]
}

/// A framed command; the length field holds the payload's length modulo 2^16.
pub open spec fn framed(cmd: u8, payload: Seq<u8>) -> Seq<u8> {
    seq![0x51u8, 0x78u8, cmd, 0x00u8] + le16((payload.len() % 0x1_0000) as u16) + payload + seq![
        crc8_of(payload),
        0xFFu8,
    ]
}

/// Bit `i` of a byte, counted from the least significant one.
pub open spec fn lsb_bit(b: u8, i: u8) -> bool {
    b & (1u8 << i) != 0
}

/// A byte with its bits in the opposite order.
pub open spec fn reversed(b: u8) -> u8 {
    ((b & 0x01) << 7) | ((b & 0x02) << 5) | ((b & 0x04) << 3) | ((b & 0x08) << 1) | ((b & 0x10)
        >> 1) | ((b & 0x20) >> 3) | ((b & 0x40) >> 5) | ((b & 0x80) >> 7)
}

/// A packed row in the X6's bit order.
pub open spec fn wire_row(row: Seq<u8>) -> Seq<u8> {
    Seq::new(row.len(), |i: int| reversed(row[i]))
}

/// The frame of one scanline.
pub open spec fn scanline_frame(row: Seq<u8>) -> Seq<u8> {
    framed(CMD_RAW_SCANLINE, wire_row(row))
}

/// The frame that feeds blank paper.
pub open spec fn feed_frame(pixels: u16) -> Seq<u8> {
    framed(CMD_FEED_PAPER, le16(pixels))
}

/// The density knob as a whole number from 1 to 7.
pub open spec fn clamped_density(density: u8) -> int {
    if density < 1 {
        1
    } else if density > 7 {
        7
    } else {
        density as int
    }
}

/// The frames that set the print darkness: feed speed, energy, and the command
/// that puts the energy into effect.
pub open spec fn setup_frames(density: u8) -> Seq<Seq<u8>> {
    let d = clamped_density(density);
    seq![
        framed(CMD_SET_SPEED, seq![(8 + 4 * (d - 1)) as u8]),
        framed(CMD_SET_ENERGY, le16((12000 + 6000 * (d - 1)) as u16)),
        framed(CMD_APPLY_ENERGY, seq![0x01u8]),
    ]
}

/// Build one framed command.
pub fn frame(cmd: u8, payload: &[u8]) -> (p: Vec<u8>)
    ensures
        p@ == framed(cmd, payload@),
{
    let len: u16 = (payload.len() % 0x1_0000) as u16;
    let mut p: Vec<u8> = Vec::new();
    p.push(0x51);
    p.push(0x78);
    p.push(cmd);
    p.push(HOST_TO_PRINTER);
    p.push((len % 256) as u8);
    p.push((len / 256) as u8);
    p.extend_from_slice(payload);
    p.push(crc8(payload));
    p.push(TRAILER);
    assert(p@ =~= framed(cmd, payload@));
    p
}

/// A 16-bit payload, low byte first.
fn frame_u16(cmd: u8, n: u16) -> (p: Vec<u8>)
    ensures
        p@ == framed(cmd, le16(n)),
{
    let payload: [u8; 2] = [(n % 256) as u8, (n / 256) as u8];
    assert(payload@ =~= le16(n));
    frame(cmd, &payload)
}

/// Feed `pixels` rows of blank paper (0xA1).
pub fn feed_paper(pixels: u16) -> (p: Vec<u8>)
    ensures
        p@ == feed_frame(pixels),
{
    frame_u16(CMD_FEED_PAPER, pixels)
}

/// Select the feed speed (0xBD); a greater divisor is slower and darker.
pub fn set_speed(divisor: u8) -> (p: Vec<u8>)
    ensures
        p@ == framed(CMD_SET_SPEED, seq![divisor]),
{
    let payload: [u8; 1] = [divisor];
    assert(payload@ =~= seq![divisor]);
    frame(CMD_SET_SPEED, &payload)
}

/// Select the printhead energy (0xAF).
pub fn set_energy(energy: u16) -> (p: Vec<u8>)
    ensures
        p@ == framed(CMD_SET_ENERGY, le16(energy)),
{
    frame_u16(CMD_SET_ENERGY, energy)
}

/// Put the selected energy into effect (0xBE).
pub fn apply_energy() -> (p: Vec<u8>)
    ensures
        p@ == framed(CMD_APPLY_ENERGY, seq![0x01u8]),
{
    let payload: [u8; 1] = [0x01];
    assert(payload@ =~= seq![0x01u8]);
    frame(CMD_APPLY_ENERGY, &payload)
}

/// The frames to send before the first scanline, from the 1-7 density knob;
/// values outside it count as the nearer end.
pub fn density_setup(density: u8) -> (frames: Vec<Vec<u8>>)
    ensures
        frames@.len() == setup_frames(density).len(),
        forall|i: int| 0 <= i < frames@.len() ==> #[trigger] frames@[i]@ == setup_frames(density)[i],
{
    let d: u8 = if density < 1 {
        1
    } else if density > 7 {
        7
    } else {
        density
    };
    let mut frames: Vec<Vec<u8>> = Vec::new();
    frames.push(set_speed(8 + 4 * (d - 1)));
    frames.push(set_energy(12000 + 6000 * ((d as u16) - 1)));
    frames.push(apply_energy());
    frames
}

fn reverse_bits(b: u8) -> (r: u8)
    ensures
        r == reversed(b),
{
    ((b & 0x01) << 7) | ((b & 0x02) << 5) | ((b & 0x04) << 3) | ((b & 0x08) << 1) | ((b & 0x10)
        >> 1) | ((b & 0x20) >> 3) | ((b & 0x40) >> 5) | ((b & 0x80) >> 7)
}

/// One uncompressed 1bpp scanline (0xA2).
///
/// `row` is a [`crate::raster::bitmap::Bitmap`] row: MSB-first, bit 1 =
/// black. The X6 wants the leftmost pixel in the least-significant bit, so
/// each byte is bit-reversed on the way out.
pub fn raw_scanline(row: &[u8; BYTES_PER_ROW]) -> (p: Vec<u8>)
    ensures
        p@ == scanline_frame(row@),
{
    let mut wire: Vec<u8> = Vec::new();
    let mut i: usize = 0;
    while i < BYTES_PER_ROW
        invariant
            i <= BYTES_PER_ROW,
            wire@ == wire_row(row@).take(i as int),
        decreases BYTES_PER_ROW - i,
    {
        wire.push(reverse_bits(row[i]));
        i = i + 1;
        assert(wire@ =~= wire_row(row@).take(i as int));
    }
    assert(wire@ =~= wire_row(row@));
    frame(CMD_RAW_SCANLINE, &wire)
}

/// The leftmost pixel of each byte travels in the least significant bit.
pub proof fn scanline_has_leftmost_pixel_lowest(row: Seq<u8>, x: int)
    requires
        row.len() == BYTES_PER_ROW,
        0 <= x < WIDTH,
    ensures
        lsb_bit(wire_row(row)[x / 8], (x % 8) as u8) == row_pixel(row, x),
{
    let b = row[x / 8];
    let i = (x % 8) as u8;
    assert(lsb_bit(reversed(b), i) == msb_bit(b, i)) by (bit_vector)
        requires
            i < 8,
    ;
}

/// Reversing the bits twice gives the row back.
pub proof fn reversing_twice_gives_the_row_back(row: Seq<u8>)
    ensures
        wire_row(wire_row(row)) == row,
{
    assert forall|i: int| 0 <= i < row.len() implies reversed(reversed(row[i])) == row[i] by {
        let b = row[i];
        assert(reversed(reversed(b)) == b) by (bit_vector);
    }
    assert(wire_row(wire_row(row)) =~= row);
}

/// A frame is eight bytes longer than its payload, and the payload stands
/// whole between header and checksum.
pub proof fn frame_holds_its_payload(cmd: u8, payload: Seq<u8>)
    ensures
        framed(cmd, payload).len() == payload.len() + 8,
        framed(cmd, payload).subrange(6, 6 + payload.len() as int) == payload,
        framed(cmd, payload)[2] == cmd,
        framed(cmd, payload).last() == 0xFF,
        framed(cmd, payload)[6 + payload.len() as int] == crc8_of(payload),
{
    assert(framed(cmd, payload).subrange(6, 6 + payload.len() as int) =~= payload);
}

} // verus!
