//! Command packet builders for the LX wire protocol.

use vstd::prelude::*;

verus! {

/// Bytes of raster data in one packet: two 48-byte print lines.
pub const RASTER_DATA_LEN: usize = 96;

/// A 16-bit number as two bytes, high byte first.
pub open spec fn be16(n: u16) -> Seq<u8> {
    seq![(n / 256) as u8, (n % 256) as u8]
}

/// `n` zero bytes.
pub open spec fn zeros(n: nat) -> Seq<u8> {
    Seq::new(n, |i: int| 0u8)
}

pub open spec fn hello_packet() -> Seq<u8> {
    seq![0x5Au8, 0x01u8] + zeros(10)
}

pub open spec fn density_packet(level: u8) -> Seq<u8> {
    seq![0x5Au8, 0x0Cu8, level]
}

pub open spec fn start_packet(num_packets: u16) -> Seq<u8> {
    seq![0x5Au8, 0x04u8] + be16(num_packets) + seq![0x00u8, 0x00u8]
}

pub open spec fn end_packet(num_packets: u16) -> Seq<u8> {
    seq![0x5Au8, 0x04u8] + be16(num_packets) + seq![0x01u8, 0x00u8]
}

pub open spec fn challenge_packet(challenge: Seq<u8>) -> Seq<u8> {
    seq![0x5Au8, 0x0Au8] + challenge
}

pub open spec fn reply_packet(response: Seq<u8>) -> Seq<u8> {
    seq![0x5Au8, 0x0Bu8] + response
}

/// A raster packet: marker, big-endian index, the data, a closing zero.
pub open spec fn raster_packet(index: u16, data: Seq<u8>) -> Seq<u8> {
    seq![0x55u8] + be16(index) + data + seq![0x00u8]
}

/// The handshake's opening packet.
pub fn hello() -> (p: [u8; 12])
    ensures
        p@ == hello_packet(),
{
    let p: [u8; 12] = [0x5A, 0x01, 0, 0, 0, 0, 0, 0, 0, 0, 0, 0];
    assert(p@ =~= hello_packet());
    p
}

/// Selects the print darkness.
pub fn set_density(level: u8) -> (p: [u8; 3])
    ensures
        p@ == density_packet(level),
{
    let p: [u8; 3] = [0x5A, 0x0C, level];
    assert(p@ =~= density_packet(level));
    p
}

/// Announces `num_packets` raster packets.
pub fn print_start(num_packets: u16) -> (p: [u8; 6])
    ensures
        p@ == start_packet(num_packets),
{
    let p: [u8; 6] = [
        0x5A,
        0x04,
        (num_packets / 256) as u8,
        (num_packets % 256) as u8,
        0x00,
        0x00,
    ];
    assert(p@ =~= start_packet(num_packets));
    p
}

/// Closes a job of `num_packets` raster packets.
pub fn print_end(num_packets: u16) -> (p: [u8; 6])
    ensures
        p@ == end_packet(num_packets),
{
    let p: [u8; 6] = [
        0x5A,
        0x04,
        (num_packets / 256) as u8,
        (num_packets % 256) as u8,
        0x01,
        0x00,
    ];
    assert(p@ =~= end_packet(num_packets));
    p
}

/// `5A`, the command byte, then ten payload bytes.
fn with_payload(command: u8, payload: &[u8; 10]) -> (p: [u8; 12])
    ensures
        p@ == seq![0x5Au8, command] + payload@,
{
    let mut p: [u8; 12] = [0u8; 12];
    p[0] = 0x5A;
    p[1] = command;
    let mut i: usize = 0;
    while i < 10
        invariant
            i <= 10,
            p@[0] == 0x5A,
            p@[1] == command,
            forall|j: int| 0 <= j < i ==> p@[j + 2] == #[trigger] payload@[j],
        decreases 10 - i,
    {
        p[i + 2] = payload[i];
        i = i + 1;
    }
    assert(p@ =~= seq![0x5Au8, command] + payload@) by {
        assert forall|k: int| 2 <= k < 12 implies p@[k] == payload@[k - 2] by {
            assert(p@[(k - 2) + 2] == payload@[k - 2]);
        }
    }
    p
}

/// Our auth challenge.
pub fn auth_challenge(challenge: &[u8; 10]) -> (p: [u8; 12])
    ensures
        p@ == challenge_packet(challenge@),
{
    with_payload(0x0A, challenge)
}

/// Our answer to the auth handshake.
pub fn auth_reply(response: &[u8; 10]) -> (p: [u8; 12])
    ensures
        p@ == reply_packet(response@),
{
    with_payload(0x0B, response)
}

/// Raster packet number `index`.
pub fn raster(index: u16, data: &[u8; RASTER_DATA_LEN]) -> (p: [u8; 100])
    ensures
        p@ == raster_packet(index, data@),
{
    let mut p: [u8; 100] = [0u8; 100];
    p[0] = 0x55;
    p[1] = (index / 256) as u8;
    p[2] = (index % 256) as u8;
    let mut i: usize = 0;
    while i < RASTER_DATA_LEN
        invariant
            i <= RASTER_DATA_LEN,
            p@[0] == 0x55,
            p@[1] == (index / 256) as u8,
            p@[2] == (index % 256) as u8,
            p@[99] == 0,
            forall|j: int| 0 <= j < i ==> p@[j + 3] == #[trigger] data@[j],
        decreases RASTER_DATA_LEN - i,
    {
        p[i + 3] = data[i];
        i = i + 1;
    }
    assert(p@ =~= raster_packet(index, data@)) by {
        assert forall|k: int| 3 <= k < 99 implies p@[k] == data@[k - 3] by {
            assert(p@[(k - 3) + 3] == data@[k - 3]);
        }
    }
    p
}

/// A 16-bit number is recovered from its two bytes.
pub proof fn be16_is_injective(a: u16, b: u16)
    requires
        be16(a) == be16(b),
    ensures
        a == b,
{
    assert(be16(a)[0] == be16(b)[0] && be16(a)[1] == be16(b)[1]);
}

/// Two raster packets are equal only if both index and data agree.
pub proof fn raster_packet_is_injective(i: u16, x: Seq<u8>, j: u16, y: Seq<u8>)
    requires
        raster_packet(i, x) == raster_packet(j, y),
    ensures
        i == j,
        x == y,
{
    let p = raster_packet(i, x);
    let q = raster_packet(j, y);
    assert(p.len() == x.len() + 4 && q.len() == y.len() + 4);
    assert(p[1] == q[1] && p[2] == q[2]);
    assert forall|k: int| 0 <= k < x.len() implies x[k] == y[k] by {
        assert(p[k + 3] == x[k]);
        assert(q[k + 3] == y[k]);
    }
    assert(x =~= y);
}

} // verus!
