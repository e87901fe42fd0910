//! Challenge-response auth keyed on the printer's MAC address.

use crate::protocol::crc::crc16_xmodem;
use vstd::prelude::*;
#[allow(unused_imports)]
use crate::protocol::crc::crc16;

verus! {

/// The answer to one challenge byte: the high byte of the CRC16 over that
/// byte followed by the MAC.
pub open spec fn auth_byte(challenge: u8, mac: Seq<u8>) -> u8 {
    (crc16(seq![challenge] + mac) / 256) as u8
}

/// The answer to a whole challenge.
pub open spec fn auth_answer(challenge: Seq<u8>, mac: Seq<u8>) -> Seq<u8> {
    Seq::new(challenge.len(), |i: int| auth_byte(challenge[i], mac))
}

/// Compute the 10-byte `5A 0B` auth payload from our challenge bytes and the
/// printer's MAC (learned from the `5A 01` hello reply, bytes 4..10).
pub fn auth_response(challenge: &[u8; 10], mac: &[u8; 6]) -> (out: [u8; 10])
    ensures
        out@ == auth_answer(challenge@, mac@),
{
    let mut out: [u8; 10] = [0u8; 10];
    let mut i: usize = 0;
    while i < 10
        invariant
            i <= 10,
            forall|j: int| 0 <= j < i ==> out@[j] == auth_byte(challenge@[j], mac@),
        decreases 10 - i,
    {
        let mut buf: Vec<u8> = Vec::with_capacity(7);
        buf.push(challenge[i]);
        buf.extend_from_slice(mac);
        assert(buf@ =~= seq![challenge@[i as int]] + mac@);
        let crc: u16 = crc16_xmodem(&buf);
        out[i] = (crc / 256) as u8;
        i = i + 1;
    }
    assert(out@ =~= auth_answer(challenge@, mac@));
    out
}

/// Challenge bytes that agree are answered alike, wherever they stand.
pub proof fn equal_challenge_bytes_get_equal_answers(
    challenge: Seq<u8>,
    mac: Seq<u8>,
    i: int,
    j: int,
)
    requires
        0 <= i < challenge.len(),
        0 <= j < challenge.len(),
        challenge[i] == challenge[j],
    ensures
        auth_answer(challenge, mac)[i] == auth_answer(challenge, mac)[j],
{
}

} // verus!
