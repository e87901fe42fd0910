//! CRC8, polynomial 0x07, init 0, no reflection.

use vstd::prelude::*;

verus! {

/// One step of the polynomial division on an 8-bit register.
pub open spec fn crc8_shift(crc: u8) -> u8 {
    if crc & 0x80 != 0 {
        (crc << 1) ^ 0x07
    } else {
        crc << 1
    }
}

/// `n` division steps in a row.
pub open spec fn crc8_shifts(crc: u8, n: nat) -> u8
    decreases n,
{
    if n == 0 {
        crc
    } else {
        crc8_shift(crc8_shifts(crc, (n - 1) as nat))
    }
}

/// CRC8 of a message.
pub open spec fn crc8_of(data: Seq<u8>) -> u8
    decreases data.len(),
{
    if data.len() == 0 {
        0
    } else {
        crc8_shifts(crc8_of(data.drop_last()) ^ data.last(), 8)
    }
}

/// CRC8 over `data`: polynomial 0x07, init 0, MSB-first, no final XOR.
pub fn crc8(data: &[u8]) -> (crc: u8)
    ensures
        crc == crc8_of(data@),
{
    let mut crc: u8 = 0;
    let mut i: usize = 0;
    while i < data.len()
        invariant
            i <= data.len(),
            crc == crc8_of(data@.take(i as int)),
        decreases data.len() - i,
    {
        crc = crc ^ data[i];
        let ghost mixed = crc;
        let mut k: u32 = 0;
        while k < 8
            invariant
                k <= 8,
                crc == crc8_shifts(mixed, k as nat),
            decreases 8 - k,
        {
            crc = if crc & 0x80 != 0 {
                (crc << 1) ^ 0x07
            } else {
                crc << 1
            };
            k = k + 1;
        }
        assert(data@.take(i + 1).drop_last() =~= data@.take(i as int));
        i = i + 1;
    }
    assert(data@.take(i as int) =~= data@);
    crc
}

proof fn lemma_shift_linear(a: u8, b: u8)
    ensures
        crc8_shift(a ^ b) == crc8_shift(a) ^ crc8_shift(b),
{
    assert(crc8_shift(a ^ b) == crc8_shift(a) ^ crc8_shift(b)) by (bit_vector);
}

proof fn lemma_shifts_linear(a: u8, b: u8, n: nat)
    ensures
        crc8_shifts(a ^ b, n) == crc8_shifts(a, n) ^ crc8_shifts(b, n),
    decreases n,
{
    if n > 0 {
        lemma_shifts_linear(a, b, (n - 1) as nat);
        lemma_shift_linear(crc8_shifts(a, (n - 1) as nat), crc8_shifts(b, (n - 1) as nat));
    }
}

/// The checksum is linear: the CRC of the bytewise exclusive or of two
/// messages of one length is the exclusive or of their CRCs.
pub proof fn crc8_is_linear(x: Seq<u8>, y: Seq<u8>)
    requires
        x.len() == y.len(),
    ensures
        crc8_of(Seq::new(x.len(), |i: int| x[i] ^ y[i])) == crc8_of(x) ^ crc8_of(y),
    decreases x.len(),
{
    let z = Seq::new(x.len(), |i: int| x[i] ^ y[i]);
    if x.len() == 0 {
        assert(0u8 ^ 0u8 == 0u8) by (bit_vector);
    } else {
        crc8_is_linear(x.drop_last(), y.drop_last());
        assert(z.drop_last() =~= Seq::new(
            x.drop_last().len(),
            |i: int| x.drop_last()[i] ^ y.drop_last()[i],
        ));
        let p = crc8_of(x.drop_last());
        let q = crc8_of(y.drop_last());
        let a = x.last();
        let b = y.last();
        assert((p ^ q) ^ (a ^ b) == (p ^ a) ^ (q ^ b)) by (bit_vector);
        lemma_shifts_linear(p ^ a, q ^ b, 8);
    }
}

/// A message followed by its own CRC has CRC zero.
pub proof fn crc8_of_checked_message_is_zero(data: Seq<u8>)
    ensures
        crc8_of(data.push(crc8_of(data))) == 0,
{
    let c = crc8_of(data);
    assert(data.push(c).drop_last() =~= data);
    assert(c ^ c == 0) by (bit_vector);
    assert(crc8_shift(0) == 0) by (bit_vector);
    reveal_with_fuel(crc8_shifts, 9);
}

proof fn lemma_zero_shifts(n: nat)
    ensures
        crc8_shifts(0, n) == 0,
    decreases n,
{
    if n > 0 {
        lemma_zero_shifts((n - 1) as nat);
        assert(crc8_shift(0) == 0) by (bit_vector);
    }
}

/// A blank payload of any length has CRC zero.
pub proof fn crc8_of_zeros_is_zero(n: nat)
    ensures
        crc8_of(crate::protocol::packets::zeros(n)) == 0,
    decreases n,
{
    let z = crate::protocol::packets::zeros(n);
    if n > 0 {
        crc8_of_zeros_is_zero((n - 1) as nat);
        assert(z.drop_last() =~= crate::protocol::packets::zeros((n - 1) as nat));
        assert(0u8 ^ 0u8 == 0) by (bit_vector);
        lemma_zero_shifts(8);
    }
}

} // verus!
