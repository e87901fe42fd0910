//! CRC16/XMODEM, the checksum of the LX auth handshake.

use vstd::prelude::*;

verus! {

/// One step of the polynomial division: the register moves one bit to the
/// left, and a bit that falls out at the top is replaced by the polynomial.
pub open spec fn crc16_shift(crc: u16) -> u16 {
    if crc & 0x8000 != 0 {
        (crc << 1) ^ 0x1021
    } else {
        crc << 1
    }
}

/// `n` division steps in a row.
pub open spec fn crc16_shifts(crc: u16, n: nat) -> u16
    decreases n,
{
    if n == 0 {
        crc
    } else {
        crc16_shift(crc16_shifts(crc, (n - 1) as nat))
    }
}

/// The register after one more message byte.
pub open spec fn crc16_absorb(crc: u16, byte: u8) -> u16 {
    crc16_shifts(crc ^ ((byte as u16) << 8), 8)
}

/// CRC16/XMODEM of a message: the register starts at zero and takes the bytes
/// one after the other.
pub open spec fn crc16(data: Seq<u8>) -> u16
    decreases data.len(),
{
    if data.len() == 0 {
        0
    } else {
        crc16_absorb(crc16(data.drop_last()), data.last())
    }
}

/// CRC16/XMODEM: poly 0x1021, init 0x0000, no reflection, no xorout.
pub fn crc16_xmodem(data: &[u8]) -> (crc: u16)
    ensures
        crc == crc16(data@),
{
    let mut crc: u16 = 0;
    let mut i: usize = 0;
    while i < data.len()
        invariant
            i <= data.len(),
            crc == crc16(data@.take(i as int)),
        decreases data.len() - i,
    {
        let ghost before = crc;
        let b: u8 = data[i];
        crc = crc ^ ((b as u16) << 8);
        let ghost mixed = crc;
        let mut k: u32 = 0;
        while k < 8
            invariant
                k <= 8,
                crc == crc16_shifts(mixed, k as nat),
            decreases 8 - k,
        {
            crc = if crc & 0x8000 != 0 {
                (crc << 1) ^ 0x1021
            } else {
                crc << 1
            };
            k = k + 1;
        }
        assert(crc == crc16_absorb(before, b));
        assert(data@.take(i + 1).drop_last() =~= data@.take(i as int));
        i = i + 1;
    }
    assert(data@.take(i as int) =~= data@);
    crc
}

proof fn lemma_shift_linear(a: u16, b: u16)
    ensures
        crc16_shift(a ^ b) == crc16_shift(a) ^ crc16_shift(b),
{
    assert(crc16_shift(a ^ b) == crc16_shift(a) ^ crc16_shift(b)) by (bit_vector);
}

proof fn lemma_shifts_linear(a: u16, b: u16, n: nat)
    ensures
        crc16_shifts(a ^ b, n) == crc16_shifts(a, n) ^ crc16_shifts(b, n),
    decreases n,
{
    if n > 0 {
        lemma_shifts_linear(a, b, (n - 1) as nat);
        lemma_shift_linear(crc16_shifts(a, (n - 1) as nat), crc16_shifts(b, (n - 1) as nat));
    }
}

/// The checksum is linear: the CRC of the bytewise exclusive or of two
/// messages of one length is the exclusive or of their CRCs.
pub proof fn crc16_is_linear(x: Seq<u8>, y: Seq<u8>)
    requires
        x.len() == y.len(),
    ensures
        crc16(Seq::new(x.len(), |i: int| x[i] ^ y[i])) == crc16(x) ^ crc16(y),
    decreases x.len(),
{
    let z = Seq::new(x.len(), |i: int| x[i] ^ y[i]);
    if x.len() == 0 {
        assert(0u16 ^ 0u16 == 0u16) by (bit_vector);
    } else {
        crc16_is_linear(x.drop_last(), y.drop_last());
        assert(z.drop_last() =~= Seq::new(
            x.drop_last().len(),
            |i: int| x.drop_last()[i] ^ y.drop_last()[i],
        ));
        let p = crc16(x.drop_last());
        let q = crc16(y.drop_last());
        let a = x.last();
        let b = y.last();
        let left = p ^ ((a as u16) << 8);
        let right = q ^ ((b as u16) << 8);
        assert((p ^ q) ^ (((a ^ b) as u16) << 8) == (p ^ ((a as u16) << 8)) ^ (q ^ ((b as u16)
            << 8))) by (bit_vector);
        lemma_shifts_linear(left, right, 8);
    }
}

/// A message followed by its own CRC, high byte first, has CRC zero.
pub proof fn crc16_of_checked_message_is_zero(data: Seq<u8>)
    ensures
        crc16(data.push((crc16(data) / 256) as u8).push((crc16(data) % 256) as u8)) == 0,
{
    let c = crc16(data);
    let hi = (c / 256) as u8;
    let lo = (c % 256) as u8;
    let one = data.push(hi);
    let two = one.push(lo);
    assert(one.drop_last() =~= data);
    assert(two.drop_last() =~= one);
    let m = c ^ ((hi as u16) << 8);
    assert(m == c & 0xff && (c & 0xff) == lo as u16) by (bit_vector)
        requires
            hi == (c / 256) as u8,
            lo == (c % 256) as u8,
            m == c ^ ((hi as u16) << 8),
    ;
    reveal_with_fuel(crc16_shifts, 9);
    assert(crc16_shift(crc16_shift(crc16_shift(crc16_shift(crc16_shift(crc16_shift(crc16_shift(
        crc16_shift(m)))))))) == m << 8) by (bit_vector)
        requires
            m <= 0xff,
    ;
    let r = crc16(one);
    assert(r ^ ((lo as u16) << 8) == 0) by (bit_vector)
        requires
            r == m << 8,
            m == lo as u16,
    ;
    assert(crc16_shift(0) == 0) by (bit_vector);
}

} // verus!
