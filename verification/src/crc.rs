//! Streaming CRC-16 accumulator used to protect every frame on the link.

use vstd::prelude::*;

verus! {

pub type CrcAccum = u16;

/// Value of the accumulator before any byte has been folded in.
pub const CRC_INIT: CrcAccum = 0xffff;

/// Value of the accumulator after an intact frame, its transmitted CRC
/// included, has been folded in.
pub const CRC_GOOD: CrcAccum = 0xf0b8;

/// One step of the recurrence: the accumulator `v` after the byte `b`.
pub open spec fn crc_step(v: u16, b: u8) -> u16 {
    let t: u8 = b ^ ((v & 0xff) as u8);
    let t: u8 = t ^ (t << 4);
    let w: u16 = t as u16;
    ((w << 8) | ((v >> 8) & 0x00ff)) ^ (w >> 4) ^ (w << 3)
}

/// The accumulator `v` after the bytes `bs`, folded in order.
pub open spec fn crc_fold(v: u16, bs: Seq<u8>) -> u16
    decreases bs.len(),
{
    if bs.len() == 0 {
        v
    } else {
        crc_step(crc_fold(v, bs.drop_last()), bs.last())
    }
}

/// Low byte of the CRC that is transmitted for the accumulator `v`.
pub open spec fn crc_lsb(v: u16) -> u8 {
    (!v & 0x00ff) as u8
}

/// High byte of the CRC that is transmitted for the accumulator `v`.
pub open spec fn crc_msb(v: u16) -> u8 {
    ((!v >> 8) & 0x00ff) as u8
}

/// The two CRC bytes in the order in which they travel: low byte first.
pub open spec fn crc_trailer(v: u16) -> Seq<u8> {
    seq![crc_lsb(v), crc_msb(v)]
}

/// Folding the transmitted CRC of any accumulator into that accumulator
/// gives `CRC_GOOD`.
pub proof fn lemma_crc_trailer_good(v: u16)
    ensures
        crc_step(crc_step(v, crc_lsb(v)), crc_msb(v)) == CRC_GOOD,
        crc_fold(v, crc_trailer(v)) == CRC_GOOD,
{
    assert(crc_step(crc_step(v, crc_lsb(v)), crc_msb(v)) == 0xf0b8u16) by (bit_vector);
    let t = crc_trailer(v);
    assert(t.drop_last() =~= seq![crc_lsb(v)]);
    assert(t.drop_last().drop_last() =~= Seq::<u8>::empty());
    reveal_with_fuel(crc_fold, 3);
}

/// Folding one byte is one step.
pub proof fn lemma_crc_fold_single(v: u16, b: u8)
    ensures
        crc_fold(v, seq![b]) == crc_step(v, b),
{
    assert(seq![b].drop_last() =~= Seq::<u8>::empty());
    reveal_with_fuel(crc_fold, 2);
}

/// Folding is compatible with concatenation.
pub proof fn lemma_crc_fold_concat(v: u16, a: Seq<u8>, b: Seq<u8>)
    ensures
        crc_fold(v, a + b) == crc_fold(crc_fold(v, a), b),
    decreases b.len(),
{
    if b.len() == 0 {
        assert(a + b =~= a);
    } else {
        lemma_crc_fold_concat(v, a, b.drop_last());
        assert((a + b).drop_last() =~= a + b.drop_last());
    }
}

/// The CRC identity: for every byte sequence, a fresh accumulator that has
/// taken the bytes and then its own transmitted CRC holds `CRC_GOOD`.
pub proof fn lemma_crc_identity(bs: Seq<u8>)
    ensures
        crc_fold(CRC_INIT, bs + crc_trailer(crc_fold(CRC_INIT, bs))) == CRC_GOOD,
{
    let v = crc_fold(CRC_INIT, bs);
    lemma_crc_fold_concat(CRC_INIT, bs, crc_trailer(v));
    lemma_crc_trailer_good(v);
}

#[derive(Debug)]
pub struct Crc {
    val: CrcAccum,
}

impl Default for Crc {
    fn default() -> (r: Self)
        ensures
            r.value() == CRC_INIT,
    {
        Self { val: CRC_INIT }
    }
}

impl Crc {
    /// The current value of the accumulator.
    pub closed spec fn value(&self) -> u16 {
        self.val
    }

    pub fn new() -> (r: Self)
        ensures
            r.value() == CRC_INIT,
    {
        Self { val: CRC_INIT }
    }

    /// Folds one byte into the accumulator.
    pub fn accum(&mut self, byte: u8)
        ensures
            final(self).value() == crc_step(old(self).value(), byte),
    {
        let byte: u8 = byte ^ ((self.val & 0xff) as u8);
        let byte: u8 = byte ^ (byte << 4);
        let byte16: u16 = byte as u16;
        self.val = ((byte16 << 8) | ((self.val >> 8) & 0x00ff)) ^ (byte16 >> 4) ^ (byte16 << 3);
    }

    /// Folds the bytes into the accumulator, in order, and returns its new value.
    pub fn accum_bytes(&mut self, bytes: &[u8]) -> (r: CrcAccum)
        ensures
            final(self).value() == crc_fold(old(self).value(), bytes@),
            r == final(self).value(),
    {
        let mut i: usize = 0;
        while i < bytes.len()
            invariant
                i <= bytes.len(),
                self.value() == crc_fold(old(self).value(), bytes@.take(i as int)),
            decreases bytes.len() - i,
        {
            self.accum(bytes[i]);
            proof {
                assert(bytes@.take(i + 1).drop_last() =~= bytes@.take(i as int));
            }
            i += 1;
        }
        proof {
            assert(bytes@.take(i as int) =~= bytes@);
        }
        self.val
    }

    /// Folds the accumulator's own transmitted CRC into it, low byte first.
    /// The result is always `CRC_GOOD`.
    pub fn accum_crc(&mut self) -> (r: CrcAccum)
        ensures
            final(self).value() == crc_fold(old(self).value(), crc_trailer(old(self).value())),
            final(self).value() == CRC_GOOD,
            r == CRC_GOOD,
    {
        let crc: u16 = !self.val;
        self.accum((crc & 0xff) as u8);
        self.accum(((crc >> 8) & 0xff) as u8);
        proof {
            lemma_crc_trailer_good(old(self).value());
        }
        self.val
    }

    pub fn reset(&mut self)
        ensures
            final(self).value() == CRC_INIT,
    {
        self.val = CRC_INIT;
    }

    pub fn crc(&self) -> (r: CrcAccum)
        ensures
            r == self.value(),
    {
        self.val
    }

    /// Low byte of the CRC to transmit: the low byte of the complement.
    pub fn lsb(&self) -> (r: u8)
        ensures
            r == crc_lsb(self.value()),
    {
        (!self.val & 0x00ff) as u8
    }

    /// High byte of the CRC to transmit: the high byte of the complement.
    pub fn msb(&self) -> (r: u8)
        ensures
            r == crc_msb(self.value()),
    {
        ((!self.val >> 8) & 0x00ff) as u8
    }
}

} // verus!
