//! The framing codec: how a header and a payload travel between two
//! delimiters, with a CRC behind them and every byte escaped where it must
//! be.

use vstd::prelude::*;
use crate::crc::{CRC_INIT, crc_fold, crc_trailer};
use crate::traits::{ESC, ESC_FLIP, SOF};

verus! {

/// Whether the byte cannot travel as it is.
pub open spec fn needs_escape(b: u8) -> bool {
    b == SOF || b == ESC
}

/// The bytes that travel for one byte of a frame.
pub open spec fn escape_byte(b: u8) -> Seq<u8> {
    if needs_escape(b) {
        seq![ESC, b ^ ESC_FLIP]
    } else {
        seq![b]
    }
}

/// The bytes that travel for a run of bytes of a frame.
pub open spec fn escape_bytes(bs: Seq<u8>) -> Seq<u8>
    decreases bs.len(),
{
    if bs.len() == 0 {
        Seq::empty()
    } else {
        escape_bytes(bs.drop_last()) + escape_byte(bs.last())
    }
}

/// What lies between the two delimiters of a frame before escaping: the
/// header, the payload, and the CRC of both, low byte first.
pub open spec fn frame_content(header: u8, payload: Seq<u8>) -> Seq<u8> {
    let body = seq![header] + payload;
    body + crc_trailer(crc_fold(CRC_INIT, body))
}

/// The frame as it travels.
pub open spec fn encode_frame(header: u8, payload: Seq<u8>) -> Seq<u8> {
    seq![SOF] + escape_bytes(frame_content(header, payload)) + seq![SOF]
}

/// No byte is `SOF`, and every `ESC` is followed by the flipped form of
/// `SOF` or `ESC`.
pub open spec fn well_escaped(s: Seq<u8>) -> bool {
    &&& forall|i: int| 0 <= i < s.len() ==> s[i] != SOF
    &&& forall|i: int|
        0 <= i < s.len() && s[i] == ESC ==> i + 1 < s.len() && (#[trigger] s[i + 1] == 0x5e
            || s[i + 1] == 0x5d)
}

pub proof fn lemma_escape_bytes_concat(a: Seq<u8>, b: Seq<u8>)
    ensures
        escape_bytes(a + b) == escape_bytes(a) + escape_bytes(b),
    decreases b.len(),
{
    if b.len() == 0 {
        assert(a + b =~= a);
        assert(escape_bytes(a) + escape_bytes(b) =~= escape_bytes(a));
    } else {
        lemma_escape_bytes_concat(a, b.drop_last());
        assert((a + b).drop_last() =~= a + b.drop_last());
        assert(escape_bytes(a) + (escape_bytes(b.drop_last()) + escape_byte(b.last()))
            =~= (escape_bytes(a) + escape_bytes(b.drop_last())) + escape_byte(b.last()));
    }
}

pub proof fn lemma_escape_bytes_single(b: u8)
    ensures
        escape_bytes(seq![b]) == escape_byte(b),
{
    let s = seq![b];
    assert(s.drop_last() =~= Seq::<u8>::empty());
    reveal_with_fuel(escape_bytes, 2);
    assert(Seq::<u8>::empty() + escape_byte(b) =~= escape_byte(b));
}

/// Escaped bytes are free of `SOF`, and hold `ESC` only at the head of a pair.
pub proof fn lemma_escape_bytes_well_escaped(bs: Seq<u8>)
    ensures
        well_escaped(escape_bytes(bs)),
    decreases bs.len(),
{
    if bs.len() > 0 {
        lemma_escape_bytes_well_escaped(bs.drop_last());
        let a = escape_bytes(bs.drop_last());
        let b = bs.last();
        let e = escape_byte(b);
        let s = a + e;
        assert(0x7eu8 ^ 0x20u8 == 0x5eu8) by (bit_vector);
        assert(0x7du8 ^ 0x20u8 == 0x5du8) by (bit_vector);
        assert forall|i: int| 0 <= i < s.len() implies s[i] != SOF by {
            if i < a.len() {
                assert(s[i] == a[i]);
            } else {
                assert(s[i] == e[i - a.len()]);
            }
        }
        assert forall|i: int| 0 <= i < s.len() && s[i] == ESC implies i + 1 < s.len() && (
        #[trigger] s[i + 1] == 0x5e || s[i + 1] == 0x5d) by {
            if i < a.len() {
                assert(s[i] == a[i]);
                assert(a[i + 1] == 0x5e || a[i + 1] == 0x5d);
                assert(s[i + 1] == a[i + 1]);
            } else {
                assert(s[i] == e[i - a.len()]);
                assert(s[i + 1] == e[i + 1 - a.len()]);
            }
        }
    }
}

/// Escape neutrality: an encoded frame begins and ends with `SOF`, and what
/// lies between holds no `SOF` and no `ESC` but at the head of an escape pair.
pub proof fn lemma_frame_escape_neutral(header: u8, payload: Seq<u8>)
    ensures
        ({
            let enc = encode_frame(header, payload);
            &&& enc.len() >= 5
            &&& enc[0] == SOF
            &&& enc[enc.len() - 1] == SOF
            &&& enc.subrange(1, enc.len() - 1) == escape_bytes(frame_content(header, payload))
            &&& well_escaped(enc.subrange(1, enc.len() - 1))
        }),
{
    let content = frame_content(header, payload);
    let enc = encode_frame(header, payload);
    lemma_escape_bytes_well_escaped(content);
    lemma_escape_bytes_len(content);
    assert(enc.subrange(1, enc.len() - 1) =~= escape_bytes(content));
}

/// Escaping never shortens a run of bytes, and at most doubles it.
pub proof fn lemma_escape_bytes_len(bs: Seq<u8>)
    ensures
        bs.len() <= escape_bytes(bs).len() <= 2 * bs.len(),
    decreases bs.len(),
{
    if bs.len() > 0 {
        lemma_escape_bytes_len(bs.drop_last());
    }
}

} // verus!
