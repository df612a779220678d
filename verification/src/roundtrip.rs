//! What holds of the raw packet parser on whole runs of bytes: a frame that
//! the codec wrote is read back as it was, whatever came before it.

use vstd::prelude::*;
use crate::crc::{
    CRC_GOOD, CRC_INIT, crc_fold, crc_trailer, lemma_crc_fold_single, lemma_crc_identity,
};
use crate::framing::{
    escape_byte, escape_bytes, frame_content, encode_frame, lemma_escape_bytes_single,
};
use crate::traits::{ESC, ESC_FLIP, SOF};
use crate::rawpacket::{
    EscapeState, FrameState, RawParseResult, RawState, raw_fresh, raw_store, raw_step, raw_run,
    raw_last_result, raw_quiet,
};

verus! {

/// The receive path right after an intact frame with this header and
/// payload has been closed.
pub open spec fn raw_delivered(header: u8, payload: Seq<u8>) -> RawState {
    RawState {
        header,
        crc: CRC_GOOD,
        escape: EscapeState::Normal,
        frame: FrameState::New,
        data: payload,
    }
}

/// A run of `n` delimiters.
pub open spec fn sof_run(n: nat) -> Seq<u8> {
    Seq::new(n, |i: int| SOF)
}

/// Feeding one byte is one step.
pub proof fn lemma_raw_run_single(s: RawState, cap: nat, b: u8)
    ensures
        raw_run(s, cap, seq![b]) == raw_step(s, cap, b).0,
        raw_last_result(s, cap, seq![b]) == raw_step(s, cap, b).1,
        raw_quiet(s, cap, seq![b]) == (raw_step(s, cap, b).1 == RawParseResult::MoreDataNeeded),
{
    assert(seq![b].drop_last() =~= Seq::<u8>::empty());
    reveal_with_fuel(raw_run, 2);
    reveal_with_fuel(raw_quiet, 2);
}

/// Feeding two runs of bytes one after the other is feeding their
/// concatenation.
pub proof fn lemma_raw_run_concat(s: RawState, cap: nat, a: Seq<u8>, b: Seq<u8>)
    ensures
        raw_run(s, cap, a + b) == raw_run(raw_run(s, cap, a), cap, b),
        raw_quiet(s, cap, a + b) == (raw_quiet(s, cap, a) && raw_quiet(
            raw_run(s, cap, a),
            cap,
            b,
        )),
        b.len() > 0 ==> raw_last_result(s, cap, a + b) == raw_last_result(
            raw_run(s, cap, a),
            cap,
            b,
        ),
    decreases b.len(),
{
    if b.len() == 0 {
        assert(a + b =~= a);
    } else {
        lemma_raw_run_concat(s, cap, a, b.drop_last());
        assert((a + b).drop_last() =~= a + b.drop_last());
        assert((a + b).last() == b.last());
    }
}

/// What travels for one byte stores that byte: fed to a parser that is not
/// inside an escape, it yields nothing and has the effect of `raw_store`.
pub proof fn lemma_escaped_byte_stores(s: RawState, cap: nat, b: u8)
    requires
        s.escape == EscapeState::Normal,
    ensures
        raw_run(s, cap, escape_byte(b)) == raw_store(s, cap, b),
        raw_quiet(s, cap, escape_byte(b)),
{
    if b == SOF || b == ESC {
        let flipped: u8 = b ^ ESC_FLIP;
        assert(flipped != 0x7e && (flipped ^ 0x20) == b) by (bit_vector)
            requires
                b == 0x7e || b == 0x7d,
                flipped == b ^ 0x20,
        ;
        let e = escape_byte(b);
        assert(e =~= seq![ESC] + seq![flipped]);
        lemma_raw_run_single(s, cap, ESC);
        let s1 = raw_step(s, cap, ESC).0;
        lemma_raw_run_single(s1, cap, flipped);
        lemma_raw_run_concat(s, cap, seq![ESC], seq![flipped]);
        assert(raw_store(s1, cap, b) =~= raw_store(s, cap, b));
    } else {
        lemma_raw_run_single(s, cap, b);
    }
}

/// What lies between the delimiters of a frame is collected as it was
/// before escaping: its first byte becomes the header, the rest the
/// contents of the buffer, and no byte of it yields anything.
pub proof fn lemma_content_collects(s: RawState, cap: nat, content: Seq<u8>)
    requires
        s.frame == FrameState::New,
        s.escape == EscapeState::Normal,
        content.len() >= 1,
        content.len() - 1 <= cap,
    ensures
        raw_run(s, cap, escape_bytes(content)) == (RawState {
            header: content[0],
            crc: crc_fold(CRC_INIT, content),
            escape: EscapeState::Normal,
            frame: FrameState::Collecting,
            data: content.skip(1),
        }),
        raw_quiet(s, cap, escape_bytes(content)),
    decreases content.len(),
{
    let goal = RawState {
        header: content[0],
        crc: crc_fold(CRC_INIT, content),
        escape: EscapeState::Normal,
        frame: FrameState::Collecting,
        data: content.skip(1),
    };
    if content.len() == 1 {
        assert(content =~= seq![content[0]]);
        lemma_escape_bytes_single(content[0]);
        lemma_escaped_byte_stores(s, cap, content[0]);
        lemma_crc_fold_single(CRC_INIT, content[0]);
        assert(raw_store(s, cap, content[0]) =~= goal);
    } else {
        let prefix = content.drop_last();
        let last = content.last();
        lemma_content_collects(s, cap, prefix);
        let s1 = raw_run(s, cap, escape_bytes(prefix));
        lemma_escaped_byte_stores(s1, cap, last);
        lemma_raw_run_concat(s, cap, escape_bytes(prefix), escape_byte(last));
        assert(prefix.skip(1).push(last) =~= content.skip(1));
        assert(raw_store(s1, cap, last) =~= goal);
    }
}

/// Frame round trip, and resynchronisation. Let a frame be encoded from any
/// header and any payload that, with its CRC, fits the receive buffer, and
/// let it be fed to a parser in any state whatever, with anything in its
/// buffer. Then the opening delimiter leaves the parser waiting for a
/// frame; no byte after it and before the closing delimiter yields
/// anything; and the closing delimiter yields `RawPacketReceived` with the
/// header, and leaves exactly the payload in the buffer.
pub proof fn lemma_frame_round_trip(s: RawState, cap: nat, header: u8, payload: Seq<u8>)
    requires
        payload.len() + 2 <= cap,
    ensures
        ({
            let enc = encode_frame(header, payload);
            let opened = raw_step(s, cap, SOF).0;
            let inner = escape_bytes(frame_content(header, payload));
            &&& enc == seq![SOF] + inner + seq![SOF]
            &&& opened.frame == FrameState::New
            &&& opened.escape == EscapeState::Normal
            &&& raw_quiet(opened, cap, inner)
            &&& raw_last_result(s, cap, enc) == RawParseResult::RawPacketReceived(header)
            &&& raw_run(s, cap, enc) == raw_delivered(header, payload)
            &&& raw_run(s, cap, enc).data == payload
        }),
{
    let enc = encode_frame(header, payload);
    let content = frame_content(header, payload);
    let inner = escape_bytes(content);
    let body = seq![header] + payload;
    let opened = raw_step(s, cap, SOF).0;
    lemma_raw_run_single(s, cap, SOF);
    lemma_content_collects(opened, cap, content);
    let collected = raw_run(opened, cap, inner);
    lemma_crc_identity(body);
    assert(content.skip(1) =~= payload + crc_trailer(crc_fold(CRC_INIT, body)));
    assert(collected.data.take(collected.data.len() - 2) =~= payload);
    lemma_raw_run_concat(s, cap, seq![SOF], inner);
    lemma_raw_run_single(collected, cap, SOF);
    lemma_raw_run_concat(s, cap, seq![SOF] + inner, seq![SOF]);
    assert(raw_step(collected, cap, SOF).0 =~= raw_delivered(header, payload));
}

/// Frame round trip from the start: a parser that has seen nothing, or is
/// waiting for a frame, reads an encoded frame back without yielding
/// anything before the closing delimiter.
pub proof fn lemma_frame_round_trip_quiet(s: RawState, cap: nat, header: u8, payload: Seq<u8>)
    requires
        s.frame == FrameState::New,
        s.escape == EscapeState::Normal,
        payload.len() + 2 <= cap,
    ensures
        ({
            let enc = encode_frame(header, payload);
            &&& raw_quiet(s, cap, enc.drop_last())
            &&& raw_last_result(s, cap, enc) == RawParseResult::RawPacketReceived(header)
            &&& raw_run(s, cap, enc) == raw_delivered(header, payload)
        }),
{
    let enc = encode_frame(header, payload);
    let inner = escape_bytes(frame_content(header, payload));
    lemma_frame_round_trip(s, cap, header, payload);
    lemma_raw_run_single(s, cap, SOF);
    lemma_raw_run_concat(s, cap, seq![SOF], inner);
    assert(enc.drop_last() =~= seq![SOF] + inner);
}

/// Resynchronisation: after arbitrary bytes, fed to a parser in any state,
/// an encoded frame yields `RawPacketReceived` with its header at its
/// closing delimiter, with its payload in the buffer, and yields nothing
/// between its two delimiters.
pub proof fn lemma_resync(
    s: RawState,
    cap: nat,
    noise: Seq<u8>,
    header: u8,
    payload: Seq<u8>,
)
    requires
        payload.len() + 2 <= cap,
    ensures
        ({
            let enc = encode_frame(header, payload);
            let inner = escape_bytes(frame_content(header, payload));
            &&& raw_quiet(raw_run(s, cap, noise + seq![SOF]), cap, inner)
            &&& raw_last_result(s, cap, noise + enc) == RawParseResult::RawPacketReceived(header)
            &&& raw_run(s, cap, noise + enc) == raw_delivered(header, payload)
        }),
{
    let enc = encode_frame(header, payload);
    let after = raw_run(s, cap, noise);
    lemma_frame_round_trip(after, cap, header, payload);
    lemma_raw_run_concat(s, cap, noise, enc);
    lemma_raw_run_concat(s, cap, noise, seq![SOF]);
    lemma_raw_run_single(after, cap, SOF);
}

/// Idempotent delimiter: any number of delimiters, fed to a parser that is
/// waiting for a frame, yield nothing and change nothing.
pub proof fn lemma_sof_idempotent(s: RawState, cap: nat, n: nat)
    requires
        s.frame == FrameState::New,
        s.escape == EscapeState::Normal,
    ensures
        raw_run(s, cap, sof_run(n)) == s,
        raw_quiet(s, cap, sof_run(n)),
    decreases n,
{
    if n > 0 {
        lemma_sof_idempotent(s, cap, (n - 1) as nat);
        assert(sof_run(n).drop_last() =~= sof_run((n - 1) as nat));
    }
}

/// Abort atomicity: an escape followed by a delimiter, fed to a parser that
/// is not inside an escape, yields `AbortedPacket` and leaves the parser
/// waiting for a frame with an empty buffer; an encoded frame that follows
/// is then read exactly as a parser that has seen nothing reads it.
pub proof fn lemma_abort_atomic(s: RawState, cap: nat, header: u8, payload: Seq<u8>)
    requires
        s.escape == EscapeState::Normal,
        payload.len() + 2 <= cap,
    ensures
        ({
            let enc = encode_frame(header, payload);
            let aborted = raw_run(s, cap, seq![ESC, SOF]);
            &&& raw_step(s, cap, ESC).1 == RawParseResult::MoreDataNeeded
            &&& raw_last_result(s, cap, seq![ESC, SOF]) == RawParseResult::AbortedPacket
            &&& aborted == (RawState { header: s.header, ..raw_fresh() })
            &&& raw_quiet(aborted, cap, enc.drop_last())
            &&& raw_quiet(raw_fresh(), cap, enc.drop_last())
            &&& raw_last_result(aborted, cap, enc) == raw_last_result(raw_fresh(), cap, enc)
            &&& raw_last_result(aborted, cap, enc) == RawParseResult::RawPacketReceived(header)
            &&& raw_run(aborted, cap, enc) == raw_run(raw_fresh(), cap, enc)
            &&& raw_run(aborted, cap, enc) == raw_delivered(header, payload)
        }),
{
    let pair = seq![ESC, SOF];
    assert(pair =~= seq![ESC] + seq![SOF]);
    assert(pair.drop_last() =~= seq![ESC]);
    lemma_raw_run_single(s, cap, ESC);
    let s1 = raw_step(s, cap, ESC).0;
    lemma_raw_run_single(s1, cap, SOF);
    lemma_raw_run_concat(s, cap, seq![ESC], seq![SOF]);
    let aborted = raw_run(s, cap, pair);
    assert(aborted =~= (RawState { header: s.header, ..raw_fresh() }));
    lemma_frame_round_trip_quiet(aborted, cap, header, payload);
    lemma_frame_round_trip_quiet(raw_fresh(), cap, header, payload);
}

} // verus!
