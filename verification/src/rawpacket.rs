//! The raw packet parser: a state machine that is fed one byte at a time and
//! yields the header and the payload of each intact frame.
//!
//! A frame on the wire is
//! `SOF HEADER ...data... CRC-LSB CRC-MSB SOF`,
//! with every byte between the two delimiters escaped where it must be.

use vstd::prelude::*;
use crate::crc::{Crc, CrcAccum, CRC_GOOD, CRC_INIT, crc_step};
use crate::traits::{PacketBuffer, ESC, ESC_FLIP, SOF, contents, trailing_crc};

verus! {

#[derive(PartialEq, Eq, Structural, Clone, Copy, Debug)]
pub enum EscapeState {
    Normal,
    Escaping,
}

#[derive(PartialEq, Eq, Structural, Clone, Copy, Debug)]
pub enum FrameState {
    New,
    Collecting,
}

#[derive(PartialEq, Eq, Structural, Clone, Copy, Debug)]
pub enum RawParseResult {
    RawPacketReceived(u8),
    AbortedPacket,
    PacketTooSmall,
    CrcError(CrcAccum),
    MoreDataNeeded,
}

/// The receive path as a value: the parser's own state together with the
/// valid bytes of the receive buffer.
#[verifier::ext_equal]
pub struct RawState {
    pub header: u8,
    pub crc: u16,
    pub escape: EscapeState,
    pub frame: FrameState,
    pub data: Seq<u8>,
}

/// The receive path of a parser that has seen nothing, with an empty buffer.
pub open spec fn raw_fresh() -> RawState {
    RawState {
        header: 0,
        crc: CRC_INIT,
        escape: EscapeState::Normal,
        frame: FrameState::New,
        data: Seq::empty(),
    }
}

/// What a byte that is neither a delimiter nor an escape does, `b` being the
/// byte after unescaping: it opens a frame as its header, or joins the
/// payload; a byte that the buffer of capacity `cap` cannot take resets the
/// receive path.
pub open spec fn raw_store(s: RawState, cap: nat, b: u8) -> RawState {
    if s.frame == FrameState::New {
        RawState {
            header: b,
            crc: crc_step(CRC_INIT, b),
            escape: EscapeState::Normal,
            frame: FrameState::Collecting,
            data: Seq::empty(),
        }
    } else if s.data.len() < cap {
        RawState { crc: crc_step(s.crc, b), escape: EscapeState::Normal, data: s.data.push(b), ..s }
    } else {
        RawState { crc: CRC_INIT, escape: EscapeState::Normal, data: Seq::empty(), ..s }
    }
}

/// What the closing delimiter of a frame does: the frame is too small, or
/// its CRC is stripped and checked.
pub open spec fn raw_close(s: RawState) -> (RawState, RawParseResult) {
    let closed = RawState { frame: FrameState::New, ..s };
    if s.data.len() < 2 {
        (closed, RawParseResult::PacketTooSmall)
    } else {
        let stripped = RawState { data: s.data.take(s.data.len() - 2), ..closed };
        if s.crc != CRC_GOOD {
            (stripped, RawParseResult::CrcError(trailing_crc(s.data)))
        } else {
            (stripped, RawParseResult::RawPacketReceived(s.header))
        }
    }
}

/// One step of the parser: the receive path after the byte, and what the
/// byte yields. `cap` is the capacity of the receive buffer.
pub open spec fn raw_step(s: RawState, cap: nat, byte: u8) -> (RawState, RawParseResult) {
    if s.escape == EscapeState::Escaping {
        if byte == SOF {
            (
                RawState {
                    crc: CRC_INIT,
                    escape: EscapeState::Normal,
                    frame: FrameState::New,
                    data: Seq::empty(),
                    ..s
                },
                RawParseResult::AbortedPacket,
            )
        } else {
            (raw_store(s, cap, byte ^ ESC_FLIP), RawParseResult::MoreDataNeeded)
        }
    } else if byte == SOF {
        if s.frame == FrameState::Collecting {
            raw_close(s)
        } else {
            (s, RawParseResult::MoreDataNeeded)
        }
    } else if byte == ESC {
        (RawState { escape: EscapeState::Escaping, ..s }, RawParseResult::MoreDataNeeded)
    } else {
        (raw_store(s, cap, byte), RawParseResult::MoreDataNeeded)
    }
}

/// The receive path after the bytes, fed in order.
pub open spec fn raw_run(s: RawState, cap: nat, bytes: Seq<u8>) -> RawState
    decreases bytes.len(),
{
    if bytes.len() == 0 {
        s
    } else {
        raw_step(raw_run(s, cap, bytes.drop_last()), cap, bytes.last()).0
    }
}

/// What the last of the bytes yields, the bytes being fed in order.
pub open spec fn raw_last_result(s: RawState, cap: nat, bytes: Seq<u8>) -> RawParseResult
    recommends
        bytes.len() > 0,
{
    raw_step(raw_run(s, cap, bytes.drop_last()), cap, bytes.last()).1
}

/// Whether every one of the bytes, fed in order, yields `MoreDataNeeded`.
pub open spec fn raw_quiet(s: RawState, cap: nat, bytes: Seq<u8>) -> bool
    decreases bytes.len(),
{
    bytes.len() == 0 || (raw_quiet(s, cap, bytes.drop_last()) && raw_last_result(s, cap, bytes)
        == RawParseResult::MoreDataNeeded)
}

pub struct RawPacketParser {
    header: u8,
    crc: Crc,
    escape_state: EscapeState,
    frame_state: FrameState,
}

impl RawPacketParser {
    /// Header of the frame that is being, or was last, collected.
    pub closed spec fn spec_header(&self) -> u8 {
        self.header
    }

    /// Value of the CRC over what was collected.
    pub closed spec fn crc_value(&self) -> u16 {
        self.crc.value()
    }

    pub closed spec fn escape_state(&self) -> EscapeState {
        self.escape_state
    }

    pub closed spec fn frame_state(&self) -> FrameState {
        self.frame_state
    }

    /// The receive path that the parser forms with a buffer that holds `data`.
    pub open spec fn with(&self, data: Seq<u8>) -> RawState {
        RawState {
            header: self.spec_header(),
            crc: self.crc_value(),
            escape: self.escape_state(),
            frame: self.frame_state(),
            data,
        }
    }

    pub fn new() -> (r: Self)
        ensures
            r.with(Seq::empty()) == raw_fresh(),
    {
        RawPacketParser {
            header: 0,
            crc: Crc::new(),
            escape_state: EscapeState::Normal,
            frame_state: FrameState::New,
        }
    }

    /// The header, the escape state and the frame state, for a caller that
    /// wants to log them.
    pub fn dump(&self) -> (r: (u8, EscapeState, FrameState))
        ensures
            r == (self.spec_header(), self.escape_state(), self.frame_state()),
    {
        (self.header, self.escape_state, self.frame_state)
    }

    pub fn header(&self) -> (r: u8)
        ensures
            r == self.spec_header(),
    {
        self.header
    }

    /// Feeds a single byte into the parser. Once a complete packet has been
    /// parsed, `RawPacketReceived` is returned with its header; the payload
    /// is then the contents of `rx_data`, and stays so until the next call.
    pub fn parse_byte<B: PacketBuffer>(&mut self, byte: u8, rx_data: &mut B) -> (r:
        RawParseResult)
        ensures
            final(rx_data).storage().len() == old(rx_data).storage().len(),
            final(self).with(contents(final(rx_data))) == raw_step(
                old(self).with(contents(old(rx_data))),
                old(rx_data).storage().len(),
                byte,
            ).0,
            r == raw_step(
                old(self).with(contents(old(rx_data))),
                old(rx_data).storage().len(),
                byte,
            ).1,
    {
        let ghost before = old(self).with(contents(old(rx_data)));
        let ghost cap = old(rx_data).storage().len();
        let mut unescaped: u8 = byte;
        if self.escape_state == EscapeState::Escaping {
            self.escape_state = EscapeState::Normal;
            if byte == SOF {
                // ESC SOF is treated as an abort sequence
                self.frame_state = FrameState::New;
                self.reset();
                rx_data.reset();
                proof {
                    assert(self.with(contents(rx_data)) =~= raw_step(before, cap, byte).0);
                }
                return RawParseResult::AbortedPacket;
            }
            unescaped ^= ESC_FLIP;
        } else if byte == SOF {
            if self.frame_state == FrameState::Collecting {
                // We've got a raw frame.
                self.frame_state = FrameState::New;
                if rx_data.len() < 2 {
                    proof {
                        assert(self.with(contents(rx_data)) =~= raw_step(before, cap, byte).0);
                    }
                    return RawParseResult::PacketTooSmall;
                }
                let crc: u16 = rx_data.remove_crc();
                proof {
                    assert(self.with(contents(rx_data)) =~= raw_step(before, cap, byte).0);
                }
                if self.crc.crc() != CRC_GOOD {
                    return RawParseResult::CrcError(crc);
                }
                return RawParseResult::RawPacketReceived(self.header);
            }
            // Receiving a SOF while in the New state is a no-op
            proof {
                assert(self.with(contents(rx_data)) =~= raw_step(before, cap, byte).0);
            }
            return RawParseResult::MoreDataNeeded;
        } else if byte == ESC {
            self.escape_state = EscapeState::Escaping;
            proof {
                assert(self.with(contents(rx_data)) =~= raw_step(before, cap, byte).0);
            }
            return RawParseResult::MoreDataNeeded;
        }
        if self.frame_state == FrameState::New {
            // We're just starting a new frame. The first byte will be the
            // header and everything after that will be user bytes.
            self.reset();
            rx_data.reset();
            self.header = unescaped;
            self.frame_state = FrameState::Collecting;
            self.crc.accum(unescaped);
        } else {
            match rx_data.append(unescaped) {
                Ok(_) => {
                    self.crc.accum(unescaped);
                },
                Err(_) => {
                    // The payload was too big for the buffer: the SOF was
                    // corrupted, or the stream is bad. We just reset the
                    // receiver. Things will get resynchronized on the next
                    // valid frame.
                    self.reset();
                    rx_data.reset();
                },
            }
        }
        proof {
            assert(self.with(contents(rx_data)) =~= raw_step(before, cap, byte).0);
        }
        RawParseResult::MoreDataNeeded
    }

    /// Resets the CRC and leaves any escape. The frame state stays.
    pub fn reset(&mut self)
        ensures
            final(self).crc_value() == CRC_INIT,
            final(self).escape_state() == EscapeState::Normal,
            final(self).frame_state() == old(self).frame_state(),
            final(self).spec_header() == old(self).spec_header(),
    {
        self.crc.reset();
        self.escape_state = EscapeState::Normal;
    }
}

} // verus!
