//! The packet classifier: what the header byte of a validated frame says.

use vstd::prelude::*;
use crate::crc::CrcAccum;
use crate::rawpacket::{RawPacketParser, RawParseResult, raw_step, raw_fresh};
use crate::traits::{PacketBuffer, contents};

verus! {

/// The top two bits of the header hold the frame type.
pub const FRAME_TYPE_MASK: u8 = 0xc0;

/// The low six bits of the header hold the sequence number.
pub const SEQ_MASK: u8 = 0x3f;

/// FrameType makes up the top 2 bits of the header.
#[derive(Debug, Clone, Copy, PartialEq, Eq, Structural)]
pub enum FrameType {
    USR,
    RTX,
    NAK,
    SYN,
}

impl FrameType {
    /// The frame type as it stands in the header.
    pub open spec fn spec_value(self) -> u8 {
        match self {
            FrameType::USR => 0x00,
            FrameType::RTX => 0x40,
            FrameType::NAK => 0x80,
            FrameType::SYN => 0xc0,
        }
    }

    pub fn value(self) -> (r: u8)
        ensures
            r == self.spec_value(),
    {
        match self {
            FrameType::USR => 0x00,
            FrameType::RTX => 0x40,
            FrameType::NAK => 0x80,
            FrameType::SYN => 0xc0,
        }
    }

    pub fn from_u8(value: u8) -> (r: Option<FrameType>)
        ensures
            r is Some <==> (value == 0x00 || value == 0x40 || value == 0x80 || value == 0xc0),
            r is Some ==> r->0.spec_value() == value,
    {
        if value == 0x00 {
            Some(FrameType::USR)
        } else if value == 0x40 {
            Some(FrameType::RTX)
        } else if value == 0x80 {
            Some(FrameType::NAK)
        } else if value == 0xc0 {
            Some(FrameType::SYN)
        } else {
            None
        }
    }
}

/// When the frame type is SYN, the sequence number (lower 6 bits) holds one
/// of these.
#[derive(Debug, Clone, Copy, PartialEq, Eq, Structural)]
pub enum SeqSyn {
    SYN0,
    SYN1,
    SYN2,
    DIS,
}

impl SeqSyn {
    /// The kind as it stands in the low bits of the header.
    pub open spec fn spec_value(self) -> u8 {
        match self {
            SeqSyn::SYN0 => 0,
            SeqSyn::SYN1 => 1,
            SeqSyn::SYN2 => 2,
            SeqSyn::DIS => 3,
        }
    }

    pub fn value(self) -> (r: u8)
        ensures
            r == self.spec_value(),
    {
        match self {
            SeqSyn::SYN0 => 0,
            SeqSyn::SYN1 => 1,
            SeqSyn::SYN2 => 2,
            SeqSyn::DIS => 3,
        }
    }

    pub fn from_u8(value: u8) -> (r: Option<SeqSyn>)
        ensures
            r is Some <==> value <= 3,
            r is Some ==> r->0.spec_value() == value,
    {
        if value == 0 {
            Some(SeqSyn::SYN0)
        } else if value == 1 {
            Some(SeqSyn::SYN1)
        } else if value == 2 {
            Some(SeqSyn::SYN2)
        } else if value == 3 {
            Some(SeqSyn::DIS)
        } else {
            None
        }
    }
}

#[derive(Debug, Clone, Copy, PartialEq, Eq, Structural)]
pub enum PacketType {
    USR { seq: u8 },
    RTX { seq: u8 },
    NAK { seq: u8 },
    Syn0,
    Syn1,
    Syn2,
    Disconnect,
}

#[derive(Debug, Clone, Copy, PartialEq, Eq, Structural)]
pub enum PacketTypeResult {
    PacketReceived(PacketType),
    AbortedPacket,
    PacketTooSmall,
    CrcError(CrcAccum),
    MoreDataNeeded,
}

/// The frame type that the top two bits of the header spell.
pub open spec fn frame_type_of(header: u8) -> FrameType {
    let t: u8 = header & FRAME_TYPE_MASK;
    if t == 0x00 {
        FrameType::USR
    } else if t == 0x40 {
        FrameType::RTX
    } else if t == 0x80 {
        FrameType::NAK
    } else {
        FrameType::SYN
    }
}

/// The sequence number that the low six bits of the header spell.
pub open spec fn frame_seq_of(header: u8) -> u8 {
    header & SEQ_MASK
}

/// The packet that a header announces, if any: a SYN frame whose low bits
/// name no kind announces none.
pub open spec fn classify(header: u8) -> Option<PacketType> {
    let seq = frame_seq_of(header);
    match frame_type_of(header) {
        FrameType::USR => Some(PacketType::USR { seq }),
        FrameType::RTX => Some(PacketType::RTX { seq }),
        FrameType::NAK => Some(PacketType::NAK { seq }),
        FrameType::SYN => if seq == 0 {
            Some(PacketType::Syn0)
        } else if seq == 1 {
            Some(PacketType::Syn1)
        } else if seq == 2 {
            Some(PacketType::Syn2)
        } else if seq == 3 {
            Some(PacketType::Disconnect)
        } else {
            None
        },
    }
}

/// The header under which a packet travels.
pub open spec fn header_of(packet: PacketType) -> u8 {
    match packet {
        PacketType::USR { seq } => 0x00u8 | (seq & SEQ_MASK),
        PacketType::RTX { seq } => 0x40u8 | (seq & SEQ_MASK),
        PacketType::NAK { seq } => 0x80u8 | (seq & SEQ_MASK),
        PacketType::Syn0 => 0xc0,
        PacketType::Syn1 => 0xc1,
        PacketType::Syn2 => 0xc2,
        PacketType::Disconnect => 0xc3,
    }
}

/// What the classifier makes of a result of the raw parser.
pub open spec fn packet_result(raw: RawParseResult) -> PacketTypeResult {
    match raw {
        RawParseResult::RawPacketReceived(header) => match classify(header) {
            Some(packet) => PacketTypeResult::PacketReceived(packet),
            None => PacketTypeResult::MoreDataNeeded,
        },
        RawParseResult::AbortedPacket => PacketTypeResult::AbortedPacket,
        RawParseResult::PacketTooSmall => PacketTypeResult::PacketTooSmall,
        RawParseResult::CrcError(rcvd_crc) => PacketTypeResult::CrcError(rcvd_crc),
        RawParseResult::MoreDataNeeded => PacketTypeResult::MoreDataNeeded,
    }
}

/// The sequence number of a header is below 64, and a header put together
/// from a frame type and such a number is taken apart again as it was.
pub proof fn lemma_header_parts(header: u8)
    ensures
        frame_seq_of(header) <= 63,
        frame_type_of(header).spec_value() | frame_seq_of(header) == header,
        frame_type_of(header).spec_value() == header & FRAME_TYPE_MASK,
{
    assert(header & 0x3f <= 63) by (bit_vector);
    let t: u8 = header & 0xc0;
    assert(t == 0x00 || t == 0x40 || t == 0x80 || t == 0xc0) by (bit_vector)
        requires
            t == header & 0xc0,
    ;
    assert((header & 0xc0) | (header & 0x3f) == header) by (bit_vector);
}

/// Classifying the header of a packet whose sequence number is below 64
/// gives the packet back.
pub proof fn lemma_classify_header_of(packet: PacketType)
    requires
        match packet {
            PacketType::USR { seq } => seq <= 63,
            PacketType::RTX { seq } => seq <= 63,
            PacketType::NAK { seq } => seq <= 63,
            _ => true,
        },
    ensures
        classify(header_of(packet)) == Some(packet),
{
    assert forall|seq: u8| seq <= 63 implies (#[trigger] (seq & 0x3f)) == seq && (0x00u8 | seq)
        & 0xc0 == 0x00 && (0x40u8 | seq) & 0xc0 == 0x40 && (0x80u8 | seq) & 0xc0 == 0x80 && (0x00u8
        | seq) & 0x3f == seq && (0x40u8 | seq) & 0x3f == seq && (0x80u8 | seq) & 0x3f == seq by {
        assert(seq <= 63 ==> (seq & 0x3f) == seq && (0x00u8 | seq) & 0xc0 == 0x00 && (0x40u8 | seq)
            & 0xc0 == 0x40 && (0x80u8 | seq) & 0xc0 == 0x80 && (0x00u8 | seq) & 0x3f == seq && (
        0x40u8 | seq) & 0x3f == seq && (0x80u8 | seq) & 0x3f == seq) by (bit_vector);
    }
    assert(0xc0u8 & 0xc0 == 0xc0 && 0xc1u8 & 0xc0 == 0xc0 && 0xc2u8 & 0xc0 == 0xc0 && 0xc3u8 & 0xc0
        == 0xc0) by (bit_vector);
    assert(0xc0u8 & 0x3f == 0 && 0xc1u8 & 0x3f == 1 && 0xc2u8 & 0x3f == 2 && 0xc3u8 & 0x3f == 3)
        by (bit_vector);
    match packet {
        PacketType::USR { seq } => {
            assert(seq & 0x3f == seq);
        },
        PacketType::RTX { seq } => {
            assert(seq & 0x3f == seq);
        },
        PacketType::NAK { seq } => {
            assert(seq & 0x3f == seq);
        },
        _ => {},
    }
}

pub struct PacketParser {
    raw_parser: RawPacketParser,
}

impl PacketParser {
    /// The raw parser inside.
    pub closed spec fn raw(&self) -> RawPacketParser {
        self.raw_parser
    }

    pub fn new() -> (r: Self)
        ensures
            r.raw().with(Seq::empty()) == raw_fresh(),
    {
        Self { raw_parser: RawPacketParser::new() }
    }

    pub fn get_frame_type(&self, header: u8) -> (r: FrameType)
        ensures
            r == frame_type_of(header),
    {
        proof {
            lemma_header_parts(header);
        }
        if let Some(frame_type) = FrameType::from_u8(header & FRAME_TYPE_MASK) {
            frame_type
        } else {
            // FrameType covers all of the bit patterns that FRAME_TYPE_MASK leaves.
            FrameType::NAK
        }
    }

    pub fn get_frame_seq(&self, header: u8) -> (r: u8)
        ensures
            r == frame_seq_of(header),
            r <= 63,
    {
        proof {
            lemma_header_parts(header);
        }
        header & SEQ_MASK
    }

    /// Feeds a single byte into the parser, and classifies the header of a
    /// frame that the byte completes.
    pub fn parse_byte<B: PacketBuffer>(&mut self, byte: u8, rx_data: &mut B) -> (r:
        PacketTypeResult)
        ensures
            final(rx_data).storage().len() == old(rx_data).storage().len(),
            final(self).raw().with(contents(final(rx_data))) == raw_step(
                old(self).raw().with(contents(old(rx_data))),
                old(rx_data).storage().len(),
                byte,
            ).0,
            r == packet_result(
                raw_step(
                    old(self).raw().with(contents(old(rx_data))),
                    old(rx_data).storage().len(),
                    byte,
                ).1,
            ),
    {
        let parse_result = self.raw_parser.parse_byte(byte, rx_data);
        match parse_result {
            RawParseResult::RawPacketReceived(header) => {
                let frame_type = self.get_frame_type(header);
                let seq: u8 = self.get_frame_seq(header);
                match frame_type {
                    FrameType::USR => {
                        return PacketTypeResult::PacketReceived(PacketType::USR { seq });
                    },
                    FrameType::RTX => {
                        return PacketTypeResult::PacketReceived(PacketType::RTX { seq });
                    },
                    FrameType::NAK => {
                        return PacketTypeResult::PacketReceived(PacketType::NAK { seq });
                    },
                    FrameType::SYN => {
                        if let Some(seq_syn) = SeqSyn::from_u8(seq) {
                            return match seq_syn {
                                SeqSyn::SYN0 => PacketTypeResult::PacketReceived(PacketType::Syn0),
                                SeqSyn::SYN1 => PacketTypeResult::PacketReceived(PacketType::Syn1),
                                SeqSyn::SYN2 => PacketTypeResult::PacketReceived(PacketType::Syn2),
                                SeqSyn::DIS => PacketTypeResult::PacketReceived(
                                    PacketType::Disconnect,
                                ),
                            };
                        }
                        return PacketTypeResult::MoreDataNeeded;
                    },
                }
            },
            RawParseResult::AbortedPacket => PacketTypeResult::AbortedPacket,
            RawParseResult::PacketTooSmall => PacketTypeResult::PacketTooSmall,
            RawParseResult::CrcError(rcvd_crc) => PacketTypeResult::CrcError(rcvd_crc),
            RawParseResult::MoreDataNeeded => PacketTypeResult::MoreDataNeeded,
        }
    }

    /// Resets the raw parser: its CRC, and any escape.
    pub fn reset(&mut self)
        ensures
            final(self).raw().crc_value() == crate::crc::CRC_INIT,
            final(self).raw().escape_state() == crate::rawpacket::EscapeState::Normal,
            final(self).raw().frame_state() == old(self).raw().frame_state(),
            final(self).raw().spec_header() == old(self).raw().spec_header(),
    {
        self.raw_parser.reset();
    }
}

} // verus!
