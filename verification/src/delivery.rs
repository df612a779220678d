//! What holds of one side of a link on whole frames: a frame on the wire is
//! reacted to as the packet that its header announces.

use vstd::prelude::*;
use crate::packet::{FrameType, PacketType, SeqSyn, header_of, lemma_classify_header_of};
use crate::rawpacket::{EscapeState, FrameState, RawParseResult, raw_step, raw_run, raw_quiet};
use crate::roundtrip::{raw_delivered, lemma_frame_round_trip_quiet};
use crate::framing::encode_frame;
use crate::{
    ConnectState, LinkModel, LinkState, ParseResult, SEQ_INIT, control_frame, control_header,
    link_step, react,
};

verus! {

/// A side of a link after the bytes, fed in order.
pub open spec fn link_run(m: LinkModel, cap: nat, bytes: Seq<u8>) -> LinkModel
    decreases bytes.len(),
{
    if bytes.len() == 0 {
        m
    } else {
        link_step(link_run(m, cap, bytes.drop_last()), cap, bytes.last()).0
    }
}

/// What the last of the bytes yields, the bytes being fed in order.
pub open spec fn link_last_result(m: LinkModel, cap: nat, bytes: Seq<u8>) -> ParseResult
    recommends
        bytes.len() > 0,
{
    link_step(link_run(m, cap, bytes.drop_last()), cap, bytes.last()).1
}

/// Whether the bytes, fed in order, all yield `MoreDataNeeded` and leave the
/// link, its history and what it has written as they were.
pub open spec fn link_quiet(m: LinkModel, cap: nat, bytes: Seq<u8>) -> bool
    decreases bytes.len(),
{
    bytes.len() == 0 || (link_quiet(m, cap, bytes.drop_last()) && link_last_result(m, cap, bytes)
        == ParseResult::MoreDataNeeded && link_run(m, cap, bytes) == (LinkModel {
        raw: link_run(m, cap, bytes).raw,
        ..m
    }))
}

/// Whether the sequence number that a packet carries, if it carries one, is
/// below 64.
pub open spec fn seq_in_range(packet: PacketType) -> bool {
    match packet {
        PacketType::USR { seq } => seq < 64,
        PacketType::RTX { seq } => seq < 64,
        PacketType::NAK { seq } => seq < 64,
        _ => true,
    }
}

/// Bytes on which the raw parser yields nothing pass the link by: only the
/// receive path moves, as the raw parser moves it.
pub proof fn lemma_link_follows_raw(m: LinkModel, cap: nat, bytes: Seq<u8>)
    requires
        raw_quiet(m.raw, cap, bytes),
    ensures
        link_run(m, cap, bytes) == (LinkModel { raw: raw_run(m.raw, cap, bytes), ..m }),
        link_quiet(m, cap, bytes),
    decreases bytes.len(),
{
    if bytes.len() > 0 {
        lemma_link_follows_raw(m, cap, bytes.drop_last());
        let before = link_run(m, cap, bytes.drop_last());
        assert(before.sent + Seq::<u8>::empty() =~= before.sent);
        assert(link_run(m, cap, bytes) =~~= (LinkModel { raw: raw_run(m.raw, cap, bytes), ..m }));
    }
}

/// A frame on the wire is reacted to as its packet. Let a side of a link
/// wait for a frame, and let it be fed the frame of a packet with any
/// payload that, with its CRC, fits the receive buffer. Then nothing happens
/// before the closing delimiter; at the closing delimiter the payload lies
/// in the receive buffer, and the link, its history, what it writes and
/// what it reports are as `react` gives them for the packet.
pub proof fn lemma_frame_reacts(m: LinkModel, cap: nat, packet: PacketType, payload: Seq<u8>)
    requires
        m.raw.frame == FrameState::New,
        m.raw.escape == EscapeState::Normal,
        payload.len() + 2 <= cap,
        seq_in_range(packet),
    ensures
        ({
            let wire = encode_frame(header_of(packet), payload);
            let out = react(m.link, m.history, packet);
            &&& link_quiet(m, cap, wire.drop_last())
            &&& link_last_result(m, cap, wire) == out.result
            &&& link_run(m, cap, wire) == (LinkModel {
                raw: raw_delivered(header_of(packet), payload),
                link: out.link,
                history: out.history,
                sent: m.sent + out.sent,
            })
        }),
{
    let header = header_of(packet);
    let wire = encode_frame(header, payload);
    lemma_frame_round_trip_quiet(m.raw, cap, header, payload);
    lemma_link_follows_raw(m, cap, wire.drop_last());
    lemma_classify_header_of(packet);
    let before = link_run(m, cap, wire.drop_last());
    assert(raw_step(before.raw, cap, wire.last()).1 == RawParseResult::RawPacketReceived(header));
}

/// Delivery of a user packet. Let a connected side of a link wait for a
/// frame, and let it be fed the frame of a user packet under the number it
/// expects next, with any payload that, with its CRC, fits the receive
/// buffer. Then the closing delimiter, and no byte before it, yields
/// `UserPacket`; the receive buffer then holds exactly the payload; the
/// number expected next has moved on by one modulo 64; and nothing was
/// written in answer.
pub proof fn lemma_user_packet_delivered(m: LinkModel, cap: nat, payload: Seq<u8>)
    requires
        m.raw.frame == FrameState::New,
        m.raw.escape == EscapeState::Normal,
        m.link.connect == ConnectState::Connected,
        m.link.rx_seq < 64,
        payload.len() + 2 <= cap,
    ensures
        ({
            let wire = encode_frame(control_header(FrameType::USR, m.link.rx_seq), payload);
            let after = link_run(m, cap, wire);
            &&& link_quiet(m, cap, wire.drop_last())
            &&& link_last_result(m, cap, wire) == ParseResult::UserPacket
            &&& after.raw.data == payload
            &&& after.link == (LinkState { rx_seq: ((m.link.rx_seq + 1) % 64) as u8, ..m.link })
            &&& after.sent == m.sent
            &&& after.history == m.history
        }),
{
    let packet = PacketType::USR { seq: m.link.rx_seq };
    lemma_frame_reacts(m, cap, packet, payload);
    crate::lemma_rx_seq_monotonic(m.link, m.history, packet);
    assert(m.sent + Seq::<u8>::empty() =~= m.sent);
}

/// The three-way handshake. Let one side have opened the handshake, so
/// that it has sent SYN0 and waits in `SentSyn0`, and let the other side be
/// in any state. Then the other side answers SYN0 with SYN1 alone and
/// starts both its numbers and its history again; the first side answers
/// SYN1 with SYN2 alone and is connected; and the other side takes SYN2
/// without an answer and is connected.
pub proof fn lemma_handshake_connects(peer: LinkState, peer_history: Seq<Seq<u8>>)
    ensures
        ({
            let opener = LinkState {
                connect: ConnectState::SentSyn0,
                rx_seq: SEQ_INIT,
                tx_seq: SEQ_INIT,
            };
            let on_syn0 = react(peer, peer_history, PacketType::Syn0);
            let on_syn1 = react(opener, Seq::empty(), PacketType::Syn1);
            let on_syn2 = react(on_syn0.link, on_syn0.history, PacketType::Syn2);
            &&& on_syn0.sent == encode_frame(header_of(PacketType::Syn1), Seq::empty())
            &&& on_syn0.link == (LinkState {
                connect: ConnectState::SentSyn1,
                rx_seq: SEQ_INIT,
                tx_seq: SEQ_INIT,
            })
            &&& on_syn0.history == Seq::<Seq<u8>>::empty()
            &&& on_syn1.sent == encode_frame(header_of(PacketType::Syn2), Seq::empty())
            &&& on_syn1.link == (LinkState { connect: ConnectState::Connected, ..opener })
            &&& on_syn2.sent == Seq::<u8>::empty()
            &&& on_syn2.link == (LinkState { connect: ConnectState::Connected, ..on_syn0.link })
            &&& on_syn0.result == ParseResult::MoreDataNeeded
            &&& on_syn1.result == ParseResult::MoreDataNeeded
            &&& on_syn2.result == ParseResult::MoreDataNeeded
        }),
{
    assert(0xc0u8 | (1u8 & 0x3f) == 0xc1u8) by (bit_vector);
    assert(0xc0u8 | (2u8 & 0x3f) == 0xc2u8) by (bit_vector);
    let syn2 = control_frame(FrameType::SYN, SeqSyn::SYN2.spec_value());
    assert(syn2 + Seq::<u8>::empty() =~= syn2);
}

/// Framing errors are local. A byte that completes no frame, or completes
/// one that is aborted, too small or damaged, leaves the link, its history
/// and what it has written as they were; it is reported, and the receive
/// path alone moves.
pub proof fn lemma_framing_errors_are_local(m: LinkModel, cap: nat, byte: u8)
    requires
        !(raw_step(m.raw, cap, byte).1 is RawPacketReceived),
    ensures
        ({
            let raw = raw_step(m.raw, cap, byte);
            let after = link_step(m, cap, byte);
            &&& after.0 == (LinkModel { raw: raw.0, ..m })
            &&& after.1 == match raw.1 {
                RawParseResult::AbortedPacket => ParseResult::AbortedPacket,
                RawParseResult::PacketTooSmall => ParseResult::PacketTooSmall,
                RawParseResult::CrcError(rcvd_crc) => ParseResult::CrcError(rcvd_crc),
                _ => ParseResult::MoreDataNeeded,
            }
        }),
{
    assert(m.sent + Seq::<u8>::empty() =~= m.sent);
    assert(link_step(m, cap, byte).0 =~~= (LinkModel { raw: raw_step(m.raw, cap, byte).0, ..m }));
}

} // verus!
