//! A reliable, point-to-point link over an unreliable stream of bytes:
//! framing, CRC-protected integrity, a three-way handshake, user packets
//! delivered in order, and a history of what was sent for retransmission.
//!
//! The modules, leaves first:
//! - `crc`: the streaming CRC-16 and its identity;
//! - `framing`: the frame as it travels, with its escapes;
//! - `traits`: the receive buffer, the packet writer, the queue of what was
//!   sent and the storage that bundles them, as the caller supplies them;
//! - `storage`: those four on the heap;
//! - `rawpacket`: the byte-fed parser of frames, and `roundtrip`: what it
//!   does with whole frames;
//! - `packet`: the classifier of headers;
//! - `hexdump`: hex dumps of packet data, for diagnostics;
//! - the crate root: the link engine, and `delivery`: what it does with
//!   whole frames.
//!
//! A `Context` is one end of a link. It owns the state of the parser, of
//! the connection and of the two sequence numbers; the buffers belong to
//! the caller and are handed to each call.

use vstd::prelude::*;

pub mod crc;
pub mod hexdump;
pub mod traits;
pub mod framing;
pub mod rawpacket;
pub mod roundtrip;
pub mod packet;
pub mod storage;
pub mod delivery;

use crate::crc::{Crc, CrcAccum, CRC_INIT, crc_fold, crc_trailer, lemma_crc_fold_single};
use crate::packet::{
    FrameType, PacketParser, PacketType, PacketTypeResult, SeqSyn, SEQ_MASK, packet_result,
};
use crate::rawpacket::{raw_step, raw_fresh, RawState};
use crate::framing::{
    encode_frame, escape_bytes, lemma_escape_bytes_concat, lemma_escape_bytes_single,
};
use crate::traits::{
    PacketBuffer, PacketQueue, PacketWriter, Storage, SOF, contents, history, ring_slot, ring_next,
};

verus! {

/// Sequence number with which both directions start.
pub const SEQ_INIT: u8 = 0;

#[derive(PartialEq, Eq, Structural, Clone, Copy, Debug)]
pub enum ConnectState {
    Disconnected,
    SentSyn0,
    SentSyn1,
    Connected,
}

#[derive(Debug, PartialEq, Eq, Structural, Clone, Copy)]
pub enum ParseResult {
    UserPacket,
    AbortedPacket,
    PacketTooSmall,
    CrcError(CrcAccum),
    MoreDataNeeded,
}

/// The link as a value: the state of the connection, the sequence number
/// expected next, and the sequence number to send next.
pub struct LinkState {
    pub connect: ConnectState,
    pub rx_seq: u8,
    pub tx_seq: u8,
}

/// What the link does in answer to an event: its state afterwards, the bytes
/// it sends, the history afterwards (newest first), and what it reports.
#[verifier::ext_equal]
pub struct Outcome {
    pub link: LinkState,
    pub sent: Seq<u8>,
    pub history: Seq<Seq<u8>>,
    pub result: ParseResult,
}

/// The sequence number after `seq`, modulo 64.
pub open spec fn next_seq(seq: u8) -> u8 {
    (((seq & SEQ_MASK) + 1) % 64) as u8
}

/// The header of a control frame.
pub open spec fn control_header(frame_type: FrameType, seq: u8) -> u8 {
    frame_type.spec_value() | (seq & SEQ_MASK)
}

/// A frame without payload.
pub open spec fn control_frame(frame_type: FrameType, seq: u8) -> Seq<u8> {
    encode_frame(control_header(frame_type, seq), Seq::empty())
}

/// The sequence number of the packet that was sent `k` packets before the
/// one that will get `tx_seq`.
pub open spec fn seq_back(tx_seq: u8, k: nat) -> u8
    recommends
        tx_seq < 64,
        k <= 64,
{
    if tx_seq >= k {
        (tx_seq - k) as u8
    } else {
        (tx_seq + 64 - k) as u8
    }
}

/// How many packets were sent from the one numbered `seq` on, `tx_seq`
/// being the number of the next.
pub open spec fn pending_from(tx_seq: u8, seq: u8) -> nat
    recommends
        tx_seq < 64,
{
    let from = seq & SEQ_MASK;
    if tx_seq >= from {
        (tx_seq - from) as nat
    } else {
        (tx_seq + 64 - from) as nat
    }
}

/// How many packets of a history are sent again when retransmission from
/// `seq` is asked for: those sent from `seq` on, as far as the history
/// still holds them.
pub open spec fn replay_count(history: Seq<Seq<u8>>, tx_seq: u8, seq: u8) -> nat {
    if pending_from(tx_seq, seq) <= history.len() {
        pending_from(tx_seq, seq)
    } else {
        history.len()
    }
}

/// The frames that carry the `count` newest packets of a history again,
/// oldest first, each as an RTX frame under its own sequence number.
pub open spec fn replay_frames(history: Seq<Seq<u8>>, tx_seq: u8, count: nat) -> Seq<u8>
    recommends
        count <= history.len(),
    decreases count,
{
    if count == 0 {
        Seq::empty()
    } else {
        encode_frame(
            control_header(FrameType::RTX, seq_back(tx_seq, count)),
            history[count - 1],
        ) + replay_frames(history, tx_seq, (count - 1) as nat)
    }
}

/// What is sent when retransmission from `seq` is asked for.
pub open spec fn replay_from(history: Seq<Seq<u8>>, tx_seq: u8, seq: u8) -> Seq<u8> {
    replay_frames(history, tx_seq, replay_count(history, tx_seq, seq))
}

/// The history after a packet has been added to a ring of `cap` slots: the
/// packet, then the packets before it as far as the ring has room.
pub open spec fn remembered(history: Seq<Seq<u8>>, cap: nat, packet: Seq<u8>) -> Seq<Seq<u8>> {
    if cap == 0 {
        history
    } else if history.len() < cap {
        seq![packet] + history
    } else {
        seq![packet] + history.take(cap - 1)
    }
}

/// What a user packet or a retransmitted one does to the link.
pub open spec fn react_user(
    s: LinkState,
    history: Seq<Seq<u8>>,
    frame_type: FrameType,
    seq: u8,
) -> Outcome {
    let quiet = Outcome {
        link: s,
        sent: Seq::empty(),
        history,
        result: ParseResult::MoreDataNeeded,
    };
    match s.connect {
        ConnectState::Disconnected => Outcome {
            sent: control_frame(FrameType::SYN, SeqSyn::DIS.spec_value()),
            ..quiet
        },
        ConnectState::SentSyn0 => Outcome {
            sent: control_frame(FrameType::SYN, SeqSyn::SYN0.spec_value()),
            ..quiet
        },
        ConnectState::SentSyn1 => Outcome {
            sent: control_frame(FrameType::SYN, SeqSyn::SYN1.spec_value()),
            ..quiet
        },
        ConnectState::Connected => if seq == s.rx_seq {
            Outcome {
                link: LinkState { rx_seq: next_seq(s.rx_seq), ..s },
                result: ParseResult::UserPacket,
                ..quiet
            }
        } else if frame_type == FrameType::USR {
            Outcome { sent: control_frame(FrameType::NAK, s.rx_seq), ..quiet }
        } else {
            quiet
        },
    }
}

/// What is sent when the peer completes, or repeats, the handshake: the
/// history from the first packet on, unless nothing was sent yet.
pub open spec fn replay_after_connect(s: LinkState, history: Seq<Seq<u8>>) -> Seq<u8> {
    if s.tx_seq != SEQ_INIT {
        replay_from(history, s.tx_seq, SEQ_INIT)
    } else {
        Seq::empty()
    }
}

/// What a packet does to the link.
pub open spec fn react(s: LinkState, history: Seq<Seq<u8>>, packet: PacketType) -> Outcome {
    let quiet = Outcome {
        link: s,
        sent: Seq::empty(),
        history,
        result: ParseResult::MoreDataNeeded,
    };
    match packet {
        PacketType::USR { seq } => react_user(s, history, FrameType::USR, seq),
        PacketType::RTX { seq } => react_user(s, history, FrameType::RTX, seq),
        PacketType::NAK { seq } => Outcome { sent: replay_from(history, s.tx_seq, seq), ..quiet },
        PacketType::Syn0 => Outcome {
            link: LinkState {
                connect: ConnectState::SentSyn1,
                rx_seq: SEQ_INIT,
                tx_seq: SEQ_INIT,
            },
            sent: control_frame(FrameType::SYN, SeqSyn::SYN1.spec_value()),
            history: Seq::empty(),
            ..quiet
        },
        PacketType::Syn1 => if s.connect == ConnectState::Disconnected {
            Outcome { sent: control_frame(FrameType::SYN, SeqSyn::DIS.spec_value()), ..quiet }
        } else {
            Outcome {
                link: LinkState { connect: ConnectState::Connected, ..s },
                sent: control_frame(FrameType::SYN, SeqSyn::SYN2.spec_value())
                    + replay_after_connect(s, history),
                ..quiet
            }
        },
        PacketType::Syn2 => if s.connect == ConnectState::Disconnected {
            Outcome { sent: control_frame(FrameType::SYN, SeqSyn::DIS.spec_value()), ..quiet }
        } else if s.connect == ConnectState::SentSyn0 {
            Outcome { sent: control_frame(FrameType::SYN, SeqSyn::SYN0.spec_value()), ..quiet }
        } else {
            Outcome {
                link: LinkState { connect: ConnectState::Connected, ..s },
                sent: replay_after_connect(s, history),
                ..quiet
            }
        },
        PacketType::Disconnect => Outcome {
            link: LinkState { connect: ConnectState::Disconnected, ..s },
            ..quiet
        },
    }
}

/// What a result of the packet parser does to the link: a packet is
/// reacted to, anything else is reported and changes nothing.
pub open spec fn react_parsed(
    s: LinkState,
    history: Seq<Seq<u8>>,
    parsed: PacketTypeResult,
) -> Outcome {
    let quiet = Outcome {
        link: s,
        sent: Seq::empty(),
        history,
        result: ParseResult::MoreDataNeeded,
    };
    match parsed {
        PacketTypeResult::PacketReceived(packet) => react(s, history, packet),
        PacketTypeResult::AbortedPacket => Outcome { result: ParseResult::AbortedPacket, ..quiet },
        PacketTypeResult::PacketTooSmall => Outcome {
            result: ParseResult::PacketTooSmall,
            ..quiet
        },
        PacketTypeResult::CrcError(rcvd_crc) => Outcome {
            result: ParseResult::CrcError(rcvd_crc),
            ..quiet
        },
        PacketTypeResult::MoreDataNeeded => quiet,
    }
}

/// One side of a link as a value: the receive path, the link, the history
/// of what was sent (newest first), and everything written so far.
#[verifier::ext_equal]
pub struct LinkModel {
    pub raw: RawState,
    pub link: LinkState,
    pub history: Seq<Seq<u8>>,
    pub sent: Seq<u8>,
}

/// One step of a side of a link: the byte goes through the raw parser, whose
/// receive buffer has the capacity `cap`; what it yields is classified; the
/// link reacts.
pub open spec fn link_step(m: LinkModel, cap: nat, byte: u8) -> (LinkModel, ParseResult) {
    let step = raw_step(m.raw, cap, byte);
    let out = react_parsed(m.link, m.history, packet_result(step.1));
    (
        LinkModel { raw: step.0, link: out.link, history: out.history, sent: m.sent + out.sent },
        out.result,
    )
}

/// Sequence monotonicity on the receiving side. A packet is reported as a
/// user packet exactly when the link is connected and the packet is a user
/// packet, first or retransmitted, under the number expected next; the
/// number expected next then moves on by one modulo 64, and nothing else
/// of the link changes and nothing is sent. A packet that is not so
/// reported leaves the number expected next as it is, unless it is SYN0,
/// which sets it to 0.
pub proof fn lemma_rx_seq_monotonic(s: LinkState, history: Seq<Seq<u8>>, packet: PacketType)
    requires
        s.rx_seq < 64,
    ensures
        ({
            let out = react(s, history, packet);
            let accepted = s.connect == ConnectState::Connected && (packet == (PacketType::USR {
                seq: s.rx_seq,
            }) || packet == (PacketType::RTX { seq: s.rx_seq }));
            &&& out.result == ParseResult::UserPacket <==> accepted
            &&& accepted ==> out.link == (LinkState {
                rx_seq: ((s.rx_seq + 1) % 64) as u8,
                ..s
            }) && out.sent == Seq::<u8>::empty() && out.history == history
            &&& !accepted && packet != PacketType::Syn0 ==> out.link.rx_seq == s.rx_seq
            &&& out.link.rx_seq < 64
            &&& packet != PacketType::Syn0 ==> out.link.tx_seq == s.tx_seq
        }),
{
    let r = s.rx_seq;
    assert(r & 0x3f == r) by (bit_vector)
        requires
            r < 64,
    ;
}

pub struct Transmitter {
    connect_state: ConnectState,
    rx_seq: u8,
    tx_seq: u8,
}

pub struct Receiver {
    parser: PacketParser,
}

impl Receiver {
    /// The packet parser inside.
    pub closed spec fn parser(&self) -> PacketParser {
        self.parser
    }

    pub fn new() -> (r: Self)
        ensures
            r.parser().raw().with(Seq::empty()) == raw_fresh(),
    {
        Self { parser: PacketParser::new() }
    }

    /// Resets the parser: its CRC, and any escape.
    pub fn reset(&mut self)
        ensures
            final(self).parser().raw().crc_value() == crate::crc::CRC_INIT,
            final(self).parser().raw().escape_state() == crate::rawpacket::EscapeState::Normal,
            final(self).parser().raw().frame_state() == old(self).parser().raw().frame_state(),
            final(self).parser().raw().spec_header() == old(self).parser().raw().spec_header(),
    {
        self.parser.reset();
    }
}

impl View for Transmitter {
    type V = LinkState;

    closed spec fn view(&self) -> LinkState {
        LinkState { connect: self.connect_state, rx_seq: self.rx_seq, tx_seq: self.tx_seq }
    }
}

impl Transmitter {
    #[verifier::type_invariant]
    spec fn seqs_in_range(&self) -> bool {
        self.rx_seq < 64 && self.tx_seq < 64
    }

    pub fn new() -> (r: Self)
        ensures
            r@ == (LinkState {
                connect: ConnectState::Disconnected,
                rx_seq: SEQ_INIT,
                tx_seq: SEQ_INIT,
            }),
    {
        Self { connect_state: ConnectState::Disconnected, rx_seq: SEQ_INIT, tx_seq: SEQ_INIT }
    }

    /// The state of the connection.
    pub fn connect_state(&self) -> (r: ConnectState)
        ensures
            r == self@.connect,
    {
        self.connect_state
    }

    /// The sequence number that the next user packet received must carry.
    pub fn rx_seq(&self) -> (r: u8)
        ensures
            r == self@.rx_seq,
            r < 64,
    {
        proof {
            use_type_invariant(self);
        }
        self.rx_seq
    }

    /// The sequence number that the next user packet sent will carry.
    pub fn tx_seq(&self) -> (r: u8)
        ensures
            r == self@.tx_seq,
            r < 64,
    {
        proof {
            use_type_invariant(self);
        }
        self.tx_seq
    }

    /// Back to a link that is not connected and has sent nothing.
    fn reset<S: Storage>(&mut self, storage: &mut S)
        ensures
            final(self)@ == (LinkState {
                connect: ConnectState::Disconnected,
                rx_seq: SEQ_INIT,
                tx_seq: SEQ_INIT,
            }),
            history(&final(storage).spec_tx_queue()) == Seq::<Seq<u8>>::empty(),
            final(storage).spec_tx_queue().slots() == old(storage).spec_tx_queue().slots(),
            final(storage).spec_rx_buf() == old(storage).spec_rx_buf(),
            final(storage).spec_tx_writer() == old(storage).spec_tx_writer(),
    {
        proof {
            use_type_invariant(&*self);
        }
        self.connect_state = ConnectState::Disconnected;
        self.rx_seq = SEQ_INIT;
        self.tx_seq = SEQ_INIT;
        self.clear_history(storage);
    }

    /// The sequence number after `seq`, modulo 64.
    pub fn next_frame_seq(&self, seq: u8) -> (r: u8)
        ensures
            r == next_seq(seq),
            r < 64,
            seq < 64 ==> r == (seq + 1) % 64,
    {
        let low: u8 = seq & SEQ_MASK;
        proof {
            assert(low <= 63 && (seq < 64 ==> low == seq)) by (bit_vector)
                requires
                    low == seq & 0x3f,
            ;
            let up: u8 = (low + 1) as u8;
            assert(up & 0x3f == up % 64) by (bit_vector);
        }
        (low + 1) & SEQ_MASK
    }

    /// Takes a packet that the parser has classified: moves the connection
    /// on, answers the peer through the writer of the storage, and reports
    /// `UserPacket` exactly when the packet is the user packet expected next
    /// on a connected link.
    pub fn handle_packet<S: Storage>(&mut self, packet_type: PacketType, storage: &mut S) -> (r:
        ParseResult)
        ensures
            final(self)@ == react(
                old(self)@,
                history(&old(storage).spec_tx_queue()),
                packet_type,
            ).link,
            r == react(old(self)@, history(&old(storage).spec_tx_queue()), packet_type).result,
            r == ParseResult::UserPacket ==> final(self)@.rx_seq == (old(self)@.rx_seq + 1) % 64,
            final(storage).spec_tx_writer().stream() == old(storage).spec_tx_writer().stream()
                + react(old(self)@, history(&old(storage).spec_tx_queue()), packet_type).sent,
            history(&final(storage).spec_tx_queue()) == react(
                old(self)@,
                history(&old(storage).spec_tx_queue()),
                packet_type,
            ).history,
            final(storage).spec_tx_queue().slots().len() == old(
                storage,
            ).spec_tx_queue().slots().len(),
            final(storage).spec_rx_buf() == old(storage).spec_rx_buf(),
    {
        let ghost before = storage.spec_tx_writer().stream();
        proof {
            use_type_invariant(&*self);
            lemma_rx_seq_monotonic(self@, history(&storage.spec_tx_queue()), packet_type);
        }
        match packet_type {
            PacketType::USR { seq } => {
                return self.handle_frame_usr_rtx(FrameType::USR, seq, storage.tx_writer());
            },
            PacketType::RTX { seq } => {
                return self.handle_frame_usr_rtx(FrameType::RTX, seq, storage.tx_writer());
            },
            PacketType::NAK { seq } => {
                self.handle_frame_nak(seq, storage);
            },
            PacketType::Syn0 => {
                self.handle_frame_syn0(storage);
            },
            PacketType::Syn1 => {
                self.handle_frame_syn1(storage);
            },
            PacketType::Syn2 => {
                self.handle_frame_syn2(storage);
            },
            PacketType::Disconnect => {
                self.handle_frame_disconnect();
                proof {
                    assert(before + Seq::<u8>::empty() =~= before);
                }
            },
        }
        ParseResult::MoreDataNeeded
    }

    fn handle_frame_usr_rtx<W: PacketWriter>(
        &mut self,
        frame_type: FrameType,
        seq: u8,
        writer: &mut W,
    ) -> (r: ParseResult)
        ensures
            final(self)@ == react_user(old(self)@, Seq::empty(), frame_type, seq).link,
            r == react_user(old(self)@, Seq::empty(), frame_type, seq).result,
            final(writer).stream() == old(writer).stream() + react_user(
                old(self)@,
                Seq::empty(),
                frame_type,
                seq,
            ).sent,
    {
        proof {
            use_type_invariant(&*self);
        }
        let ghost before = writer.stream();
        match self.connect_state {
            ConnectState::Disconnected => {
                self.transmit_dis(writer);
            },
            ConnectState::SentSyn0 => {
                self.transmit_syn0(writer);
            },
            ConnectState::SentSyn1 => {
                self.transmit_syn1(writer);
            },
            ConnectState::Connected => {
                if seq != self.rx_seq {
                    if frame_type == FrameType::USR {
                        // Out of order frame received: ask for the one expected.
                        self.transmit_nak(self.rx_seq, writer);
                    } else {
                        // Out of order retransmitted frame received: ignore it.
                        proof {
                            assert(before + Seq::<u8>::empty() =~= before);
                        }
                    }
                } else {
                    // Good user frame received and accepted. Deliver it.
                    self.rx_seq = self.next_frame_seq(self.rx_seq);
                    proof {
                        assert(before + Seq::<u8>::empty() =~= before);
                    }
                    return ParseResult::UserPacket;
                }
            },
        }
        ParseResult::MoreDataNeeded
    }

    fn handle_frame_nak<S: Storage>(&mut self, seq: u8, storage: &mut S)
        ensures
            final(self)@ == old(self)@,
            final(storage).spec_tx_writer().stream() == old(storage).spec_tx_writer().stream()
                + replay_from(history(&old(storage).spec_tx_queue()), old(self)@.tx_seq, seq),
            queue_kept(&old(storage).spec_tx_queue(), &final(storage).spec_tx_queue()),
            final(storage).spec_rx_buf() == old(storage).spec_rx_buf(),
    {
        self.transmit_history_from_seq(seq, storage);
    }

    fn handle_frame_syn0<S: Storage>(&mut self, storage: &mut S)
        ensures
            final(self)@ == (LinkState {
                connect: ConnectState::SentSyn1,
                rx_seq: SEQ_INIT,
                tx_seq: SEQ_INIT,
            }),
            final(storage).spec_tx_writer().stream() == old(storage).spec_tx_writer().stream()
                + control_frame(FrameType::SYN, SeqSyn::SYN1.spec_value()),
            history(&final(storage).spec_tx_queue()) == Seq::<Seq<u8>>::empty(),
            final(storage).spec_tx_queue().slots() == old(storage).spec_tx_queue().slots(),
            final(storage).spec_rx_buf() == old(storage).spec_rx_buf(),
    {
        proof {
            use_type_invariant(&*self);
        }
        self.rx_seq = SEQ_INIT;
        self.tx_seq = SEQ_INIT;
        self.clear_history(storage);
        self.connect_state = ConnectState::SentSyn1;
        self.transmit_syn1(storage.tx_writer());
    }

    fn handle_frame_syn1<S: Storage>(&mut self, storage: &mut S)
        ensures
            final(self)@ == react(old(self)@, Seq::empty(), PacketType::Syn1).link,
            final(storage).spec_tx_writer().stream() == old(storage).spec_tx_writer().stream()
                + react(
                old(self)@,
                history(&old(storage).spec_tx_queue()),
                PacketType::Syn1,
            ).sent,
            queue_kept(&old(storage).spec_tx_queue(), &final(storage).spec_tx_queue()),
            final(storage).spec_rx_buf() == old(storage).spec_rx_buf(),
    {
        proof {
            use_type_invariant(&*self);
        }
        let ghost before = storage.spec_tx_writer().stream();
        let ghost hist = history(&storage.spec_tx_queue());
        if self.connect_state == ConnectState::Disconnected {
            self.transmit_dis(storage.tx_writer());
            return ;
        }
        self.connect_state = ConnectState::Connected;
        self.transmit_syn2(storage.tx_writer());
        if self.tx_seq != SEQ_INIT {
            self.transmit_history_from_seq(SEQ_INIT, storage);
            proof {
                let syn2 = control_frame(FrameType::SYN, SeqSyn::SYN2.spec_value());
                let replay = replay_from(hist, self@.tx_seq, SEQ_INIT);
                assert((before + syn2) + replay =~= before + (syn2 + replay));
            }
        } else {
            proof {
                let syn2 = control_frame(FrameType::SYN, SeqSyn::SYN2.spec_value());
                assert(before + syn2 =~= before + (syn2 + Seq::<u8>::empty()));
            }
        }
    }

    fn handle_frame_syn2<S: Storage>(&mut self, storage: &mut S)
        ensures
            final(self)@ == react(old(self)@, Seq::empty(), PacketType::Syn2).link,
            final(storage).spec_tx_writer().stream() == old(storage).spec_tx_writer().stream()
                + react(
                old(self)@,
                history(&old(storage).spec_tx_queue()),
                PacketType::Syn2,
            ).sent,
            queue_kept(&old(storage).spec_tx_queue(), &final(storage).spec_tx_queue()),
            final(storage).spec_rx_buf() == old(storage).spec_rx_buf(),
    {
        proof {
            use_type_invariant(&*self);
        }
        let ghost before = storage.spec_tx_writer().stream();
        if self.connect_state == ConnectState::Disconnected {
            self.transmit_dis(storage.tx_writer());
            return ;
        }
        if self.connect_state == ConnectState::SentSyn0 {
            self.transmit_syn0(storage.tx_writer());
            return ;
        }
        self.connect_state = ConnectState::Connected;
        if self.tx_seq != SEQ_INIT {
            self.transmit_history_from_seq(SEQ_INIT, storage);
        } else {
            proof {
                assert(before + Seq::<u8>::empty() =~= before);
            }
        }
    }

    pub fn handle_frame_disconnect(&mut self)
        ensures
            final(self)@ == (LinkState { connect: ConnectState::Disconnected, ..old(self)@ }),
    {
        proof {
            use_type_invariant(&*self);
        }
        self.connect_state = ConnectState::Disconnected;
    }

    /// Empties the history of what was sent.
    fn clear_history<S: Storage>(&self, storage: &mut S)
        ensures
            history(&final(storage).spec_tx_queue()) == Seq::<Seq<u8>>::empty(),
            final(storage).spec_tx_queue().slots() == old(storage).spec_tx_queue().slots(),
            final(storage).spec_rx_buf() == old(storage).spec_rx_buf(),
            final(storage).spec_tx_writer() == old(storage).spec_tx_writer(),
    {
        storage.tx_queue().clear();
        proof {
            assert(history(&storage.spec_tx_queue()) =~= Seq::<Seq<u8>>::empty());
        }
    }

    /// Sends the packets of the history again that were sent from the one
    /// numbered `seq` on, oldest first, each as an RTX frame under its own
    /// sequence number. Packets that the history no longer holds are not
    /// sent.
    fn transmit_history_from_seq<S: Storage>(&self, seq: u8, storage: &mut S)
        ensures
            final(storage).spec_tx_writer().stream() == old(storage).spec_tx_writer().stream()
                + replay_from(history(&old(storage).spec_tx_queue()), self@.tx_seq, seq),
            queue_kept(&old(storage).spec_tx_queue(), &final(storage).spec_tx_queue()),
            final(storage).spec_rx_buf() == old(storage).spec_rx_buf(),
    {
        proof {
            use_type_invariant(self);
        }
        let ghost before = storage.spec_tx_writer().stream();
        let ghost hist = history(&storage.spec_tx_queue());
        let from: u8 = seq & SEQ_MASK;
        proof {
            assert(from <= 63) by (bit_vector)
                requires
                    from == seq & 0x3f,
            ;
        }
        let tx: u8 = self.tx_seq;
        let pending: u8 = if tx >= from {
            tx - from
        } else {
            tx + 64 - from
        };
        let held: usize = storage.tx_queue().len();
        let count: usize = if (pending as usize) <= held {
            pending as usize
        } else {
            held
        };
        let mut k: usize = count;
        while k > 0
            invariant
                k <= count,
                count <= 63,
                count <= hist.len(),
                tx < 64,
                tx == self@.tx_seq,
                hist == history(&old(storage).spec_tx_queue()),
                queue_kept(&old(storage).spec_tx_queue(), &storage.spec_tx_queue()),
                storage.spec_rx_buf() == old(storage).spec_rx_buf(),
                before + replay_frames(hist, tx, count as nat)
                    == storage.spec_tx_writer().stream() + replay_frames(hist, tx, k as nat),
            decreases k,
        {
            let offset: usize = k - 1;
            let back: u8 = k as u8;
            let number: u8 = if tx >= back {
                tx - back
            } else {
                tx + 64 - back
            };
            let header: u8 = FrameType::RTX.value() | (number & SEQ_MASK);
            let ghost stream = storage.spec_tx_writer().stream();
            self.retransmit_packet(header, offset, storage);
            proof {
                let frame = encode_frame(header, hist[offset as int]);
                assert(replay_frames(hist, tx, k as nat) == frame + replay_frames(
                    hist,
                    tx,
                    (k - 1) as nat,
                ));
                assert(stream + (frame + replay_frames(hist, tx, (k - 1) as nat)) =~= (stream
                    + frame) + replay_frames(hist, tx, (k - 1) as nat));
            }
            k -= 1;
        }
        proof {
            assert(storage.spec_tx_writer().stream() + Seq::<u8>::empty()
                =~= storage.spec_tx_writer().stream());
        }
    }

    /// Sends the packet that lies `offset` packets behind the newest of the
    /// history again, under the given header. The packet is read from the
    /// history byte by byte, so that nothing has to be copied aside.
    fn retransmit_packet<S: Storage>(&self, header: u8, offset: usize, storage: &mut S)
        requires
            offset < history(&old(storage).spec_tx_queue()).len(),
        ensures
            final(storage).spec_tx_writer().stream() == old(storage).spec_tx_writer().stream()
                + encode_frame(header, history(&old(storage).spec_tx_queue())[offset as int]),
            queue_kept(&old(storage).spec_tx_queue(), &final(storage).spec_tx_queue()),
            final(storage).spec_rx_buf() == old(storage).spec_rx_buf(),
    {
        let ghost before = storage.spec_tx_writer().stream();
        let ghost payload = history(&storage.spec_tx_queue())[offset as int];
        let ghost queue = storage.spec_tx_queue();
        let len: usize = match storage.tx_queue().get(offset) {
            Some(packet) => packet.len(),
            None => 0,
        };
        proof {
            assert(storage.spec_tx_queue().slots() =~= queue.slots());
        }
        let mut crc = Crc::new();
        let writer = storage.tx_writer();
        writer.start_write();
        writer.write_byte(SOF);
        writer.write_escaped_byte(&mut crc, header);
        proof {
            lemma_crc_fold_single(CRC_INIT, header);
            assert(payload.take(0) =~= Seq::<u8>::empty());
            assert(seq![header] + payload.take(0) =~= seq![header]);
            lemma_escape_bytes_single(header);
        }
        let mut i: usize = 0;
        while i < len
            invariant
                i <= len,
                len == payload.len(),
                offset < history(&old(storage).spec_tx_queue()).len(),
                payload == history(&old(storage).spec_tx_queue())[offset as int],
                queue_kept(&old(storage).spec_tx_queue(), &storage.spec_tx_queue()),
                storage.spec_rx_buf() == old(storage).spec_rx_buf(),
                crc.value() == crc_fold(CRC_INIT, seq![header] + payload.take(i as int)),
                storage.spec_tx_writer().stream() == before + seq![SOF] + escape_bytes(
                    seq![header] + payload.take(i as int),
                ),
            decreases len - i,
        {
            let ghost queue = storage.spec_tx_queue();
            let byte: u8 = match storage.tx_queue().get(offset) {
                Some(packet) => packet.data()[i],
                None => 0,
            };
            proof {
                assert(storage.spec_tx_queue().slots() =~= queue.slots());
            }
            let ghost stream = storage.spec_tx_writer().stream();
            storage.tx_writer().write_escaped_byte(&mut crc, byte);
            proof {
                let done = seq![header] + payload.take(i as int);
                let more = seq![header] + payload.take(i + 1);
                assert(more =~= done.push(byte));
                assert(more.drop_last() =~= done);
                assert(storage.spec_tx_writer().stream() =~= before + seq![SOF] + escape_bytes(
                    more,
                ));
            }
            i += 1;
        }
        let ghost body_crc = crc.value();
        let writer = storage.tx_writer();
        writer.write_crc(&mut crc);
        writer.write_byte(SOF);
        writer.end_write();
        proof {
            assert(payload.take(len as int) =~= payload);
            let body = seq![header] + payload;
            lemma_escape_bytes_concat(body, crc_trailer(body_crc));
            assert(storage.spec_tx_writer().stream() =~= before + encode_frame(header, payload));
        }
    }

    fn transmit_nak<W: PacketWriter>(&self, seq: u8, writer: &mut W)
        ensures
            final(writer).stream() == old(writer).stream() + control_frame(FrameType::NAK, seq),
    {
        self.transmit_control_packet(FrameType::NAK, seq, writer);
    }

    fn transmit_dis<W: PacketWriter>(&self, writer: &mut W)
        ensures
            final(writer).stream() == old(writer).stream() + control_frame(
                FrameType::SYN,
                SeqSyn::DIS.spec_value(),
            ),
    {
        self.transmit_control_packet(FrameType::SYN, SeqSyn::DIS.value(), writer);
    }

    fn transmit_syn0<W: PacketWriter>(&self, writer: &mut W)
        ensures
            final(writer).stream() == old(writer).stream() + control_frame(
                FrameType::SYN,
                SeqSyn::SYN0.spec_value(),
            ),
    {
        self.transmit_control_packet(FrameType::SYN, SeqSyn::SYN0.value(), writer);
    }

    fn transmit_syn1<W: PacketWriter>(&self, writer: &mut W)
        ensures
            final(writer).stream() == old(writer).stream() + control_frame(
                FrameType::SYN,
                SeqSyn::SYN1.spec_value(),
            ),
    {
        self.transmit_control_packet(FrameType::SYN, SeqSyn::SYN1.value(), writer);
    }

    fn transmit_syn2<W: PacketWriter>(&self, writer: &mut W)
        ensures
            final(writer).stream() == old(writer).stream() + control_frame(
                FrameType::SYN,
                SeqSyn::SYN2.spec_value(),
            ),
    {
        self.transmit_control_packet(FrameType::SYN, SeqSyn::SYN2.value(), writer);
    }

    fn transmit_control_packet<W: PacketWriter>(
        &self,
        frame_type: FrameType,
        seq: u8,
        writer: &mut W,
    )
        ensures
            final(writer).stream() == old(writer).stream() + control_frame(frame_type, seq),
    {
        let header: u8 = frame_type.value() | (seq & SEQ_MASK);
        let data: &[u8] = &[];
        writer.write_packet_data(header, data);
    }
}

/// Whether a queue holds the same packets in the same slots as another.
pub open spec fn queue_kept<Q: PacketQueue>(before: &Q, after: &Q) -> bool {
    &&& after.slots() == before.slots()
    &&& after.spec_len() == before.spec_len()
    &&& after.spec_idx() == before.spec_idx()
}


/// The leading bytes of a packet that a buffer of capacity `cap` takes.
pub open spec fn truncated(data: Seq<u8>, cap: nat) -> Seq<u8> {
    if data.len() <= cap {
        data
    } else {
        data.take(cap as int)
    }
}

/// The ring keeps the newest packets: once the slot after the newest has
/// been taken for a packet, the history is that packet followed by the
/// history before, without its oldest packet if the ring was full.
pub proof fn lemma_history_after_next<Q: PacketQueue>(before: &Q, after: &Q)
    requires
        before.slots().len() > 0,
        before.spec_idx() < before.slots().len(),
        before.spec_len() <= before.slots().len(),
        after.spec_len() == if before.spec_len() < before.slots().len() {
            before.spec_len() + 1
        } else {
            before.slots().len()
        },
        after.spec_idx() == ring_next(before.spec_idx(), before.slots().len()),
        after.slots() == before.slots().update(
            after.spec_idx() as int,
            after.slots()[after.spec_idx() as int],
        ),
    ensures
        history(after) == remembered(
            history(before),
            before.slots().len(),
            contents(&after.slots()[after.spec_idx() as int]),
        ),
{
    let cap = before.slots().len();
    let newest = after.spec_idx();
    let expected = remembered(history(before), cap, contents(&after.slots()[newest as int]));
    assert(history(after).len() == expected.len());
    assert forall|k: int| 0 <= k < history(after).len() implies history(after)[k]
        == expected[k] by {
        if k > 0 {
            let slot = ring_slot(newest, cap, k as nat);
            assert(slot == ring_slot(before.spec_idx(), cap, (k - 1) as nat));
            assert(slot != newest);
            assert(after.slots()[slot] == before.slots()[slot]);
            assert(history(before)[k - 1] == contents(&before.slots()[slot]));
        }
    }
    assert(history(after) =~= expected);
}

pub struct Context {
    tx: Transmitter,
    rx: Receiver,
}

impl Context {
    /// The link: the state of the connection and the two sequence numbers.
    pub closed spec fn link(&self) -> LinkState {
        self.tx@
    }

    /// The raw parser of the receiving side.
    pub closed spec fn parser(&self) -> crate::rawpacket::RawPacketParser {
        self.rx.parser().raw()
    }

    /// The side of the link that the context forms with a storage.
    pub open spec fn model<S: Storage>(&self, storage: &S) -> LinkModel {
        LinkModel {
            raw: self.parser().with(contents(&storage.spec_rx_buf())),
            link: self.link(),
            history: history(&storage.spec_tx_queue()),
            sent: storage.spec_tx_writer().stream(),
        }
    }

    pub fn new() -> (r: Self)
        ensures
            r.link() == (LinkState {
                connect: ConnectState::Disconnected,
                rx_seq: SEQ_INIT,
                tx_seq: SEQ_INIT,
            }),
            r.parser().with(Seq::empty()) == raw_fresh(),
    {
        Self { tx: Transmitter::new(), rx: Receiver::new() }
    }

    /// Opens the handshake: both sequence numbers start again, the history
    /// is emptied, SYN0 is sent.
    pub fn connect<S: Storage>(&mut self, storage: &mut S)
        ensures
            final(self).link() == (LinkState {
                connect: ConnectState::SentSyn0,
                rx_seq: SEQ_INIT,
                tx_seq: SEQ_INIT,
            }),
            final(storage).spec_tx_writer().stream() == old(storage).spec_tx_writer().stream()
                + control_frame(FrameType::SYN, SeqSyn::SYN0.spec_value()),
            history(&final(storage).spec_tx_queue()) == Seq::<Seq<u8>>::empty(),
            final(storage).spec_tx_queue().slots() == old(storage).spec_tx_queue().slots(),
            final(storage).spec_rx_buf() == old(storage).spec_rx_buf(),
            final(self).parser().crc_value() == crate::crc::CRC_INIT,
            final(self).parser().escape_state() == crate::rawpacket::EscapeState::Normal,
            final(self).parser().frame_state() == old(self).parser().frame_state(),
            final(self).parser().spec_header() == old(self).parser().spec_header(),
    {
        self.tx.reset(storage);
        self.rx.reset();
        self.tx.transmit_syn0(storage.tx_writer());
        self.tx.connect_state = ConnectState::SentSyn0;
    }

    pub fn is_connected(&self) -> (r: bool)
        ensures
            r == (self.link().connect == ConnectState::Connected),
    {
        self.tx.connect_state == ConnectState::Connected
    }

    /// The sequence number that the next user packet received must carry.
    pub fn rx_seq(&self) -> (r: u8)
        ensures
            r == self.link().rx_seq,
            r < 64,
    {
        self.tx.rx_seq()
    }

    /// The sequence number that the next user packet sent will carry.
    pub fn tx_seq(&self) -> (r: u8)
        ensures
            r == self.link().tx_seq,
            r < 64,
    {
        self.tx.tx_seq()
    }

    /// Takes one byte from the peer. The byte goes through the raw parser
    /// and the receive buffer of the storage; where it completes a frame,
    /// the packet is classified and the link reacts to it. `UserPacket` says
    /// that the receive buffer now holds a user payload, in order, which
    /// stays there until the next call.
    pub fn parse_byte<S: Storage>(&mut self, byte: u8, storage: &mut S) -> (r: ParseResult)
        ensures
            final(storage).spec_rx_buf().storage().len() == old(
                storage,
            ).spec_rx_buf().storage().len(),
            final(storage).spec_tx_queue().slots().len() == old(
                storage,
            ).spec_tx_queue().slots().len(),
            final(self).model(final(storage)) == link_step(
                old(self).model(old(storage)),
                old(storage).spec_rx_buf().storage().len(),
                byte,
            ).0,
            r == link_step(
                old(self).model(old(storage)),
                old(storage).spec_rx_buf().storage().len(),
                byte,
            ).1,
            r == ParseResult::UserPacket ==> final(self).link().rx_seq == (old(self).link().rx_seq
                + 1) % 64,
    {
        let ghost before = old(self).model(old(storage));
        let ghost cap = old(storage).spec_rx_buf().storage().len();
        let parse_result = self.rx.parser.parse_byte(byte, storage.rx_buf());
        let r = match parse_result {
            PacketTypeResult::PacketReceived(packet_type) => {
                self.tx.handle_packet(packet_type, storage)
            },
            PacketTypeResult::AbortedPacket => ParseResult::AbortedPacket,
            PacketTypeResult::PacketTooSmall => ParseResult::PacketTooSmall,
            PacketTypeResult::CrcError(rcvd_crc) => ParseResult::CrcError(rcvd_crc),
            PacketTypeResult::MoreDataNeeded => ParseResult::MoreDataNeeded,
        };
        proof {
            assert(before.sent + Seq::<u8>::empty() =~= before.sent);
            assert(self.model(storage) =~~= link_step(before, cap, byte).0);
        }
        r
    }

    /// Sends a user packet, if the link is connected: the packet is added to
    /// the history, its frame is written under the next sequence number,
    /// and the number moves on. On a link that is not connected nothing is
    /// sent and nothing changes; the result says which of the two happened.
    pub fn write_packet<S: Storage>(&mut self, data: &[u8], storage: &mut S) -> (sent: bool)
        ensures
            sent == (old(self).link().connect == ConnectState::Connected),
            final(self).parser() == old(self).parser(),
            final(storage).spec_rx_buf() == old(storage).spec_rx_buf(),
            final(storage).spec_tx_queue().slots().len() == old(
                storage,
            ).spec_tx_queue().slots().len(),
            !sent ==> {
                &&& final(self).link() == old(self).link()
                &&& final(storage).spec_tx_writer() == old(storage).spec_tx_writer()
                &&& final(storage).spec_tx_queue() == old(storage).spec_tx_queue()
            },
            sent ==> {
                &&& final(self).link() == (LinkState {
                    tx_seq: next_seq(old(self).link().tx_seq),
                    ..old(self).link()
                })
                &&& final(self).link().tx_seq == (old(self).link().tx_seq + 1) % 64
                &&& final(storage).spec_tx_writer().stream() == old(
                    storage,
                ).spec_tx_writer().stream() + encode_frame(
                    control_header(FrameType::USR, old(self).link().tx_seq),
                    data@,
                )
                &&& history(&final(storage).spec_tx_queue()) == remembered(
                    history(&old(storage).spec_tx_queue()),
                    old(storage).spec_tx_queue().slots().len(),
                    truncated(data@, next_slot_capacity(&old(storage).spec_tx_queue())),
                )
            },
    {
        if !self.is_connected() {
            return false;
        }
        let seq: u8 = self.tx.tx_seq();
        let header: u8 = FrameType::USR.value() | seq;
        proof {
            assert(0x00u8 | seq == 0x00u8 | (seq & 0x3f)) by (bit_vector)
                requires
                    seq < 64,
            ;
        }
        let ghost queue = storage.spec_tx_queue();
        let history_queue = storage.tx_queue();
        if history_queue.capacity() > 0 {
            let slot = history_queue.next();
            slot.store_data(data);
        }
        proof {
            if queue.slots().len() > 0 {
                lemma_history_after_next(&queue, &storage.spec_tx_queue());
            }
        }
        storage.tx_writer().write_packet_data(header, data);
        let next: u8 = self.tx.next_frame_seq(seq);
        proof {
            use_type_invariant(&self.tx);
        }
        self.tx.tx_seq = next;
        true
    }
}

/// Capacity of the slot that takes the next packet of a queue.
pub open spec fn next_slot_capacity<Q: PacketQueue>(q: &Q) -> nat {
    q.slots()[ring_next(q.spec_idx(), q.slots().len()) as int].storage().len()
}
} // verus!
