//! The interfaces through which the link engine reaches the storage that its
//! caller owns: the receive buffer, the packet writer, the queue of what was
//! sent, and the bundle of the three.

use vstd::prelude::*;
use crate::hexdump::{hex_dump, hex_dump_text};
use crate::crc::{
    Crc, CrcAccum, CRC_INIT, crc_step, crc_fold, crc_trailer, lemma_crc_fold_concat,
    lemma_crc_fold_single,
};
use crate::framing::{
    encode_frame, escape_byte, escape_bytes, lemma_escape_bytes_concat, lemma_escape_bytes_single,
};

verus! {

/// Start of frame.
pub const SOF: u8 = 0x7e;

/// Escape byte.
pub const ESC: u8 = 0x7d;

/// Mask that is XORed onto a byte that follows `ESC`.
pub const ESC_FLIP: u8 = 0x20;

/// The valid bytes of a buffer: the leading `spec_len` bytes of its storage.
pub open spec fn contents<B: PacketBuffer>(b: &B) -> Seq<u8> {
    b.storage().take(b.spec_len() as int)
}

/// A bounded byte container: a backing storage of fixed size, of which the
/// leading `len` bytes are valid.
pub trait PacketBuffer: Sized {
    /// The whole backing storage, valid or not. Its length is the capacity.
    spec fn storage(&self) -> Seq<u8>;

    /// Number of leading bytes of the storage that are valid.
    spec fn spec_len(&self) -> nat;

    /// Returns the capacity of the packet buffer.
    fn capacity(&self) -> (c: usize)
        ensures
            c == self.storage().len(),
    ;

    /// Returns the number of bytes which have been accumulated in the buffer.
    fn len(&self) -> (n: usize)
        ensures
            n == self.spec_len(),
            n <= self.storage().len(),
    ;

    /// Sets the number of valid bytes. The storage is left as it is.
    fn set_len(&mut self, len: usize)
        requires
            len <= old(self).storage().len(),
        ensures
            final(self).spec_len() == len,
            final(self).storage() == old(self).storage(),
    ;

    /// Returns a slice containing the valid bytes.
    fn data(&self) -> (d: &[u8])
        ensures
            d@ == self.storage().take(self.spec_len() as int),
    ;

    /// Stores a byte into the storage, valid or not.
    fn store_byte_at(&mut self, idx: usize, byte: u8)
        requires
            idx < old(self).storage().len(),
        ensures
            final(self).storage() == old(self).storage().update(idx as int, byte),
            final(self).spec_len() == old(self).spec_len(),
    ;

    /// Copies the data into the buffer, as much of it as the capacity takes.
    fn store_data(&mut self, data: &[u8])
        ensures
            final(self).storage().len() == old(self).storage().len(),
            ({
                let cap = old(self).storage().len() as int;
                let after = final(self).storage().take(final(self).spec_len() as int);
                &&& data@.len() <= cap ==> after == data@
                &&& data@.len() > cap ==> after == data@.take(cap)
            }),
    {
        let cap: usize = self.capacity();
        let copy_len: usize = if data.len() < cap {
            data.len()
        } else {
            cap
        };
        let mut i: usize = 0;
        while i < copy_len
            invariant
                i <= copy_len,
                copy_len <= cap,
                copy_len <= data@.len(),
                cap == self.storage().len(),
                self.storage().take(i as int) == data@.take(i as int),
            decreases copy_len - i,
        {
            self.store_byte_at(i, data[i]);
            proof {
                assert(self.storage().take(i + 1) =~= data@.take(i + 1));
            }
            i += 1;
        }
        self.set_len(copy_len);
    }

    /// Determines if the buffer is empty.
    fn is_empty(&self) -> (r: bool)
        ensures
            r == (self.spec_len() == 0),
            r == (self.storage().take(self.spec_len() as int).len() == 0),
    {
        self.len() == 0
    }

    /// Resets the buffer to start collecting a new run of bytes.
    fn reset(&mut self)
        ensures
            final(self).spec_len() == 0,
            final(self).storage().take(final(self).spec_len() as int) == Seq::<u8>::empty(),
            final(self).storage() == old(self).storage(),
    {
        self.set_len(0);
    }

    /// Appends a byte to the valid bytes. Fails, and changes nothing, exactly
    /// when the buffer is full.
    fn append(&mut self, byte: u8) -> (r: Result<(), ()>)
        ensures
            old(self).spec_len() <= old(self).storage().len(),
            final(self).spec_len() <= final(self).storage().len(),
            final(self).storage().len() == old(self).storage().len(),
            ({
                let before = old(self).storage().take(old(self).spec_len() as int);
                let after = final(self).storage().take(final(self).spec_len() as int);
                let full = old(self).spec_len() >= old(self).storage().len();
                &&& r is Err <==> full
                &&& !full ==> after == before.push(byte)
                &&& full ==> after == before && final(self).storage() == old(self).storage()
            }),
    {
        let len: usize = self.len();
        if len < self.capacity() {
            self.set_len(len + 1);
            self.store_byte_at(len, byte);
            proof {
                let before = old(self).storage().take(old(self).spec_len() as int);
                let after = final(self).storage().take(final(self).spec_len() as int);
                assert(after =~= before.push(byte));
            }
            Ok(())
        } else {
            Err(())
        }
    }

    /// Removes the CRC, the last two valid bytes, and returns it. The CRC is
    /// stored low byte first. With fewer than two valid bytes nothing is
    /// removed and 0 is returned.
    fn remove_crc(&mut self) -> (crc: CrcAccum)
        ensures
            final(self).storage() == old(self).storage(),
            ({
                let before = old(self).storage().take(old(self).spec_len() as int);
                let after = final(self).storage().take(final(self).spec_len() as int);
                &&& old(self).spec_len() < 2 ==> crc == 0 && final(self).spec_len() == old(
                    self,
                ).spec_len()
                &&& old(self).spec_len() >= 2 ==> crc == trailing_crc(before) && after
                    == before.take(before.len() - 2) && final(self).spec_len() == old(
                    self,
                ).spec_len() - 2
            }),
    {
        let mut len: usize = self.len();
        if len < 2 {
            return 0;
        }
        // LSB is transmitted first
        len -= 2;
        let data = self.data();
        let lo: u8 = data[len];
        let hi: u8 = data[len + 1];
        let crc: u16 = ((hi as CrcAccum) << 8) | (lo as CrcAccum);
        self.set_len(len);
        proof {
            let before = old(self).storage().take(old(self).spec_len() as int);
            let after = final(self).storage().take(final(self).spec_len() as int);
            assert(after =~= before.take(before.len() - 2));
        }
        crc
    }

    /// The contents of the buffer as a hex dump, ready to be logged.
    fn dump(&self) -> (text: String)
        ensures
            text@ == hex_dump_text(self.storage().take(self.spec_len() as int)),
    {
        hex_dump(self.data())
    }
}

/// The 16-bit value that the last two bytes spell, low byte first.
pub open spec fn trailing_crc(bytes: Seq<u8>) -> u16
    recommends
        bytes.len() >= 2,
{
    ((bytes[bytes.len() - 1] as u16) << 8) | (bytes[bytes.len() - 2] as u16)
}

/// The way out to the link. An implementation hands each byte on, in order;
/// its model is the stream of all bytes handed to it so far.
pub trait PacketWriter: Sized {
    /// Every byte written so far, oldest first.
    spec fn stream(&self) -> Seq<u8>;

    /// Called at the beginning of writing a packet, so that an implementation
    /// can buffer. It adds nothing to the stream.
    fn start_write(&mut self)
        ensures
            final(self).stream() == old(self).stream(),
    {
    }

    /// Called to write one byte, not necessarily a complete packet, to the
    /// hardware.
    fn write_byte(&mut self, byte: u8)
        ensures
            final(self).stream() == old(self).stream().push(byte),
    ;

    /// Called at the end of writing a packet, so that a buffering
    /// implementation can flush. It adds nothing to the stream.
    fn end_write(&mut self)
        ensures
            final(self).stream() == old(self).stream(),
    {
    }

    /// Writes an entire packet: the frame of the header and the bytes.
    fn write_packet_data(&mut self, header: u8, bytes: &[u8])
        ensures
            final(self).stream() == old(self).stream() + encode_frame(header, bytes@),
    {
        let mut crc = Crc::new();
        self.start_write();
        self.write_byte(SOF);
        self.write_escaped_byte(&mut crc, header);
        self.write_escaped_bytes(&mut crc, bytes);
        let ghost body_crc = crc.value();
        self.write_crc(&mut crc);
        self.write_byte(SOF);
        self.end_write();
        proof {
            let body = seq![header] + bytes@;
            let trailer = crc_trailer(body_crc);
            lemma_crc_fold_single(CRC_INIT, header);
            lemma_crc_fold_concat(CRC_INIT, seq![header], bytes@);
            assert(body_crc == crc_fold(CRC_INIT, body));
            lemma_escape_bytes_single(header);
            lemma_escape_bytes_concat(seq![header], bytes@);
            lemma_escape_bytes_concat(body, trailer);
            assert(final(self).stream() =~= old(self).stream() + encode_frame(header, bytes@));
        }
    }

    /// Writes the CRC out, low byte first, and folds both bytes into it.
    fn write_crc(&mut self, crc: &mut Crc)
        ensures
            final(crc).value() == crc_fold(old(crc).value(), crc_trailer(old(crc).value())),
            final(self).stream() == old(self).stream() + escape_bytes(
                crc_trailer(old(crc).value()),
            ),
    {
        let crc_lsb: u8 = crc.lsb();
        let crc_msb: u8 = crc.msb();
        self.write_escaped_byte(crc, crc_lsb);
        self.write_escaped_byte(crc, crc_msb);
        proof {
            let t = crc_trailer(old(crc).value());
            assert(t =~= seq![crc_lsb] + seq![crc_msb]);
            lemma_escape_bytes_single(crc_lsb);
            lemma_escape_bytes_single(crc_msb);
            lemma_escape_bytes_concat(seq![crc_lsb], seq![crc_msb]);
            lemma_crc_fold_single(old(crc).value(), crc_lsb);
            lemma_crc_fold_single(crc_step(old(crc).value(), crc_lsb), crc_msb);
            lemma_crc_fold_concat(old(crc).value(), seq![crc_lsb], seq![crc_msb]);
            assert(final(self).stream() =~= old(self).stream() + escape_bytes(t));
        }
    }

    /// Writes the bytes, each escaped where it must be, and folds each into the CRC.
    fn write_escaped_bytes(&mut self, crc: &mut Crc, bytes: &[u8])
        ensures
            final(crc).value() == crc_fold(old(crc).value(), bytes@),
            final(self).stream() == old(self).stream() + escape_bytes(bytes@),
    {
        let mut i: usize = 0;
        proof {
            assert(self.stream() + escape_bytes(bytes@.take(0)) =~= self.stream());
        }
        while i < bytes.len()
            invariant
                i <= bytes.len(),
                crc.value() == crc_fold(old(crc).value(), bytes@.take(i as int)),
                self.stream() == old(self).stream() + escape_bytes(bytes@.take(i as int)),
            decreases bytes.len() - i,
        {
            let ghost before = self.stream();
            self.write_escaped_byte(crc, bytes[i]);
            proof {
                assert(bytes@.take(i + 1).drop_last() =~= bytes@.take(i as int));
                assert(self.stream() =~= old(self).stream() + escape_bytes(bytes@.take(i + 1)));
            }
            i += 1;
        }
        proof {
            assert(bytes@.take(i as int) =~= bytes@);
        }
    }

    /// Writes one byte, escaped if it is `SOF` or `ESC`, and folds the byte
    /// as it was before escaping into the CRC.
    fn write_escaped_byte(&mut self, crc: &mut Crc, byte: u8)
        ensures
            final(crc).value() == crc_step(old(crc).value(), byte),
            final(self).stream() == old(self).stream() + escape_byte(byte),
    {
        crc.accum(byte);
        if byte == ESC || byte == SOF {
            self.write_byte(ESC);
            self.write_byte(byte ^ ESC_FLIP);
            proof {
                assert(final(self).stream() =~= old(self).stream() + escape_byte(byte));
            }
        } else {
            self.write_byte(byte);
            proof {
                assert(final(self).stream() =~= old(self).stream() + escape_byte(byte));
            }
        }
    }
}


/// The slot that holds the packet added `offset` packets before the newest,
/// in a ring of `cap` slots whose newest packet lies in slot `idx`.
pub open spec fn ring_slot(idx: nat, cap: nat, offset: nat) -> int {
    if idx < offset {
        idx + cap - offset
    } else {
        idx - offset
    }
}

/// The slot that takes the next packet.
pub open spec fn ring_next(idx: nat, cap: nat) -> nat
    recommends
        cap > 0,
{
    if idx + 1 < cap {
        idx + 1
    } else {
        0
    }
}

/// The packets that a queue holds, newest first.
pub open spec fn history<Q: PacketQueue>(q: &Q) -> Seq<Seq<u8>> {
    Seq::new(
        q.spec_len(),
        |k: int| contents(&q.slots()[ring_slot(q.spec_idx(), q.slots().len(), k as nat)]),
    )
}

/// Stores the most recent packets which have been sent, as many as it has
/// slots. Packets are added in a circular fashion: `idx` is the slot of the
/// most recently added packet.
pub trait PacketQueue: Sized {
    type Packet: PacketBuffer;

    /// All slots of the ring, in use or not.
    spec fn slots(&self) -> Seq<Self::Packet>;

    /// Number of packets in the queue.
    spec fn spec_len(&self) -> nat;

    /// Slot of the most recently added packet.
    spec fn spec_idx(&self) -> nat;

    /// Returns the maximum number of packets which can be stored.
    fn capacity(&self) -> (c: usize)
        ensures
            c == self.slots().len(),
    ;

    /// Returns the number of packets currently in the queue.
    fn len(&self) -> (n: usize)
        ensures
            n == self.spec_len(),
            n <= self.slots().len(),
    ;

    /// Sets the number of packets currently in the queue.
    fn set_len(&mut self, len: usize)
        requires
            len <= old(self).slots().len(),
        ensures
            final(self).spec_len() == len,
            final(self).spec_idx() == old(self).spec_idx(),
            final(self).slots() == old(self).slots(),
    ;

    /// Returns the slot of the most recently added packet.
    fn idx(&self) -> (i: usize)
        ensures
            i == self.spec_idx(),
            i == 0 || i < self.slots().len(),
    ;

    /// Sets the slot of the most recently added packet.
    fn set_idx(&mut self, idx: usize)
        requires
            idx == 0 || idx < old(self).slots().len(),
        ensures
            final(self).spec_idx() == idx,
            final(self).spec_len() == old(self).spec_len(),
            final(self).slots() == old(self).slots(),
    ;

    /// Returns the packet in the given slot, if there is such a slot.
    fn packet(&mut self, idx: usize) -> (p: Option<&mut Self::Packet>)
        ensures
            p is Some <==> idx < old(self).slots().len(),
            p is Some ==> *p.unwrap() == old(self).slots()[idx as int] && final(self).slots()
                == old(self).slots().update(idx as int, *final(p.unwrap())),
            p is None ==> final(self).slots() == old(self).slots(),
            final(self).spec_len() == old(self).spec_len(),
            final(self).spec_idx() == old(self).spec_idx(),
    ;

    /// Removes all packets from the queue.
    fn clear(&mut self)
        ensures
            final(self).spec_len() == 0,
            final(self).spec_idx() == 0,
            final(self).slots() == old(self).slots(),
    {
        self.set_len(0);
        self.set_idx(0);
    }

    /// Makes room for a packet and returns the slot that is to take it: the
    /// slot after the newest, which in a full queue holds the oldest.
    fn next(&mut self) -> (p: &mut Self::Packet)
        requires
            old(self).slots().len() > 0,
        ensures
            old(self).spec_idx() < old(self).slots().len(),
            old(self).spec_len() <= old(self).slots().len(),
            final(self).spec_len() == if old(self).spec_len() < old(self).slots().len() {
                old(self).spec_len() + 1
            } else {
                old(self).slots().len()
            },
            final(self).spec_idx() == ring_next(old(self).spec_idx(), old(self).slots().len()),
            *p == old(self).slots()[final(self).spec_idx() as int],
            final(self).slots() == old(self).slots().update(
                final(self).spec_idx() as int,
                *final(p),
            ),
    {
        let len: usize = self.len();
        let cap: usize = self.capacity();
        if len < cap {
            self.set_len(len + 1);
        }
        let newest: usize = self.idx();
        let next: usize = (newest + 1) % cap;
        proof {
            assert(next == ring_next(newest as nat, cap as nat)) by (nonlinear_arith)
                requires
                    newest < cap,
                    next == (newest + 1) % (cap as int),
            ;
        }
        self.set_idx(next);
        self.packet(next).unwrap()
    }

    /// Returns the offset'th most recent packet: 0 is the most recent, 1
    /// the packet before that, and so on. There is none at or beyond `len`.
    fn get(&mut self, offset: usize) -> (p: Option<&mut Self::Packet>)
        ensures
            p is Some <==> offset < old(self).spec_len(),
            p is Some ==> ({
                let slot = ring_slot(
                    old(self).spec_idx(),
                    old(self).slots().len(),
                    offset as nat,
                );
                &&& 0 <= slot < old(self).slots().len()
                &&& *p.unwrap() == old(self).slots()[slot]
                &&& final(self).slots() == old(self).slots().update(slot, *final(p.unwrap()))
            }),
            p is None ==> final(self).slots() == old(self).slots(),
            final(self).spec_len() == old(self).spec_len(),
            final(self).spec_idx() == old(self).spec_idx(),
    {
        if offset < self.len() {
            let cap: usize = self.capacity();
            let newest: usize = self.idx();
            let idx: usize = if newest < offset {
                newest + (cap - offset)
            } else {
                newest - offset
            };
            self.packet(idx)
        } else {
            None
        }
    }
}

/// The bundle of what a link needs from its caller: the receive buffer, the
/// way out, and the history of what was sent.
pub trait Storage: Sized {
    type Buffer: PacketBuffer;

    type Writer: PacketWriter;

    type Queue: PacketQueue;

    spec fn spec_rx_buf(&self) -> Self::Buffer;

    spec fn spec_tx_writer(&self) -> Self::Writer;

    spec fn spec_tx_queue(&self) -> Self::Queue;

    /// Returns a reference to the receive buffer.
    fn rx_buf(&mut self) -> (b: &mut Self::Buffer)
        ensures
            *b == old(self).spec_rx_buf(),
            final(self).spec_rx_buf() == *final(b),
            final(self).spec_tx_writer() == old(self).spec_tx_writer(),
            final(self).spec_tx_queue() == old(self).spec_tx_queue(),
    ;

    /// Returns a reference to the writer.
    fn tx_writer(&mut self) -> (w: &mut Self::Writer)
        ensures
            *w == old(self).spec_tx_writer(),
            final(self).spec_tx_writer() == *final(w),
            final(self).spec_rx_buf() == old(self).spec_rx_buf(),
            final(self).spec_tx_queue() == old(self).spec_tx_queue(),
    ;

    /// Returns a reference to the history of what was sent.
    fn tx_queue(&mut self) -> (q: &mut Self::Queue)
        ensures
            *q == old(self).spec_tx_queue(),
            final(self).spec_tx_queue() == *final(q),
            final(self).spec_rx_buf() == old(self).spec_rx_buf(),
            final(self).spec_tx_writer() == old(self).spec_tx_writer(),
    ;
}

} // verus!
