//! Storage on the heap for a link: a bounded buffer, a writer that collects
//! what is sent, a ring of buffers, and the bundle of the three.

use vstd::prelude::*;
use vstd::slice::slice_subrange;
use crate::traits::{PacketBuffer, PacketQueue, PacketWriter, Storage, contents, history};

verus! {

/// A packet buffer whose storage is allocated once, when it is made.
pub struct VecBuffer {
    buf: Vec<u8>,
    len: usize,
}

impl VecBuffer {
    /// A buffer of the given capacity, with no valid bytes.
    pub fn new(capacity: usize) -> (r: Self)
        ensures
            r.storage().len() == capacity,
            r.spec_len() == 0,
            contents(&r) == Seq::<u8>::empty(),
    {
        let r = VecBuffer { buf: vec![0u8; capacity], len: 0 };
        proof {
            assert(contents(&r) =~= Seq::<u8>::empty());
        }
        r
    }
}

impl PacketBuffer for VecBuffer {
    closed spec fn storage(&self) -> Seq<u8> {
        self.buf@
    }

    closed spec fn spec_len(&self) -> nat {
        if self.len <= self.buf@.len() {
            self.len as nat
        } else {
            self.buf@.len()
        }
    }

    fn capacity(&self) -> (c: usize) {
        self.buf.len()
    }

    fn len(&self) -> (n: usize) {
        if self.len <= self.buf.len() {
            self.len
        } else {
            self.buf.len()
        }
    }

    fn set_len(&mut self, len: usize) {
        self.len = len;
    }

    fn data(&self) -> (d: &[u8]) {
        let n: usize = self.len();
        slice_subrange(self.buf.as_slice(), 0, n)
    }

    fn store_byte_at(&mut self, idx: usize, byte: u8) {
        self.buf[idx] = byte;
    }
}

/// A writer that collects the stream in memory.
pub struct VecWriter {
    bytes: Vec<u8>,
}

impl VecWriter {
    /// A writer to which nothing has been written.
    pub fn new() -> (r: Self)
        ensures
            r.stream() == Seq::<u8>::empty(),
    {
        VecWriter { bytes: Vec::new() }
    }

    /// The stream so far.
    pub fn written(&self) -> (d: &[u8])
        ensures
            d@ == self.stream(),
    {
        self.bytes.as_slice()
    }

    /// Forgets the stream so far, so that the stream begins anew.
    pub fn clear(&mut self)
        ensures
            final(self).stream() == Seq::<u8>::empty(),
    {
        self.bytes.clear();
    }
}

impl PacketWriter for VecWriter {
    closed spec fn stream(&self) -> Seq<u8> {
        self.bytes@
    }

    fn write_byte(&mut self, byte: u8) {
        self.bytes.push(byte);
    }
}

/// A ring of packet buffers, all of one capacity.
pub struct RingQueue {
    packets: Vec<VecBuffer>,
    len: usize,
    idx: usize,
}

impl RingQueue {
    /// An empty ring of `slots` buffers, each of capacity `packet_capacity`.
    pub fn new(slots: usize, packet_capacity: usize) -> (r: Self)
        ensures
            r.slots().len() == slots,
            r.spec_len() == 0,
            r.spec_idx() == 0,
            history(&r) == Seq::<Seq<u8>>::empty(),
            forall|i: int| 0 <= i < slots ==> (#[trigger] r.slots()[i]).storage().len()
                == packet_capacity,
    {
        let mut packets: Vec<VecBuffer> = Vec::new();
        let mut i: usize = 0;
        while i < slots
            invariant
                i <= slots,
                packets@.len() == i,
                forall|k: int| 0 <= k < i ==> (#[trigger] packets@[k]).storage().len()
                    == packet_capacity,
            decreases slots - i,
        {
            packets.push(VecBuffer::new(packet_capacity));
            i += 1;
        }
        let r = RingQueue { packets, len: 0, idx: 0 };
        proof {
            assert(history(&r) =~= Seq::<Seq<u8>>::empty());
        }
        r
    }
}

impl PacketQueue for RingQueue {
    type Packet = VecBuffer;

    closed spec fn slots(&self) -> Seq<VecBuffer> {
        self.packets@
    }

    closed spec fn spec_len(&self) -> nat {
        if self.len <= self.packets@.len() {
            self.len as nat
        } else {
            self.packets@.len()
        }
    }

    closed spec fn spec_idx(&self) -> nat {
        if self.idx < self.packets@.len() {
            self.idx as nat
        } else {
            0
        }
    }

    fn capacity(&self) -> (c: usize) {
        self.packets.len()
    }

    fn len(&self) -> (n: usize) {
        if self.len <= self.packets.len() {
            self.len
        } else {
            self.packets.len()
        }
    }

    fn set_len(&mut self, len: usize) {
        self.len = len;
    }

    fn idx(&self) -> (i: usize) {
        if self.idx < self.packets.len() {
            self.idx
        } else {
            0
        }
    }

    fn set_idx(&mut self, idx: usize) {
        self.idx = idx;
    }

    fn packet(&mut self, idx: usize) -> (p: Option<&mut VecBuffer>) {
        if idx < self.packets.len() {
            Some(&mut self.packets[idx])
        } else {
            None
        }
    }
}

/// The three parts of a link's storage, each on the heap.
pub struct VecStorage {
    rx_buf: VecBuffer,
    tx_writer: VecWriter,
    tx_queue: RingQueue,
}

impl VecStorage {
    /// Storage whose receive buffer and history slots take `packet_capacity`
    /// bytes each, with `history_slots` slots of history; nothing received,
    /// nothing written, nothing remembered.
    pub fn new(packet_capacity: usize, history_slots: usize) -> (r: Self)
        ensures
            r.spec_rx_buf().storage().len() == packet_capacity,
            contents(&r.spec_rx_buf()) == Seq::<u8>::empty(),
            r.spec_tx_writer().stream() == Seq::<u8>::empty(),
            r.spec_tx_queue().slots().len() == history_slots,
            r.spec_tx_queue().spec_len() == 0,
            r.spec_tx_queue().spec_idx() == 0,
            history(&r.spec_tx_queue()) == Seq::<Seq<u8>>::empty(),
            forall|i: int|
                0 <= i < history_slots ==> (#[trigger] r.spec_tx_queue().slots()[i]).storage().len()
                    == packet_capacity,
    {
        VecStorage {
            rx_buf: VecBuffer::new(packet_capacity),
            tx_writer: VecWriter::new(),
            tx_queue: RingQueue::new(history_slots, packet_capacity),
        }
    }

    /// The valid bytes of the receive buffer.
    pub fn rx_data(&self) -> (d: &[u8])
        ensures
            d@ == contents(&self.spec_rx_buf()),
    {
        self.rx_buf.data()
    }

    /// What has been written since the stream began.
    pub fn tx_data(&self) -> (d: &[u8])
        ensures
            d@ == self.spec_tx_writer().stream(),
    {
        self.tx_writer.written()
    }
}

impl Storage for VecStorage {
    type Buffer = VecBuffer;

    type Writer = VecWriter;

    type Queue = RingQueue;

    closed spec fn spec_rx_buf(&self) -> VecBuffer {
        self.rx_buf
    }

    closed spec fn spec_tx_writer(&self) -> VecWriter {
        self.tx_writer
    }

    closed spec fn spec_tx_queue(&self) -> RingQueue {
        self.tx_queue
    }

    fn rx_buf(&mut self) -> (b: &mut VecBuffer) {
        &mut self.rx_buf
    }

    fn tx_writer(&mut self) -> (w: &mut VecWriter) {
        &mut self.tx_writer
    }

    fn tx_queue(&mut self) -> (q: &mut RingQueue) {
        &mut self.tx_queue
    }
}

} // verus!
