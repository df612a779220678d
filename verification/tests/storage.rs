use serial_framing::storage::{RingQueue, VecBuffer, VecStorage, VecWriter};
use serial_framing::traits::{PacketBuffer, PacketQueue, PacketWriter, Storage};

#[test]
fn buffer_appends_up_to_its_capacity() {
    let mut buf = VecBuffer::new(3);
    assert_eq!(buf.capacity(), 3);
    assert_eq!(buf.len(), 0);
    assert!(buf.is_empty());
    assert_eq!(buf.append(1), Ok(()));
    assert_eq!(buf.append(2), Ok(()));
    assert!(!buf.is_empty());
    assert_eq!(buf.append(3), Ok(()));
    assert_eq!(buf.append(4), Err(()));
    assert_eq!(buf.data(), &[1, 2, 3]);
    assert_eq!(buf.len(), 3);
    buf.reset();
    assert_eq!(buf.len(), 0);
    assert_eq!(buf.data(), &[] as &[u8]);
    assert_eq!(buf.capacity(), 3);
}

#[test]
fn buffer_of_no_capacity_takes_nothing() {
    let mut buf = VecBuffer::new(0);
    assert_eq!(buf.append(1), Err(()));
    buf.store_data(&[1, 2, 3]);
    assert!(buf.is_empty());
    assert_eq!(buf.remove_crc(), 0);
}

#[test]
fn buffer_removes_the_crc_low_byte_first() {
    let mut buf = VecBuffer::new(8);
    buf.store_data(&[0xaa, 0xbb, 0x34, 0x12]);
    assert_eq!(buf.remove_crc(), 0x1234);
    assert_eq!(buf.data(), &[0xaa, 0xbb]);
    assert_eq!(buf.remove_crc(), 0xbbaa);
    assert_eq!(buf.len(), 0);
    assert_eq!(buf.remove_crc(), 0);
    buf.store_data(&[0x55]);
    assert_eq!(buf.remove_crc(), 0);
    assert_eq!(buf.data(), &[0x55]);
}

#[test]
fn buffer_stores_what_fits() {
    let mut buf = VecBuffer::new(4);
    buf.store_data(&[1, 2]);
    assert_eq!(buf.data(), &[1, 2]);
    buf.store_data(&[9, 8, 7, 6, 5, 4]);
    assert_eq!(buf.data(), &[9, 8, 7, 6]);
    buf.store_data(&[]);
    assert!(buf.is_empty());
    buf.set_len(3);
    assert_eq!(buf.data(), &[9, 8, 7]);
    buf.store_byte_at(1, 0x42);
    assert_eq!(buf.data(), &[9, 0x42, 7]);
}

#[test]
fn writer_collects_the_stream() {
    let mut writer = VecWriter::new();
    assert_eq!(writer.written(), &[] as &[u8]);
    writer.start_write();
    writer.write_byte(1);
    writer.write_byte(0x7e);
    writer.end_write();
    assert_eq!(writer.written(), &[1, 0x7e]);
    writer.start_write();
    writer.write_byte(2);
    assert_eq!(writer.written(), &[1, 0x7e, 2]);
    writer.clear();
    assert_eq!(writer.written(), &[] as &[u8]);
}

#[test]
fn writer_escapes_and_accumulates() {
    let mut writer = VecWriter::new();
    let mut crc = serial_framing::crc::Crc::new();
    writer.write_escaped_byte(&mut crc, 0x7e);
    writer.write_escaped_byte(&mut crc, 0x7d);
    writer.write_escaped_byte(&mut crc, 0x5e);
    assert_eq!(writer.written(), &[0x7d, 0x5e, 0x7d, 0x5d, 0x5e]);
    let mut expected = serial_framing::crc::Crc::new();
    expected.accum_bytes(&[0x7e, 0x7d, 0x5e]);
    assert_eq!(crc.crc(), expected.crc());

    let mut writer = VecWriter::new();
    let mut crc = serial_framing::crc::Crc::new();
    writer.write_escaped_bytes(&mut crc, &[0xc0]);
    writer.write_crc(&mut crc);
    assert_eq!(writer.written(), &[0xc0, 0x74, 0x36]);
    assert_eq!(crc.crc(), 0xf0b8);
}

#[test]
fn writer_frames_two_packets_back_to_back() {
    let mut writer = VecWriter::new();
    writer.write_packet_data(0xc0, &[]);
    writer.write_packet_data(0xc1, &[]);
    assert_eq!(
        writer.written(),
        &[0x7e, 0xc0, 0x74, 0x36, 0x7e, 0x7e, 0xc1, 0xfd, 0x27, 0x7e]
    );
}

fn newest_first(queue: &mut RingQueue) -> Vec<Vec<u8>> {
    let mut packets = Vec::new();
    for offset in 0..queue.len() {
        packets.push(queue.get(offset).unwrap().data().to_vec());
    }
    packets
}

#[test]
fn queue_keeps_the_most_recent_packets() {
    let mut queue = RingQueue::new(3, 4);
    assert_eq!(queue.capacity(), 3);
    assert_eq!(queue.len(), 0);
    assert!(queue.get(0).is_none());
    queue.next().store_data(&[1]);
    assert_eq!(queue.len(), 1);
    assert_eq!(newest_first(&mut queue), vec![vec![1]]);
    assert!(queue.get(1).is_none());
    queue.next().store_data(&[2]);
    queue.next().store_data(&[3]);
    assert_eq!(queue.len(), 3);
    assert_eq!(newest_first(&mut queue), vec![vec![3], vec![2], vec![1]]);
    // Overflow replaces the oldest silently.
    queue.next().store_data(&[4]);
    assert_eq!(queue.len(), 3);
    assert_eq!(newest_first(&mut queue), vec![vec![4], vec![3], vec![2]]);
    queue.next().store_data(&[5, 6, 7, 8, 9]);
    assert_eq!(newest_first(&mut queue), vec![vec![5, 6, 7, 8], vec![4], vec![3]]);
    assert!(queue.get(3).is_none());
    queue.clear();
    assert_eq!(queue.len(), 0);
    assert_eq!(queue.idx(), 0);
    assert!(queue.get(0).is_none());
    queue.next().store_data(&[9]);
    assert_eq!(newest_first(&mut queue), vec![vec![9]]);
}

#[test]
fn queue_slots_are_reached_by_index() {
    let mut queue = RingQueue::new(2, 4);
    assert!(queue.packet(0).is_some());
    assert!(queue.packet(1).is_some());
    assert!(queue.packet(2).is_none());
    queue.next().store_data(&[7]);
    assert_eq!(queue.idx(), 1);
    assert_eq!(queue.packet(1).unwrap().data(), &[7]);
    queue.next().store_data(&[8]);
    assert_eq!(queue.idx(), 0);
    assert_eq!(queue.packet(0).unwrap().data(), &[8]);
    queue.set_idx(1);
    queue.set_len(1);
    assert_eq!(queue.get(0).unwrap().data(), &[7]);
    assert!(queue.get(1).is_none());
}

#[test]
fn storage_hands_out_its_parts() {
    let mut storage = VecStorage::new(32, 4);
    assert_eq!(storage.rx_buf().capacity(), 32);
    assert_eq!(storage.tx_queue().capacity(), 4);
    storage.rx_buf().store_data(&[1, 2, 3]);
    storage.tx_writer().write_byte(9);
    assert_eq!(storage.rx_data(), &[1, 2, 3]);
    assert_eq!(storage.tx_data(), &[9]);
    storage.tx_queue().next().store_data(&[4, 5]);
    assert_eq!(storage.tx_queue().get(0).unwrap().data(), &[4, 5]);
    assert_eq!(storage.tx_queue().get(0).unwrap().capacity(), 32);
}

#[test]
fn buffer_dumps_its_contents_as_hex() {
    let mut buf = VecBuffer::new(32);
    buf.store_data(&[0xc0, 0x11, 0x5e]);
    let text = buf.dump();
    assert!(text.starts_with("Length: 3 (0x3) bytes\n0000:   c0 11 5e"));
    assert!(text.ends_with("..^"));
    assert_eq!(text, pretty_hex::pretty_hex(&buf.data()));
    assert_ne!(text.as_bytes(), buf.data());
    buf.reset();
    assert_eq!(buf.dump(), "Length: 0 (0x0) bytes\n");
    let data: Vec<u8> = (0x40..0x54).collect();
    buf.store_data(&data);
    assert_eq!(
        buf.dump(),
        "Length: 20 (0x14) bytes\n\
         0000:   40 41 42 43  44 45 46 47  48 49 4a 4b  4c 4d 4e 4f   @ABCDEFGHIJKLMNO\n\
         0010:   50 51 52 53                                          PQRS"
    );
}
