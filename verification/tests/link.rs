use serial_framing::packet::PacketType;
use serial_framing::storage::VecStorage;
use serial_framing::traits::{PacketQueue, PacketWriter, Storage, SOF};
use serial_framing::{ConnectState, Context, ParseResult, Transmitter};

const PACKET_SIZE: usize = 256;
const QUEUE_SIZE: usize = 8;

const SYN0: [u8; 5] = [SOF, 0xc0, 0x74, 0x36, SOF];
const SYN1: [u8; 5] = [SOF, 0xc1, 0xfd, 0x27, SOF];
const SYN2: [u8; 5] = [SOF, 0xc2, 0x66, 0x15, SOF];
const DIS: [u8; 5] = [SOF, 0xc3, 0xef, 0x04, SOF];

fn new_storage() -> VecStorage {
    VecStorage::new(PACKET_SIZE, QUEUE_SIZE)
}

fn tx_vec(storage: &VecStorage) -> Vec<u8> {
    storage.tx_data().to_vec()
}

// Parse a bunch of bytes and return the first return code that isn't
// MoreDataNeeded. This means that this function will parse at most one
// error or packet from the input stream, which is fine for testing.
fn parse_bytes(ctx: &mut Context, bytes: &[u8], storage: &mut VecStorage) -> ParseResult {
    storage.tx_writer().clear(); // Clears the output buffer.
    for byte in bytes.iter() {
        let parse_result = ctx.parse_byte(*byte, storage);
        match parse_result {
            ParseResult::MoreDataNeeded => {
                continue;
            }
            other => {
                return other;
            }
        }
    }
    ParseResult::MoreDataNeeded
}

fn write_packet(ctx: &mut Context, data: &[u8], storage: &mut VecStorage) -> bool {
    storage.tx_writer().clear();
    ctx.write_packet(data, storage)
}

// Two sides that have shaken hands.
fn connected_pair() -> (Context, VecStorage, Context, VecStorage) {
    let mut storage1 = new_storage();
    let mut storage2 = new_storage();
    let mut ctx1 = Context::new();
    let mut ctx2 = Context::new();
    ctx1.connect(&mut storage1);
    let wire = tx_vec(&storage1);
    parse_bytes(&mut ctx2, &wire, &mut storage2);
    let wire = tx_vec(&storage2);
    parse_bytes(&mut ctx1, &wire, &mut storage1);
    let wire = tx_vec(&storage1);
    parse_bytes(&mut ctx2, &wire, &mut storage2);
    storage1.tx_writer().clear();
    storage2.tx_writer().clear();
    assert!(ctx1.is_connected());
    assert!(ctx2.is_connected());
    (ctx1, storage1, ctx2, storage2)
}

fn history_of(storage: &mut VecStorage) -> Vec<Vec<u8>> {
    let queue = storage.tx_queue();
    let mut packets = Vec::new();
    let len = queue.len();
    for offset in 0..len {
        let packet = queue.get(offset).unwrap();
        packets.push(serial_framing::traits::PacketBuffer::data(packet).to_vec());
    }
    assert!(queue.get(len).is_none());
    packets
}

#[test]
fn test_connect() {
    let mut storage1 = new_storage();
    let mut storage2 = new_storage();

    let mut ctx1 = Context::new();
    let mut ctx2 = Context::new();

    ctx1.connect(&mut storage1);

    // This should put a SYN0 packet into packet2
    assert_eq!(tx_vec(&storage1), vec![SOF, 0xc0, 0x74, 0x36, SOF]);

    // Sending the SYN0 to the other side, should generate a SYN1 in response
    let wire = tx_vec(&storage1);
    assert_eq!(
        parse_bytes(&mut ctx2, &wire, &mut storage2),
        ParseResult::MoreDataNeeded
    );
    assert_eq!(tx_vec(&storage2), vec![SOF, 0xc1, 0xfd, 0x27, SOF]);

    // Sending SYN1 to initial side should generate a SYN2 in response Side 1 should be connected
    let wire = tx_vec(&storage2);
    assert_eq!(
        parse_bytes(&mut ctx1, &wire, &mut storage1),
        ParseResult::MoreDataNeeded
    );
    assert!(ctx1.is_connected());
    assert_eq!(tx_vec(&storage1), vec![SOF, 0xc2, 0x66, 0x15, SOF]);

    // Sending the SYN2 to Side 2 should then put it into a connected state
    let wire = tx_vec(&storage1);
    assert_eq!(
        parse_bytes(&mut ctx2, &wire, &mut storage2),
        ParseResult::MoreDataNeeded
    );
    assert!(ctx2.is_connected());
    assert_eq!(tx_vec(&storage2), vec![]);

    // Send a User packet from Side 1 to Side 2

    write_packet(&mut ctx1, "Testing".as_bytes(), &mut storage1);
    assert_eq!(
        tx_vec(&storage1),
        vec![SOF, 0x00, 0x54, 0x65, 0x73, 0x74, 0x69, 0x6e, 0x67, 0xc5, 0x5c, SOF]
    );
    let wire = tx_vec(&storage1);
    assert_eq!(
        parse_bytes(&mut ctx2, &wire, &mut storage2),
        ParseResult::UserPacket
    );
    assert_eq!(storage2.rx_data(), "Testing".as_bytes());
    assert_eq!(tx_vec(&storage2), vec![]);
}

#[test]
fn new_context_is_disconnected() {
    let ctx = Context::new();
    assert!(!ctx.is_connected());
    assert_eq!(ctx.rx_seq(), 0);
    assert_eq!(ctx.tx_seq(), 0);
}

#[test]
fn user_payload_moves_both_sequence_numbers() {
    let (mut ctx1, mut storage1, mut ctx2, mut storage2) = connected_pair();
    assert_eq!(ctx1.tx_seq(), 0);
    assert_eq!(ctx2.rx_seq(), 0);
    assert!(write_packet(&mut ctx1, b"Testing", &mut storage1));
    assert_eq!(ctx1.tx_seq(), 1);
    assert_eq!(ctx1.rx_seq(), 0);
    let wire = tx_vec(&storage1);
    assert_eq!(
        parse_bytes(&mut ctx2, &wire, &mut storage2),
        ParseResult::UserPacket
    );
    assert_eq!(ctx2.rx_seq(), 1);
    assert_eq!(ctx2.tx_seq(), 0);
    assert_eq!(storage2.rx_data(), b"Testing");
}

#[test]
fn sequence_numbers_wrap_at_64() {
    let (mut ctx1, mut storage1, mut ctx2, mut storage2) = connected_pair();
    for n in 0..130u32 {
        assert_eq!(ctx1.tx_seq() as u32, n % 64);
        assert_eq!(ctx2.rx_seq() as u32, n % 64);
        let payload = [n as u8, 0x7e, 0x7d];
        assert!(write_packet(&mut ctx1, &payload, &mut storage1));
        let wire = tx_vec(&storage1);
        assert_eq!(wire[1], (n % 64) as u8);
        assert_eq!(
            parse_bytes(&mut ctx2, &wire, &mut storage2),
            ParseResult::UserPacket
        );
        assert_eq!(storage2.rx_data(), &payload[..]);
        assert_eq!(tx_vec(&storage2), vec![]);
    }
    assert_eq!(ctx1.tx_seq(), 2);
    assert_eq!(ctx2.rx_seq(), 2);
}

#[test]
fn crc_error_leaves_the_connection_alone() {
    let (_ctx1, _storage1, mut ctx2, mut storage2) = connected_pair();
    assert_eq!(
        parse_bytes(&mut ctx2, &[0x7e, 0x00, 0x00, 0x00, 0x7e], &mut storage2),
        ParseResult::CrcError(0x0000)
    );
    assert!(ctx2.is_connected());
    assert_eq!(ctx2.rx_seq(), 0);
    assert_eq!(ctx2.tx_seq(), 0);
    assert_eq!(tx_vec(&storage2), vec![]);

    let mut fresh = Context::new();
    let mut storage = new_storage();
    assert_eq!(
        parse_bytes(&mut fresh, &[0x7e, 0x00, 0x00, 0x00, 0x7e], &mut storage),
        ParseResult::CrcError(0x0000)
    );
    assert!(!fresh.is_connected());
    assert_eq!(tx_vec(&storage), vec![]);
}

#[test]
fn too_small_is_reported() {
    let mut ctx = Context::new();
    let mut storage = new_storage();
    assert_eq!(
        parse_bytes(&mut ctx, &[0x7e, 0x00, SOF], &mut storage),
        ParseResult::PacketTooSmall
    );
    assert_eq!(
        parse_bytes(&mut ctx, &[0x7e, 0x00, 0x00, 0x7e], &mut storage),
        ParseResult::PacketTooSmall
    );
    assert_eq!(tx_vec(&storage), vec![]);
}

#[test]
fn abort_gives_no_response() {
    let (_ctx1, _storage1, mut ctx2, mut storage2) = connected_pair();
    assert_eq!(
        parse_bytes(&mut ctx2, &[0x7e, 0xc0, 0x11, 0x7d, 0x7e], &mut storage2),
        ParseResult::AbortedPacket
    );
    assert_eq!(tx_vec(&storage2), vec![]);
    assert!(ctx2.is_connected());
    // A valid frame that follows parses normally.
    let wire = [SOF, 0x00, 0x54, 0x65, 0x73, 0x74, 0x69, 0x6e, 0x67, 0xc5, 0x5c, SOF];
    assert_eq!(
        parse_bytes(&mut ctx2, &wire, &mut storage2),
        ParseResult::UserPacket
    );
    assert_eq!(storage2.rx_data(), b"Testing");
}

#[test]
fn write_packet_needs_a_connection() {
    let mut ctx = Context::new();
    let mut storage = new_storage();
    assert!(!ctx.write_packet(b"lost", &mut storage));
    assert_eq!(tx_vec(&storage), vec![]);
    assert_eq!(ctx.tx_seq(), 0);
    assert_eq!(history_of(&mut storage), Vec::<Vec<u8>>::new());

    ctx.connect(&mut storage);
    storage.tx_writer().clear();
    // Waiting for SYN1 is not being connected.
    assert!(!ctx.write_packet(b"lost", &mut storage));
    assert_eq!(tx_vec(&storage), vec![]);
    assert_eq!(ctx.tx_seq(), 0);
    assert_eq!(history_of(&mut storage), Vec::<Vec<u8>>::new());
}

#[test]
fn out_of_order_user_packet_is_answered_with_nak() {
    let (_ctx1, _storage1, mut ctx2, mut storage2) = connected_pair();
    // USR with sequence number 1, while 0 is expected.
    let wire = [0x7e, 0x01, 0x61, 0x62, 0x89, 0xa0, 0x7e];
    assert_eq!(
        parse_bytes(&mut ctx2, &wire, &mut storage2),
        ParseResult::MoreDataNeeded
    );
    assert_eq!(tx_vec(&storage2), vec![0x7e, 0x80, 0x70, 0x74, 0x7e]);
    assert_eq!(ctx2.rx_seq(), 0);
}

#[test]
fn out_of_order_retransmission_is_ignored() {
    let (_ctx1, _storage1, mut ctx2, mut storage2) = connected_pair();
    // RTX with sequence number 1, while 0 is expected.
    let wire = [0x7e, 0x41, 0x62, 0xed, 0x10, 0x7e];
    assert_eq!(
        parse_bytes(&mut ctx2, &wire, &mut storage2),
        ParseResult::MoreDataNeeded
    );
    assert_eq!(tx_vec(&storage2), vec![]);
    assert_eq!(ctx2.rx_seq(), 0);
    // RTX with the expected number is delivered.
    let wire = [0x7e, 0x40, 0x61, 0xae, 0x3b, 0x7e];
    assert_eq!(
        parse_bytes(&mut ctx2, &wire, &mut storage2),
        ParseResult::UserPacket
    );
    assert_eq!(storage2.rx_data(), b"a");
    assert_eq!(ctx2.rx_seq(), 1);
}

#[test]
fn user_packet_before_the_handshake_is_corrected() {
    let user = [SOF, 0x00, 0x54, 0x65, 0x73, 0x74, 0x69, 0x6e, 0x67, 0xc5, 0x5c, SOF];

    // Disconnected: DIS.
    let mut ctx = Context::new();
    let mut storage = new_storage();
    assert_eq!(
        parse_bytes(&mut ctx, &user, &mut storage),
        ParseResult::MoreDataNeeded
    );
    assert_eq!(tx_vec(&storage), DIS.to_vec());
    assert!(!ctx.is_connected());

    // SentSyn0: SYN0 again.
    ctx.connect(&mut storage);
    assert_eq!(
        parse_bytes(&mut ctx, &user, &mut storage),
        ParseResult::MoreDataNeeded
    );
    assert_eq!(tx_vec(&storage), SYN0.to_vec());

    // SentSyn1: SYN1 again.
    let mut ctx = Context::new();
    let mut storage = new_storage();
    parse_bytes(&mut ctx, &SYN0, &mut storage);
    assert_eq!(
        parse_bytes(&mut ctx, &user, &mut storage),
        ParseResult::MoreDataNeeded
    );
    assert_eq!(tx_vec(&storage), SYN1.to_vec());
    assert!(!ctx.is_connected());
    assert_eq!(ctx.rx_seq(), 0);
}

#[test]
fn handshake_packets_in_each_state() {
    // Disconnected: SYN1 and SYN2 are answered with DIS.
    let mut ctx = Context::new();
    let mut storage = new_storage();
    assert_eq!(parse_bytes(&mut ctx, &SYN1, &mut storage), ParseResult::MoreDataNeeded);
    assert_eq!(tx_vec(&storage), DIS.to_vec());
    assert!(!ctx.is_connected());
    assert_eq!(parse_bytes(&mut ctx, &SYN2, &mut storage), ParseResult::MoreDataNeeded);
    assert_eq!(tx_vec(&storage), DIS.to_vec());
    assert!(!ctx.is_connected());

    // SentSyn0: SYN2 is answered with SYN0, and the state stays.
    ctx.connect(&mut storage);
    assert_eq!(parse_bytes(&mut ctx, &SYN2, &mut storage), ParseResult::MoreDataNeeded);
    assert_eq!(tx_vec(&storage), SYN0.to_vec());
    assert!(!ctx.is_connected());

    // SentSyn0: SYN1 connects and is answered with SYN2.
    assert_eq!(parse_bytes(&mut ctx, &SYN1, &mut storage), ParseResult::MoreDataNeeded);
    assert_eq!(tx_vec(&storage), SYN2.to_vec());
    assert!(ctx.is_connected());

    // Connected: DIS disconnects, without an answer.
    assert_eq!(parse_bytes(&mut ctx, &DIS, &mut storage), ParseResult::MoreDataNeeded);
    assert_eq!(tx_vec(&storage), vec![]);
    assert!(!ctx.is_connected());

    // Any state: SYN0 is answered with SYN1.
    assert_eq!(parse_bytes(&mut ctx, &SYN0, &mut storage), ParseResult::MoreDataNeeded);
    assert_eq!(tx_vec(&storage), SYN1.to_vec());
    assert!(!ctx.is_connected());

    // SentSyn1: SYN2 connects, without an answer.
    assert_eq!(parse_bytes(&mut ctx, &SYN2, &mut storage), ParseResult::MoreDataNeeded);
    assert_eq!(tx_vec(&storage), vec![]);
    assert!(ctx.is_connected());
}

#[test]
fn syn_frame_of_no_kind_is_no_packet() {
    let (_ctx1, _storage1, mut ctx2, mut storage2) = connected_pair();
    let wire = [0x7e, 0xc4, 0x50, 0x70, 0x7e];
    assert_eq!(
        parse_bytes(&mut ctx2, &wire, &mut storage2),
        ParseResult::MoreDataNeeded
    );
    assert_eq!(tx_vec(&storage2), vec![]);
    assert!(ctx2.is_connected());
}

#[test]
fn sent_packets_are_remembered_newest_first() {
    let (mut ctx1, mut storage1, _ctx2, _storage2) = connected_pair();
    assert_eq!(history_of(&mut storage1), Vec::<Vec<u8>>::new());
    write_packet(&mut ctx1, b"a", &mut storage1);
    assert_eq!(history_of(&mut storage1), vec![b"a".to_vec()]);
    write_packet(&mut ctx1, b"b", &mut storage1);
    write_packet(&mut ctx1, b"c", &mut storage1);
    assert_eq!(
        history_of(&mut storage1),
        vec![b"c".to_vec(), b"b".to_vec(), b"a".to_vec()]
    );
    // The ring has 8 slots: the 9th and 10th packets push the oldest out.
    for n in 0..7u8 {
        write_packet(&mut ctx1, &[n], &mut storage1);
    }
    assert_eq!(
        history_of(&mut storage1),
        vec![
            vec![6],
            vec![5],
            vec![4],
            vec![3],
            vec![2],
            vec![1],
            vec![0],
            b"c".to_vec()
        ]
    );
    // Connecting again forgets what was sent.
    ctx1.connect(&mut storage1);
    assert_eq!(history_of(&mut storage1), Vec::<Vec<u8>>::new());
    assert_eq!(ctx1.tx_seq(), 0);
}

#[test]
fn syn0_forgets_what_was_sent() {
    let (mut ctx1, mut storage1, _ctx2, _storage2) = connected_pair();
    write_packet(&mut ctx1, b"a", &mut storage1);
    write_packet(&mut ctx1, b"b", &mut storage1);
    assert_eq!(ctx1.tx_seq(), 2);
    assert_eq!(parse_bytes(&mut ctx1, &SYN0, &mut storage1), ParseResult::MoreDataNeeded);
    assert_eq!(tx_vec(&storage1), SYN1.to_vec());
    assert_eq!(ctx1.tx_seq(), 0);
    assert_eq!(ctx1.rx_seq(), 0);
    assert!(!ctx1.is_connected());
    assert_eq!(history_of(&mut storage1), Vec::<Vec<u8>>::new());
}

#[test]
fn nak_brings_retransmission_from_the_number_asked_for() {
    let (mut ctx1, mut storage1, mut ctx2, mut storage2) = connected_pair();
    write_packet(&mut ctx1, b"a", &mut storage1);
    write_packet(&mut ctx1, b"b", &mut storage1);
    write_packet(&mut ctx1, b"c", &mut storage1);
    // NAK 1: the packets numbered 1 and 2 travel again, as RTX frames.
    let nak1 = [0x7e, 0x81, 0xf9, 0x65, 0x7e];
    assert_eq!(parse_bytes(&mut ctx1, &nak1, &mut storage1), ParseResult::MoreDataNeeded);
    assert_eq!(
        tx_vec(&storage1),
        vec![0x7e, 0x41, 0x62, 0xed, 0x10, 0x7e, 0x7e, 0x42, 0x63, 0x0c, 0x2b, 0x7e]
    );
    assert_eq!(ctx1.tx_seq(), 3);
    assert_eq!(
        history_of(&mut storage1),
        vec![b"c".to_vec(), b"b".to_vec(), b"a".to_vec()]
    );
    // NAK 3: nothing has been sent under 3 yet.
    let nak3 = [0x7e, 0x83];
    let mut wire = nak3.to_vec();
    let mut crc = serial_framing::crc::Crc::new();
    crc.accum(0x83);
    wire.push(crc.lsb());
    wire.push(crc.msb());
    wire.push(0x7e);
    assert_eq!(parse_bytes(&mut ctx1, &wire, &mut storage1), ParseResult::MoreDataNeeded);
    assert_eq!(tx_vec(&storage1), vec![]);

    // The peer, which has seen nothing, takes the first retransmission
    // that carries the number it expects, and ignores the others.
    let nak0 = [0x7e, 0x80, 0x70, 0x74, 0x7e];
    parse_bytes(&mut ctx1, &nak0, &mut storage1);
    let replay = tx_vec(&storage1);
    assert_eq!(
        replay,
        vec![
            0x7e, 0x40, 0x61, 0xae, 0x3b, 0x7e, 0x7e, 0x41, 0x62, 0xed, 0x10, 0x7e, 0x7e, 0x42,
            0x63, 0x0c, 0x2b, 0x7e
        ]
    );
    let mut delivered: Vec<Vec<u8>> = Vec::new();
    for byte in replay.iter() {
        if ctx2.parse_byte(*byte, &mut storage2) == ParseResult::UserPacket {
            delivered.push(storage2.rx_data().to_vec());
        }
    }
    assert_eq!(delivered, vec![b"a".to_vec(), b"b".to_vec(), b"c".to_vec()]);
    assert_eq!(ctx2.rx_seq(), 3);
    assert_eq!(tx_vec(&storage2), vec![]);
}

#[test]
fn retransmission_is_limited_to_what_the_history_holds() {
    let mut storage1 = VecStorage::new(PACKET_SIZE, 2);
    let mut ctx1 = Context::new();
    ctx1.connect(&mut storage1);
    parse_bytes(&mut ctx1, &SYN1, &mut storage1);
    assert!(ctx1.is_connected());
    write_packet(&mut ctx1, b"a", &mut storage1);
    write_packet(&mut ctx1, b"b", &mut storage1);
    write_packet(&mut ctx1, b"c", &mut storage1);
    let nak0 = [0x7e, 0x80, 0x70, 0x74, 0x7e];
    assert_eq!(parse_bytes(&mut ctx1, &nak0, &mut storage1), ParseResult::MoreDataNeeded);
    assert_eq!(
        tx_vec(&storage1),
        vec![0x7e, 0x41, 0x62, 0xed, 0x10, 0x7e, 0x7e, 0x42, 0x63, 0x0c, 0x2b, 0x7e]
    );
}

#[test]
fn repeated_handshake_replays_what_was_sent() {
    let (mut ctx1, mut storage1, _ctx2, _storage2) = connected_pair();
    write_packet(&mut ctx1, b"a", &mut storage1);
    write_packet(&mut ctx1, b"b", &mut storage1);
    // SYN2 on a connected link that has sent packets: they travel again.
    assert_eq!(parse_bytes(&mut ctx1, &SYN2, &mut storage1), ParseResult::MoreDataNeeded);
    assert_eq!(
        tx_vec(&storage1),
        vec![0x7e, 0x40, 0x61, 0xae, 0x3b, 0x7e, 0x7e, 0x41, 0x62, 0xed, 0x10, 0x7e]
    );
    assert!(ctx1.is_connected());
    // SYN1: SYN2 first, then the packets.
    assert_eq!(parse_bytes(&mut ctx1, &SYN1, &mut storage1), ParseResult::MoreDataNeeded);
    assert_eq!(
        tx_vec(&storage1),
        vec![
            0x7e, 0xc2, 0x66, 0x15, 0x7e, 0x7e, 0x40, 0x61, 0xae, 0x3b, 0x7e, 0x7e, 0x41, 0x62,
            0xed, 0x10, 0x7e
        ]
    );
    assert_eq!(ctx1.tx_seq(), 2);
}

#[test]
fn storage_without_history_still_sends() {
    let mut storage = VecStorage::new(PACKET_SIZE, 0);
    let mut ctx = Context::new();
    ctx.connect(&mut storage);
    parse_bytes(&mut ctx, &SYN1, &mut storage);
    assert!(write_packet(&mut ctx, b"a", &mut storage));
    assert_eq!(tx_vec(&storage), vec![0x7e, 0x00, 0x61, 0xc8, 0x7d, 0x5d, 0x7e]);
    assert_eq!(ctx.tx_seq(), 1);
    let nak0 = [0x7e, 0x80, 0x70, 0x74, 0x7e];
    assert_eq!(parse_bytes(&mut ctx, &nak0, &mut storage), ParseResult::MoreDataNeeded);
    assert_eq!(tx_vec(&storage), vec![]);
}

#[test]
fn transmitter_handles_classified_packets() {
    let mut storage = new_storage();
    let mut tx = Transmitter::new();
    assert_eq!(tx.connect_state(), ConnectState::Disconnected);
    assert_eq!(
        tx.handle_packet(PacketType::Syn0, &mut storage),
        ParseResult::MoreDataNeeded
    );
    assert_eq!(tx.connect_state(), ConnectState::SentSyn1);
    assert_eq!(tx_vec(&storage), SYN1.to_vec());
    storage.tx_writer().clear();
    assert_eq!(
        tx.handle_packet(PacketType::Syn2, &mut storage),
        ParseResult::MoreDataNeeded
    );
    assert_eq!(tx.connect_state(), ConnectState::Connected);
    assert_eq!(
        tx.handle_packet(PacketType::USR { seq: 0 }, &mut storage),
        ParseResult::UserPacket
    );
    assert_eq!(tx.rx_seq(), 1);
    assert_eq!(
        tx.handle_packet(PacketType::RTX { seq: 1 }, &mut storage),
        ParseResult::UserPacket
    );
    assert_eq!(tx.rx_seq(), 2);
    assert_eq!(tx_vec(&storage), vec![]);
    assert_eq!(
        tx.handle_packet(PacketType::USR { seq: 5 }, &mut storage),
        ParseResult::MoreDataNeeded
    );
    // NAK carries the number expected next: 2.
    let mut crc = serial_framing::crc::Crc::new();
    crc.accum(0x82);
    assert_eq!(tx_vec(&storage), vec![0x7e, 0x82, crc.lsb(), crc.msb(), 0x7e]);
    assert_eq!(tx.rx_seq(), 2);
    assert_eq!(tx.tx_seq(), 0);
    tx.handle_frame_disconnect();
    assert_eq!(tx.connect_state(), ConnectState::Disconnected);
    assert_eq!(tx.next_frame_seq(0), 1);
    assert_eq!(tx.next_frame_seq(62), 63);
    assert_eq!(tx.next_frame_seq(63), 0);
}
