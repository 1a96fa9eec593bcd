use wg_toolkit::checksum::calc_checksum;
use wg_toolkit::codec::PacketSyncError;
use wg_toolkit::config::PacketConfig;
use wg_toolkit::packet::Packet;

#[test]
fn test_empty_default() {
    // Empty body, default config: six bytes, all zero.
    let mut p = Packet::new();
    let mut cfg = PacketConfig::new();
    p.sync_data(&mut cfg);
    assert_eq!(p.raw().len(), 6);
    assert_eq!(p.raw().data(), &[0, 0, 0, 0, 0, 0]);
    assert_eq!(p.footer_len(), 0);

    let mut decoded = PacketConfig::new();
    let r = p.sync_state(6, &mut decoded);
    assert!(r.is_ok());
    assert_eq!(p.len(), 0);
    assert_eq!(p.data(), &[] as &[u8]);
    assert!(!decoded.reliable());
    assert!(!decoded.on_channel());
    assert_eq!(decoded.sequence_range(), None);
    assert_eq!(decoded.cumulative_ack(), None);
    assert!(decoded.single_acks().is_empty());
}

#[test]
fn test_reliable_seq7() {
    // Body DE AD BE EF, reliable, sequence number 7.
    let mut p = Packet::new();
    p.grow_write(&[0xDE, 0xAD, 0xBE, 0xEF]);
    let mut cfg = PacketConfig::new();
    cfg.set_reliable(true);
    cfg.set_sequence_num(7);
    p.sync_data(&mut cfg);

    assert_eq!(p.raw().read_flags(), 0x0050);
    assert_eq!(p.raw().len(), 14);
    assert_eq!(
        p.raw().data(),
        &[0x00, 0x00, 0x00, 0x00, 0x50, 0x00, 0xDE, 0xAD, 0xBE, 0xEF, 0x07, 0x00, 0x00, 0x00],
    );

    let mut decoded = PacketConfig::new();
    let r = p.sync_state(14, &mut decoded);
    assert!(r.is_ok());
    assert_eq!(p.data(), &[0xDE, 0xAD, 0xBE, 0xEF]);
    assert!(decoded.reliable());
    assert_eq!(decoded.sequence_num(), 7);
    assert_eq!(decoded.sequence_range(), None);
}

#[test]
fn test_fragment_range() {
    // Body 01, fragment range (3, 5), sequence number 4.
    let mut p = Packet::new();
    p.grow_write(&[0x01]);
    let mut cfg = PacketConfig::new();
    cfg.set_sequence_range(3, 5);
    cfg.set_sequence_num(4);
    p.sync_data(&mut cfg);

    assert_eq!(p.raw().read_flags(), 0x0060);
    assert_eq!(p.raw().len(), 19);
    assert_eq!(
        p.raw().data(),
        &[
            0x00, 0x00, 0x00, 0x00, 0x60, 0x00, 0x01, 0x03, 0x00, 0x00, 0x00, 0x05, 0x00, 0x00,
            0x00, 0x04, 0x00, 0x00, 0x00,
        ],
    );

    let mut decoded = PacketConfig::new();
    let r = p.sync_state(19, &mut decoded);
    assert!(r.is_ok());
    assert_eq!(decoded.sequence_range(), Some((3, 5)));
    assert_eq!(decoded.sequence_num(), 4);
    assert!(!decoded.reliable());
}

#[test]
fn test_acks_overflow() {
    // Ten queued acks but room for only six: a reliable packet with a
    // request offset leaves 33 - 2 - 4 - 1 = 26 bytes of room. The encode
    // pops six acks, the queue keeps the last four for a later packet.
    let mut p = Packet::new();
    p.set_first_request_offset(2);
    let mut cfg = PacketConfig::new();
    cfg.set_reliable(true);
    cfg.set_sequence_num(1);
    for n in 1..=10 {
        cfg.single_acks_mut().push(n);
    }
    p.sync_data(&mut cfg);

    assert_eq!(cfg.single_acks().as_slice(), &[7, 8, 9, 10]);
    // Trailer: offset (2) + sequence (4) + six acks (24) + count byte (1).
    assert_eq!(p.footer_len(), 31);
    // The count byte sits just before the end of the datagram.
    let count_at = p.raw().len() - 1;
    assert_eq!(p.raw().read_u8_at(count_at), 6);

    let len = p.raw().len();
    let mut decoded = PacketConfig::new();
    let r = p.sync_state(len, &mut decoded);
    assert!(r.is_ok());
    assert_eq!(decoded.single_acks().as_slice(), &[1, 2, 3, 4, 5, 6]);
}

#[test]
fn test_cumulative_ack_checksum() {
    // Thirty-two zero body bytes, cumulative ack 0x11223344, checksum on.
    let mut p = Packet::new();
    p.grow_write(&[0u8; 32]);
    let mut cfg = PacketConfig::new();
    cfg.set_cumulative_ack(0x11223344);
    cfg.set_checksum(true);
    p.sync_data(&mut cfg);

    assert_eq!(p.raw().read_flags(), 0x0500);
    assert_eq!(p.raw().len(), 46);
    // The checksum covers flags, body and the cumulative ack: the XOR of
    // the complete little-endian words of that region.
    let mut region = Vec::new();
    region.extend_from_slice(&[0x00, 0x05]);
    region.extend_from_slice(&[0u8; 32]);
    region.extend_from_slice(&[0x44, 0x33, 0x22, 0x11]);
    let ck = calc_checksum(&region);
    assert_eq!(ck, 0x33440500);
    let tail = &p.raw().data()[38..46];
    assert_eq!(tail, &[0x44, 0x33, 0x22, 0x11, 0x00, 0x05, 0x44, 0x33]);

    let mut decoded = PacketConfig::new();
    let r = p.sync_state(46, &mut decoded);
    assert!(r.is_ok());
    assert_eq!(decoded.cumulative_ack(), Some(0x11223344));
}

#[test]
fn test_checksum_flip_detected() {
    // Flipping a body byte of a checksummed packet fails the decode.
    let mut p = Packet::new();
    p.grow_write(&[0u8; 32]);
    let mut cfg = PacketConfig::new();
    cfg.set_cumulative_ack(0x11223344);
    cfg.set_checksum(true);
    p.sync_data(&mut cfg);
    let len = p.raw().len();

    p.raw_mut().write_u8_at(7, 0xFF);
    let mut decoded = PacketConfig::new();
    let r = p.sync_state(len, &mut decoded);
    assert_eq!(r, Err(PacketSyncError::InvalidChecksum));
}

#[test]
fn test_unknown_flags() {
    // A datagram whose flag word carries the reserved piggybacks bit is
    // rejected with the offending bits.
    let mut p = Packet::new();
    p.raw_mut().write_flags(0x0002);
    let mut decoded = PacketConfig::new();
    let r = p.sync_state(6, &mut decoded);
    assert_eq!(r, Err(PacketSyncError::UnknownFlags(0x0002)));
}

#[test]
fn test_round_trip_full() {
    // Every trailer field at once survives the round trip.
    let mut p = Packet::new();
    p.raw_mut().write_prefix(0xAABBCCDD);
    p.grow_write(&[0x10, 0x20, 0x30, 0x40, 0x50]);
    p.set_first_request_offset(4);
    let mut cfg = PacketConfig::new();
    cfg.set_sequence_range(3, 9);
    cfg.set_sequence_num(5);
    cfg.set_reliable(true);
    cfg.set_on_channel(true);
    cfg.set_cumulative_ack(0x55);
    cfg.set_checksum(true);
    cfg.single_acks_mut().push(11);
    cfg.single_acks_mut().push(22);
    cfg.single_acks_mut().push(33);
    p.sync_data(&mut cfg);
    // With every other field present the budget leaves room for two acks:
    // 33 - 8 - 2 - 4 - 4 - 4 - 1 = 10 bytes.
    assert_eq!(cfg.single_acks().as_slice(), &[33]);
    let len = p.raw().len();
    assert!(p.footer_len() <= 33);

    // Receive the bytes into a fresh packet, as a datagram would arrive.
    let mut q = Packet::new();
    let wire = p.raw().data().to_vec();
    q.raw_mut().raw_data_mut()[..len].copy_from_slice(&wire);
    let mut decoded = PacketConfig::new();
    let r = q.sync_state(len, &mut decoded);
    assert!(r.is_ok());
    assert_eq!(q.data(), &[0x10, 0x20, 0x30, 0x40, 0x50]);
    assert_eq!(q.first_request_offset(), Some(4));
    assert_eq!(q.raw().read_prefix(), 0xAABBCCDD);
    assert_eq!(decoded.sequence_range(), Some((3, 9)));
    assert_eq!(decoded.sequence_num(), 5);
    assert!(decoded.reliable());
    assert!(decoded.on_channel());
    assert_eq!(decoded.cumulative_ack(), Some(0x55));
    assert_eq!(decoded.single_acks().as_slice(), &[11, 22]);
}

#[test]
fn test_deterministic_encode() {
    // Encoding the same body and config twice gives byte-identical output.
    let mut w1 = Vec::new();
    let mut w2 = Vec::new();
    for out in [&mut w1, &mut w2] {
        let mut p = Packet::new();
        p.grow_write(&[1, 2, 3]);
        let mut cfg = PacketConfig::new();
        cfg.set_reliable(true);
        cfg.set_sequence_num(42);
        cfg.set_checksum(true);
        cfg.single_acks_mut().push(9);
        p.sync_data(&mut cfg);
        out.extend_from_slice(p.raw().data());
    }
    assert_eq!(w1, w2);
}

#[test]
fn test_ack_fifo() {
    // When the whole queue fits, the acks come back in queue order.
    let mut p = Packet::new();
    let mut cfg = PacketConfig::new();
    for n in [14, 3, 99, 2, 55] {
        cfg.single_acks_mut().push(n);
    }
    p.sync_data(&mut cfg);
    assert!(cfg.single_acks().is_empty());
    let len = p.raw().len();
    let mut decoded = PacketConfig::new();
    let r = p.sync_state(len, &mut decoded);
    assert!(r.is_ok());
    assert_eq!(decoded.single_acks().as_slice(), &[14, 3, 99, 2, 55]);
}

#[test]
fn test_leftover_acks_next_packet() {
    // Acks the first trailer could not take go out with the next packet.
    let mut cfg = PacketConfig::new();
    for n in 1..=10 {
        cfg.single_acks_mut().push(n);
    }
    let mut first = Packet::new();
    first.set_first_request_offset(2);
    cfg.set_reliable(true);
    first.sync_data(&mut cfg);
    assert_eq!(cfg.single_acks().as_slice(), &[7, 8, 9, 10]);

    let mut second = Packet::new();
    second.sync_data(&mut cfg);
    assert!(cfg.single_acks().is_empty());

    let mut decoded = PacketConfig::new();
    let len1 = first.raw().len();
    assert!(first.sync_state(len1, &mut decoded).is_ok());
    let len2 = second.raw().len();
    assert!(second.sync_state(len2, &mut decoded).is_ok());
    assert_eq!(decoded.single_acks().as_slice(), &[1, 2, 3, 4, 5, 6, 7, 8, 9, 10]);
}

#[test]
fn test_decode_zero_cumulative_rejected() {
    // A cumulative ack of zero on the wire is the absent sentinel: invalid.
    let mut p = Packet::new();
    p.raw_mut().write_flags(0x0400);
    p.raw_mut().set_len(10);
    p.raw_mut().write_u32_at(6, 0);
    let mut decoded = PacketConfig::new();
    assert_eq!(p.sync_state(10, &mut decoded), Err(PacketSyncError::Corrupted));
}

#[test]
fn test_decode_zero_ack_count_rejected() {
    // An acks trailer with a zero count byte is invalid.
    let mut p = Packet::new();
    p.raw_mut().write_flags(0x0004);
    p.raw_mut().set_len(7);
    p.raw_mut().write_u8_at(6, 0);
    let mut decoded = PacketConfig::new();
    assert_eq!(p.sync_state(7, &mut decoded), Err(PacketSyncError::Corrupted));
}

#[test]
fn test_decode_bad_request_offset_rejected() {
    // A request offset pointing inside the flag word is invalid.
    let mut p = Packet::new();
    p.raw_mut().write_flags(0x0001);
    p.raw_mut().set_len(8);
    p.raw_mut().write_u16_at(6, 1);
    let mut decoded = PacketConfig::new();
    assert_eq!(p.sync_state(8, &mut decoded), Err(PacketSyncError::Corrupted));
}

#[test]
fn test_decode_bad_fragment_range_rejected() {
    // A fragment range whose first bound is not below its last is invalid.
    let mut p = Packet::new();
    p.raw_mut().write_flags(0x0020);
    p.raw_mut().set_len(14);
    p.raw_mut().write_u32_at(6, 5);
    p.raw_mut().write_u32_at(10, 3);
    let mut decoded = PacketConfig::new();
    assert_eq!(p.sync_state(14, &mut decoded), Err(PacketSyncError::Corrupted));
}

#[test]
fn test_decode_short_footer_rejected() {
    // A flag word announcing a field the datagram has no room for.
    let mut p = Packet::new();
    p.raw_mut().write_flags(0x0040);
    let mut decoded = PacketConfig::new();
    assert_eq!(p.sync_state(6, &mut decoded), Err(PacketSyncError::Corrupted));
}

#[test]
fn test_decode_oversized_footer_rejected() {
    // A count byte of nine acks makes the trailer 37 bytes, over the bound.
    let mut p = Packet::new();
    p.raw_mut().write_flags(0x0004);
    p.raw_mut().set_len(43);
    p.raw_mut().write_u8_at(42, 9);
    let mut decoded = PacketConfig::new();
    assert_eq!(p.sync_state(43, &mut decoded), Err(PacketSyncError::Corrupted));
}

#[test]
fn test_flag_closure_on_success() {
    // Whatever decodes successfully carries only known flag bits.
    let known: u16 = 0x057D;
    let mut p = Packet::new();
    p.grow_write(&[7; 10]);
    let mut cfg = PacketConfig::new();
    cfg.set_reliable(true);
    cfg.set_sequence_num(3);
    cfg.set_checksum(true);
    p.sync_data(&mut cfg);
    let len = p.raw().len();
    let mut decoded = PacketConfig::new();
    assert!(p.sync_state(len, &mut decoded).is_ok());
    assert_eq!(p.raw().read_flags() & !known, 0);
}

#[test]
fn test_trailer_bound_largest() {
    // Even with every field present the trailer stays within its bound,
    // and the largest body still fits the datagram.
    let mut p = Packet::new();
    let body = vec![0xABu8; 1433];
    assert_eq!(p.available_len(), 1433);
    p.grow_write(&body);
    assert_eq!(p.available_len(), 0);
    p.set_first_request_offset(2);
    let mut cfg = PacketConfig::new();
    cfg.set_sequence_range(1, 2);
    cfg.set_sequence_num(1);
    cfg.set_reliable(true);
    cfg.set_on_channel(true);
    cfg.set_cumulative_ack(1);
    cfg.set_checksum(true);
    for n in 0..10 {
        cfg.single_acks_mut().push(n);
    }
    p.sync_data(&mut cfg);
    assert!(p.footer_len() <= 33);
    assert!(p.raw().len() <= 1472);

    let len = p.raw().len();
    let mut decoded = PacketConfig::new();
    assert!(p.sync_state(len, &mut decoded).is_ok());
    assert_eq!(p.data(), &body[..]);
}

#[test]
fn test_reset_after_error_reuses_packet() {
    // After a rejected datagram the packet is reset and decodes again.
    let mut p = Packet::new();
    p.raw_mut().write_flags(0x0002);
    let mut decoded = PacketConfig::new();
    assert!(p.sync_state(6, &mut decoded).is_err());
    p.reset();
    assert_eq!(p.raw().len(), 6);
    p.grow_write(&[5, 6]);
    let mut cfg = PacketConfig::new();
    p.sync_data(&mut cfg);
    let len = p.raw().len();
    assert!(p.sync_state(len, &mut decoded).is_ok());
    assert_eq!(p.data(), &[5, 6]);
}

#[test]
fn test_stale_trailer_rebuilt() {
    // A second sync_data drops the first trailer and rebuilds it.
    let mut p = Packet::new();
    p.grow_write(&[1, 2, 3, 4]);
    let mut cfg = PacketConfig::new();
    cfg.set_reliable(true);
    cfg.set_sequence_num(1);
    p.sync_data(&mut cfg);
    assert_eq!(p.raw().len(), 14);

    let mut cfg2 = PacketConfig::new();
    p.sync_data(&mut cfg2);
    assert_eq!(p.raw().len(), 10);
    assert_eq!(p.raw().read_flags(), 0);
    assert_eq!(p.data(), &[1, 2, 3, 4]);
}
