use wg_toolkit::checksum::calc_checksum;
use wg_toolkit::config::PacketConfig;
use wg_toolkit::flags::PacketFlags;
use wg_toolkit::packet::Packet;
use wg_toolkit::raw::RawPacket;
use wg_toolkit::reply::{Reply, ReplyHeader, REPLY_ID};

#[test]
fn test_raw_new() {
    let r = RawPacket::new();
    assert_eq!(r.len(), 6);
    assert_eq!(r.max_len(), 1472);
    assert_eq!(r.available_len(), 1466);
    assert_eq!(r.max_body_len(), 1468);
    assert_eq!(r.body_len(), 2);
    assert!(r.raw_data().iter().all(|&b| b == 0));
}

#[test]
fn test_raw_prefix_flags() {
    let mut r = RawPacket::new();
    r.write_prefix(0xDEADBEEF);
    r.write_flags(0x0123);
    assert_eq!(r.read_prefix(), 0xDEADBEEF);
    assert_eq!(r.read_flags(), 0x0123);
    assert_eq!(r.data(), &[0xEF, 0xBE, 0xAD, 0xDE, 0x23, 0x01]);
    assert_eq!(r.body_data(), &[0x23, 0x01]);
}

#[test]
fn test_raw_grow_shrink() {
    let mut r = RawPacket::new();
    r.grow_write(&[10, 20, 30]);
    assert_eq!(r.len(), 9);
    assert_eq!(r.data(), &[0, 0, 0, 0, 0, 0, 10, 20, 30]);
    // Shrinking frees the tail but leaves the bytes for rollback.
    let freed = r.shrink_read(2);
    assert_eq!(freed, vec![20, 30]);
    assert_eq!(r.len(), 7);
    r.grow(2);
    assert_eq!(r.data(), &[0, 0, 0, 0, 0, 0, 10, 20, 30]);
    r.shrink(3);
    assert_eq!(r.len(), 6);
}

#[test]
fn test_raw_set_len_and_reset() {
    let mut r = RawPacket::new();
    r.write_prefix(0xFFFFFFFF);
    r.write_flags(0xFFFF);
    r.set_len(100);
    assert_eq!(r.len(), 100);
    r.reset();
    assert_eq!(r.len(), 6);
    assert_eq!(r.read_prefix(), 0);
    assert_eq!(r.read_flags(), 0);
}

#[test]
fn test_raw_int_helpers() {
    let mut r = RawPacket::new();
    r.write_u32_at(6, 0x11223344);
    r.write_u16_at(10, 0x5566);
    r.write_u8_at(12, 0x77);
    assert_eq!(r.read_u32_at(6), 0x11223344);
    assert_eq!(r.read_u16_at(10), 0x5566);
    assert_eq!(r.read_u8_at(12), 0x77);
}

#[test]
fn test_raw_data_mut_receive() {
    // Filling the raw slice is how a datagram arrives.
    let mut r = RawPacket::new();
    let wire = [1u8, 2, 3, 4, 5, 6, 7, 8];
    r.raw_data_mut()[..8].copy_from_slice(&wire);
    r.set_len(8);
    assert_eq!(r.data(), &wire);
}

#[test]
fn test_packet_reset_idempotent() {
    // One reset and two resets leave the very same state.
    let mut p = Packet::new();
    p.raw_mut().write_prefix(7);
    p.grow_write(&[9; 10]);
    p.set_first_request_offset(3);
    p.reset();
    let once_len = p.raw().len();
    let once_data = p.raw().raw_data().to_vec();
    let once_fro = p.first_request_offset();
    p.reset();
    assert_eq!(p.raw().len(), once_len);
    assert_eq!(p.raw().raw_data(), &once_data[..]);
    assert_eq!(p.first_request_offset(), once_fro);
    assert_eq!(p.len(), 0);
}

#[test]
fn test_packet_offsets() {
    let mut p = Packet::new();
    assert_eq!(p.max_len(), 1433);
    assert_eq!(p.len(), 0);
    assert_eq!(p.available_len(), 1433);
    assert_eq!(p.first_request_offset(), None);
    p.set_first_request_offset(2);
    assert_eq!(p.first_request_offset(), Some(2));
    p.clear_first_request_offset();
    assert_eq!(p.first_request_offset(), None);
    p.grow(5);
    assert_eq!(p.len(), 5);
    assert_eq!(p.available_len(), 1428);
    assert_eq!(p.footer_len(), 0);
    assert_eq!(p.footer_available_len(), 33);
}

#[test]
fn test_packet_new_boxed() {
    let p = Packet::new_boxed();
    assert_eq!(p.len(), 0);
    assert_eq!(p.raw().len(), 6);
}

#[test]
fn test_flags_ops() {
    let mut f = PacketFlags(0);
    f.enable(0x0001);
    f.enable(0x0100);
    assert!(f.has(0x0001));
    assert!(f.has_requests());
    assert!(f.has_checksum());
    assert!(!f.has_piggybacks());
    f.disable(0x0001);
    assert!(!f.has_requests());
    assert_eq!(f.0, 0x0100);
    f.enable(0x0002);
    assert!(f.has_piggybacks());
}

#[test]
fn test_config_defaults_and_setters() {
    let mut c = PacketConfig::new();
    assert_eq!(c.sequence_num(), 0);
    assert_eq!(c.sequence_range(), None);
    assert!(!c.reliable());
    assert_eq!(c.cumulative_ack(), None);
    assert!(!c.on_channel());
    assert!(!c.has_checksum());
    assert!(c.single_acks().is_empty());

    c.set_sequence_num(9);
    assert_eq!(c.sequence_num(), 9);
    c.set_sequence_range(2, 8);
    assert_eq!(c.sequence_range(), Some((2, 8)));
    c.clear_sequence_range();
    assert_eq!(c.sequence_range(), None);
    c.set_cumulative_ack(5);
    assert_eq!(c.cumulative_ack(), Some(5));
    c.clear_cumulative_ack();
    assert_eq!(c.cumulative_ack(), None);
    c.set_reliable(true);
    assert!(c.reliable());
    c.set_on_channel(true);
    assert!(c.on_channel());
    c.set_checksum(true);
    assert!(c.has_checksum());
    c.single_acks_mut().push(4);
    assert_eq!(c.single_acks().as_slice(), &[4]);
}

#[test]
fn test_checksum_words() {
    // The checksum XORs complete little-endian words and ignores the tail.
    assert_eq!(calc_checksum(&[]), 0);
    assert_eq!(calc_checksum(&[1, 2, 3]), 0);
    assert_eq!(calc_checksum(&[0x44, 0x33, 0x22, 0x11]), 0x11223344);
    assert_eq!(
        calc_checksum(&[0x44, 0x33, 0x22, 0x11, 0x44, 0x33, 0x22, 0x11]),
        0,
    );
    assert_eq!(
        calc_checksum(&[0x01, 0x00, 0x00, 0x00, 0x02, 0x00, 0x00, 0x00, 0xFF]),
        3,
    );
}

#[test]
fn test_reply_new() {
    let r = Reply::new(42, [1u8, 2]);
    assert_eq!(r.request_id, 42);
    assert_eq!(r.element, [1, 2]);
    let h = ReplyHeader { request_id: 7 };
    assert_eq!(h.request_id, 7);
    assert_eq!(REPLY_ID, 0xFF);
}
