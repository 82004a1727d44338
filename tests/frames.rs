use pktengine::endian::{be16_from, be32_from, be48_from};
use pktengine::packetref::PacketRef;

fn frame_from(bytes: &[u8]) -> PacketRef {
    let mut p = PacketRef::new(bytes.len() as u32, bytes.len() as u32, 7, 8, 100, 3);
    p.set_packet(bytes);
    p
}

/// An IPv4 frame without a VLAN tag, with the fields at the offsets this
/// library reads them from.
fn golden_tcp() -> Vec<u8> {
    let mut b = vec![0u8; 80];
    b[0..6].copy_from_slice(&[0x00, 0x11, 0x22, 0x33, 0x44, 0x55]);
    b[6..12].copy_from_slice(&[0xaa, 0xbb, 0xcc, 0xdd, 0xee, 0xff]);
    b[12] = 0x08;
    b[13] = 0x00;
    b[14] = 0x45;
    b[23] = 6;
    b[30..34].copy_from_slice(&[10, 0, 0, 1]);
    b[34] = 0x01;
    b[35] = 0xbb;
    b[36] = 0x1f;
    b[37] = 0x90;
    b[46] = 0x50;
    b
}

#[test]
fn golden_frame_fields() {
    let p = frame_from(&golden_tcp());
    assert_eq!(p.dst_mac(), 0x0011_2233_4455);
    assert_eq!(p.src_mac(), 0xaabb_ccdd_eeff);
    assert_eq!(p.ether_header(), 0x0800);
    assert_eq!(p.ether_type(), 0x0800);
    assert_eq!(p.vlan_id(), 1);
    assert_eq!(p.ip_proto(), 6);
    assert_eq!(p.sport(), 443);
    assert_eq!(p.src_ip(), 0x0a00_0001);
    assert_eq!(p.dst_ip(), 0x01bb_1f90);
    assert_eq!(p.dport(), 8080);
}

#[test]
fn metadata_getters() {
    let p = frame_from(&golden_tcp());
    assert_eq!(p.timestamp(), 7);
    assert_eq!(p.pkt_ptr(), 100);
    assert_eq!(p.file_ptr(), 3);
}

#[test]
fn vlan_tag_shifts_type_and_ports() {
    let mut b = vec![0u8; 84];
    b[12] = 0x81;
    b[13] = 0x00;
    b[14] = 0x00;
    b[15] = 0x64;
    b[16] = 0x08;
    b[17] = 0x00;
    b[27] = 17;
    b[38] = 0x00;
    b[39] = 0x35;
    b[40] = 0x12;
    b[41] = 0x34;
    let p = frame_from(&b);
    assert_eq!(p.ether_header(), 0x8100);
    assert_eq!(p.ether_type(), 0x0800);
    assert_eq!(p.vlan_id(), 100);
    assert_eq!(p.ip_proto(), 17);
    assert_eq!(p.sport(), 53);
    assert_eq!(p.dport(), 0x1234);
}

#[test]
fn not_ipv4_gives_zeros() {
    let mut b = golden_tcp();
    b[12] = 0x08;
    b[13] = 0x06;
    let p = frame_from(&b);
    assert_eq!(p.ether_type(), 0x0806);
    assert_eq!(p.src_ip(), 0);
    assert_eq!(p.dst_ip(), 0);
    assert_eq!(p.ip_proto(), 0);
    assert_eq!(p.sport(), 0);
    assert_eq!(p.dport(), 0);
}

#[test]
fn short_non_ipv4_frame_reads_no_ip_fields() {
    let mut b = vec![0u8; 14];
    b[12] = 0x86;
    b[13] = 0xdd;
    let p = frame_from(&b);
    assert_eq!(p.ether_type(), 0x86dd);
    assert_eq!(p.src_ip(), 0);
    assert_eq!(p.ip_proto(), 0);
}

#[test]
fn tcp_header_and_payload_lengths() {
    let p = frame_from(&golden_tcp());
    assert_eq!(p._get_ip_header_len(), 16);
    assert_eq!(p._get_tcp_header_len(), 20);
    assert_eq!(p._get_udp_header_len(), 8);
    assert_eq!(p._get_header_len(), 14 + 16 + 20);
    assert_eq!(p._get_payload().len(), 80 - 50);
    assert_eq!(p._get_data_len(), 30);
}

#[test]
fn udp_header_and_payload_lengths() {
    let mut b = golden_tcp();
    b[23] = 17;
    let p = frame_from(&b);
    assert_eq!(p._get_header_len(), 14 + 16 + 8);
    let payload = p._get_payload();
    assert_eq!(payload.len(), 80 - 38);
    assert_eq!(payload[0], b[38]);
}

#[test]
fn other_protocol_payload_is_whole_frame() {
    let mut b = golden_tcp();
    b[23] = 1;
    let p = frame_from(&b);
    assert_eq!(p._get_header_len(), 80);
    assert_eq!(p._get_payload(), b);
}

#[test]
fn header_bytes_and_record_header() {
    let b = golden_tcp();
    let mut p = PacketRef::new(80, 1500, 0x0102_0304, 0x0a0b_0c0d, 0, 0);
    p.set_packet(&b);
    let full = p._pkt_header(false);
    assert_eq!(
        full,
        [1, 2, 3, 4, 0x0a, 0x0b, 0x0c, 0x0d, 0, 0, 0, 80, 0, 0, 0x05, 0xdc]
    );
    let whole = p._get_packet(false);
    assert_eq!(whole, b);
    let head = p._get_packet(true);
    assert_eq!(head, b[0..50].to_vec());
    let cut = p._pkt_header(true);
    assert_eq!(&cut[8..12], &[0, 0, 0, 50]);
}

#[test]
fn header_only_record_header() {
    let mut p = frame_from(&golden_tcp());
    let h = p._pkt_header(true);
    assert_eq!(&h[0..4], &[0, 0, 0, 7]);
    assert_eq!(&h[8..12], &[0, 0, 0, 50]);
    let head = p._get_header();
    assert_eq!(head.len(), 50);
}

#[test]
fn address_text() {
    let p = frame_from(&golden_tcp());
    assert_eq!(p._dst_mac_str(), "0:11:22:33:44:55");
    assert_eq!(p._src_mac_str(), "aa:bb:cc:dd:ee:ff");
    let mut b = golden_tcp();
    b[26..30].copy_from_slice(&[192, 168, 0, 7]);
    b[30..34].copy_from_slice(&[10, 99, 100, 255]);
    let q = frame_from(&b);
    assert_eq!(q._src_ip_str(), "192.168.0.7");
    assert_eq!(q._dst_ip_str(), "10.99.100.255");
}

#[test]
fn big_endian_reads() {
    let b = [0x12u8, 0x34, 0x56, 0x78, 0x9a, 0xbc, 0xde];
    assert_eq!(be16_from(&b, 1), 0x3456);
    assert_eq!(be32_from(&b, 0), 0x1234_5678);
    assert_eq!(be48_from(&b, 1), 0x3456_789a_bcde);
}
