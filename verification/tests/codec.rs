use toytcp::packet::{compute_checksum, TCPPacket, MAX_SEGMENT_SIZE, TCP_HEADER_SIZE};
use toytcp::socket::TcpStatus;
use toytcp::tcpflags;

const SRC_IP: u32 = 0x0A00_0001; // 10.0.0.1
const DST_IP: u32 = 0x0A00_0002; // 10.0.0.2

/// An independent rendering of the IPv4 pseudo-header checksum, written
/// from the wire-format description alone, to hold the library's encoder
/// to it.
fn reference_checksum(src: u32, dst: u32, b: &[u8]) -> u16 {
    let mut sum: u64 = (src >> 16) as u64
        + (src & 0xFFFF) as u64
        + (dst >> 16) as u64
        + (dst & 0xFFFF) as u64
        + 6
        + b.len() as u64;
    let words = (b.len() + 1) / 2;
    for w in 0..words {
        if w == 8 {
            continue; // the checksum field itself counts as zero
        }
        let hi = b[2 * w] as u64;
        let lo = if 2 * w + 1 < b.len() { b[2 * w + 1] as u64 } else { 0 };
        sum += (hi << 8) | lo;
    }
    while sum >> 16 != 0 {
        sum = (sum & 0xFFFF) + (sum >> 16);
    }
    !(sum as u16)
}

fn build(
    src: u16,
    dst: u16,
    seq: u32,
    ack: u32,
    flag: u8,
    window: u16,
    payload: &[u8],
) -> TCPPacket {
    let mut p = TCPPacket::new(payload.len());
    p.set_src(src);
    p.set_dest(dst);
    p.set_seq(seq);
    p.set_ack(ack);
    p.set_data_offset(5);
    p.set_flag(flag);
    p.set_window_size(window);
    p.set_payload(payload);
    let c = compute_checksum(SRC_IP, DST_IP, p.packet());
    p.set_checksum(c);
    p
}

#[test]
fn round_trip_preserves_every_field() {
    let payload = b"some payload bytes";
    let p = build(
        40000,
        50123,
        0x01020304,
        0xA0B0C0D0,
        tcpflags::ACK | tcpflags::PSH,
        14600,
        payload,
    );
    assert_eq!(p.get_src(), 40000);
    assert_eq!(p.get_dest(), 50123);
    assert_eq!(p.get_seq(), 0x01020304);
    assert_eq!(p.get_ack(), 0xA0B0C0D0);
    assert_eq!(p.get_flag(), tcpflags::ACK | tcpflags::PSH);
    assert_eq!(p.get_window_size(), 14600);
    assert_eq!(p.payload(), payload.to_vec());
    assert_eq!(p.payload_len(), payload.len());
}

#[test]
fn encoder_output_passes_checksum_verification() {
    let p = build(1, 2, 3, 4, tcpflags::SYN, 5, b"abc");
    assert!(p.is_correct_checksum(SRC_IP, DST_IP));
    // under a different pseudo-header it must not
    assert!(!p.is_correct_checksum(SRC_IP, SRC_IP));
}

#[test]
fn checksum_matches_independent_computation() {
    for payload in [&b""[..], b"x", b"hello world", b"an odd-length payload!!"] {
        let p = build(40000, 40001, 1000, 2000, tcpflags::ACK, 512, payload);
        let expect = reference_checksum(SRC_IP, DST_IP, p.packet());
        assert_eq!(p.get_checksum(), expect);
    }
}

#[test]
fn corrupted_segment_fails_checksum_verification() {
    let p = build(7, 8, 9, 10, tcpflags::ACK, 11, b"payload");
    let mut bytes = p.packet().clone();
    bytes[24] ^= 0x01; // flip one payload bit
    let q = TCPPacket::from_bytes(&bytes).unwrap();
    assert!(!q.is_correct_checksum(SRC_IP, DST_IP));
}

#[test]
fn from_bytes_refuses_short_and_oversized_input() {
    assert!(TCPPacket::from_bytes(&vec![0u8; TCP_HEADER_SIZE - 1]).is_none());
    assert!(TCPPacket::from_bytes(&vec![0u8; TCP_HEADER_SIZE]).is_some());
    assert!(TCPPacket::from_bytes(&vec![0u8; MAX_SEGMENT_SIZE]).is_some());
    assert!(TCPPacket::from_bytes(&vec![0u8; MAX_SEGMENT_SIZE + 1]).is_none());
}

#[test]
fn from_bytes_keeps_bytes_exactly() {
    let p = build(21, 22, 23, 24, tcpflags::FIN | tcpflags::ACK, 25, b"tail");
    let q = TCPPacket::from_bytes(p.packet()).unwrap();
    assert_eq!(q.packet(), p.packet());
    assert_eq!(q.get_seq(), 23);
    assert_eq!(q.get_flag(), tcpflags::FIN | tcpflags::ACK);
}

#[test]
fn data_offset_sits_in_the_high_nibble() {
    let p = build(1, 2, 3, 4, tcpflags::SYN, 5, b"");
    assert_eq!(p.packet()[12] >> 4, 5);
}

#[test]
fn flag_to_string_names_each_set_bit() {
    assert_eq!(tcpflags::flag_to_string(tcpflags::SYN), "SYN ");
    assert_eq!(
        tcpflags::flag_to_string(tcpflags::SYN | tcpflags::ACK),
        "SYN ACK "
    );
    assert_eq!(
        tcpflags::flag_to_string(tcpflags::FIN | tcpflags::ACK),
        "ACK FIN "
    );
    assert_eq!(tcpflags::flag_to_string(0), "");
    assert_eq!(
        tcpflags::flag_to_string(0xFF),
        "SYN ACK FIN RST CWR ECE PSH URG "
    );
}

#[test]
fn status_renders_as_upper_case_name() {
    assert_eq!(TcpStatus::Established.as_str(), "ESTABLISHED");
    assert_eq!(TcpStatus::Listen.as_str(), "LISTEN");
    assert_eq!(TcpStatus::LastAck.as_str(), "LASTACK");
}
