use tcp_stack::tcp_header::{TcpFlags, TcpHeader, TcpOption};
use tcp_stack::wire::checksum;

// A SYN from port 40000 to port 7878, seq 0x11223344, with the options a Linux
// client sends: MSS 1460, SACK permitted, timestamps, NOP, window scale 7.
fn linux_syn() -> Vec<u8> {
    let mut b = vec![
        0x9c, 0x40, 0x1e, 0xc6, 0x11, 0x22, 0x33, 0x44, 0x00, 0x00, 0x00, 0x00, 0xa0, 0x02, 0xfa,
        0xf0, 0x00, 0x00, 0x00, 0x00,
    ];
    b.extend_from_slice(&[
        0x02, 0x04, 0x05, 0xb4, 0x04, 0x02, 0x08, 0x0a, 0x00, 0x0a, 0xbc, 0xde, 0x00, 0x00, 0x00,
        0x00, 0x01, 0x03, 0x03, 0x07,
    ]);
    b
}

fn with_options(option_bytes: &[u8]) -> Vec<u8> {
    let mut b = linux_syn()[..20].to_vec();
    b[12] = (((20 + option_bytes.len()) / 4) as u8) << 4;
    b.extend_from_slice(option_bytes);
    b
}

fn pseudo(src: u32, dst: u32, len: usize) -> Vec<u8> {
    let mut p = Vec::new();
    p.extend_from_slice(&src.to_be_bytes());
    p.extend_from_slice(&dst.to_be_bytes());
    p.push(0);
    p.push(6);
    p.extend_from_slice(&(len as u16).to_be_bytes());
    p
}

#[test]
fn build_reads_linux_syn() {
    let b = linux_syn();
    let h = TcpHeader::build(&b);
    assert_eq!(h.get_source_port(), 40000);
    assert_eq!(h.get_destination_port(), 7878);
    assert_eq!(h.get_sequence_number(), 0x1122_3344);
    assert_eq!(h.get_acknowledgment_number(), 0);
    assert_eq!(h.get_header_length(), 40);
    assert_eq!(h.get_window_size(), 0xfaf0);
    assert!(h.is_syn());
    assert!(!h.is_ack());
    assert!(!h.is_fin());
    assert!(!h.is_rst());
    assert_eq!(
        h.get_options(),
        &[
            TcpOption::Mss(1460),
            TcpOption::SackPermitted,
            TcpOption::Timestamp { tsval: 0x000a_bcde, tsecr: 0 },
            TcpOption::WindowScale(7),
        ]
    );
}

#[test]
fn build_reads_every_flag() {
    let mut b = with_options(&[]);
    b[13] = 0xff;
    let f = TcpHeader::build(&b).get_flags();
    assert_eq!(
        f,
        TcpFlags { cwr: true, ece: true, urg: true, ack_flag: true, psh: true, rst: true, syn: true, fin: true }
    );
    b[13] = 0x11;
    let h = TcpHeader::build(&b);
    assert!(h.is_ack() && h.is_fin() && !h.is_syn() && !h.is_rst());
}

#[test]
fn options_skip_unknown_kinds() {
    let b = with_options(&[0x1e, 0x04, 0xaa, 0xbb, 0x03, 0x03, 0x02, 0x00]);
    assert_eq!(TcpHeader::build(&b).get_options(), &[TcpOption::WindowScale(2)]);
}

#[test]
fn options_stop_at_end_of_list() {
    let b = with_options(&[0x00, 0x00, 0x02, 0x04, 0x05, 0xb4, 0x00, 0x00]);
    assert!(TcpHeader::build(&b).get_options().is_empty());
}

#[test]
fn options_stop_at_malformed_length() {
    let b = with_options(&[0x04, 0x02, 0x08, 0x0a, 0x00, 0x00, 0x00, 0x00]);
    assert_eq!(TcpHeader::build(&b).get_options(), &[TcpOption::SackPermitted]);
    let b = with_options(&[0x02, 0x01, 0x05, 0xb4]);
    assert!(TcpHeader::build(&b).get_options().is_empty());
}

#[test]
fn options_with_wrong_length_are_skipped() {
    let b = with_options(&[0x02, 0x03, 0x05, 0x04, 0x02, 0x00, 0x00, 0x00]);
    assert_eq!(TcpHeader::build(&b).get_options(), &[TcpOption::SackPermitted]);
}

#[test]
fn tcp_raw_header_round_trip() {
    let opts = [
        TcpOption::Mss(1460),
        TcpOption::SackPermitted,
        TcpOption::Timestamp { tsval: 0, tsecr: 77 },
        TcpOption::WindowScale(0),
    ];
    let flags = TcpFlags { syn: true, ack_flag: true, ..TcpFlags::default() };
    let payload = [1u8, 2, 3];
    let raw = TcpHeader::build_raw_header(
        7878, 40000, 1000, 2000, flags, 10, 0, Some(&opts), 0x0a00_0001, 0x0a00_0002, &payload,
    );
    assert_eq!(raw.len(), 20 + 20 + 3);
    assert_eq!(raw[12], 0xa0);
    assert_eq!(raw[13], 0x12);
    assert_eq!(&raw[40..], &payload);
    // MSS, SACK permitted, timestamps, window scale, then one end-of-list byte.
    assert_eq!(
        &raw[20..40],
        &[2, 4, 0x05, 0xb4, 4, 2, 8, 10, 0, 0, 0, 0, 0, 0, 0, 77, 3, 3, 0, 0]
    );
    let h = TcpHeader::build(&raw);
    assert_eq!(h.get_source_port(), 7878);
    assert_eq!(h.get_destination_port(), 40000);
    assert_eq!(h.get_sequence_number(), 1000);
    assert_eq!(h.get_acknowledgment_number(), 2000);
    assert_eq!(h.get_flags(), flags);
    assert_eq!(h.get_window_size(), 10);
    assert_eq!(h.get_header_length(), 40);
    assert_eq!(h.get_options(), &opts);
}

#[test]
fn build_raw_header_without_options() {
    let raw = TcpHeader::build_raw_header(
        1, 2, 3, 4, TcpFlags::default(), 5, 6, None, 0x0a00_0001, 0x0a00_0002, &[],
    );
    assert_eq!(raw.len(), 20);
    assert_eq!(raw[12], 0x50);
    assert_eq!(raw[13], 0);
    assert_eq!(&raw[18..20], &[0, 6]);
    assert!(TcpHeader::build(&raw).get_options().is_empty());
}

#[test]
fn tcp_raw_header_checksum_verifies() {
    let opts = [TcpOption::Mss(1460)];
    let raw = TcpHeader::build_raw_header(
        443,
        50000,
        0xffff_fff0,
        0x1234_5678,
        TcpFlags { ack_flag: true, psh: true, ..TcpFlags::default() },
        65535,
        0,
        Some(&opts),
        0xc0a8_0102,
        0x0808_0808,
        b"hello",
    );
    let mut all = pseudo(0xc0a8_0102, 0x0808_0808, raw.len());
    all.extend_from_slice(&raw);
    assert_eq!(checksum(&all), 0);
    // The same bytes under other addresses do not verify.
    let mut wrong = pseudo(0xc0a8_0103, 0x0808_0808, raw.len());
    wrong.extend_from_slice(&raw);
    assert_ne!(checksum(&wrong), 0);
}
