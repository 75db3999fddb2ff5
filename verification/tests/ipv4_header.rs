use tcp_stack::ipv4::IPV4Header;
use tcp_stack::wire::checksum;

// A header with id 0x1c46, DF set, TTL 64, TCP, from 172.16.10.99 to 172.16.10.12.
const SAMPLE: [u8; 20] = [
    0x45, 0x00, 0x00, 0x3c, 0x1c, 0x46, 0x40, 0x00, 0x40, 0x06, 0xb1, 0xe6, 0xac, 0x10, 0x0a, 0x63,
    0xac, 0x10, 0x0a, 0x0c,
];

fn word_sum_folds_to_ones(data: &[u8]) -> bool {
    let mut sum: u64 = 0;
    let mut i = 0;
    while i + 1 < data.len() {
        sum += ((data[i] as u64) << 8) | data[i + 1] as u64;
        i += 2;
    }
    if i < data.len() {
        sum += (data[i] as u64) << 8;
    }
    while sum > 0xffff {
        sum = (sum & 0xffff) + (sum >> 16);
    }
    sum == 0xffff
}

#[test]
fn build_reads_fixed_fields() {
    let h = IPV4Header::build(&SAMPLE);
    assert_eq!(h.get_header_length(), 20);
    assert_eq!(h.get_protocol(), 6);
    assert_eq!(h.get_source_address(), 0xac10_0a63);
    assert_eq!(h.get_destination_address(), 0xac10_0a0c);
    assert_eq!(h.get_version(), 4);
    assert_eq!(h.get_flags(), 2);
    assert_eq!(h.get_offset(), 0);
    assert_eq!(h.get_ttl(), 64);
    assert!(h.get_options().is_empty());
}

#[test]
fn build_splits_flags_and_offset() {
    let mut buf = SAMPLE.to_vec();
    buf[6] = 0xbf;
    buf[7] = 0xfe;
    let h = IPV4Header::build(&buf);
    assert_eq!(h.get_flags(), 5);
    assert_eq!(h.get_offset(), 0x1ffe);
}

#[test]
fn build_reads_header_with_options() {
    let mut buf = SAMPLE.to_vec();
    buf[0] = 0x46;
    buf.extend_from_slice(&[0x94, 0x04, 0x00, 0x00]);
    buf.extend_from_slice(&[0xde, 0xad]);
    let h = IPV4Header::build(&buf);
    assert_eq!(h.get_header_length(), 24);
    assert_eq!(h.get_protocol(), 6);
    assert_eq!(h.get_options(), &[0x94, 0x04, 0x00, 0x00]);
}

#[test]
fn build_ignores_bytes_after_header() {
    let mut buf = SAMPLE.to_vec();
    buf.extend_from_slice(&[1, 2, 3, 4, 5]);
    let h = IPV4Header::build(&buf);
    assert_eq!(h.get_header_length(), 20);
    assert_eq!(h.get_source_address(), 0xac10_0a63);
}

#[test]
fn build_raw_header_reproduces_sample() {
    let raw = IPV4Header::build_raw_header(
        4,
        5,
        0,
        0,
        0x3c,
        0x1c46,
        2,
        0,
        64,
        6,
        0xac10_0a63,
        0xac10_0a0c,
        None,
    );
    assert_eq!(raw, SAMPLE.to_vec());
}

#[test]
fn ipv4_raw_header_checksum_verifies() {
    let raw = IPV4Header::build_raw_header(
        4,
        6,
        0x2e,
        1,
        1500,
        0xbeef,
        1,
        0x123,
        17,
        17,
        0xc0a8_0002,
        0x0a00_0001,
        Some(&[0x94, 0x04, 0x00, 0x00]),
    );
    assert_eq!(raw.len(), 24);
    assert!(word_sum_folds_to_ones(&raw));
    assert_eq!(checksum(&raw), 0);
    let h = IPV4Header::build(&raw);
    assert_eq!(h.get_version(), 4);
    assert_eq!(h.get_header_length(), 24);
    assert_eq!(h.get_flags(), 1);
    assert_eq!(h.get_offset(), 0x123);
    assert_eq!(h.get_ttl(), 17);
    assert_eq!(h.get_protocol(), 17);
    assert_eq!(h.get_options(), &[0x94, 0x04, 0x00, 0x00]);
}

#[test]
fn ipv4_raw_header_round_trip() {
    let raw = IPV4Header::build_raw_header(
        4,
        5,
        0,
        0,
        40,
        7,
        0,
        0,
        64,
        6,
        0xc0a8_0001,
        0xc0a8_0002,
        None,
    );
    assert_eq!(raw[0], 0x45);
    assert_eq!(&raw[2..4], &[0, 40]);
    assert_eq!(&raw[4..6], &[0, 7]);
    assert_eq!(raw[8], 64);
    let h = IPV4Header::build(&raw);
    assert_eq!(h.get_header_length(), 20);
    assert_eq!(h.get_protocol(), 6);
    assert_eq!(h.get_source_address(), 0xc0a8_0001);
    assert_eq!(h.get_destination_address(), 0xc0a8_0002);
}

#[test]
fn build_raw_header_cuts_fields_to_width() {
    let raw = IPV4Header::build_raw_header(
        0x14,
        0x15,
        0xff,
        0xff,
        0,
        0,
        0xff,
        0xffff,
        0,
        0,
        0,
        0,
        None,
    );
    assert_eq!(raw[0], 0x45);
    assert_eq!(raw[1], 0xff);
    assert_eq!(raw[6], 0xff);
    assert_eq!(raw[7], 0xff);
}

#[test]
fn checksum_of_rfc1071_example() {
    assert_eq!(checksum(&[0x00, 0x01, 0xf2, 0x03, 0xf4, 0xf5, 0xf6, 0xf7]), 0x220d);
}

#[test]
fn checksum_of_odd_length_pads_with_zero() {
    assert_eq!(checksum(&[0x01]), !0x0100u16);
    assert_eq!(checksum(&[0x12, 0x34, 0x56]), !(0x1234u16 + 0x5600));
}

#[test]
fn checksum_folds_carries() {
    assert_eq!(checksum(&[0xff, 0xff, 0x00, 0x02]), !0x0002u16);
    assert_eq!(checksum(&[]), 0xffff);
}

#[test]
fn field_readers_need_only_their_bytes() {
    assert_eq!(IPV4Header::get_version_and_ihl(0x45), (4, 5));
    assert_eq!(IPV4Header::get_dscp_and_ecn(0xb9), (0x2e, 1));
    assert_eq!(IPV4Header::get_total_length(&SAMPLE[..4]), 0x3c);
    assert_eq!(IPV4Header::get_id(&SAMPLE[..6]), 0x1c46);
    assert_eq!(IPV4Header::get_flags_and_offset(&[0, 0, 0, 0, 0, 0, 0xbf, 0xfe]), (5, 0x1ffe));
    assert_eq!(IPV4Header::get_ttl_and_protocol(&SAMPLE[..10]), (64, 6));
    assert_eq!(IPV4Header::get_checksum(&SAMPLE[..12]), 0xb1e6);
    assert_eq!(IPV4Header::get_source_and_destination_address(&SAMPLE), (0xac10_0a63, 0xac10_0a0c));
}
