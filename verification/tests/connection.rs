use tcp_stack::ipv4::IPV4Header;
use tcp_stack::tcp::{Connection, State};
use tcp_stack::tcp_header::{TcpFlags, TcpHeader, TcpOption};
use tcp_stack::wire::checksum;

const CLIENT: u32 = 0xc0a8_0001;
const SERVER: u32 = 0xc0a8_0002;
const CLIENT_PORT: u16 = 40000;
const SERVER_PORT: u16 = 7878;

fn flags(syn: bool, ack: bool, fin: bool, rst: bool) -> TcpFlags {
    TcpFlags { syn, ack_flag: ack, fin, rst, ..TcpFlags::default() }
}

/// The bytes of a segment from the client to the server.
fn segment(f: TcpFlags, seq: u32, ack: u32, opts: &[TcpOption]) -> Vec<u8> {
    TcpHeader::build_raw_header(
        CLIENT_PORT,
        SERVER_PORT,
        seq,
        ack,
        f,
        64240,
        0,
        Some(opts),
        CLIENT,
        SERVER,
        &[],
    )
}

fn ip_bytes() -> Vec<u8> {
    IPV4Header::build_raw_header(4, 5, 0, 0, 60, 0, 2, 0, 64, 6, CLIENT, SERVER, None)
}

/// Feeds the segment to the connection; returns the reply frame, if any.
fn feed(c: &mut Connection, seg: &[u8], content: &[u8], isn: u32) -> Option<Vec<u8>> {
    let ip = ip_bytes();
    let ipv4 = IPV4Header::build(&ip);
    let tcp = TcpHeader::build(seg);
    c.on_packet_with_isn(content, &tcp, &ipv4, isn)
}

struct Parsed {
    src: u32,
    dst: u32,
    header: TcpHeader,
}

fn parse_reply(frame: &[u8]) -> Parsed {
    assert_eq!(&frame[..4], &[0x00, 0x00, 0x08, 0x00]);
    let ip = IPV4Header::build(&frame[4..]);
    assert_eq!(ip.get_header_length(), 20);
    assert_eq!(ip.get_protocol(), 6);
    assert_eq!(checksum(&frame[4..24]), 0);
    let header = TcpHeader::build(&frame[24..]);
    assert_eq!(header.get_header_length(), frame.len() - 24);
    Parsed { src: ip.get_source_address(), dst: ip.get_destination_address(), header }
}

fn ts_opts(tsval: u32) -> Vec<TcpOption> {
    vec![
        TcpOption::Mss(1460),
        TcpOption::SackPermitted,
        TcpOption::Timestamp { tsval, tsecr: 0 },
        TcpOption::WindowScale(7),
    ]
}

/// Takes a new connection through the handshake with server ISN `isn` and
/// client ISN `cisn`.
fn established(isn: u32, cisn: u32) -> Connection {
    let mut c = Connection::default();
    let syn = segment(flags(true, false, false, false), cisn, 0, &ts_opts(5));
    feed(&mut c, &syn, &[], isn).expect("SYN-ACK");
    let ack = segment(flags(false, true, false, false), cisn.wrapping_add(1), isn.wrapping_add(1), &[]);
    assert!(feed(&mut c, &ack, &[], 0).is_none());
    assert_eq!(*c.get_state(), State::Estab);
    c
}

#[test]
fn new_connection_listens() {
    let c = Connection::default();
    assert_eq!(*c.get_state(), State::Listen);
}

#[test]
fn syn_is_answered_with_syn_ack() {
    let mut c = Connection::default();
    let syn = segment(flags(true, false, false, false), 1000, 0, &ts_opts(0xabcd));
    let reply = feed(&mut c, &syn, &[], 5000).expect("a reply");
    assert_eq!(*c.get_state(), State::SynRecvd);
    let p = parse_reply(&reply);
    assert_eq!(p.src, SERVER);
    assert_eq!(p.dst, CLIENT);
    assert_eq!(p.header.get_source_port(), SERVER_PORT);
    assert_eq!(p.header.get_destination_port(), CLIENT_PORT);
    assert_eq!(p.header.get_sequence_number(), 5000);
    assert_eq!(p.header.get_acknowledgment_number(), 1001);
    assert_eq!(p.header.get_flags(), flags(true, true, false, false));
    assert_eq!(p.header.get_window_size(), 10);
    assert_eq!(
        p.header.get_options(),
        &[
            TcpOption::Mss(1460),
            TcpOption::SackPermitted,
            TcpOption::Timestamp { tsval: 0, tsecr: 0xabcd },
            TcpOption::WindowScale(0),
        ]
    );
}

#[test]
fn syn_without_timestamp_gets_mss_only() {
    let mut c = Connection::default();
    let syn = segment(flags(true, false, false, false), 1000, 0, &[TcpOption::Mss(536)]);
    let reply = feed(&mut c, &syn, &[], 5000).expect("a reply");
    assert_eq!(parse_reply(&reply).header.get_options(), &[TcpOption::Mss(1460)]);
}

#[test]
fn reply_checksum_verifies() {
    let mut c = Connection::default();
    let syn = segment(flags(true, false, false, false), 1000, 0, &ts_opts(9));
    let reply = feed(&mut c, &syn, &[], 5000).unwrap();
    let tcp = &reply[24..];
    let mut all = Vec::new();
    all.extend_from_slice(&SERVER.to_be_bytes());
    all.extend_from_slice(&CLIENT.to_be_bytes());
    all.extend_from_slice(&[0, 6, 0, tcp.len() as u8]);
    all.extend_from_slice(tcp);
    assert_eq!(checksum(&all), 0);
}

#[test]
fn handshake_establishes() {
    established(5000, 1000);
}

#[test]
fn handshake_with_wrapping_numbers() {
    let mut c = established(u32::MAX, u32::MAX);
    let data = segment(flags(false, true, false, false), 0, 0, &[]);
    let reply = feed(&mut c, &data, b"hi", 0).expect("an ACK");
    assert_eq!(parse_reply(&reply).header.get_acknowledgment_number(), 2);
}

#[test]
fn data_is_acknowledged() {
    let mut c = established(5000, 1000);
    let data = segment(flags(false, true, false, false), 1001, 5001, &[]);
    let reply = feed(&mut c, &data, b"hello\n", 0).expect("an ACK");
    let p = parse_reply(&reply);
    assert_eq!(p.header.get_flags(), flags(false, true, false, false));
    assert_eq!(p.header.get_sequence_number(), 5001);
    assert_eq!(p.header.get_acknowledgment_number(), 1007);
    assert_eq!(*c.get_state(), State::Estab);
    let more = segment(flags(false, true, false, false), 1007, 5001, &[]);
    let reply = feed(&mut c, &more, b"abc", 0).expect("an ACK");
    assert_eq!(parse_reply(&reply).header.get_acknowledgment_number(), 1010);
}

#[test]
fn fin_is_answered_with_fin_ack() {
    let mut c = established(5000, 1000);
    let fin = segment(flags(false, true, true, false), 1001, 5001, &[]);
    let reply = feed(&mut c, &fin, &[], 0).expect("a FIN");
    let p = parse_reply(&reply);
    assert_eq!(p.header.get_flags(), flags(false, true, true, false));
    assert_eq!(p.header.get_sequence_number(), 5001);
    assert_eq!(p.header.get_acknowledgment_number(), 1002);
    assert_eq!(*c.get_state(), State::LastAck);
}

#[test]
fn last_ack_closes_quietly() {
    let mut c = established(5000, 1000);
    let fin = segment(flags(false, true, true, false), 1001, 5001, &[]);
    feed(&mut c, &fin, &[], 0).unwrap();
    // The peer acknowledges our FIN, which took sequence number 5001.
    let last = segment(flags(false, true, false, false), 1002, 5002, &[]);
    assert!(feed(&mut c, &last, &[], 0).is_none());
    assert_eq!(*c.get_state(), State::Closed);
}

#[test]
fn fin_with_data_is_acknowledged() {
    let mut c = established(5000, 1000);
    let fin = segment(flags(false, true, true, false), 1001, 5001, &[]);
    let reply = feed(&mut c, &fin, b"bye", 0).expect("a FIN");
    let p = parse_reply(&reply);
    assert_eq!(p.header.get_flags(), flags(false, true, true, false));
    assert_eq!(p.header.get_sequence_number(), 5001);
    assert_eq!(p.header.get_acknowledgment_number(), 1005);
    assert_eq!(*c.get_state(), State::LastAck);
    let last = segment(flags(false, true, false, false), 1005, 5002, &[]);
    assert!(feed(&mut c, &last, &[], 0).is_none());
    assert_eq!(*c.get_state(), State::Closed);
}

#[test]
fn last_ack_with_known_ack_closes_silently() {
    let mut c = established(5000, 1000);
    let fin = segment(flags(false, true, true, false), 1001, 5001, &[]);
    feed(&mut c, &fin, &[], 0).unwrap();
    let last = segment(flags(false, true, false, false), 1002, 5001, &[]);
    assert!(feed(&mut c, &last, &[], 0).is_none());
    assert_eq!(*c.get_state(), State::Closed);
}

#[test]
fn closed_ignores_segments() {
    let mut c = established(5000, 1000);
    let rst = segment(flags(false, false, false, true), 1001, 0, &[]);
    assert!(feed(&mut c, &rst, &[], 0).is_none());
    assert_eq!(*c.get_state(), State::Closed);
    let data = segment(flags(false, true, false, false), 1001, 5001, &[]);
    assert!(feed(&mut c, &data, b"x", 0).is_none());
    assert_eq!(*c.get_state(), State::Closed);
}

#[test]
fn reset_in_listen_closes() {
    let mut c = Connection::default();
    let rst = segment(flags(false, false, false, true), 7, 0, &[]);
    assert!(feed(&mut c, &rst, &[], 0).is_none());
    assert_eq!(*c.get_state(), State::Closed);
}

#[test]
fn ack_in_listen_with_bad_number_is_reset() {
    let mut c = Connection::default();
    let ack = segment(flags(false, true, false, false), 7, 0, &[]);
    let reply = feed(&mut c, &ack, &[], 0).expect("a reset");
    assert_eq!(parse_reply(&reply).header.get_flags(), flags(false, false, false, true));
    assert_eq!(*c.get_state(), State::Closed);
}

#[test]
fn any_ack_in_listen_is_reset() {
    let mut c = Connection::default();
    let ack = segment(flags(false, true, false, false), 7, 12345, &[]);
    let reply = feed(&mut c, &ack, &[], 0).expect("a reset");
    assert_eq!(parse_reply(&reply).header.get_flags(), flags(false, false, false, true));
    assert_eq!(*c.get_state(), State::Closed);
}

#[test]
fn syn_in_syn_received_is_reset() {
    let mut c = Connection::default();
    let syn = segment(flags(true, false, false, false), 1000, 0, &[]);
    feed(&mut c, &syn, &[], 5000).unwrap();
    let again = segment(flags(true, false, false, false), 1001, 0, &[]);
    let reply = feed(&mut c, &again, &[], 0).expect("a reset");
    assert_eq!(parse_reply(&reply).header.get_flags(), flags(false, false, false, true));
    assert_eq!(*c.get_state(), State::Closed);
}

#[test]
fn bad_ack_in_syn_received_is_reset() {
    let mut c = Connection::default();
    let syn = segment(flags(true, false, false, false), 1000, 0, &[]);
    feed(&mut c, &syn, &[], 5000).unwrap();
    let ack = segment(flags(false, true, false, false), 1001, 4000, &[]);
    let reply = feed(&mut c, &ack, &[], 0).expect("a reset");
    let p = parse_reply(&reply);
    assert_eq!(p.header.get_flags(), flags(false, false, false, true));
    assert_eq!(p.header.get_sequence_number(), 5001);
    assert_eq!(*c.get_state(), State::Closed);
}

#[test]
fn out_of_window_segment_is_discarded_with_ack() {
    let mut c = established(5000, 1000);
    let old = segment(flags(false, true, false, false), 900, 5001, &[]);
    let reply = feed(&mut c, &old, b"stale", 0).expect("an ACK");
    let p = parse_reply(&reply);
    assert_eq!(p.header.get_flags(), flags(false, true, false, false));
    assert_eq!(p.header.get_acknowledgment_number(), 1001);
    assert_eq!(*c.get_state(), State::Estab);
}

#[test]
fn segment_overlapping_window_end_is_accepted() {
    let mut c = established(5000, 1000);
    // Starts before the window but its last byte lies inside it.
    let data = segment(flags(false, true, false, false), 995, 5001, &[]);
    let reply = feed(&mut c, &data, b"0123456789", 0).expect("an ACK");
    assert_eq!(parse_reply(&reply).header.get_acknowledgment_number(), 1011);
}

#[test]
fn syn_in_established_is_discarded_with_ack() {
    let mut c = established(5000, 1000);
    let syn = segment(flags(true, false, false, false), 1001, 0, &[]);
    let reply = feed(&mut c, &syn, &[], 0).expect("an ACK");
    assert_eq!(parse_reply(&reply).header.get_flags(), flags(false, true, false, false));
    assert_eq!(*c.get_state(), State::Estab);
}

#[test]
fn bad_ack_in_established_is_reset() {
    let mut c = established(5000, 1000);
    let data = segment(flags(false, true, false, false), 1001, 9999, &[]);
    let reply = feed(&mut c, &data, b"x", 0).expect("a reset");
    assert_eq!(parse_reply(&reply).header.get_flags(), flags(false, false, false, true));
    assert_eq!(*c.get_state(), State::Closed);
}

#[test]
fn on_packet_takes_clock_isn() {
    let mut c = Connection::default();
    let syn = segment(flags(true, false, false, false), 1000, 0, &[]);
    let ip = ip_bytes();
    let ipv4 = IPV4Header::build(&ip);
    let tcp = TcpHeader::build(&syn);
    assert!(c.needs_isn(&tcp, &[]));
    let reply = c.on_packet(&[], &tcp, &ipv4).expect("a clock after 1970").expect("a SYN-ACK");
    assert_eq!(*c.get_state(), State::SynRecvd);
    let p = parse_reply(&reply);
    assert_eq!(p.header.get_acknowledgment_number(), 1001);
    let isn = p.header.get_sequence_number();
    let ack = segment(flags(false, true, false, false), 1001, isn.wrapping_add(1), &[]);
    let tcp = TcpHeader::build(&ack);
    assert!(!c.needs_isn(&tcp, &[]));
    assert!(c.on_packet(&[], &tcp, &ipv4).unwrap().is_none());
    assert_eq!(*c.get_state(), State::Estab);
}

#[test]
fn isn_is_micros_cut_to_32_bits() {
    assert_eq!(Connection::isn_from_micros(0), 0);
    assert_eq!(Connection::isn_from_micros(1_700_000_000_123_456), (1_700_000_000_123_456u128 % (1u128 << 32)) as u32);
    assert_eq!(Connection::isn_from_micros((7u128 << 32) + 9), 9);
}

#[test]
fn ack_check_with_wraparound() {
    assert!(Connection::validity_of_ack(5000, 5001, 5001));
    assert!(!Connection::validity_of_ack(5000, 5000, 5001));
    assert!(!Connection::validity_of_ack(5000, 5002, 5001));
    assert!(Connection::validity_of_ack(u32::MAX, 0, 1));
    assert!(Connection::validity_of_ack(u32::MAX, 1, 1));
    assert!(!Connection::validity_of_ack(u32::MAX, 2, 1));
    // Nothing outstanding: nothing is acceptable.
    assert!(!Connection::validity_of_ack(7, 8, 7));
    assert!(!Connection::validity_of_ack(7, 7, 7));
}

#[test]
fn seq_check_with_wraparound() {
    assert!(Connection::validity_of_seq(100, 100, 110));
    assert!(Connection::validity_of_seq(100, 109, 110));
    assert!(!Connection::validity_of_seq(100, 110, 110));
    assert!(!Connection::validity_of_seq(100, 99, 110));
    assert!(Connection::validity_of_seq(u32::MAX - 1, u32::MAX, 3));
    assert!(Connection::validity_of_seq(u32::MAX - 1, 2, 3));
    assert!(!Connection::validity_of_seq(u32::MAX - 1, 3, 3));
    assert!(!Connection::validity_of_seq(u32::MAX - 1, u32::MAX - 2, 3));
}

#[test]
fn ipv4_reply_header_for_long_segment() {
    let ip = ip_bytes();
    let ipv4 = IPV4Header::build(&ip);
    let segment = vec![0u8; 1400];
    let raw = Connection::make_ipv4_header(&segment, &ipv4);
    assert_eq!(raw.len(), 20);
    assert_eq!(&raw[2..4], &1420u16.to_be_bytes());
    let h = IPV4Header::build(&raw);
    assert_eq!(h.get_source_address(), SERVER);
    assert_eq!(h.get_destination_address(), CLIENT);
    assert_eq!(h.get_ttl(), 64);
    assert_eq!(h.get_protocol(), 6);
    assert_eq!(checksum(&raw), 0);
}

#[test]
fn tcp_reply_header_with_forty_option_bytes() {
    let c = Connection::default();
    let ip = ip_bytes();
    let ipv4 = IPV4Header::build(&ip);
    let seg = segment(flags(true, false, false, false), 1000, 0, &[]);
    let tcp = TcpHeader::build(&seg);
    let opts = [
        TcpOption::Timestamp { tsval: 1, tsecr: 2 },
        TcpOption::Timestamp { tsval: 3, tsecr: 4 },
        TcpOption::Timestamp { tsval: 5, tsecr: 6 },
        TcpOption::Timestamp { tsval: 7, tsecr: 8 },
    ];
    let raw = c.make_tcp_header(&tcp, &ipv4, flags(false, true, false, false), &opts);
    assert_eq!(raw.len(), 60);
    let h = TcpHeader::build(&raw);
    assert_eq!(h.get_source_port(), SERVER_PORT);
    assert_eq!(h.get_destination_port(), CLIENT_PORT);
    assert_eq!(h.get_window_size(), 10);
    assert_eq!(h.get_options(), &opts);
}
