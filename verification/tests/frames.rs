use tcp_stack::demux::{ConnectionKey, ConnectionTable};
use tcp_stack::ipv4::IPV4Header;
use tcp_stack::tcp::State;
use tcp_stack::tcp_header::{TcpFlags, TcpHeader};

const SERVER: u32 = 0xc0a8_0002;

fn flags(syn: bool, ack: bool, fin: bool, rst: bool) -> TcpFlags {
    TcpFlags { syn, ack_flag: ack, fin, rst, ..TcpFlags::default() }
}

/// A TUN frame carrying a TCP segment from `client:port` to the server's port
/// 7878.
fn frame(client: u32, port: u16, f: TcpFlags, seq: u32, ack: u32, payload: &[u8]) -> Vec<u8> {
    let tcp = TcpHeader::build_raw_header(port, 7878, seq, ack, f, 1000, 0, None, client, SERVER, payload);
    let ip = IPV4Header::build_raw_header(
        4,
        5,
        0,
        0,
        (20 + tcp.len()) as u16,
        1,
        2,
        0,
        64,
        6,
        client,
        SERVER,
        None,
    );
    let mut out = vec![0x00, 0x00, 0x08, 0x00];
    out.extend_from_slice(&ip);
    out.extend_from_slice(&tcp);
    out
}

fn key(client: u32, port: u16) -> ConnectionKey {
    ConnectionKey {
        source_address: client,
        source_port: port,
        destination_address: SERVER,
        destination_port: 7878,
    }
}

fn reply_numbers(reply: &[u8]) -> (u32, u32, TcpFlags) {
    let h = TcpHeader::build(&reply[24..]);
    (h.get_sequence_number(), h.get_acknowledgment_number(), h.get_flags())
}

#[test]
fn non_ipv4_frames_are_ignored() {
    let mut t = ConnectionTable::new();
    let mut f = frame(1, 1, flags(true, false, false, false), 0, 0, &[]);
    f[2] = 0x86;
    f[3] = 0xdd;
    assert!(ConnectionTable::can_handle_frame(&f));
    assert!(t.handle_frame_with_isn(&f, 0).is_none());
    assert_eq!(t.get_state(key(1, 1)), None);
}

#[test]
fn non_tcp_packets_are_ignored() {
    let mut t = ConnectionTable::new();
    let mut f = frame(1, 1, flags(true, false, false, false), 0, 0, &[]);
    f[4 + 9] = 17;
    assert!(ConnectionTable::can_handle_frame(&f));
    assert!(t.handle_frame_with_isn(&f, 0).is_none());
    assert_eq!(t.get_state(key(1, 1)), None);
}

#[test]
fn truncated_frames_cannot_be_handled() {
    let f = frame(1, 1, flags(true, false, false, false), 0, 0, &[]);
    assert!(!ConnectionTable::can_handle_frame(&f[..3]));
    assert!(!ConnectionTable::can_handle_frame(&f[..4 + 19]));
    assert!(!ConnectionTable::can_handle_frame(&f[..4 + 20 + 19]));
    assert!(ConnectionTable::can_handle_frame(&f));
    let mut bad_ihl = f.clone();
    bad_ihl[4] = 0x44;
    assert!(!ConnectionTable::can_handle_frame(&bad_ihl));
    let mut bad_offset = f.clone();
    bad_offset[4 + 20 + 12] = 0xf0;
    assert!(!ConnectionTable::can_handle_frame(&bad_offset));
}

#[test]
fn connections_are_kept_apart_by_key() {
    let mut t = ConnectionTable::new();
    let a = 0x0a00_0001;
    let b = 0x0a00_0002;
    let r = t.handle_frame_with_isn(&frame(a, 1111, flags(true, false, false, false), 100, 0, &[]), 7000).unwrap();
    assert_eq!(reply_numbers(&r), (7000, 101, flags(true, true, false, false)));
    let r = t.handle_frame_with_isn(&frame(b, 1111, flags(true, false, false, false), 300, 0, &[]), 9000).unwrap();
    assert_eq!(reply_numbers(&r), (9000, 301, flags(true, true, false, false)));
    assert_eq!(t.get_state(key(a, 1111)), Some(State::SynRecvd));
    assert_eq!(t.get_state(key(b, 1111)), Some(State::SynRecvd));
    assert!(t.handle_frame_with_isn(&frame(a, 1111, flags(false, true, false, false), 101, 7001, &[]), 0).is_none());
    assert_eq!(t.get_state(key(a, 1111)), Some(State::Estab));
    assert_eq!(t.get_state(key(b, 1111)), Some(State::SynRecvd));
    let r = t.handle_frame_with_isn(&frame(a, 1111, flags(false, true, false, false), 101, 7001, b"ping"), 0).unwrap();
    assert_eq!(reply_numbers(&r), (7001, 105, flags(false, true, false, false)));
}

#[test]
fn closed_connections_are_dropped() {
    let mut t = ConnectionTable::new();
    let a = 0x0a00_0001;
    t.handle_frame_with_isn(&frame(a, 2222, flags(false, false, false, true), 5, 0, &[]), 0);
    assert_eq!(t.get_state(key(a, 2222)), Some(State::Closed));
    // The next frame, for any connection, drops it; a new SYN then opens anew.
    t.handle_frame_with_isn(&frame(a, 3333, flags(true, false, false, false), 5, 0, &[]), 1);
    assert_eq!(t.get_state(key(a, 2222)), None);
    let r = t.handle_frame_with_isn(&frame(a, 2222, flags(true, false, false, false), 50, 0, &[]), 400).unwrap();
    assert_eq!(reply_numbers(&r), (400, 51, flags(true, true, false, false)));
    assert_eq!(t.get_state(key(a, 2222)), Some(State::SynRecvd));
}

#[test]
fn reply_goes_back_to_the_sender() {
    let mut t = ConnectionTable::new();
    let a = 0x0a00_0009;
    let f = frame(a, 4444, flags(true, false, false, false), 0, 0, &[]);
    assert!(t.frame_needs_isn(&f));
    let r = t.handle_frame(&f).expect("a clock after 1970").expect("a SYN-ACK");
    assert_eq!(&r[..4], &[0x00, 0x00, 0x08, 0x00]);
    let ip = IPV4Header::build(&r[4..]);
    assert_eq!(ip.get_source_address(), SERVER);
    assert_eq!(ip.get_destination_address(), a);
    let h = TcpHeader::build(&r[24..]);
    assert_eq!(h.get_source_port(), 7878);
    assert_eq!(h.get_destination_port(), 4444);
    assert_eq!(h.get_acknowledgment_number(), 1);
}

#[test]
fn frames_for_established_connections_need_no_clock() {
    let mut t = ConnectionTable::new();
    let a = 0x0a00_0001;
    t.handle_frame_with_isn(&frame(a, 1111, flags(true, false, false, false), 100, 0, &[]), 7000).unwrap();
    let ack = frame(a, 1111, flags(false, true, false, false), 101, 7001, &[]);
    assert!(!t.frame_needs_isn(&ack));
    assert!(t.handle_frame(&ack).unwrap().is_none());
    assert_eq!(t.get_state(key(a, 1111)), Some(State::Estab));
}
