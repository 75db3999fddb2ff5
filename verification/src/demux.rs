//! Frames from the TUN device: which connection a TCP segment belongs to, and the
//! table of connections by address and port of both ends.
use std::collections::HashMap;
use vstd::prelude::*;

use crate::ipv4::{ipv4_buildable, ipv4_header_len, parse_ipv4, IPV4Header};
use crate::tcp::{
    connection_inv, frame_matches, initial_connection, isn_needed, spec_on_packet, ClockError, Connection,
    ConnectionView, Reply, State,
};
use crate::tcp_header::{parse_tcp, tcp_buildable, tcp_header_len, TcpHeader, TcpHeaderView};
use crate::wire::{be16, read_be16};

verus! {

/// The two ends of a connection: the IPv4 address and TCP port of the peer that
/// sent the segment, and of the end it was sent to.
#[derive(Clone, Copy, Debug, PartialEq, Eq, Structural)]
pub struct ConnectionKey {
    pub source_address: u32,
    pub source_port: u16,
    pub destination_address: u32,
    pub destination_port: u16,
}

/// The connections, each under the number that packs its key.
pub struct ConnectionTable {
    connections: HashMap<u128, Connection>,
}

/// The number that packs the four parts of a key: the source address in bits
/// 80 to 111, the source port in bits 64 to 79, the destination address in
/// bits 16 to 47 and the destination port in bits 0 to 15.
pub open spec fn key_code(k: ConnectionKey) -> u128 {
    ((k.source_address as u128) << 80u128) | ((k.source_port as u128) << 64u128) | ((
    k.destination_address as u128) << 16u128) | (k.destination_port as u128)
}

proof fn lemma_code_fields(sa: u32, sp: u16, da: u32, dp: u16, c: u128)
    by (bit_vector)
    requires
        c == ((sa as u128) << 80u128) | ((sp as u128) << 64u128) | ((da as u128) << 16u128) | (
        dp as u128),
    ensures
        (c >> 80u128) & 0xffff_ffffu128 == sa as u128,
        (c >> 64u128) & 0xffffu128 == sp as u128,
        (c >> 16u128) & 0xffff_ffffu128 == da as u128,
        c & 0xffffu128 == dp as u128,
{
}

/// Different keys pack to different numbers.
proof fn lemma_key_code_injective(a: ConnectionKey, b: ConnectionKey)
    requires
        key_code(a) == key_code(b),
    ensures
        a == b,
{
    lemma_code_fields(
        a.source_address,
        a.source_port,
        a.destination_address,
        a.destination_port,
        key_code(a),
    );
    lemma_code_fields(
        b.source_address,
        b.source_port,
        b.destination_address,
        b.destination_port,
        key_code(b),
    );
}

fn code_of(k: ConnectionKey) -> (r: u128)
    ensures
        r == key_code(k),
{
    ((k.source_address as u128) << 80) | ((k.source_port as u128) << 64) | ((
    k.destination_address as u128) << 16) | (k.destination_port as u128)
}

/// The connections of a map of packed keys, by key.
spec fn table_map(m: Map<u128, Connection>) -> Map<ConnectionKey, ConnectionView> {
    Map::new(|k: ConnectionKey| m.contains_key(key_code(k)), |k: ConnectionKey| m[key_code(k)]@)
}

impl View for ConnectionTable {
    type V = Map<ConnectionKey, ConnectionView>;

    closed spec fn view(&self) -> Map<ConnectionKey, ConnectionView> {
        table_map(self.connections@)
    }
}

/// The connections of `m` that are not closed.
pub open spec fn open_connections(m: Map<ConnectionKey, ConnectionView>) -> Map<
    ConnectionKey,
    ConnectionView,
> {
    Map::new(|k: ConnectionKey| m.contains_key(k) && !(m[k].state is Closed), |k: ConnectionKey| m[k])
}

/// What the table does with the segment `h` for `key`: closed connections are
/// dropped, the segment goes to the connection under `key` (a new listening one
/// if there is none), and the result is stored under `key`.
pub open spec fn spec_table_step(
    m: Map<ConnectionKey, ConnectionView>,
    key: ConnectionKey,
    h: TcpHeaderView,
    content_len: nat,
    isn: u32,
) -> (Map<ConnectionKey, ConnectionView>, Option<Reply>) {
    let open = open_connections(m);
    let c0 = if open.contains_key(key) {
        open[key]
    } else {
        initial_connection()
    };
    let (c1, r) = spec_on_packet(c0, h, content_len, isn);
    (open.insert(key, c1), r)
}

/// The IPv4 packet of a frame, after the 4 bytes of packet information.
pub open spec fn frame_packet(f: Seq<u8>) -> Seq<u8> {
    f.skip(4)
}

/// The TCP segment of a frame.
pub open spec fn frame_segment(f: Seq<u8>) -> Seq<u8> {
    frame_packet(f).skip(ipv4_header_len(frame_packet(f)))
}

/// The data of the TCP segment of a frame.
pub open spec fn frame_payload(f: Seq<u8>) -> Seq<u8> {
    frame_segment(f).skip(tcp_header_len(frame_segment(f)))
}

/// The frame carries an IPv4 packet (protocol 0x0800 in the packet information)
/// whose payload is TCP (protocol 6).
pub open spec fn is_tcp_frame(f: Seq<u8>) -> bool {
    be16(f[2], f[3]) == 0x0800 && parse_ipv4(frame_packet(f)).protocol == 6
}

/// The frame holds the packet information, and, if it says IPv4, a whole IPv4
/// header, and, if that says TCP, a whole TCP header.
pub open spec fn frame_handleable(f: Seq<u8>) -> bool {
    &&& f.len() >= 4
    &&& be16(f[2], f[3]) == 0x0800 ==> {
        &&& ipv4_buildable(frame_packet(f))
        &&& parse_ipv4(frame_packet(f)).protocol == 6 ==> tcp_buildable(frame_segment(f))
    }
}

/// A frame can be handled exactly when it holds the 4 bytes of packet
/// information and, when they say IPv4 (0x0800 in bytes 2 and 3), the whole
/// IPv4 header that the low four bits of its first byte announce, in words of
/// four bytes and at least 20 bytes; and, when that header says TCP (protocol
/// byte 6), the whole TCP header that the high four bits of its 13th byte
/// announce, at least 20 bytes. Options and payload are no obstacle.
pub proof fn lemma_handleable_frames(f: Seq<u8>)
    ensures
        frame_handleable(f) == (f.len() >= 4 && (f[2] as int * 256 + f[3] as int == 0x0800 ==> {
            let ip_len = 4 * (f[4] as int % 16);
            let t = 4 + ip_len;
            &&& f.len() >= 24
            &&& 20 <= ip_len
            &&& t <= f.len()
            &&& f[13] == 6 ==> {
                &&& f.len() >= t + 20
                &&& 20 <= 4 * (f[t + 12] as int / 16)
                &&& t + 4 * (f[t + 12] as int / 16) <= f.len()
            }
        })),
{
    if f.len() >= 4 {
        let p = frame_packet(f);
        assert(be16(f[2], f[3]) == f[2] as int * 256 + f[3] as int);
        if p.len() >= 20 {
            assert(p[0] == f[4]);
            assert(p[9] == f[13]);
            let t = 4 + 4 * (f[4] as int % 16);
            if 20 <= 4 * (f[4] as int % 16) && t <= f.len() {
                let seg = frame_segment(f);
                assert(seg.len() == f.len() - t);
                if seg.len() >= 20 {
                    assert(seg[12] == f[t + 12]);
                }
            }
        }
    }
}

/// A frame made of the packet information for IPv4, an IPv4 header of 20 bytes
/// that says TCP, and any TCP segment written by the header builder (whatever
/// options and payload it carries) can be handled, and is a TCP frame.
#[verifier::rlimit(30)]
pub proof fn lemma_built_frames_handleable(
    ip: Seq<u8>,
    tcp: Seq<u8>,
    total_length: u16,
    id: u16,
    ttl: u8,
    source_address: u32,
    destination_address: u32,
    source_port: u16,
    destination_port: u16,
    sequence_number: u32,
    acknowledgment_number: u32,
    flags: crate::tcp_header::TcpFlags,
    window_size: u16,
    options: Seq<crate::tcp_header::TcpOption>,
    payload: Seq<u8>,
)
    requires
        ip == crate::ipv4::ipv4_raw_header(
            4,
            5,
            0,
            0,
            total_length,
            id,
            0,
            0,
            ttl,
            6,
            source_address,
            destination_address,
            Seq::empty(),
        ),
        tcp == crate::tcp_header::tcp_raw_header(
            source_port,
            destination_port,
            sequence_number,
            acknowledgment_number,
            flags,
            window_size,
            0,
            options,
            source_address,
            destination_address,
            payload,
        ),
        crate::tcp_header::padded_options(options).len() <= 40,
    ensures
        frame_handleable(crate::tcp::tun_header() + ip + tcp),
        is_tcp_frame(crate::tcp::tun_header() + ip + tcp),
{
    let f = crate::tcp::tun_header() + ip + tcp;
    crate::ipv4::lemma_ipv4_roundtrip(
        4,
        5,
        0,
        0,
        total_length,
        id,
        0,
        0,
        ttl,
        6,
        source_address,
        destination_address,
        Seq::empty(),
    );
    crate::tcp_header::lemma_tcp_roundtrip(
        source_port,
        destination_port,
        sequence_number,
        acknowledgment_number,
        flags,
        window_size,
        0,
        options,
        source_address,
        destination_address,
        payload,
    );
    assert(ip.len() == 20);
    assert(frame_packet(f) =~= ip + tcp);
    crate::tcp_laws::lemma_parse_ipv4_prefix(ip, tcp);
    assert(frame_segment(f) =~= tcp);
    assert(f[2] == 0x08 && f[3] == 0x00);
}

/// The key of the connection that the TCP segment of a frame belongs to.
pub open spec fn frame_key(f: Seq<u8>) -> ConnectionKey {
    let ip = parse_ipv4(frame_packet(f));
    let tcp = parse_tcp(frame_segment(f));
    ConnectionKey {
        source_address: ip.source_address,
        source_port: tcp.source_port,
        destination_address: ip.destination_address,
        destination_port: tcp.destination_port,
    }
}

/// Every connection of the table meets the invariant of connections.
pub open spec fn table_inv(m: Map<ConnectionKey, ConnectionView>) -> bool {
    forall|k: ConnectionKey| #[trigger] m.contains_key(k) ==> connection_inv(m[k])
}

/// Handling a segment keeps every connection of the table within the invariant
/// of connections.
pub proof fn lemma_table_inv_preserved(
    m: Map<ConnectionKey, ConnectionView>,
    key: ConnectionKey,
    h: TcpHeaderView,
    content_len: nat,
    isn: u32,
)
    ensures
        table_inv(m) ==> table_inv(spec_table_step(m, key, h, content_len, isn).0),
{
    let open = open_connections(m);
    let c0 = if open.contains_key(key) {
        open[key]
    } else {
        initial_connection()
    };
    crate::tcp_laws::lemma_connection_inv_preserved(c0, h, content_len, isn);
}

/// Handling a segment for one connection leaves every other connection that is
/// open as it was, and drops every other connection that is closed.
pub proof fn lemma_other_connections_untouched(
    m: Map<ConnectionKey, ConnectionView>,
    key: ConnectionKey,
    h: TcpHeaderView,
    content_len: nat,
    isn: u32,
    other: ConnectionKey,
)
    requires
        other != key,
    ensures
        ({
            let m2 = spec_table_step(m, key, h, content_len, isn).0;
            &&& m2.contains_key(other) == (m.contains_key(other) && !(m[other].state is Closed))
            &&& m2.contains_key(other) ==> m2[other] == m[other]
        }),
{
}

/// `new` is the table, and `out` the reply, after `m` handled `f` with `isn` as
/// the initial sequence number should the segment open a connection.
pub open spec fn frame_handled(
    m: Map<ConnectionKey, ConnectionView>,
    new: Map<ConnectionKey, ConnectionView>,
    f: Seq<u8>,
    out: Option<Vec<u8>>,
    isn: u32,
) -> bool {
    &&& !is_tcp_frame(f) ==> new == m && out is None
    &&& is_tcp_frame(f) ==> {
        let (m2, reply) = spec_table_step(
            m,
            frame_key(f),
            parse_tcp(frame_segment(f)),
            frame_payload(f).len(),
            isn,
        );
        &&& new == m2
        &&& frame_matches(out, reply, parse_tcp(frame_segment(f)), parse_ipv4(frame_packet(f)))
    }
}

/// Whether handling the frame `f` in the table `m` chooses an initial sequence
/// number: the segment goes to a listening connection that answers it with
/// its SYN.
pub open spec fn frame_isn_needed(m: Map<ConnectionKey, ConnectionView>, f: Seq<u8>) -> bool {
    &&& is_tcp_frame(f)
    &&& {
        let open = open_connections(m);
        let key = frame_key(f);
        let c0 = if open.contains_key(key) {
            open[key]
        } else {
            initial_connection()
        };
        isn_needed(c0, parse_tcp(frame_segment(f)), frame_payload(f).len())
    }
}

proof fn lemma_insert_code(m: Map<u128, Connection>, key: ConnectionKey, c: Connection)
    ensures
        table_map(m.insert(key_code(key), c)) == table_map(m).insert(key, c@),
{
    assert forall|k: ConnectionKey| key_code(k) == key_code(key) implies k == key by {
        lemma_key_code_injective(k, key);
    }
    assert(table_map(m.insert(key_code(key), c)) =~= table_map(m).insert(key, c@));
}

proof fn lemma_remove_code(m: Map<u128, Connection>, key: ConnectionKey)
    ensures
        table_map(m.remove(key_code(key))) == table_map(m).remove(key),
{
    assert forall|k: ConnectionKey| key_code(k) == key_code(key) implies k == key by {
        lemma_key_code_injective(k, key);
    }
    assert(table_map(m.remove(key_code(key))) =~= table_map(m).remove(key));
}

impl ConnectionTable {
    /// An empty table.
    pub fn new() -> (r: Self)
        ensures
            r@ == Map::<ConnectionKey, ConnectionView>::empty(),
            table_inv(r@),
    {
        broadcast use vstd::std_specs::hash::group_hash_axioms;

        let r = ConnectionTable { connections: HashMap::new() };
        assert(r@ =~= Map::<ConnectionKey, ConnectionView>::empty());
        r
    }

    /// The state of the connection under `key`, if there is one.
    pub fn get_state(&self, key: ConnectionKey) -> (r: Option<State>)
        ensures
            r == (if self@.contains_key(key) {
                Some(self@[key].state)
            } else {
                None
            }),
    {
        broadcast use vstd::std_specs::hash::group_hash_axioms;

        match self.connections.get(&code_of(key)) {
            Some(connection) => Some(*connection.get_state()),
            None => None,
        }
    }

    /// Drops the closed connections.
    fn retain_open(&mut self)
        ensures
            final(self)@ == open_connections(old(self)@),
    {
        broadcast use vstd::std_specs::hash::group_hash_axioms;

        let ghost m0 = self.connections@;
        let mut closed: Vec<u128> = Vec::new();
        proof {
            vstd::std_specs::hash::axiom_spec_hash_map_iter(&self.connections);
        }
        for entry in it: self.connections.iter()
            invariant
                self.connections@ == m0,
                it.seq() == vstd::std_specs::iter::IteratorSpec::remaining(
                    &vstd::std_specs::hash::spec_hash_map_iter(&self.connections),
                ),
                forall|j: int|
                    #![trigger it.seq()[j]]
                    0 <= j < it.seq().len() ==> m0.contains_key(*it.seq()[j].0) && m0[*it.seq()[j].0]
                        == *it.seq()[j].1,
                forall|c: u128| #[trigger]
                    closed@.contains(c) ==> m0.contains_key(c) && m0[c]@.state is Closed,
                forall|j: int|
                    0 <= j < it.index() ==> (#[trigger] it.seq()[j]).1@.state is Closed
                        ==> closed@.contains(*it.seq()[j].0),
        {
            let ghost idx = it.index();
            assert(entry == it.seq()[idx]);
            let ghost before = closed@;
            let (code, connection) = entry;
            if *connection.get_state() == State::Closed {
                assert(m0.contains_key(*code) && m0[*code] == *connection);
                closed.push(*code);
                assert(closed@ == before.push(*code));
                assert forall|c: u128| #[trigger] closed@.contains(c) implies m0.contains_key(c)
                    && m0[c]@.state is Closed by {
                    broadcast use vstd::seq_lib::lemma_seq_contains_after_push;

                }
                assert(closed@[before.len() as int] == *code);
                assert forall|c: u128| before.contains(c) implies #[trigger] closed@.contains(c) by {
                    let w = choose|w: int| 0 <= w < before.len() && before[w] == c;
                    assert(closed@[w] == c);
                }
            }
        }
        let mut i: usize = 0;
        while i < closed.len()
            invariant
                i <= closed@.len(),
                forall|c: u128| #[trigger]
                    closed@.contains(c) ==> m0.contains_key(c) && m0[c]@.state is Closed,
                self.connections@ == m0.remove_keys(closed@.take(i as int).to_set()),
            decreases closed@.len() - i,
        {
            let code = closed[i];
            self.connections.remove(&code);
            assert(closed@.take(i + 1) =~= closed@.take(i as int).push(code));
            assert(closed@.take(i + 1).to_set() =~= closed@.take(i as int).to_set().insert(code))
                by {
                broadcast use vstd::seq_lib::lemma_seq_contains_after_push;

            }
            assert(self.connections@ =~= m0.remove_keys(closed@.take(i + 1).to_set()));
            i = i + 1;
        }
        assert(closed@.take(i as int) =~= closed@);
        proof {
            let m = self.connections@;
            assert forall|c: u128| #[trigger] m0.contains_key(c) && m0[c]@.state is Closed implies closed@.contains(c) by {
                assert(m0.contains_key(c));
            }
            assert(table_map(m) =~= open_connections(table_map(m0)));
        }
    }

    /// Hands the segment `tcp_header` with `content`, for the connection under
    /// `key`, to that connection after dropping the closed ones; a key with no
    /// connection gets a new one. Returns the frame to send back, if any.
    pub fn handle_segment_with_isn(
        &mut self,
        key: ConnectionKey,
        content: &[u8],
        tcp_header: &TcpHeader,
        ipv4_header: &IPV4Header,
        isn: u32,
    ) -> (r: Option<Vec<u8>>)
        ensures
            final(self)@ == spec_table_step(
                old(self)@,
                key,
                tcp_header@,
                content@.len(),
                isn,
            ).0,
            frame_matches(
                r,
                spec_table_step(old(self)@, key, tcp_header@, content@.len(), isn).1,
                tcp_header@,
                ipv4_header@,
            ),
            table_inv(old(self)@) ==> table_inv(final(self)@),
    {
        broadcast use vstd::std_specs::hash::group_hash_axioms;

        proof {
            lemma_table_inv_preserved(self@, key, tcp_header@, content@.len(), isn);
        }
        self.retain_open();
        let ghost m1 = self.connections@;
        let code = code_of(key);
        let mut connection = match self.connections.remove(&code) {
            Some(connection) => connection,
            None => Connection::default(),
        };
        let r = connection.on_packet_with_isn(content, tcp_header, ipv4_header, isn);
        self.connections.insert(code, connection);
        proof {
            lemma_remove_code(m1, key);
            lemma_insert_code(m1.remove(code), key, connection);
            assert(table_map(m1).remove(key).insert(key, connection@) =~= table_map(m1).insert(
                key,
                connection@,
            ));
        }
        r
    }

    /// Whether `handle_frame` can take `frame`: the frame holds every header that
    /// it announces.
    pub fn can_handle_frame(frame: &[u8]) -> (r: bool)
        ensures
            r == frame_handleable(frame@),
    {
        if frame.len() < 4 {
            return false;
        }
        if read_be16(frame, 2) != 0x0800 {
            return true;
        }
        let packet = &frame[4..frame.len()];
        assert(packet@ =~= frame_packet(frame@));
        if packet.len() < 20 {
            return false;
        }
        let ihl = (packet[0] % 16) as usize;
        if 4 * ihl < 20 || 4 * ihl > packet.len() {
            return false;
        }
        if packet[9] != 6 {
            return true;
        }
        let segment = &packet[4 * ihl..packet.len()];
        assert(segment@ =~= frame_segment(frame@));
        if segment.len() < 20 {
            return false;
        }
        let data_offset = (segment[12] / 16) as usize;
        20 <= 4 * data_offset && 4 * data_offset <= segment.len()
    }

    /// Handles a frame read from the TUN device, as `handle_segment_with_isn`
    /// does for a TCP segment in an IPv4 packet, keyed by the addresses and
    /// ports of both ends; other frames are ignored. Returns the frame to send
    /// back, if any.
    pub fn handle_frame_with_isn(&mut self, frame: &[u8], isn: u32) -> (r: Option<Vec<u8>>)
        requires
            frame_handleable(frame@),
        ensures
            !is_tcp_frame(frame@) ==> final(self)@ == old(self)@ && r is None,
            is_tcp_frame(frame@) ==> {
                let (m, reply) = spec_table_step(
                    old(self)@,
                    frame_key(frame@),
                    parse_tcp(frame_segment(frame@)),
                    frame_payload(frame@).len(),
                    isn,
                );
                &&& final(self)@ == m
                &&& frame_matches(
                    r,
                    reply,
                    parse_tcp(frame_segment(frame@)),
                    parse_ipv4(frame_packet(frame@)),
                )
            },
            table_inv(old(self)@) ==> table_inv(final(self)@),
    {
        let eth_proto = read_be16(frame, 2);
        if eth_proto != 0x0800 {
            return None;
        }
        let packet = &frame[4..frame.len()];
        assert(packet@ =~= frame_packet(frame@));
        let ipv4_header = IPV4Header::build(packet);
        let ipv4_header_length = ipv4_header.get_header_length();
        if ipv4_header.get_protocol() != 0x0006 {
            return None;
        }
        let segment = &packet[ipv4_header_length..packet.len()];
        assert(segment@ =~= frame_segment(frame@));
        let tcp_header = TcpHeader::build(segment);
        let tcp_header_length = tcp_header.get_header_length();
        let payload = &segment[tcp_header_length..segment.len()];
        assert(payload@ =~= frame_payload(frame@));
        let connection_key = ConnectionKey {
            source_address: ipv4_header.get_source_address(),
            source_port: tcp_header.get_source_port(),
            destination_address: ipv4_header.get_destination_address(),
            destination_port: tcp_header.get_destination_port(),
        };
        self.handle_segment_with_isn(connection_key, payload, &tcp_header, &ipv4_header, isn)
    }

    /// Whether handling `frame` chooses an initial sequence number.
    pub fn frame_needs_isn(&self, frame: &[u8]) -> (r: bool)
        requires
            frame_handleable(frame@),
        ensures
            r == frame_isn_needed(self@, frame@),
    {
        broadcast use vstd::std_specs::hash::group_hash_axioms;

        if read_be16(frame, 2) != 0x0800 {
            return false;
        }
        let packet = &frame[4..frame.len()];
        assert(packet@ =~= frame_packet(frame@));
        let ipv4_header = IPV4Header::build(packet);
        if ipv4_header.get_protocol() != 0x0006 {
            return false;
        }
        let segment = &packet[ipv4_header.get_header_length()..packet.len()];
        assert(segment@ =~= frame_segment(frame@));
        let tcp_header = TcpHeader::build(segment);
        let payload = &segment[tcp_header.get_header_length()..segment.len()];
        assert(payload@ =~= frame_payload(frame@));
        let key = ConnectionKey {
            source_address: ipv4_header.get_source_address(),
            source_port: tcp_header.get_source_port(),
            destination_address: ipv4_header.get_destination_address(),
            destination_port: tcp_header.get_destination_port(),
        };
        match self.connections.get(&code_of(key)) {
            Some(connection) => {
                if *connection.get_state() == State::Closed {
                    Connection::default().needs_isn(&tcp_header, payload)
                } else {
                    connection.needs_isn(&tcp_header, payload)
                }
            },
            None => Connection::default().needs_isn(&tcp_header, payload),
        }
    }

    /// Handles a frame as `handle_frame_with_isn` does, with an initial sequence
    /// number from the clock should the segment open a connection. When the
    /// clock reads a time before the Unix epoch and a number is needed, the
    /// table is left as it was.
    pub fn handle_frame(&mut self, frame: &[u8]) -> (r: Result<Option<Vec<u8>>, ClockError>)
        requires
            frame_handleable(frame@),
        ensures
            match r {
                Ok(out) => exists|isn: u32| #[trigger]
                    frame_handled(old(self)@, final(self)@, frame@, out, isn),
                Err(e) => frame_isn_needed(old(self)@, frame@) && final(self)@ == old(self)@,
            },
            !frame_isn_needed(old(self)@, frame@) ==> r is Ok,
            table_inv(old(self)@) ==> table_inv(final(self)@),
    {
        if self.frame_needs_isn(frame) {
            match Connection::generate_isn() {
                Some(isn) => {
                    let out = self.handle_frame_with_isn(frame, isn);
                    assert(frame_handled(old(self)@, self@, frame@, out, isn));
                    Ok(out)
                },
                None => Err(ClockError::BeforeEpoch),
            }
        } else {
            let out = self.handle_frame_with_isn(frame, 0);
            assert(frame_handled(old(self)@, self@, frame@, out, 0));
            Ok(out)
        }
    }
}

} // verus!
