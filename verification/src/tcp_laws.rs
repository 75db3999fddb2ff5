//! What holds of the connection state machine across all segments.
use vstd::prelude::*;

use crate::tcp::{
    connection_inv, lemma_add32_add32, ack_acceptable, add32, flags_of, initial_connection, seq_distance, spec_on_packet,
    spec_validity_of_ack, spec_validity_of_seq, ConnectionView, Reply, State,
};
use crate::ipv4::{ipv4_buildable, lemma_ipv4_roundtrip, parse_ipv4};
use crate::tcp::{
    lemma_reply_options_fit, reply_frame, reply_ipv4_bytes, reply_options, reply_tcp_bytes,
    tun_header,
};
use crate::tcp_header::{
    lemma_tcp_roundtrip, padded_options, parse_tcp, tcp_buildable, tcp_header_len, TcpHeaderView,
};

verus! {

/// The sequence check accepts exactly the numbers that lie less far after `nxt`
/// than `nxt_and_wnd` does, counting modulo 2^32, when the window is not empty.
pub proof fn lemma_validity_of_seq_is_window(nxt: u32, seq: u32, nxt_and_wnd: u32)
    requires
        nxt != nxt_and_wnd,
    ensures
        spec_validity_of_seq(nxt, seq, nxt_and_wnd) == (seq_distance(nxt, seq) < seq_distance(
            nxt,
            nxt_and_wnd,
        )),
{
}

/// The acknowledgment check accepts exactly the numbers that lie after `una` and
/// no further than `nxt`, counting modulo 2^32; none when nothing is
/// outstanding.
pub proof fn lemma_validity_of_ack_is_window(una: u32, ack: u32, nxt: u32)
    ensures
        spec_validity_of_ack(una, ack, nxt) == (0 < seq_distance(una, ack) <= seq_distance(
            una,
            nxt,
        )),
{
}

/// In SYN-RECEIVED, a segment that fails the acceptability test (such as a
/// retransmitted SYN, which lies before the next expected number) changes
/// nothing and is answered with an acknowledgment of what was received.
pub proof fn lemma_syn_received_unacceptable_is_acked(
    c: ConnectionView,
    h: TcpHeaderView,
    len: nat,
    isn: u32,
)
    requires
        c.state is SynRecvd,
        !crate::tcp::segment_acceptable(c, h, len),
    ensures
        spec_on_packet(c, h, len, isn) == (
            c,
            Some(Reply { flags: flags_of(true, false, false, false), seq: c.snd.nxt, ack: c.rcv.nxt }),
        ),
{
}

/// In ESTABLISHED, CLOSE-WAIT and LAST-ACK, a segment that fails the
/// acceptability test (such as a retransmitted FIN) changes nothing and is
/// answered with an acknowledgment of what was received.
pub proof fn lemma_synchronized_unacceptable_is_acked(
    c: ConnectionView,
    h: TcpHeaderView,
    len: nat,
    isn: u32,
)
    requires
        c.state is Estab || c.state is CloseWait || c.state is LastAck,
        !crate::tcp::segment_acceptable(c, h, len),
    ensures
        spec_on_packet(c, h, len, isn) == (
            c,
            Some(Reply { flags: flags_of(true, false, false, false), seq: c.snd.nxt, ack: c.rcv.nxt }),
        ),
{
}

/// A closed connection ignores every segment and answers none.
pub proof fn lemma_closed_stays_closed(c: ConnectionView, h: TcpHeaderView, len: nat, isn: u32)
    requires
        c.state is Closed,
    ensures
        spec_on_packet(c, h, len, isn) == (c, Option::<Reply>::None),
{
}

/// The initial sequence number matters only to a listening connection: in any
/// other state the segment is handled the same whatever number would be chosen.
pub proof fn lemma_isn_used_only_in_listen(
    c: ConnectionView,
    h: TcpHeaderView,
    len: nat,
    isn: u32,
    other_isn: u32,
)
    requires
        !(c.state is Listen),
    ensures
        spec_on_packet(c, h, len, isn) == spec_on_packet(c, h, len, other_isn),
{
}

/// A new connection meets the invariant of connections, and every segment
/// keeps it.
pub proof fn lemma_connection_inv_preserved(c: ConnectionView, h: TcpHeaderView, len: nat, isn: u32)
    ensures
        connection_inv(initial_connection()),
        connection_inv(c) ==> connection_inv(spec_on_packet(c, h, len, isn).0),
{
    if connection_inv(c) && c.state is Estab {
        lemma_add32_add32(c.snd.una, 1, 1);
    }
}

/// The moves of the state diagram: LISTEN to SYN-RECEIVED to ESTABLISHED to
/// CLOSE-WAIT to LAST-ACK to CLOSED, and from any state to CLOSED on a reset.
/// CLOSE-WAIT lasts only while the FIN is answered, so ESTABLISHED reaches
/// LAST-ACK in one segment and no segment leaves a connection in CLOSE-WAIT.
pub open spec fn diagram_step(from: State, to: State) -> bool {
    ||| from == to
    ||| to is Closed
    ||| from is Listen && to is SynRecvd
    ||| from is SynRecvd && to is Estab
    ||| from is Estab && to is LastAck
}

/// Every segment moves a connection along the state diagram.
pub proof fn lemma_moves_follow_diagram(c: ConnectionView, h: TcpHeaderView, len: nat, isn: u32)
    ensures
        diagram_step(c.state, spec_on_packet(c, h, len, isn).0.state),
{
}

proof fn lemma_own_number_in_window(nxt: u32, wnd: u32)
    requires
        wnd != 0,
    ensures
        spec_validity_of_seq(nxt, nxt, add32(nxt, wnd as int)),
{
}

/// The three-way handshake: a listening connection answers a SYN with a SYN-ACK
/// that acknowledges it and carries the chosen initial sequence number, and the
/// peer's acknowledgment of that number establishes the connection without a
/// reply.
pub proof fn lemma_three_way_handshake(
    c: ConnectionView,
    syn: TcpHeaderView,
    syn_len: nat,
    ack: TcpHeaderView,
    isn: u32,
    later_isn: u32,
)
    requires
        c.state is Listen,
        syn.flags.syn,
        !syn.flags.rst,
        !syn.flags.ack_flag,
        !ack.flags.syn,
        !ack.flags.rst,
        !ack.flags.fin,
        ack.sequence_number == add32(syn.sequence_number, 1),
        ack.acknowledgment_number == add32(isn, 1),
    ensures
        ({
            let (c1, r1) = spec_on_packet(c, syn, syn_len, isn);
            let (c2, r2) = spec_on_packet(c1, ack, 0, later_isn);
            &&& c1.state is SynRecvd
            &&& r1 == Some(
                Reply {
                    flags: flags_of(true, false, true, false),
                    seq: isn,
                    ack: add32(syn.sequence_number, 1),
                },
            )
            &&& c2.state is Estab
            &&& r2 is None
            &&& c2.snd.una == isn
            &&& c2.snd.nxt == add32(isn, 1)
            &&& c2.rcv.nxt == add32(syn.sequence_number, 1)
            &&& c2.snd.wnd == ack.window_size as u32
        }),
{
    let (c1, r1) = spec_on_packet(c, syn, syn_len, isn);
    lemma_own_number_in_window(c1.rcv.nxt, c1.rcv.wnd);
}

/// A new connection completes the handshake in the same way.
pub proof fn lemma_new_connection_handshake(
    syn: TcpHeaderView,
    syn_len: nat,
    ack: TcpHeaderView,
    isn: u32,
    later_isn: u32,
)
    requires
        syn.flags.syn,
        !syn.flags.rst,
        !syn.flags.ack_flag,
        !ack.flags.syn,
        !ack.flags.rst,
        !ack.flags.fin,
        ack.sequence_number == add32(syn.sequence_number, 1),
        ack.acknowledgment_number == add32(isn, 1),
    ensures
        spec_on_packet(
            spec_on_packet(initial_connection(), syn, syn_len, isn).0,
            ack,
            0,
            later_isn,
        ).0.state is Estab,
{
    lemma_three_way_handshake(initial_connection(), syn, syn_len, ack, isn, later_isn);
}

/// On an established connection, data that starts at the next expected sequence
/// number is taken in and acknowledged: the next expected number moves past it
/// and the reply acknowledges up to there.
pub proof fn lemma_in_order_data_acknowledged(
    c: ConnectionView,
    h: TcpHeaderView,
    len: nat,
    isn: u32,
)
    requires
        c.state is Estab,
        c.rcv.wnd != 0,
        h.sequence_number == c.rcv.nxt,
        !h.flags.syn,
        !h.flags.rst,
        !h.flags.fin,
        ack_acceptable(c, h),
    ensures
        ({
            let (c2, r) = spec_on_packet(c, h, len, isn);
            &&& c2.state is Estab
            &&& c2.rcv.nxt == add32(c.rcv.nxt, len as int)
            &&& c2.snd == c.snd
            &&& r == Some(
                Reply {
                    flags: flags_of(true, false, false, false),
                    seq: c.snd.nxt,
                    ack: add32(c.rcv.nxt, len as int),
                },
            )
        }),
{
    lemma_own_number_in_window(c.rcv.nxt, c.rcv.wnd);
}

/// On an established connection, an in-order FIN, with or without data, is
/// answered with a FIN that acknowledges the data and the FIN, the FIN sent
/// takes one sequence number, and the connection waits for the last
/// acknowledgment.
pub proof fn lemma_fin_answered(c: ConnectionView, h: TcpHeaderView, len: nat, isn: u32)
    requires
        c.state is Estab,
        c.rcv.wnd != 0,
        h.sequence_number == c.rcv.nxt,
        !h.flags.syn,
        !h.flags.rst,
        h.flags.fin,
        ack_acceptable(c, h),
    ensures
        ({
            let (c2, r) = spec_on_packet(c, h, len, isn);
            &&& c2.state is LastAck
            &&& c2.rcv.nxt == add32(c.rcv.nxt, len + 1int)
            &&& c2.snd.nxt == add32(c.snd.nxt, 1)
            &&& c2.snd.una == c.snd.una
            &&& r == Some(
                Reply {
                    flags: flags_of(true, false, false, true),
                    seq: c.snd.nxt,
                    ack: add32(c.rcv.nxt, len + 1int),
                },
            )
        }),
{
    lemma_own_number_in_window(c.rcv.nxt, c.rcv.wnd);
}

/// In LAST-ACK, any acceptable segment that is not a SYN closes the connection.
pub proof fn lemma_last_ack_closes(c: ConnectionView, h: TcpHeaderView, len: nat, isn: u32)
    requires
        c.state is LastAck,
        crate::tcp::segment_acceptable(c, h, len),
        !h.flags.syn,
    ensures
        spec_on_packet(c, h, len, isn).0.state is Closed,
{
}

/// In LAST-ACK, an acceptable acknowledgment of what was sent closes the
/// connection quietly: no reply goes out.
pub proof fn lemma_last_ack_closes_quietly(c: ConnectionView, h: TcpHeaderView, len: nat, isn: u32)
    requires
        c.state is LastAck,
        crate::tcp::segment_acceptable(c, h, len),
        !h.flags.syn,
        !h.flags.rst,
        ack_acceptable(c, h),
    ensures
        spec_on_packet(c, h, len, isn) == (
            crate::tcp::with_state(c, State::Closed),
            Option::<Reply>::None,
        ),
{
}

/// In LAST-ACK, the peer's acknowledgment of the FIN (one past it, which is
/// `snd.nxt`) closes a connection quietly, when it is acceptable and carries no
/// SYN or RST.
pub proof fn lemma_fin_acknowledged_closes(c: ConnectionView, h: TcpHeaderView, len: nat, isn: u32)
    requires
        connection_inv(c),
        c.state is LastAck,
        crate::tcp::segment_acceptable(c, h, len),
        !h.flags.syn,
        !h.flags.rst,
        h.acknowledgment_number == c.snd.nxt,
    ensures
        spec_on_packet(c, h, len, isn) == (
            crate::tcp::with_state(c, State::Closed),
            Option::<Reply>::None,
        ),
{
    lemma_validity_of_ack_is_window(c.snd.una, h.acknowledgment_number, c.snd.nxt);
    lemma_last_ack_closes_quietly(c, h, len, isn);
}

/// Connection teardown: an in-order FIN on an established connection is
/// answered with a FIN-ACK, and the peer's acknowledgment of that FIN closes
/// the connection without a reply.
pub proof fn lemma_teardown(
    c: ConnectionView,
    fin: TcpHeaderView,
    len: nat,
    ack: TcpHeaderView,
    isn: u32,
    later_isn: u32,
)
    requires
        c.state is Estab,
        c.rcv.wnd != 0,
        connection_inv(c),
        fin.sequence_number == c.rcv.nxt,
        !fin.flags.syn,
        !fin.flags.rst,
        fin.flags.fin,
        ack_acceptable(c, fin),
        !ack.flags.syn,
        !ack.flags.rst,
        !ack.flags.fin,
        ack.sequence_number == add32(c.rcv.nxt, len + 1int),
        ack.acknowledgment_number == add32(c.snd.nxt, 1),
    ensures
        ({
            let (c1, r1) = spec_on_packet(c, fin, len, isn);
            let (c2, r2) = spec_on_packet(c1, ack, 0, later_isn);
            &&& c1.state is LastAck
            &&& r1 == Some(
                Reply {
                    flags: flags_of(true, false, false, true),
                    seq: c.snd.nxt,
                    ack: add32(c.rcv.nxt, len + 1int),
                },
            )
            &&& c2.state is Closed
            &&& r2 is None
        }),
{
    lemma_fin_answered(c, fin, len, isn);
    lemma_add32_add32(c.snd.una, 1, 1);
    let c1 = spec_on_packet(c, fin, len, isn).0;
    lemma_own_number_in_window(c1.rcv.nxt, c1.rcv.wnd);
    lemma_validity_of_ack_is_window(c1.snd.una, ack.acknowledgment_number, c1.snd.nxt);
    lemma_last_ack_closes_quietly(c1, ack, 0, later_isn);
}

/// A reset that is acceptable (any reset, in LISTEN) closes the connection
/// without a reply.
pub proof fn lemma_reset_closes(c: ConnectionView, h: TcpHeaderView, len: nat, isn: u32)
    requires
        c.state is Listen || crate::tcp::segment_acceptable(c, h, len),
        h.flags.rst,
    ensures
        spec_on_packet(c, h, len, isn) == (
            crate::tcp::with_state(c, State::Closed),
            Option::<Reply>::None,
        ),
{
    if c.state is Closed {
        assert(crate::tcp::with_state(c, State::Closed) == c);
    }
}

/// The options of every reply: when the answered segment carries a timestamp,
/// the MSS of 1460, SACK permitted, a timestamp whose TSecr echoes the first
/// TSval received, and a window scale of zero; otherwise the MSS alone.
pub proof fn lemma_timestamp_echo(h: TcpHeaderView)
    ensures
        match crate::tcp::first_timestamp(h.options) {
            Some(crate::tcp_header::TcpOption::Timestamp { tsval, .. }) => reply_options(h)
                == seq![
                crate::tcp_header::TcpOption::Mss(1460),
                crate::tcp_header::TcpOption::SackPermitted,
                crate::tcp_header::TcpOption::Timestamp { tsval: 0, tsecr: tsval },
                crate::tcp_header::TcpOption::WindowScale(0),
            ],
            _ => reply_options(h) == seq![crate::tcp_header::TcpOption::Mss(1460)],
        },
{
}

pub proof fn lemma_parse_ipv4_prefix(s: Seq<u8>, t: Seq<u8>)
    requires
        ipv4_buildable(s),
        s.len() == 20,
    ensures
        ipv4_buildable(s + t),
        parse_ipv4(s + t) == parse_ipv4(s),
{
    let st = s + t;
    assert(forall|i: int| 0 <= i < 20 ==> st[i] == s[i]);
    assert(st.subrange(20, 20) =~= s.subrange(20, 20));
}

/// Every frame the connection sends reads back, with the header readers, as a
/// TCP segment from where the answered segment went to where it came from: the
/// ports and addresses swapped, the sequence and acknowledgment numbers and
/// flags of the reply, the reply options (so a timestamp echoes the peer's
/// TSval), and no data.
#[verifier::rlimit(30)]
pub proof fn lemma_reply_frame_reads_back(h: TcpHeaderView, ip: crate::ipv4::IPV4HeaderView, r: Reply)
    ensures
        ({
            let f = reply_frame(h, ip, r);
            let p = f.skip(4);
            let t = p.skip(20);
            let ph = parse_ipv4(p);
            let th = parse_tcp(t);
            &&& f.take(4) == tun_header()
            &&& ipv4_buildable(p)
            &&& ph.version == 4
            &&& ph.ihl == 5
            &&& ph.total_length == p.len()
            &&& ph.ttl == 64
            &&& ph.protocol == 6
            &&& ph.source_address == ip.destination_address
            &&& ph.destination_address == ip.source_address
            &&& tcp_buildable(t)
            &&& th.source_port == h.destination_port
            &&& th.destination_port == h.source_port
            &&& th.sequence_number == r.seq
            &&& th.acknowledgment_number == r.ack
            &&& th.flags == r.flags
            &&& th.window_size == 10
            &&& th.options == reply_options(h)
            &&& t.len() == tcp_header_len(t)
        }),
{
    let tcp = reply_tcp_bytes(h, ip, r);
    let ipv4 = reply_ipv4_bytes(tcp, ip);
    let f = reply_frame(h, ip, r);
    lemma_reply_options_fit(h);
    lemma_tcp_roundtrip(
        h.destination_port,
        h.source_port,
        r.seq,
        r.ack,
        r.flags,
        10,
        0,
        reply_options(h),
        ip.destination_address,
        ip.source_address,
        Seq::empty(),
    );
    assert(tcp.len() == 20 + padded_options(reply_options(h)).len());
    lemma_ipv4_roundtrip(
        4,
        5,
        0,
        0,
        (20 + tcp.len()) as u16,
        0,
        0,
        0,
        64,
        6,
        ip.destination_address,
        ip.source_address,
        Seq::empty(),
    );
    assert(ipv4.len() == 20);
    assert(f.take(4) =~= tun_header());
    assert(f.skip(4) =~= ipv4 + tcp);
    lemma_parse_ipv4_prefix(ipv4, tcp);
    assert((ipv4 + tcp).skip(20) =~= tcp);
    assert(tcp.skip(tcp_header_len(tcp)).len() == 0);
}

} // verus!
