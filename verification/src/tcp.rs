//! The per-connection TCP state machine: which segments are acceptable, how the
//! connection moves through LISTEN, SYN-RECEIVED, ESTABLISHED, CLOSE-WAIT and
//! LAST-ACK, and the segment it answers with.
use vstd::prelude::*;

use crate::ipv4::{ipv4_raw_header, IPV4Header, IPV4HeaderView};
use crate::tcp_header::{
    encode_option, encode_options, padded_options, pad_len, tcp_raw_header, TcpFlags,
    TcpHeader, TcpHeaderView, TcpOption,
};

verus! {

pub const DEFAULT_MSS: u16 = 1460;

pub const DEFAULT_WINDOW_SCALE: u8 = 0;

pub const TCP_DEFAULT_WINDOW_SIZE: u16 = 10;

pub const IPV4_DEFAULT_TTL: u8 = 64;

pub const IPV4_VERSION: u8 = 4;

pub const IPV4_PROTO_TCP: u8 = 6;

/// What the checks on an arriving segment decide. `Discard` still answers with
/// an acknowledgment.
#[derive(Clone, Copy, Debug, PartialEq, Eq, Structural)]
pub enum Action {
    Proceed,
    Discard,
    RST,
    CloseConnection,
}

/// The state of a connection.
#[derive(Clone, Copy, Debug, PartialEq, Eq, Structural)]
pub enum State {
    Closed,
    Listen,
    SynRecvd,
    Estab,
    CloseWait,
    LastAck,
}

/// Whether a connection in state `s` has seen the peer's initial sequence number
/// acknowledged by both sides.
pub open spec fn spec_is_synchronized(s: State) -> bool {
    !(s is Listen || s is SynRecvd)
}

impl State {
    /// Whether the connection is past the handshake.
    pub fn is_synchronized(&self) -> (r: bool)
        ensures
            r == spec_is_synchronized(*self),
    {
        match *self {
            State::Listen | State::SynRecvd => false,
            _ => true,
        }
    }
}

impl Default for State {
    fn default() -> (r: Self)
        ensures
            r == State::Listen,
    {
        Self::Listen
    }
}

/// The send sequence variables of RFC 793.
#[derive(Clone, Copy, Debug, PartialEq, Eq, Structural)]
pub struct SendSequence {
    pub una: u32,
    pub nxt: u32,
    pub wnd: u32,
    pub up: u32,
    pub wl1: u32,
    pub wl2: u32,
    pub iss: u32,
}

impl Default for SendSequence {
    fn default() -> (r: Self)
        ensures
            r == (SendSequence { una: 0, nxt: 0, wnd: 0, up: 0, wl1: 0, wl2: 0, iss: 0 }),
    {
        SendSequence { una: 0, nxt: 0, wnd: 0, up: 0, wl1: 0, wl2: 0, iss: 0 }
    }
}

/// The receive sequence variables of RFC 793.
#[derive(Clone, Copy, Debug, PartialEq, Eq, Structural)]
pub struct ReceiveSequence {
    pub nxt: u32,
    pub wnd: u32,
    pub up: u32,
    pub irs: u32,
}

impl Default for ReceiveSequence {
    fn default() -> (r: Self)
        ensures
            r == (ReceiveSequence { nxt: 0, wnd: TCP_DEFAULT_WINDOW_SIZE as u32, up: 0, irs: 0 }),
    {
        Self { nxt: 0, wnd: TCP_DEFAULT_WINDOW_SIZE as u32, up: 0, irs: 0 }
    }
}

/// One TCP connection.
pub struct Connection {
    state: State,
    send_sequence: SendSequence,
    receive_sequence: ReceiveSequence,
}

/// The state and sequence variables of a connection.
pub struct ConnectionView {
    pub state: State,
    pub snd: SendSequence,
    pub rcv: ReceiveSequence,
}

impl View for Connection {
    type V = ConnectionView;

    closed spec fn view(&self) -> ConnectionView {
        ConnectionView { state: self.state, snd: self.send_sequence, rcv: self.receive_sequence }
    }
}

/// A new connection: listening, every sequence variable zero, receive window
/// the default.
pub open spec fn initial_connection() -> ConnectionView {
    ConnectionView {
        state: State::Listen,
        snd: SendSequence { una: 0, nxt: 0, wnd: 0, up: 0, wl1: 0, wl2: 0, iss: 0 },
        rcv: ReceiveSequence { nxt: 0, wnd: TCP_DEFAULT_WINDOW_SIZE as u32, up: 0, irs: 0 },
    }
}

impl Default for Connection {
    fn default() -> (r: Self)
        ensures
            r@ == initial_connection(),
            connection_inv(r@),
    {
        Connection {
            state: State::default(),
            send_sequence: SendSequence::default(),
            receive_sequence: ReceiveSequence::default(),
        }
    }
}

/// What holds of every connection that `default` gives and `on_packet` keeps:
/// the receive window is the default one, and `snd.una` stays at the initial
/// sequence number while `snd.nxt` counts what was sent: equal to it in LISTEN,
/// one past it once the SYN-ACK is out, two past it once the FIN is out.
pub open spec fn connection_inv(c: ConnectionView) -> bool {
    &&& c.rcv.wnd == TCP_DEFAULT_WINDOW_SIZE as u32
    &&& match c.state {
        State::Listen => c.snd.nxt == c.snd.una,
        State::SynRecvd | State::Estab | State::CloseWait => c.snd.nxt == add32(c.snd.una, 1),
        State::LastAck => c.snd.nxt == add32(c.snd.una, 2),
        State::Closed => true,
    }
}

/// `a + b` in sequence number space (modulo 2^32).
pub open spec fn add32(a: u32, b: int) -> u32 {
    ((a + b) % 0x1_0000_0000) as u32
}

/// How far `b` lies after `a` in sequence number space.
pub open spec fn seq_distance(a: u32, b: u32) -> int {
    (b - a) % 0x1_0000_0000
}

/// The acknowledgment check: `ack` lies in `(una, nxt]`, with wraparound. When
/// nothing is outstanding (`una == nxt`) no acknowledgment is acceptable.
pub open spec fn spec_validity_of_ack(una: u32, ack: u32, nxt: u32) -> bool {
    if una == nxt {
        false
    } else if una < nxt {
        una < ack && ack <= nxt
    } else {
        (una < ack && nxt < ack) || (una > ack && nxt >= ack)
    }
}

/// The sequence check: `seq` lies in `[nxt, nxt_and_wnd)`, with wraparound.
pub open spec fn spec_validity_of_seq(nxt: u32, seq: u32, nxt_and_wnd: u32) -> bool {
    if nxt < nxt_and_wnd {
        nxt <= seq && seq < nxt_and_wnd
    } else {
        (nxt <= seq && nxt_and_wnd < seq) || (nxt > seq && nxt_and_wnd > seq)
    }
}

/// The length of a segment in sequence space: its data, and one for each of SYN
/// and FIN.
pub open spec fn segment_length(h: TcpHeaderView, content_len: nat) -> nat {
    content_len + (if h.flags.fin { 1nat } else { 0nat }) + (if h.flags.syn { 1nat } else { 0nat })
}

/// The acceptability test of RFC 793 for a segment of `len` in sequence space
/// that starts at `seq`, against the receive window.
pub open spec fn spec_seq_acceptable(rcv_nxt: u32, rcv_wnd: u32, seq: u32, len: nat) -> bool {
    let end = add32(rcv_nxt, rcv_wnd as int);
    if len == 0 {
        if rcv_wnd == 0 {
            seq == rcv_nxt
        } else {
            spec_validity_of_seq(rcv_nxt, seq, end)
        }
    } else {
        (spec_validity_of_seq(rcv_nxt, seq, end) || spec_validity_of_seq(
            rcv_nxt,
            add32(seq, len - 1),
            end,
        )) && rcv_wnd != 0
    }
}

/// `x` lies among the `w` sequence numbers that start at `nxt`.
pub open spec fn in_window(nxt: u32, w: u32, x: u32) -> bool {
    seq_distance(nxt, x) < w
}

/// The acceptability test of RFC 793 stated on window membership: an empty
/// segment must start in the window (or at `nxt` when the window is empty); a
/// segment of `len > 0` needs a window and its first or last number in it.
pub open spec fn rfc_seq_acceptable(nxt: u32, w: u32, seq: u32, len: nat) -> bool {
    if len == 0 {
        if w == 0 {
            seq == nxt
        } else {
            in_window(nxt, w, seq)
        }
    } else {
        w != 0 && (in_window(nxt, w, seq) || in_window(nxt, w, add32(seq, len - 1)))
    }
}

proof fn lemma_seq_window(nxt: u32, w: u32, x: u32)
    requires
        w != 0,
    ensures
        spec_validity_of_seq(nxt, x, add32(nxt, w as int)) == in_window(nxt, w, x),
{
}

/// The test on sequence numbers is the acceptability test of RFC 793.
pub proof fn lemma_seq_acceptable_is_rfc(nxt: u32, w: u32, seq: u32, len: nat)
    ensures
        spec_seq_acceptable(nxt, w, seq, len) == rfc_seq_acceptable(nxt, w, seq, len),
{
    if w != 0 {
        lemma_seq_window(nxt, w, seq);
        if len > 0 {
            lemma_seq_window(nxt, w, add32(seq, len - 1));
        }
    }
}

/// Whether the segment `h` with `content_len` bytes of data is acceptable to `c`.
pub open spec fn segment_acceptable(c: ConnectionView, h: TcpHeaderView, content_len: nat) -> bool {
    spec_seq_acceptable(
        c.rcv.nxt,
        c.rcv.wnd,
        h.sequence_number,
        segment_length(h, content_len),
    )
}

/// Whether `h` acknowledges something that `c` sent and that was not yet
/// acknowledged.
pub open spec fn ack_acceptable(c: ConnectionView, h: TcpHeaderView) -> bool {
    spec_validity_of_ack(c.snd.una, h.acknowledgment_number, c.snd.nxt)
}

/// The decision on a segment in a synchronized state.
pub open spec fn spec_handle_synchronized(
    c: ConnectionView,
    h: TcpHeaderView,
    content_len: nat,
) -> Action {
    if !segment_acceptable(c, h, content_len) {
        Action::Discard
    } else if h.flags.rst {
        Action::CloseConnection
    } else if h.flags.syn {
        Action::Discard
    } else if !ack_acceptable(c, h) {
        Action::RST
    } else {
        Action::Proceed
    }
}

/// The decision on a segment in LISTEN or SYN-RECEIVED. In LISTEN the
/// acknowledgment number is checked only when the ACK bit is set: a SYN opens
/// the handshake, and an acknowledgment (nothing being outstanding) is reset.
pub open spec fn spec_handle_unsynchronized(
    c: ConnectionView,
    h: TcpHeaderView,
    content_len: nat,
) -> Action {
    if c.state is SynRecvd && !segment_acceptable(c, h, content_len) {
        Action::Discard
    } else if h.flags.rst {
        Action::CloseConnection
    } else if h.flags.syn && c.state is SynRecvd {
        Action::RST
    } else if (c.state is SynRecvd || h.flags.ack_flag) && !ack_acceptable(c, h) {
        Action::RST
    } else {
        Action::Proceed
    }
}

/// The decision on a segment in any state.
pub open spec fn spec_classify(c: ConnectionView, h: TcpHeaderView, content_len: nat) -> Action {
    if spec_is_synchronized(c.state) {
        spec_handle_synchronized(c, h, content_len)
    } else {
        spec_handle_unsynchronized(c, h, content_len)
    }
}

/// The header fields of a segment that the connection sends.
#[derive(Clone, Copy, Debug, PartialEq, Eq, Structural)]
pub struct Reply {
    pub flags: TcpFlags,
    pub seq: u32,
    pub ack: u32,
}

pub open spec fn flags_of(ack_flag: bool, rst: bool, syn: bool, fin: bool) -> TcpFlags {
    TcpFlags { cwr: false, ece: false, urg: false, ack_flag, psh: false, rst, syn, fin }
}

/// The segment that acknowledges what `c` has received.
pub open spec fn ack_reply(c: ConnectionView) -> Reply {
    Reply { flags: flags_of(true, false, false, false), seq: c.snd.nxt, ack: c.rcv.nxt }
}

/// `c` with state `s`.
pub open spec fn with_state(c: ConnectionView, s: State) -> ConnectionView {
    ConnectionView { state: s, snd: c.snd, rcv: c.rcv }
}

/// `c` after it has received the SYN `h` in LISTEN and chosen `isn`, before the
/// SYN-ACK is counted in `snd.nxt`.
pub open spec fn syn_received(c: ConnectionView, h: TcpHeaderView, isn: u32) -> ConnectionView {
    ConnectionView {
        state: State::SynRecvd,
        snd: SendSequence {
            una: isn,
            nxt: isn,
            wnd: h.window_size as u32,
            up: c.snd.up,
            wl1: c.snd.wl1,
            wl2: c.snd.wl2,
            iss: c.snd.iss,
        },
        rcv: ReceiveSequence {
            nxt: add32(h.sequence_number, 1),
            wnd: TCP_DEFAULT_WINDOW_SIZE as u32,
            up: c.rcv.up,
            irs: h.sequence_number,
        },
    }
}

/// `c` with `snd.nxt` advanced by one.
pub open spec fn advance_snd(c: ConnectionView) -> ConnectionView {
    ConnectionView {
        state: c.state,
        snd: SendSequence {
            una: c.snd.una,
            nxt: add32(c.snd.nxt, 1),
            wnd: c.snd.wnd,
            up: c.snd.up,
            wl1: c.snd.wl1,
            wl2: c.snd.wl2,
            iss: c.snd.iss,
        },
        rcv: c.rcv,
    }
}

/// `c` with `rcv.nxt` advanced by `n`.
pub open spec fn advance_rcv(c: ConnectionView, n: int) -> ConnectionView {
    ConnectionView {
        state: c.state,
        snd: c.snd,
        rcv: ReceiveSequence {
            nxt: add32(c.rcv.nxt, n),
            wnd: c.rcv.wnd,
            up: c.rcv.up,
            irs: c.rcv.irs,
        },
    }
}

/// `c` with the send window taken from `h`.
pub open spec fn with_send_window(c: ConnectionView, h: TcpHeaderView) -> ConnectionView {
    ConnectionView {
        state: c.state,
        snd: SendSequence {
            una: c.snd.una,
            nxt: c.snd.nxt,
            wnd: h.window_size as u32,
            up: c.snd.up,
            wl1: c.snd.wl1,
            wl2: c.snd.wl2,
            iss: c.snd.iss,
        },
        rcv: c.rcv,
    }
}

/// What an accepted segment does in each state: the new connection and the
/// segment sent back, if any.
pub open spec fn spec_proceed(
    c: ConnectionView,
    h: TcpHeaderView,
    content_len: nat,
    isn: u32,
) -> (ConnectionView, Option<Reply>) {
    match c.state {
        State::Listen => {
            let c1 = syn_received(c, h, isn);
            (
                advance_snd(c1),
                Some(
                    Reply {
                        flags: flags_of(true, false, true, false),
                        seq: c1.snd.nxt,
                        ack: c1.rcv.nxt,
                    },
                ),
            )
        },
        State::SynRecvd => (with_send_window(with_state(c, State::Estab), h), None),
        State::Estab => {
            if h.flags.fin {
                let c1 = advance_rcv(with_state(c, State::LastAck), content_len + 1int);
                (
                    advance_snd(c1),
                    Some(
                        Reply {
                            flags: flags_of(true, false, false, true),
                            seq: c1.snd.nxt,
                            ack: c1.rcv.nxt,
                        },
                    ),
                )
            } else {
                let c1 = advance_rcv(c, content_len as int);
                (c1, Some(ack_reply(c1)))
            }
        },
        State::LastAck => (with_state(c, State::Closed), None),
        _ => (c, None),
    }
}

/// What a connection does with the segment `h` carrying `content_len` bytes of
/// data, when it would choose `isn` as its initial sequence number: the new
/// connection and the segment sent back, if any.
pub open spec fn spec_on_packet(
    c: ConnectionView,
    h: TcpHeaderView,
    content_len: nat,
    isn: u32,
) -> (ConnectionView, Option<Reply>) {
    if c.state is Closed {
        (c, None)
    } else {
        match spec_classify(c, h, content_len) {
            Action::Proceed => spec_proceed(c, h, content_len, isn),
            Action::Discard => (c, Some(ack_reply(c))),
            Action::RST => (
                with_state(c, State::Closed),
                Some(
                    Reply { flags: flags_of(false, true, false, false), seq: c.snd.nxt, ack: c.rcv.nxt },
                ),
            ),
            Action::CloseConnection => (with_state(c, State::Closed), None),
        }
    }
}

/// Whether handling `h` in `c` chooses an initial sequence number: a listening
/// connection accepts the segment and answers with its SYN.
pub open spec fn isn_needed(c: ConnectionView, h: TcpHeaderView, content_len: nat) -> bool {
    c.state is Listen && spec_classify(c, h, content_len) is Proceed
}

/// The system clock read a time before the Unix epoch, so no initial sequence
/// number could be chosen.
#[derive(Clone, Copy, Debug, PartialEq, Eq, Structural)]
pub enum ClockError {
    BeforeEpoch,
}

/// The first timestamp option in `opts`.
pub open spec fn first_timestamp(opts: Seq<TcpOption>) -> Option<TcpOption>
    decreases opts.len(),
{
    if opts.len() == 0 {
        None
    } else if opts[0] is Timestamp {
        Some(opts[0])
    } else {
        first_timestamp(opts.drop_first())
    }
}

/// The options of a reply: when the peer sent a timestamp, the MSS, SACK
/// permitted, a timestamp that echoes the peer's TSval, and the window scale;
/// otherwise the MSS alone.
pub open spec fn spec_extract_option(timestamp: Option<TcpOption>) -> Seq<TcpOption> {
    match timestamp {
        Some(TcpOption::Timestamp { tsval, .. }) => seq![
            TcpOption::Mss(DEFAULT_MSS),
            TcpOption::SackPermitted,
            TcpOption::Timestamp { tsval: 0, tsecr: tsval },
            TcpOption::WindowScale(DEFAULT_WINDOW_SCALE),
        ],
        _ => seq![TcpOption::Mss(1460)],
    }
}

/// The options of a reply to `h`.
pub open spec fn reply_options(h: TcpHeaderView) -> Seq<TcpOption> {
    spec_extract_option(first_timestamp(h.options))
}

/// The TCP segment that answers `h`, which arrived in `ip`, with the header
/// fields of `r`.
pub open spec fn reply_tcp_bytes(h: TcpHeaderView, ip: IPV4HeaderView, r: Reply) -> Seq<u8> {
    tcp_raw_header(
        h.destination_port,
        h.source_port,
        r.seq,
        r.ack,
        r.flags,
        TCP_DEFAULT_WINDOW_SIZE,
        0,
        reply_options(h),
        ip.destination_address,
        ip.source_address,
        Seq::empty(),
    )
}

/// The IPv4 header in front of the TCP segment `tcp`, sent back to where `ip`
/// came from.
pub open spec fn reply_ipv4_bytes(tcp: Seq<u8>, ip: IPV4HeaderView) -> Seq<u8> {
    ipv4_raw_header(
        IPV4_VERSION,
        5,
        0,
        0,
        (20 + tcp.len()) as u16,
        0,
        0,
        0,
        IPV4_DEFAULT_TTL,
        IPV4_PROTO_TCP,
        ip.destination_address,
        ip.source_address,
        Seq::empty(),
    )
}

/// The packet information that the TUN device expects in front of an IPv4
/// packet.
pub open spec fn tun_header() -> Seq<u8> {
    seq![0x00u8, 0x00u8, 0x08u8, 0x00u8]
}

/// The whole frame, for the TUN device, that answers `h` with the header fields
/// of `r`.
pub open spec fn reply_frame(h: TcpHeaderView, ip: IPV4HeaderView, r: Reply) -> Seq<u8> {
    let tcp = reply_tcp_bytes(h, ip, r);
    tun_header() + reply_ipv4_bytes(tcp, ip) + tcp
}

/// `out` is the frame that answers `h` with `reply`, or nothing when there is no
/// reply.
pub open spec fn frame_matches(
    out: Option<Vec<u8>>,
    reply: Option<Reply>,
    h: TcpHeaderView,
    ip: IPV4HeaderView,
) -> bool {
    match (out, reply) {
        (Some(v), Some(r)) => v@ == reply_frame(h, ip, r),
        (None, None) => true,
        _ => false,
    }
}

pub proof fn lemma_reply_options_fit(h: TcpHeaderView)
    ensures
        padded_options(reply_options(h)).len() <= 20,
{
    let opts = reply_options(h);
    let e = encode_options(opts);
    reveal_with_fuel(encode_options, 5);
    if opts.len() == 1 {
        assert(opts.drop_first() =~= Seq::<TcpOption>::empty());
        assert(e.len() == 4);
    } else {
        assert(opts.drop_first().drop_first().drop_first().drop_first() =~= Seq::<
            TcpOption,
        >::empty());
        assert(e.len() == encode_option(opts[0]).len() + encode_option(opts[1]).len()
            + encode_option(opts[2]).len() + encode_option(opts[3]).len());
        assert(e.len() == 19);
    }
    assert(pad_len(e.len()) <= 1);
}

proof fn lemma_wrapping_add(a: u32, b: u32)
    ensures
        a.wrapping_add(b) == add32(a, b as int),
{
}

proof fn lemma_wrapping_sub(a: u32, b: u32)
    ensures
        a.wrapping_sub(b) == add32(a, -b),
{
}

pub proof fn lemma_add32_add32(a: u32, x: int, y: int)
    ensures
        add32(add32(a, x), y) == add32(a, x + y),
{
    vstd::arithmetic::div_mod::lemma_add_mod_noop_right(y, a + x, 0x1_0000_0000);
}

proof fn lemma_add32_mod(a: u32, x: int)
    ensures
        add32(a, x % 0x1_0000_0000) == add32(a, x),
{
    vstd::arithmetic::div_mod::lemma_add_mod_noop_right(a as int, x, 0x1_0000_0000);
}

#[verifier::external_type_specification]
#[verifier::external_body]
pub struct ExSystemTimeError(std::time::SystemTimeError);

/// The time since the Unix epoch, read from the system clock.
///
/// Trusted: the body calls `std::time::SystemTime::elapsed` on
/// `std::time::UNIX_EPOCH`, which fails when the clock reads a time before the
/// epoch. Nothing is stated of the result: it depends on the clock.
#[verifier::external_body]
fn time_since_epoch() -> Result<std::time::Duration, std::time::SystemTimeError> {
    std::time::UNIX_EPOCH.elapsed()
}

/// The whole microseconds of a duration.
///
/// Trusted: the body calls `std::time::Duration::as_micros`. A `Duration` is
/// opaque here, so nothing is stated of the result.
#[verifier::external_body]
fn duration_micros(d: &std::time::Duration) -> u128 {
    d.as_micros()
}

/// Cuts a length to 32 bits, as sequence numbers count.
fn len_mod32(n: usize) -> (r: u32)
    ensures
        r == n as int % 0x1_0000_0000,
{
    ((n as u64) % 0x1_0000_0000) as u32
}

impl Connection {
    /// The state of the connection.
    pub fn get_state(&self) -> (r: &State)
        ensures
            *r == self@.state,
    {
        &self.state
    }

    /// The initial sequence number for a clock that reads `micros` microseconds
    /// since the Unix epoch: that count cut to 32 bits.
    pub fn isn_from_micros(micros: u128) -> (r: u32)
        ensures
            r == micros % 0x1_0000_0000,
    {
        (micros % 0x1_0000_0000) as u32
    }

    /// Chooses an initial sequence number from the clock: the microseconds since
    /// the Unix epoch, cut to 32 bits; nothing when the clock reads a time
    /// before the epoch.
    pub(crate) fn generate_isn() -> Option<u32> {
        match time_since_epoch() {
            Ok(d) => Some(Self::isn_from_micros(duration_micros(&d))),
            Err(_) => None,
        }
    }

    /// Whether handling `tcp_header` with `content` chooses an initial sequence
    /// number.
    pub fn needs_isn(&self, tcp_header: &TcpHeader, content: &[u8]) -> (r: bool)
        ensures
            r == isn_needed(self@, tcp_header@, content@.len()),
    {
        self.state == State::Listen && self.handle_packet_unsynchronized(tcp_header, content)
            == Action::Proceed
    }

    /// Handles a segment: `tcp_header` and `content` arrived in the IPv4 packet
    /// `ipv4_header`. Returns the frame to send back, if any. The initial
    /// sequence number, chosen when a SYN opens the connection, comes from the
    /// clock; when the clock reads a time before the Unix epoch, no number can
    /// be chosen and the connection is left as it was.
    pub fn on_packet(
        &mut self,
        content: &[u8],
        tcp_header: &TcpHeader,
        ipv4_header: &IPV4Header,
    ) -> (r: Result<Option<Vec<u8>>, ClockError>)
        ensures
            match r {
                Ok(out) => exists|isn: u32|
                    {
                        let (next, reply) = #[trigger] spec_on_packet(
                            old(self)@,
                            tcp_header@,
                            content@.len(),
                            isn,
                        );
                        &&& final(self)@ == next
                        &&& frame_matches(out, reply, tcp_header@, ipv4_header@)
                    },
                Err(e) => isn_needed(old(self)@, tcp_header@, content@.len()) && final(self)@
                    == old(self)@,
            },
            !isn_needed(old(self)@, tcp_header@, content@.len()) ==> r is Ok,
            connection_inv(old(self)@) ==> connection_inv(final(self)@),
    {
        if self.needs_isn(tcp_header, content) {
            match Self::generate_isn() {
                Some(isn) => Ok(self.on_packet_with_isn(content, tcp_header, ipv4_header, isn)),
                None => Err(ClockError::BeforeEpoch),
            }
        } else {
            let out = self.on_packet_with_isn(content, tcp_header, ipv4_header, 0);
            assert(spec_on_packet(old(self)@, tcp_header@, content@.len(), 0).0 == self@);
            Ok(out)
        }
    }

    /// Handles a segment as `on_packet` does, with `isn` as the initial sequence
    /// number should the segment open the connection.
    pub fn on_packet_with_isn(
        &mut self,
        content: &[u8],
        tcp_header: &TcpHeader,
        ipv4_header: &IPV4Header,
        isn: u32,
    ) -> (r: Option<Vec<u8>>)
        ensures
            final(self)@ == spec_on_packet(old(self)@, tcp_header@, content@.len(), isn).0,
            frame_matches(
                r,
                spec_on_packet(old(self)@, tcp_header@, content@.len(), isn).1,
                tcp_header@,
                ipv4_header@,
            ),
            connection_inv(old(self)@) ==> connection_inv(final(self)@),
    {
        proof {
            crate::tcp_laws::lemma_connection_inv_preserved(
                self@,
                tcp_header@,
                content@.len(),
                isn,
            );
        }
        if self.state == State::Closed {
            return None;
        }
        let result = match self.state.is_synchronized() {
            true => self.handle_packet_synchronized(tcp_header, content),
            _ => self.handle_packet_unsynchronized(tcp_header, content),
        };
        match result {
            Action::Proceed => self.proceed_with_action(tcp_header, ipv4_header, content, isn),
            Action::Discard => {
                let nothing: Vec<u8> = Vec::new();
                Some(self.send_ack(tcp_header, ipv4_header, nothing.as_slice()))
            },
            Action::RST => Some(self.send_rst(tcp_header, ipv4_header)),
            Action::CloseConnection => {
                self.state = State::Closed;
                None
            },
        }
    }

    fn proceed_with_action(
        &mut self,
        tcp_header: &TcpHeader,
        ipv4_header: &IPV4Header,
        content: &[u8],
        isn: u32,
    ) -> (r: Option<Vec<u8>>)
        ensures
            final(self)@ == spec_proceed(old(self)@, tcp_header@, content@.len(), isn).0,
            frame_matches(
                r,
                spec_proceed(old(self)@, tcp_header@, content@.len(), isn).1,
                tcp_header@,
                ipv4_header@,
            ),
    {
        match self.state {
            State::Closed => None,
            State::Listen => Some(self.send_syn_ack(tcp_header, ipv4_header, isn)),
            State::SynRecvd => {
                self.update_state_after_handshake(tcp_header);
                None
            },
            State::Estab => {
                if tcp_header.is_fin() {
                    self.state = State::CloseWait;
                    let len = len_mod32(content.len());
                    proof {
                        let nxt = self.receive_sequence.nxt;
                        lemma_wrapping_add(nxt, len);
                        lemma_wrapping_add(nxt.wrapping_add(len), 1);
                        lemma_add32_mod(nxt, content@.len() as int);
                        lemma_add32_add32(nxt, content@.len() as int, 1);
                    }
                    self.receive_sequence.nxt = self.receive_sequence.nxt.wrapping_add(
                        len,
                    ).wrapping_add(1);
                    return Some(self.send_fin(tcp_header, ipv4_header));
                }
                Some(self.send_ack(tcp_header, ipv4_header, content))
            },
            State::LastAck => {
                self.state = State::Closed;
                None
            },
            _ => None,
        }
    }

    fn send_syn_ack(&mut self, tcp_header: &TcpHeader, ipv4_header: &IPV4Header, isn: u32) -> (r:
        Vec<u8>)
        ensures
            final(self)@ == advance_snd(syn_received(old(self)@, tcp_header@, isn)),
            r@ == reply_frame(
                tcp_header@,
                ipv4_header@,
                Reply {
                    flags: flags_of(true, false, true, false),
                    seq: isn,
                    ack: add32(tcp_header@.sequence_number, 1),
                },
            ),
    {
        self.state = State::SynRecvd;
        self.send_sequence.nxt = isn;
        self.send_sequence.una = self.send_sequence.nxt;
        self.send_sequence.wnd = tcp_header.get_window_size() as u32;
        self.receive_sequence.irs = tcp_header.get_sequence_number();
        self.receive_sequence.wnd = TCP_DEFAULT_WINDOW_SIZE as u32;
        proof {
            lemma_wrapping_add(tcp_header@.sequence_number, 1);
            lemma_wrapping_add(isn, 1);
        }
        self.receive_sequence.nxt = tcp_header.get_sequence_number().wrapping_add(1);
        let flags = TcpFlags { syn: true, ack_flag: true, ..TcpFlags::default() };
        let frame = self.build_reply(tcp_header, ipv4_header, flags);
        self.send_sequence.nxt = self.send_sequence.nxt.wrapping_add(1);
        frame
    }

    /// Completes the handshake: ESTABLISHED, with the send window from the
    /// peer's segment.
    pub fn update_state_after_handshake(&mut self, tcp_header: &TcpHeader)
        ensures
            final(self)@ == with_send_window(with_state(old(self)@, State::Estab), tcp_header@),
    {
        self.state = State::Estab;
        self.send_sequence.wnd = tcp_header.get_window_size() as u32;
    }

    fn send_ack(&mut self, tcp_header: &TcpHeader, ipv4_header: &IPV4Header, content: &[u8]) -> (r:
        Vec<u8>)
        ensures
            final(self)@ == advance_rcv(old(self)@, content@.len() as int),
            r@ == reply_frame(tcp_header@, ipv4_header@, ack_reply(final(self)@)),
    {
        let len = len_mod32(content.len());
        proof {
            lemma_wrapping_add(self.receive_sequence.nxt, len);
            lemma_add32_mod(self.receive_sequence.nxt, content@.len() as int);
        }
        self.receive_sequence.nxt = self.receive_sequence.nxt.wrapping_add(len);
        let flags = TcpFlags { ack_flag: true, ..TcpFlags::default() };
        self.build_reply(tcp_header, ipv4_header, flags)
    }

    fn send_fin(&mut self, tcp_header: &TcpHeader, ipv4_header: &IPV4Header) -> (r: Vec<u8>)
        ensures
            final(self)@ == advance_snd(with_state(old(self)@, State::LastAck)),
            r@ == reply_frame(
                tcp_header@,
                ipv4_header@,
                Reply {
                    flags: flags_of(true, false, false, true),
                    seq: old(self)@.snd.nxt,
                    ack: old(self)@.rcv.nxt,
                },
            ),
    {
        self.state = State::LastAck;
        let flags = TcpFlags { fin: true, ack_flag: true, ..TcpFlags::default() };
        let frame = self.build_reply(tcp_header, ipv4_header, flags);
        proof {
            lemma_wrapping_add(self.send_sequence.nxt, 1);
        }
        // The FIN occupies one sequence number.
        self.send_sequence.nxt = self.send_sequence.nxt.wrapping_add(1);
        frame
    }

    fn send_rst(&mut self, tcp_header: &TcpHeader, ipv4_header: &IPV4Header) -> (r: Vec<u8>)
        ensures
            final(self)@ == with_state(old(self)@, State::Closed),
            r@ == reply_frame(
                tcp_header@,
                ipv4_header@,
                Reply {
                    flags: flags_of(false, true, false, false),
                    seq: old(self)@.snd.nxt,
                    ack: old(self)@.rcv.nxt,
                },
            ),
    {
        self.state = State::Closed;
        let flags = TcpFlags { rst: true, ..TcpFlags::default() };
        self.build_reply(tcp_header, ipv4_header, flags)
    }

    /// The frame that answers `tcp_header` with `flags`, the connection's next
    /// send sequence number and its next expected receive sequence number.
    fn build_reply(&self, tcp_header: &TcpHeader, ipv4_header: &IPV4Header, flags: TcpFlags) -> (r:
        Vec<u8>)
        ensures
            r@ == reply_frame(
                tcp_header@,
                ipv4_header@,
                Reply { flags, seq: self@.snd.nxt, ack: self@.rcv.nxt },
            ),
    {
        let mut vec: Vec<u8> = Vec::new();
        vec.push(0x00);
        vec.push(0x00);
        vec.push(0x08);
        vec.push(0x00);
        let timestamp = Self::find_timestamp(tcp_header.get_options());
        let options: Vec<TcpOption> = Self::extract_option(timestamp);
        proof {
            lemma_reply_options_fit(tcp_header@);
        }
        let new_tcp_header = self.make_tcp_header(tcp_header, ipv4_header, flags, &options);
        let new_ipv4_header = Self::make_ipv4_header(&new_tcp_header, ipv4_header);
        crate::wire::push_bytes(&mut vec, new_ipv4_header.as_slice());
        crate::wire::push_bytes(&mut vec, new_tcp_header.as_slice());
        vec
    }

    /// The first timestamp option of `options`.
    fn find_timestamp(options: &[TcpOption]) -> (r: Option<TcpOption>)
        ensures
            r == first_timestamp(options@),
    {
        let mut i: usize = 0;
        assert(options@.skip(0) =~= options@);
        while i < options.len()
            invariant
                i <= options@.len(),
                first_timestamp(options@.skip(i as int)) == first_timestamp(options@),
            decreases options@.len() - i,
        {
            assert(options@.skip(i as int).drop_first() =~= options@.skip(i + 1));
            match options[i] {
                TcpOption::Timestamp { .. } => {
                    return Some(options[i]);
                },
                _ => {},
            }
            i = i + 1;
        }
        None
    }

    fn extract_option(timestamp: Option<TcpOption>) -> (r: Vec<TcpOption>)
        ensures
            r@ == spec_extract_option(timestamp),
    {
        let mut options: Vec<TcpOption> = Vec::new();
        match timestamp {
            Some(TcpOption::Timestamp { tsval, .. }) => {
                options.push(TcpOption::Mss(DEFAULT_MSS));
                options.push(TcpOption::SackPermitted);
                options.push(TcpOption::Timestamp { tsval: 0, tsecr: tsval });
                options.push(TcpOption::WindowScale(DEFAULT_WINDOW_SCALE));
            },
            _ => {
                options.push(TcpOption::Mss(1460));
            },
        }
        assert(options@ =~= spec_extract_option(timestamp));
        options
    }

    /// The TCP segment that answers `tcp_header` with `flags` and `options`, the
    /// connection's next send and expected receive sequence numbers, a window
    /// of 10 and no data.
    pub fn make_tcp_header(
        &self,
        tcp_header: &TcpHeader,
        ipv4_header: &IPV4Header,
        flags: TcpFlags,
        options: &[TcpOption],
    ) -> (r: Vec<u8>)
        requires
            padded_options(options@).len() <= 40,
        ensures
            r@ == tcp_raw_header(
                tcp_header@.destination_port,
                tcp_header@.source_port,
                self@.snd.nxt,
                self@.rcv.nxt,
                flags,
                TCP_DEFAULT_WINDOW_SIZE,
                0,
                options@,
                ipv4_header@.destination_address,
                ipv4_header@.source_address,
                Seq::empty(),
            ),
    {
        let nothing: Vec<u8> = Vec::new();
        TcpHeader::build_raw_header(
            tcp_header.get_destination_port(),
            tcp_header.get_source_port(),
            self.send_sequence.nxt,
            self.receive_sequence.nxt,
            flags,
            10,
            0,
            Some(options),
            ipv4_header.get_destination_address(),
            ipv4_header.get_source_address(),
            nothing.as_slice(),
        )
    }

    /// The IPv4 header in front of the TCP segment `tcp_header`, sent back to
    /// where `ipv4_header` came from.
    pub fn make_ipv4_header(tcp_header: &[u8], ipv4_header: &IPV4Header) -> (r: Vec<u8>)
        requires
            tcp_header@.len() <= 65515,
        ensures
            r@ == reply_ipv4_bytes(tcp_header@, ipv4_header@),
    {
        IPV4Header::build_raw_header(
            IPV4_VERSION,
            5,
            0,
            0,
            20 + (tcp_header.len() as u16),
            0,
            0,
            0,
            IPV4_DEFAULT_TTL,
            IPV4_PROTO_TCP,
            ipv4_header.get_destination_address(),
            ipv4_header.get_source_address(),
            None,
        )
    }

    /// Whether `ack` acknowledges something sent and not yet acknowledged.
    pub fn validity_of_ack(unack: u32, ack: u32, nxt: u32) -> (r: bool)
        ensures
            r == spec_validity_of_ack(unack, ack, nxt),
            r == (0 < seq_distance(unack, ack) <= seq_distance(unack, nxt)),
    {
        if unack == nxt {
            return false;
        }
        if unack < nxt {
            if unack < ack && ack <= nxt {
                return true;
            }
        } else {
            if (unack < ack && nxt < ack) || (unack > ack && nxt >= ack) {
                return true;
            }
        }
        false
    }

    /// Whether `seq` lies in the window from `nxt` up to, not including,
    /// `nxt_and_wnd`.
    pub fn validity_of_seq(nxt: u32, seq: u32, nxt_and_wnd: u32) -> (r: bool)
        ensures
            r == spec_validity_of_seq(nxt, seq, nxt_and_wnd),
            nxt != nxt_and_wnd ==> r == (seq_distance(nxt, seq) < seq_distance(nxt, nxt_and_wnd)),
    {
        if nxt < nxt_and_wnd {
            if nxt <= seq && seq < nxt_and_wnd {
                return true;
            }
        } else {
            if (nxt <= seq && nxt_and_wnd < seq) || (nxt > seq && nxt_and_wnd > seq) {
                return true;
            }
        }
        false
    }

    /// The acceptability test of RFC 793 on an arriving segment.
    pub fn perform_seq_validity_check(&self, tcp_header: &TcpHeader, content: &[u8]) -> (r: bool)
        ensures
            r == segment_acceptable(self@, tcp_header@, content@.len()),
            r == rfc_seq_acceptable(
                self@.rcv.nxt,
                self@.rcv.wnd,
                tcp_header@.sequence_number,
                segment_length(tcp_header@, content@.len()),
            ),
    {
        let seq = tcp_header.get_sequence_number();
        let empty = content.len() == 0 && !tcp_header.is_fin() && !tcp_header.is_syn();
        let ghost total = segment_length(tcp_header@, content@.len());
        let ghost mut counted: int = content@.len() as int;
        let mut len = len_mod32(content.len());
        if tcp_header.is_fin() {
            proof {
                lemma_wrapping_add(len, 1);
                vstd::arithmetic::div_mod::lemma_add_mod_noop(counted, 1, 0x1_0000_0000);
                counted = counted + 1;
            }
            len = len.wrapping_add(1);
        };
        if tcp_header.is_syn() {
            proof {
                lemma_wrapping_add(len, 1);
                vstd::arithmetic::div_mod::lemma_add_mod_noop(counted, 1, 0x1_0000_0000);
                counted = counted + 1;
            }
            len = len.wrapping_add(1);
        };
        assert(counted == total);
        let seq_end = seq.wrapping_add(len).wrapping_sub(1);
        proof {
            lemma_wrapping_add(seq, len);
            lemma_wrapping_sub(seq.wrapping_add(len), 1);
            lemma_add32_mod(seq, total as int);
            lemma_add32_add32(seq, total as int, -1);
        }
        let nxt = self.receive_sequence.nxt;
        let wnd = self.receive_sequence.wnd;
        let nxt_and_wnd = nxt.wrapping_add(wnd);
        proof {
            lemma_wrapping_add(nxt, wnd);
        }
        proof {
            lemma_seq_acceptable_is_rfc(nxt, wnd, seq, total);
        }
        assert(empty == (total == 0));
        assert(!empty ==> seq_end == add32(seq, total - 1));
        let acceptable_seq = if empty {
            if wnd == 0 {
                seq == nxt
            } else {
                Self::validity_of_seq(nxt, seq, nxt_and_wnd)
            }
        } else {
            //check both so you can acknowledge at least one byte from the segment
            (Self::validity_of_seq(nxt, seq, nxt_and_wnd) || Self::validity_of_seq(
                nxt,
                seq_end,
                nxt_and_wnd,
            )) && wnd != 0
        };
        acceptable_seq
    }

    /// The decision on a segment in a synchronized state.
    pub fn handle_packet_synchronized(&self, tcp_header: &TcpHeader, content: &[u8]) -> (r: Action)
        ensures
            r == spec_handle_synchronized(self@, tcp_header@, content@.len()),
            !segment_acceptable(self@, tcp_header@, content@.len()) ==> r == Action::Discard,
    {
        if !self.perform_seq_validity_check(tcp_header, content) {
            return Action::Discard;
        }
        if tcp_header.is_rst() {
            return Action::CloseConnection;
        }
        if tcp_header.is_syn() {
            return Action::Discard;
        }
        if !Self::validity_of_ack(
            self.send_sequence.una,
            tcp_header.get_acknowledgment_number(),
            self.send_sequence.nxt,
        ) {
            return Action::RST;
        }
        Action::Proceed
    }

    /// The decision on a segment in LISTEN or SYN-RECEIVED.
    pub fn handle_packet_unsynchronized(&self, tcp_header: &TcpHeader, content: &[u8]) -> (r: Action)
        ensures
            r == spec_handle_unsynchronized(self@, tcp_header@, content@.len()),
            self@.state is SynRecvd && !segment_acceptable(self@, tcp_header@, content@.len())
                ==> r == Action::Discard,
    {
        if self.state == State::SynRecvd && !self.perform_seq_validity_check(tcp_header, content) {
            return Action::Discard;
        }
        if tcp_header.is_rst() {
            return Action::CloseConnection;
        }
        if tcp_header.is_syn() && self.state == State::SynRecvd {
            return Action::RST;
        }
        if (self.state == State::SynRecvd || tcp_header.is_ack()) && !Self::validity_of_ack(
            self.send_sequence.una,
            tcp_header.get_acknowledgment_number(),
            self.send_sequence.nxt,
        ) {
            return Action::RST;
        }
        Action::Proceed
    }
}

} // verus!
