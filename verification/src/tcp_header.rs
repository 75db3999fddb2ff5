//! The TCP header (RFC 793) with the MSS, window scale, SACK-permitted and
//! timestamp options (RFC 7323): reading one from bytes and writing one.
use vstd::prelude::*;

use crate::wire::{
    be16, be16_bytes, be32, be32_bytes, checksum, internet_checksum, lemma_be16_roundtrip,
    lemma_be32_roundtrip, lemma_checksum_verifies, push_be16, push_be32, push_bytes, read_be16, read_be32,
};

verus! {

/// A TCP option that this stack understands.
#[derive(Clone, Copy, Debug, PartialEq, Eq, Structural)]
pub enum TcpOption {
    /// Maximum segment size (kind 2).
    Mss(u16),
    /// SACK permitted (kind 4).
    SackPermitted,
    /// Timestamps (kind 8).
    Timestamp { tsval: u32, tsecr: u32 },
    /// Window scale shift count (kind 3).
    WindowScale(u8),
}

/// The eight control bits of a TCP header.
#[derive(Clone, Copy, Debug, PartialEq, Eq, Structural)]
pub struct TcpFlags {
    pub cwr: bool,
    pub ece: bool,
    pub urg: bool,
    pub ack_flag: bool,
    pub psh: bool,
    pub rst: bool,
    pub syn: bool,
    pub fin: bool,
}

/// No control bit set.
pub open spec fn no_flags() -> TcpFlags {
    TcpFlags {
        cwr: false,
        ece: false,
        urg: false,
        ack_flag: false,
        psh: false,
        rst: false,
        syn: false,
        fin: false,
    }
}

impl Default for TcpFlags {
    fn default() -> (r: Self)
        ensures
            r == no_flags(),
    {
        TcpFlags {
            cwr: false,
            ece: false,
            urg: false,
            ack_flag: false,
            psh: false,
            rst: false,
            syn: false,
            fin: false,
        }
    }
}

/// The control bits that the flags byte `b` holds.
pub open spec fn flags_from_byte(b: u8) -> TcpFlags {
    TcpFlags {
        cwr: b & 0x80u8 != 0,
        ece: b & 0x40u8 != 0,
        urg: b & 0x20u8 != 0,
        ack_flag: b & 0x10u8 != 0,
        psh: b & 0x08u8 != 0,
        rst: b & 0x04u8 != 0,
        syn: b & 0x02u8 != 0,
        fin: b & 0x01u8 != 0,
    }
}

/// The flags byte that holds the control bits of `f`.
pub open spec fn flags_to_byte(f: TcpFlags) -> u8 {
    (if f.cwr { 0x80u8 } else { 0u8 }) | (if f.ece { 0x40u8 } else { 0u8 }) | (if f.urg {
        0x20u8
    } else {
        0u8
    }) | (if f.ack_flag { 0x10u8 } else { 0u8 }) | (if f.psh { 0x08u8 } else { 0u8 }) | (if f.rst {
        0x04u8
    } else {
        0u8
    }) | (if f.syn { 0x02u8 } else { 0u8 }) | (if f.fin { 0x01u8 } else { 0u8 })
}

proof fn lemma_flag_bits(
    cwr: bool,
    ece: bool,
    urg: bool,
    ack: bool,
    psh: bool,
    rst: bool,
    syn: bool,
    fin: bool,
    b: u8,
)
    by (bit_vector)
    requires
        b == (if cwr { 0x80u8 } else { 0u8 }) | (if ece { 0x40u8 } else { 0u8 }) | (if urg {
            0x20u8
        } else {
            0u8
        }) | (if ack { 0x10u8 } else { 0u8 }) | (if psh { 0x08u8 } else { 0u8 }) | (if rst {
            0x04u8
        } else {
            0u8
        }) | (if syn { 0x02u8 } else { 0u8 }) | (if fin { 0x01u8 } else { 0u8 }),
    ensures
        (b & 0x80u8 != 0) == cwr,
        (b & 0x40u8 != 0) == ece,
        (b & 0x20u8 != 0) == urg,
        (b & 0x10u8 != 0) == ack,
        (b & 0x08u8 != 0) == psh,
        (b & 0x04u8 != 0) == rst,
        (b & 0x02u8 != 0) == syn,
        (b & 0x01u8 != 0) == fin,
{
}

/// Reading back the flags byte of `f` gives `f`.
pub proof fn lemma_flags_roundtrip(f: TcpFlags)
    ensures
        flags_from_byte(flags_to_byte(f)) == f,
{
    lemma_flag_bits(
        f.cwr,
        f.ece,
        f.urg,
        f.ack_flag,
        f.psh,
        f.rst,
        f.syn,
        f.fin,
        flags_to_byte(f),
    );
}

proof fn lemma_flag_byte_sum(
    cwr: bool,
    ece: bool,
    urg: bool,
    ack: bool,
    psh: bool,
    rst: bool,
    syn: bool,
    fin: bool,
)
    by (bit_vector)
    ensures
        ((if cwr { 0x80u8 } else { 0u8 }) | (if ece { 0x40u8 } else { 0u8 }) | (if urg {
            0x20u8
        } else {
            0u8
        }) | (if ack { 0x10u8 } else { 0u8 }) | (if psh { 0x08u8 } else { 0u8 }) | (if rst {
            0x04u8
        } else {
            0u8
        }) | (if syn { 0x02u8 } else { 0u8 }) | (if fin { 0x01u8 } else { 0u8 })) == (if cwr {
            128int
        } else {
            0int
        }) + (if ece { 64int } else { 0int }) + (if urg { 32int } else { 0int }) + (if ack {
            16int
        } else {
            0int
        }) + (if psh { 8int } else { 0int }) + (if rst { 4int } else { 0int }) + (if syn {
            2int
        } else {
            0int
        }) + (if fin { 1int } else { 0int }),
{
}

/// The control bits sit where RFC 793 (and RFC 3168, for CWR and ECE) puts
/// them in the flags byte, from the highest bit down: CWR, ECE, URG, ACK, PSH,
/// RST, SYN, FIN. Reading takes each bit of the byte; writing adds up the
/// values of the bits that are set.
pub proof fn lemma_flag_positions(b: u8, f: TcpFlags)
    ensures
        flags_from_byte(b).cwr == ((b / 128) % 2 == 1),
        flags_from_byte(b).ece == ((b / 64) % 2 == 1),
        flags_from_byte(b).urg == ((b / 32) % 2 == 1),
        flags_from_byte(b).ack_flag == ((b / 16) % 2 == 1),
        flags_from_byte(b).psh == ((b / 8) % 2 == 1),
        flags_from_byte(b).rst == ((b / 4) % 2 == 1),
        flags_from_byte(b).syn == ((b / 2) % 2 == 1),
        flags_from_byte(b).fin == (b % 2 == 1),
        flags_to_byte(f) == (if f.cwr {
            128int
        } else {
            0int
        }) + (if f.ece { 64int } else { 0int }) + (if f.urg { 32int } else { 0int }) + (
        if f.ack_flag {
            16int
        } else {
            0int
        }) + (if f.psh { 8int } else { 0int }) + (if f.rst { 4int } else { 0int }) + (if f.syn {
            2int
        } else {
            0int
        }) + (if f.fin { 1int } else { 0int }),
{
    assert((b & 0x80u8 != 0) == ((b / 128) % 2 == 1)) by (bit_vector);
    assert((b & 0x40u8 != 0) == ((b / 64) % 2 == 1)) by (bit_vector);
    assert((b & 0x20u8 != 0) == ((b / 32) % 2 == 1)) by (bit_vector);
    assert((b & 0x10u8 != 0) == ((b / 16) % 2 == 1)) by (bit_vector);
    assert((b & 0x08u8 != 0) == ((b / 8) % 2 == 1)) by (bit_vector);
    assert((b & 0x04u8 != 0) == ((b / 4) % 2 == 1)) by (bit_vector);
    assert((b & 0x02u8 != 0) == ((b / 2) % 2 == 1)) by (bit_vector);
    assert((b & 0x01u8 != 0) == (b % 2 == 1)) by (bit_vector);
    lemma_flag_byte_sum(f.cwr, f.ece, f.urg, f.ack_flag, f.psh, f.rst, f.syn, f.fin);
}

fn flags_from(b: u8) -> (r: TcpFlags)
    ensures
        r == flags_from_byte(b),
{
    TcpFlags {
        cwr: b & 0x80 != 0,
        ece: b & 0x40 != 0,
        urg: b & 0x20 != 0,
        ack_flag: b & 0x10 != 0,
        psh: b & 0x08 != 0,
        rst: b & 0x04 != 0,
        syn: b & 0x02 != 0,
        fin: b & 0x01 != 0,
    }
}

fn flags_byte(f: TcpFlags) -> (r: u8)
    ensures
        r == flags_to_byte(f),
{
    (if f.cwr { 0x80u8 } else { 0u8 }) | (if f.ece { 0x40u8 } else { 0u8 }) | (if f.urg {
        0x20u8
    } else {
        0u8
    }) | (if f.ack_flag { 0x10u8 } else { 0u8 }) | (if f.psh { 0x08u8 } else { 0u8 }) | (if f.rst {
        0x04u8
    } else {
        0u8
    }) | (if f.syn { 0x02u8 } else { 0u8 }) | (if f.fin { 0x01u8 } else { 0u8 })
}

/// The option that the bytes `b` (kind, length, data) stand for, if this stack
/// knows it.
pub open spec fn option_of(b: Seq<u8>) -> Option<TcpOption> {
    if b[0] == 2 && b.len() == 4 {
        Some(TcpOption::Mss(be16(b[2], b[3])))
    } else if b[0] == 3 && b.len() == 3 {
        Some(TcpOption::WindowScale(b[2]))
    } else if b[0] == 4 && b.len() == 2 {
        Some(TcpOption::SackPermitted)
    } else if b[0] == 8 && b.len() == 10 {
        Some(
            TcpOption::Timestamp {
                tsval: be32(b[2], b[3], b[4], b[5]),
                tsecr: be32(b[6], b[7], b[8], b[9]),
            },
        )
    } else {
        None
    }
}

/// The known options in the option bytes `s`, in order. The list ends at an
/// end-of-list byte, at the end of `s`, or at an option whose length is
/// malformed; a no-operation byte and an option of another kind are skipped.
pub open spec fn parse_options(s: Seq<u8>) -> Seq<TcpOption>
    decreases s.len(),
{
    if s.len() == 0 || s[0] == 0 {
        Seq::empty()
    } else if s[0] == 1 {
        parse_options(s.drop_first())
    } else if s.len() < 2 || s[1] < 2 || s[1] > s.len() {
        Seq::empty()
    } else {
        let rest = parse_options(s.skip(s[1] as int));
        match option_of(s.take(s[1] as int)) {
            Some(o) => seq![o] + rest,
            None => rest,
        }
    }
}

/// The bytes of one option on the wire.
pub open spec fn encode_option(o: TcpOption) -> Seq<u8> {
    match o {
        TcpOption::Mss(v) => seq![2u8, 4u8] + be16_bytes(v),
        TcpOption::SackPermitted => seq![4u8, 2u8],
        TcpOption::Timestamp { tsval, tsecr } => seq![8u8, 10u8] + be32_bytes(tsval) + be32_bytes(
            tsecr,
        ),
        TcpOption::WindowScale(s) => seq![3u8, 3u8, s],
    }
}

/// The bytes of a list of options, one after the other.
pub open spec fn encode_options(opts: Seq<TcpOption>) -> Seq<u8>
    decreases opts.len(),
{
    if opts.len() == 0 {
        Seq::empty()
    } else {
        encode_option(opts[0]) + encode_options(opts.drop_first())
    }
}

/// `n` zero bytes.
pub open spec fn zeros(n: nat) -> Seq<u8> {
    Seq::new(n, |i: int| 0u8)
}

/// The number of zero bytes that bring `len` to a multiple of four.
pub open spec fn pad_len(len: nat) -> nat {
    ((4 - len % 4) % 4) as nat
}

/// The option bytes of a header that carries `opts`: their encoding, padded with
/// end-of-list bytes to a multiple of four.
pub open spec fn padded_options(opts: Seq<TcpOption>) -> Seq<u8> {
    encode_options(opts) + zeros(pad_len(encode_options(opts).len()))
}

/// The options handed to the header builder.
pub open spec fn option_list(options: Option<&[TcpOption]>) -> Seq<TcpOption> {
    match options {
        Some(o) => o@,
        None => Seq::empty(),
    }
}

proof fn lemma_encode_push(a: Seq<TcpOption>, x: TcpOption)
    ensures
        encode_options(a.push(x)) == encode_options(a) + encode_option(x),
    decreases a.len(),
{
    if a.len() == 0 {
        assert(a.push(x).drop_first() =~= Seq::<TcpOption>::empty());
        assert(a.push(x)[0] == x);
        assert(encode_options(Seq::<TcpOption>::empty()) =~= Seq::<u8>::empty());
        assert(encode_options(a) =~= Seq::<u8>::empty());
        assert(encode_options(a.push(x)) =~= encode_options(a) + encode_option(x));
    } else {
        assert(a.push(x).drop_first() =~= a.drop_first().push(x));
        lemma_encode_push(a.drop_first(), x);
        assert(encode_options(a.push(x)) =~= encode_options(a) + encode_option(x));
    }
}

proof fn lemma_option_roundtrip(o: TcpOption)
    ensures
        encode_option(o).len() >= 2,
        encode_option(o)[0] != 0,
        encode_option(o)[0] != 1,
        encode_option(o)[1] == encode_option(o).len(),
        option_of(encode_option(o)) == Some(o),
{
    match o {
        TcpOption::Mss(v) => {
            lemma_be16_roundtrip(v);
        },
        TcpOption::Timestamp { tsval, tsecr } => {
            lemma_be32_roundtrip(tsval);
            lemma_be32_roundtrip(tsecr);
        },
        _ => {},
    }
}

/// Reading back the encoding of a list of options, followed by any number of
/// end-of-list bytes, gives the list.
pub proof fn lemma_options_roundtrip(opts: Seq<TcpOption>, n: nat)
    ensures
        parse_options(encode_options(opts) + zeros(n)) == opts,
    decreases opts.len(),
{
    let s = encode_options(opts) + zeros(n);
    if opts.len() == 0 {
        assert(s =~= zeros(n));
        if n > 0 {
            assert(s[0] == 0);
        }
        assert(parse_options(s) =~= opts);
    } else {
        let e0 = encode_option(opts[0]);
        let rest = encode_options(opts.drop_first()) + zeros(n);
        lemma_option_roundtrip(opts[0]);
        assert(s =~= e0 + rest);
        assert(s.take(e0.len() as int) =~= e0);
        assert(s.skip(e0.len() as int) =~= rest);
        lemma_options_roundtrip(opts.drop_first(), n);
        assert(s[0] == e0[0]);
        assert(s[1] == e0[1]);
        assert(parse_options(s) =~= seq![opts[0]] + opts.drop_first());
        assert(seq![opts[0]] + opts.drop_first() =~= opts);
    }
}

/// The 20 fixed bytes of a TCP header.
pub open spec fn tcp_fixed_bytes(
    source_port: u16,
    destination_port: u16,
    sequence_number: u32,
    acknowledgment_number: u32,
    data_offset: u8,
    flags: TcpFlags,
    window_size: u16,
    checksum: u16,
    urgent_pointer: u16,
) -> Seq<u8> {
    be16_bytes(source_port) + be16_bytes(destination_port) + be32_bytes(sequence_number)
        + be32_bytes(acknowledgment_number) + seq![
        ((data_offset % 16) * 16) as u8,
        flags_to_byte(flags),
    ] + be16_bytes(window_size) + be16_bytes(checksum) + be16_bytes(urgent_pointer)
}

/// The pseudo-header that the TCP checksum covers besides the segment.
pub open spec fn pseudo_header(source_address: u32, destination_address: u32, tcp_length: u16) -> Seq<
    u8,
> {
    be32_bytes(source_address) + be32_bytes(destination_address) + seq![0u8, 6u8] + be16_bytes(
        tcp_length,
    )
}

/// The data offset field of a header that carries `opts`.
pub open spec fn data_offset_for(opts: Seq<TcpOption>) -> u8 {
    ((20 + padded_options(opts).len()) / 4) as u8
}

/// The segment, with its checksum field zero, over which the checksum is taken.
pub open spec fn tcp_unsummed(
    source_port: u16,
    destination_port: u16,
    sequence_number: u32,
    acknowledgment_number: u32,
    flags: TcpFlags,
    window_size: u16,
    urgent_pointer: u16,
    options: Seq<TcpOption>,
    payload: Seq<u8>,
) -> Seq<u8> {
    tcp_fixed_bytes(
        source_port,
        destination_port,
        sequence_number,
        acknowledgment_number,
        data_offset_for(options),
        flags,
        window_size,
        0,
        urgent_pointer,
    ) + padded_options(options) + payload
}

/// The checksum of a segment between the two addresses.
pub open spec fn tcp_checksum(
    source_port: u16,
    destination_port: u16,
    sequence_number: u32,
    acknowledgment_number: u32,
    flags: TcpFlags,
    window_size: u16,
    urgent_pointer: u16,
    options: Seq<TcpOption>,
    source_address: u32,
    destination_address: u32,
    payload: Seq<u8>,
) -> u16 {
    let unsummed = tcp_unsummed(
        source_port,
        destination_port,
        sequence_number,
        acknowledgment_number,
        flags,
        window_size,
        urgent_pointer,
        options,
        payload,
    );
    internet_checksum(
        pseudo_header(source_address, destination_address, unsummed.len() as u16) + unsummed,
    )
}

/// The bytes of a TCP segment with the given header fields, options and payload,
/// whose checksum covers the pseudo-header of the two addresses.
pub open spec fn tcp_raw_header(
    source_port: u16,
    destination_port: u16,
    sequence_number: u32,
    acknowledgment_number: u32,
    flags: TcpFlags,
    window_size: u16,
    urgent_pointer: u16,
    options: Seq<TcpOption>,
    source_address: u32,
    destination_address: u32,
    payload: Seq<u8>,
) -> Seq<u8> {
    tcp_fixed_bytes(
        source_port,
        destination_port,
        sequence_number,
        acknowledgment_number,
        data_offset_for(options),
        flags,
        window_size,
        tcp_checksum(
            source_port,
            destination_port,
            sequence_number,
            acknowledgment_number,
            flags,
            window_size,
            urgent_pointer,
            options,
            source_address,
            destination_address,
            payload,
        ),
        urgent_pointer,
    ) + padded_options(options) + payload
}

proof fn lemma_padded_len(opts: Seq<TcpOption>)
    ensures
        padded_options(opts).len() % 4 == 0,
        padded_options(opts).len() == encode_options(opts).len() + pad_len(
            encode_options(opts).len(),
        ),
{
}

/// Reading back a segment that `build_raw_header` wrote gives the header fields
/// and options it was written with, and its payload follows the header.
pub proof fn lemma_tcp_roundtrip(
    source_port: u16,
    destination_port: u16,
    sequence_number: u32,
    acknowledgment_number: u32,
    flags: TcpFlags,
    window_size: u16,
    urgent_pointer: u16,
    options: Seq<TcpOption>,
    source_address: u32,
    destination_address: u32,
    payload: Seq<u8>,
)
    requires
        padded_options(options).len() <= 40,
    ensures
        ({
            let raw = tcp_raw_header(
                source_port,
                destination_port,
                sequence_number,
                acknowledgment_number,
                flags,
                window_size,
                urgent_pointer,
                options,
                source_address,
                destination_address,
                payload,
            );
            &&& tcp_buildable(raw)
            &&& parse_tcp(raw) == TcpHeaderView {
                source_port,
                destination_port,
                sequence_number,
                acknowledgment_number,
                data_offset: data_offset_for(options),
                flags,
                window_size,
                checksum: tcp_checksum(
                    source_port,
                    destination_port,
                    sequence_number,
                    acknowledgment_number,
                    flags,
                    window_size,
                    urgent_pointer,
                    options,
                    source_address,
                    destination_address,
                    payload,
                ),
                urgent_pointer,
                options,
            }
            &&& raw.skip(tcp_header_len(raw)) == payload
        }),
{
    let ck = tcp_checksum(
        source_port,
        destination_port,
        sequence_number,
        acknowledgment_number,
        flags,
        window_size,
        urgent_pointer,
        options,
        source_address,
        destination_address,
        payload,
    );
    let raw = tcp_raw_header(
        source_port,
        destination_port,
        sequence_number,
        acknowledgment_number,
        flags,
        window_size,
        urgent_pointer,
        options,
        source_address,
        destination_address,
        payload,
    );
    let opts = padded_options(options);
    let d = data_offset_for(options);
    lemma_padded_len(options);
    assert(d < 16 && 4 * d == 20 + opts.len());
    lemma_be16_roundtrip(source_port);
    lemma_be16_roundtrip(destination_port);
    lemma_be32_roundtrip(sequence_number);
    lemma_be32_roundtrip(acknowledgment_number);
    lemma_be16_roundtrip(window_size);
    lemma_be16_roundtrip(ck);
    lemma_be16_roundtrip(urgent_pointer);
    lemma_flags_roundtrip(flags);
    assert(raw[0] == be16_bytes(source_port)[0]);
    assert(raw[1] == be16_bytes(source_port)[1]);
    assert(raw[2] == be16_bytes(destination_port)[0]);
    assert(raw[3] == be16_bytes(destination_port)[1]);
    assert(raw[4] == be32_bytes(sequence_number)[0]);
    assert(raw[5] == be32_bytes(sequence_number)[1]);
    assert(raw[6] == be32_bytes(sequence_number)[2]);
    assert(raw[7] == be32_bytes(sequence_number)[3]);
    assert(raw[8] == be32_bytes(acknowledgment_number)[0]);
    assert(raw[9] == be32_bytes(acknowledgment_number)[1]);
    assert(raw[10] == be32_bytes(acknowledgment_number)[2]);
    assert(raw[11] == be32_bytes(acknowledgment_number)[3]);
    assert(raw[12] == d * 16);
    assert(raw[13] == flags_to_byte(flags));
    assert(raw[14] == be16_bytes(window_size)[0]);
    assert(raw[15] == be16_bytes(window_size)[1]);
    assert(raw[16] == be16_bytes(ck)[0]);
    assert(raw[17] == be16_bytes(ck)[1]);
    assert(raw[18] == be16_bytes(urgent_pointer)[0]);
    assert(raw[19] == be16_bytes(urgent_pointer)[1]);
    assert(tcp_header_len(raw) == 20 + opts.len());
    assert(raw.subrange(20, tcp_header_len(raw)) =~= opts);
    assert(raw.skip(tcp_header_len(raw)) =~= payload);
    lemma_options_roundtrip(options, pad_len(encode_options(options).len()));
}

/// A segment that `build_raw_header` wrote passes the receiver's checksum test:
/// the Internet checksum of the pseudo-header of the two addresses and all the
/// bytes of the segment is zero.
pub proof fn lemma_tcp_checksum_verifies(
    source_port: u16,
    destination_port: u16,
    sequence_number: u32,
    acknowledgment_number: u32,
    flags: TcpFlags,
    window_size: u16,
    urgent_pointer: u16,
    options: Seq<TcpOption>,
    source_address: u32,
    destination_address: u32,
    payload: Seq<u8>,
)
    ensures
        ({
            let raw = tcp_raw_header(
                source_port,
                destination_port,
                sequence_number,
                acknowledgment_number,
                flags,
                window_size,
                urgent_pointer,
                options,
                source_address,
                destination_address,
                payload,
            );
            internet_checksum(
                pseudo_header(source_address, destination_address, raw.len() as u16) + raw,
            ) == 0
        }),
{
    let unsummed = tcp_unsummed(
        source_port,
        destination_port,
        sequence_number,
        acknowledgment_number,
        flags,
        window_size,
        urgent_pointer,
        options,
        payload,
    );
    let raw = tcp_raw_header(
        source_port,
        destination_port,
        sequence_number,
        acknowledgment_number,
        flags,
        window_size,
        urgent_pointer,
        options,
        source_address,
        destination_address,
        payload,
    );
    assert(raw.len() == unsummed.len());
    let full = pseudo_header(source_address, destination_address, unsummed.len() as u16)
        + unsummed;
    let ck = internet_checksum(full);
    let a = full.take(28);
    let b = full.skip(30);
    assert(full =~= a + seq![0u8, 0u8] + b);
    assert(pseudo_header(source_address, destination_address, raw.len() as u16) + raw =~= a
        + be16_bytes(ck) + b);
    lemma_checksum_verifies(a, b);
}

/// A parsed TCP header.
pub struct TcpHeader {
    source_port: u16,
    destination_port: u16,
    sequence_number: u32,
    acknowledgment_number: u32,
    data_offset: u8,
    flags: TcpFlags,
    window_size: u16,
    checksum: u16,
    urgent_pointer: u16,
    options: Vec<TcpOption>,
}

/// The fields of a TCP header as mathematical values.
pub struct TcpHeaderView {
    pub source_port: u16,
    pub destination_port: u16,
    pub sequence_number: u32,
    pub acknowledgment_number: u32,
    pub data_offset: u8,
    pub flags: TcpFlags,
    pub window_size: u16,
    pub checksum: u16,
    pub urgent_pointer: u16,
    pub options: Seq<TcpOption>,
}

impl View for TcpHeader {
    type V = TcpHeaderView;

    closed spec fn view(&self) -> TcpHeaderView {
        TcpHeaderView {
            source_port: self.source_port,
            destination_port: self.destination_port,
            sequence_number: self.sequence_number,
            acknowledgment_number: self.acknowledgment_number,
            data_offset: self.data_offset,
            flags: self.flags,
            window_size: self.window_size,
            checksum: self.checksum,
            urgent_pointer: self.urgent_pointer,
            options: self.options@,
        }
    }
}

/// The header length in bytes that the data offset field of `buf` announces.
pub open spec fn tcp_header_len(buf: Seq<u8>) -> int {
    4 * (buf[12] / 16)
}

/// `buf` holds the fixed 20 bytes of a TCP header and the options that its data
/// offset announces, and the data offset is at least 5.
pub open spec fn tcp_buildable(buf: Seq<u8>) -> bool {
    &&& buf.len() >= 20
    &&& 20 <= tcp_header_len(buf) <= buf.len()
}

/// The TCP header that the first bytes of `buf` encode.
pub open spec fn parse_tcp(buf: Seq<u8>) -> TcpHeaderView {
    TcpHeaderView {
        source_port: be16(buf[0], buf[1]),
        destination_port: be16(buf[2], buf[3]),
        sequence_number: be32(buf[4], buf[5], buf[6], buf[7]),
        acknowledgment_number: be32(buf[8], buf[9], buf[10], buf[11]),
        data_offset: buf[12] / 16,
        flags: flags_from_byte(buf[13]),
        window_size: be16(buf[14], buf[15]),
        checksum: be16(buf[16], buf[17]),
        urgent_pointer: be16(buf[18], buf[19]),
        options: parse_options(buf.subrange(20, tcp_header_len(buf))),
    }
}

/// Reads the option at `i` of `s`, whose length byte says `len`.
fn read_option(s: &[u8], i: usize, len: usize) -> (r: Option<TcpOption>)
    requires
        2 <= len,
        i + len <= s@.len(),
    ensures
        r == option_of(s@.subrange(i as int, i + len)),
{
    let kind = s[i];
    if kind == 2 && len == 4 {
        Some(TcpOption::Mss(read_be16(s, i + 2)))
    } else if kind == 3 && len == 3 {
        Some(TcpOption::WindowScale(s[i + 2]))
    } else if kind == 4 && len == 2 {
        Some(TcpOption::SackPermitted)
    } else if kind == 8 && len == 10 {
        Some(TcpOption::Timestamp { tsval: read_be32(s, i + 2), tsecr: read_be32(s, i + 6) })
    } else {
        None
    }
}

/// Reads the known options out of the option bytes `s`.
fn read_options(s: &[u8]) -> (r: Vec<TcpOption>)
    ensures
        r@ == parse_options(s@),
{
    let n = s.len();
    let mut out: Vec<TcpOption> = Vec::new();
    let mut i: usize = 0;
    assert(s@.skip(0) =~= s@);
    while i < n
        invariant
            n == s@.len(),
            i <= n,
            out@ + parse_options(s@.skip(i as int)) == parse_options(s@),
        decreases n - i,
    {
        let ghost rest = s@.skip(i as int);
        let kind = s[i];
        if kind == 0 {
            assert(parse_options(rest) =~= Seq::<TcpOption>::empty());
            assert(parse_options(s@.skip(n as int)) =~= Seq::<TcpOption>::empty());
            assert(out@ + Seq::<TcpOption>::empty() =~= out@);
            i = n;
        } else if kind == 1 {
            assert(rest.drop_first() =~= s@.skip(i + 1));
            i = i + 1;
        } else if n - i < 2 || s[i + 1] < 2 || (s[i + 1] as usize) > n - i {
            assert(parse_options(rest) =~= Seq::<TcpOption>::empty());
            assert(parse_options(s@.skip(n as int)) =~= Seq::<TcpOption>::empty());
            assert(out@ + Seq::<TcpOption>::empty() =~= out@);
            i = n;
        } else {
            let len = s[i + 1] as usize;
            assert(rest.take(len as int) =~= s@.subrange(i as int, i + len));
            assert(rest.skip(len as int) =~= s@.skip(i + len));
            let ghost tail = parse_options(s@.skip(i + len));
            match read_option(s, i, len) {
                Some(o) => {
                    assert(out@.push(o) + tail =~= out@ + (seq![o] + tail));
                    out.push(o);
                },
                None => {},
            }
            i = i + len;
        }
    }
    assert(parse_options(s@.skip(n as int)) =~= Seq::<TcpOption>::empty());
    assert(out@ + Seq::<TcpOption>::empty() =~= out@);
    out
}

/// Appends the encoding of `opts` to `out`, padded to a multiple of four bytes.
fn write_options(out: &mut Vec<u8>, opts: &[TcpOption])
    ensures
        final(out)@ == old(out)@ + padded_options(opts@),
{
    let ghost start = out@;
    let start_len = out.len();
    let mut i: usize = 0;
    assert(opts@.take(0) =~= Seq::<TcpOption>::empty());
    assert(start + encode_options(opts@.take(0)) =~= start);
    while i < opts.len()
        invariant
            i <= opts@.len(),
            out@ == start + encode_options(opts@.take(i as int)),
        decreases opts@.len() - i,
    {
        let o = opts[i];
        proof {
            assert(opts@.take(i + 1) =~= opts@.take(i as int).push(o));
            lemma_encode_push(opts@.take(i as int), o);
        }
        match o {
            TcpOption::Mss(v) => {
                out.push(2);
                out.push(4);
                push_be16(out, v);
            },
            TcpOption::SackPermitted => {
                out.push(4);
                out.push(2);
            },
            TcpOption::Timestamp { tsval, tsecr } => {
                out.push(8);
                out.push(10);
                push_be32(out, tsval);
                push_be32(out, tsecr);
            },
            TcpOption::WindowScale(s) => {
                out.push(3);
                out.push(3);
                out.push(s);
            },
        }
        assert(out@ =~= start + encode_options(opts@.take(i + 1)));
        i = i + 1;
    }
    assert(opts@.take(i as int) =~= opts@);
    let ghost encoded = out@;
    let enc_len = out.len() - start_len;
    let pad = (4 - enc_len % 4) % 4;
    let mut k: usize = 0;
    assert(encoded =~= encoded + zeros(0));
    while k < pad
        invariant
            k <= pad,
            pad == pad_len(encode_options(opts@).len()),
            out@ == encoded + zeros(k as nat),
        decreases pad - k,
    {
        out.push(0);
        k = k + 1;
        assert(out@ =~= encoded + zeros(k as nat));
    }
}

impl TcpHeader {
    /// Reads the TCP header at the start of `buf`.
    pub fn build(buf: &[u8]) -> (r: Self)
        requires
            tcp_buildable(buf@),
        ensures
            r@ == parse_tcp(buf@),
    {
        let data_offset = buf[12] / 16;
        let header_length = 4 * data_offset as usize;
        TcpHeader {
            source_port: read_be16(buf, 0),
            destination_port: read_be16(buf, 2),
            sequence_number: read_be32(buf, 4),
            acknowledgment_number: read_be32(buf, 8),
            data_offset,
            flags: flags_from(buf[13]),
            window_size: read_be16(buf, 14),
            checksum: read_be16(buf, 16),
            urgent_pointer: read_be16(buf, 18),
            options: read_options(&buf[20..header_length]),
        }
    }

    /// Writes the 20 fixed bytes of a TCP header.
    fn fixed_bytes(
        source_port: u16,
        destination_port: u16,
        sequence_number: u32,
        acknowledgment_number: u32,
        data_offset: u8,
        flags: TcpFlags,
        window_size: u16,
        checksum: u16,
        urgent_pointer: u16,
    ) -> (r: Vec<u8>)
        ensures
            r@ == tcp_fixed_bytes(
                source_port,
                destination_port,
                sequence_number,
                acknowledgment_number,
                data_offset,
                flags,
                window_size,
                checksum,
                urgent_pointer,
            ),
    {
        let mut out: Vec<u8> = Vec::new();
        push_be16(&mut out, source_port);
        push_be16(&mut out, destination_port);
        push_be32(&mut out, sequence_number);
        push_be32(&mut out, acknowledgment_number);
        out.push((data_offset % 16) * 16);
        out.push(flags_byte(flags));
        push_be16(&mut out, window_size);
        push_be16(&mut out, checksum);
        push_be16(&mut out, urgent_pointer);
        assert(out@ =~= tcp_fixed_bytes(
            source_port,
            destination_port,
            sequence_number,
            acknowledgment_number,
            data_offset,
            flags,
            window_size,
            checksum,
            urgent_pointer,
        ));
        out
    }

    /// Writes a TCP segment: the header with the given fields and options, then
    /// `payload`, with the checksum over the pseudo-header of the two addresses
    /// filled in.
    pub fn build_raw_header(
        source_port: u16,
        destination_port: u16,
        sequence_number: u32,
        acknowledgment_number: u32,
        flags: TcpFlags,
        window_size: u16,
        urgent_pointer: u16,
        options: Option<&[TcpOption]>,
        source_address: u32,
        destination_address: u32,
        payload: &[u8],
    ) -> (r: Vec<u8>)
        requires
            padded_options(option_list(options)).len() <= 40,
            20 + padded_options(option_list(options)).len() + payload@.len() <= 0xFFFF,
        ensures
            r@ == tcp_raw_header(
                source_port,
                destination_port,
                sequence_number,
                acknowledgment_number,
                flags,
                window_size,
                urgent_pointer,
                option_list(options),
                source_address,
                destination_address,
                payload@,
            ),
    {
        let ghost opts = option_list(options);
        let mut option_bytes: Vec<u8> = Vec::new();
        match options {
            Some(o) => write_options(&mut option_bytes, o),
            None => {
                assert(encode_options(opts) =~= Seq::<u8>::empty());
                assert(padded_options(opts) =~= Seq::<u8>::empty());
                assert(option_bytes@ =~= Seq::<u8>::empty() + padded_options(opts));
            },
        }
        let data_offset = ((20 + option_bytes.len()) / 4) as u8;
        let mut segment = Self::fixed_bytes(
            source_port,
            destination_port,
            sequence_number,
            acknowledgment_number,
            data_offset,
            flags,
            window_size,
            0,
            urgent_pointer,
        );
        push_bytes(&mut segment, option_bytes.as_slice());
        push_bytes(&mut segment, payload);
        let ghost unsummed = segment@;
        assert(unsummed =~= tcp_unsummed(
            source_port,
            destination_port,
            sequence_number,
            acknowledgment_number,
            flags,
            window_size,
            urgent_pointer,
            opts,
            payload@,
        ));
        let mut pseudo: Vec<u8> = Vec::new();
        push_be32(&mut pseudo, source_address);
        push_be32(&mut pseudo, destination_address);
        pseudo.push(0);
        pseudo.push(6);
        push_be16(&mut pseudo, segment.len() as u16);
        assert(pseudo@ =~= pseudo_header(source_address, destination_address, unsummed.len() as u16));
        push_bytes(&mut pseudo, segment.as_slice());
        let sum = checksum(pseudo.as_slice());
        segment[16] = (sum / 256) as u8;
        segment[17] = (sum % 256) as u8;
        assert(segment@ =~= tcp_raw_header(
            source_port,
            destination_port,
            sequence_number,
            acknowledgment_number,
            flags,
            window_size,
            urgent_pointer,
            opts,
            source_address,
            destination_address,
            payload@,
        ));
        segment
    }

    /// The header length in bytes (four times the data offset).
    pub fn get_header_length(&self) -> (r: usize)
        ensures
            r == 4 * self@.data_offset,
    {
        4 * self.data_offset as usize
    }

    pub fn get_source_port(&self) -> (r: u16)
        ensures
            r == self@.source_port,
    {
        self.source_port
    }

    pub fn get_destination_port(&self) -> (r: u16)
        ensures
            r == self@.destination_port,
    {
        self.destination_port
    }

    pub fn get_sequence_number(&self) -> (r: u32)
        ensures
            r == self@.sequence_number,
    {
        self.sequence_number
    }

    pub fn get_acknowledgment_number(&self) -> (r: u32)
        ensures
            r == self@.acknowledgment_number,
    {
        self.acknowledgment_number
    }

    pub fn get_window_size(&self) -> (r: u16)
        ensures
            r == self@.window_size,
    {
        self.window_size
    }

    pub fn get_flags(&self) -> (r: TcpFlags)
        ensures
            r == self@.flags,
    {
        self.flags
    }

    pub fn is_fin(&self) -> (r: bool)
        ensures
            r == self@.flags.fin,
    {
        self.flags.fin
    }

    pub fn is_syn(&self) -> (r: bool)
        ensures
            r == self@.flags.syn,
    {
        self.flags.syn
    }

    pub fn is_rst(&self) -> (r: bool)
        ensures
            r == self@.flags.rst,
    {
        self.flags.rst
    }

    pub fn is_ack(&self) -> (r: bool)
        ensures
            r == self@.flags.ack_flag,
    {
        self.flags.ack_flag
    }

    /// The known options of the header, in the order they came.
    pub fn get_options(&self) -> (r: &[TcpOption])
        ensures
            r@ == self@.options,
    {
        self.options.as_slice()
    }
}

} // verus!
