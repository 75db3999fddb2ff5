//! The IPv4 header (RFC 791): reading one from bytes and writing one.
use vstd::prelude::*;

use crate::wire::{
    be16, be16_bytes, be32, be32_bytes, checksum, internet_checksum, lemma_be16_roundtrip,
    lemma_be32_roundtrip, lemma_checksum_verifies, push_be16, push_be32, push_bytes, read_be16, read_be32,
};

verus! {

/// A parsed IPv4 header. `options` borrows the option bytes of the buffer that
/// the header was read from.
pub struct IPV4Header<'a> {
    version: u8,
    ihl: u8,
    dspc: u8,
    ecn: u8,
    total_length: u16,
    id: u16,
    flags: u8,
    offset: u16,
    ttl: u8,
    protocol: u8,
    checksum: u16,
    source_address: u32,
    destination_address: u32,
    options: &'a [u8],
}

/// The fields of an IPv4 header as mathematical values.
pub struct IPV4HeaderView {
    pub version: u8,
    pub ihl: u8,
    pub dspc: u8,
    pub ecn: u8,
    pub total_length: u16,
    pub id: u16,
    pub flags: u8,
    pub offset: u16,
    pub ttl: u8,
    pub protocol: u8,
    pub checksum: u16,
    pub source_address: u32,
    pub destination_address: u32,
    pub options: Seq<u8>,
}

impl<'a> View for IPV4Header<'a> {
    type V = IPV4HeaderView;

    closed spec fn view(&self) -> IPV4HeaderView {
        IPV4HeaderView {
            version: self.version,
            ihl: self.ihl,
            dspc: self.dspc,
            ecn: self.ecn,
            total_length: self.total_length,
            id: self.id,
            flags: self.flags,
            offset: self.offset,
            ttl: self.ttl,
            protocol: self.protocol,
            checksum: self.checksum,
            source_address: self.source_address,
            destination_address: self.destination_address,
            options: self.options@,
        }
    }
}

/// The header length in bytes that the first byte of `buf` announces.
pub open spec fn ipv4_header_len(buf: Seq<u8>) -> int {
    4 * (buf[0] % 16)
}

/// `buf` holds the fixed 20 bytes of a header and the options that its IHL field
/// announces, and the IHL field is at least 5.
pub open spec fn ipv4_buildable(buf: Seq<u8>) -> bool {
    &&& buf.len() >= 20
    &&& 20 <= ipv4_header_len(buf) <= buf.len()
}

/// The header that the first bytes of `buf` encode.
pub open spec fn parse_ipv4(buf: Seq<u8>) -> IPV4HeaderView {
    let fo = be16(buf[6], buf[7]);
    IPV4HeaderView {
        version: buf[0] / 16,
        ihl: buf[0] % 16,
        dspc: buf[1] / 4,
        ecn: buf[1] % 4,
        total_length: be16(buf[2], buf[3]),
        id: be16(buf[4], buf[5]),
        flags: (fo / 8192) as u8,
        offset: fo % 8192,
        ttl: buf[8],
        protocol: buf[9],
        checksum: be16(buf[10], buf[11]),
        source_address: be32(buf[12], buf[13], buf[14], buf[15]),
        destination_address: be32(buf[16], buf[17], buf[18], buf[19]),
        options: buf.subrange(20, ipv4_header_len(buf)),
    }
}

/// The option bytes handed to the header builder.
pub open spec fn option_bytes(options: Option<&[u8]>) -> Seq<u8> {
    match options {
        Some(o) => o@,
        None => Seq::empty(),
    }
}

/// The 20 fixed bytes of a header with the given fields; each field is cut to
/// its width on the wire.
pub open spec fn ipv4_fixed_bytes(
    version: u8,
    ihl: u8,
    dscp: u8,
    ecn: u8,
    total_length: u16,
    id: u16,
    flags: u8,
    offset: u16,
    ttl: u8,
    protocol: u8,
    checksum: u16,
    source_address: u32,
    destination_address: u32,
) -> Seq<u8> {
    seq![((version % 16) * 16 + ihl % 16) as u8, ((dscp % 64) * 4 + ecn % 4) as u8]
        + be16_bytes(total_length) + be16_bytes(id) + be16_bytes(
        ((flags % 8) * 8192 + offset % 8192) as u16,
    ) + seq![ttl, protocol] + be16_bytes(checksum) + be32_bytes(source_address) + be32_bytes(
        destination_address,
    )
}

/// The bytes of a header with the given fields and options, whose checksum field
/// holds the Internet checksum of the header.
pub open spec fn ipv4_raw_header(
    version: u8,
    ihl: u8,
    dscp: u8,
    ecn: u8,
    total_length: u16,
    id: u16,
    flags: u8,
    offset: u16,
    ttl: u8,
    protocol: u8,
    source_address: u32,
    destination_address: u32,
    options: Seq<u8>,
) -> Seq<u8> {
    let unsummed = ipv4_fixed_bytes(
        version,
        ihl,
        dscp,
        ecn,
        total_length,
        id,
        flags,
        offset,
        ttl,
        protocol,
        0,
        source_address,
        destination_address,
    ) + options;
    ipv4_fixed_bytes(
        version,
        ihl,
        dscp,
        ecn,
        total_length,
        id,
        flags,
        offset,
        ttl,
        protocol,
        internet_checksum(unsummed),
        source_address,
        destination_address,
    ) + options
}

proof fn lemma_nibbles(value: u8)
    ensures
        (value >> 4u8) & 0xFu8 == value / 16,
        value & 0xFu8 == value % 16,
        (value >> 2u8) & 0x3Fu8 == value / 4,
        value & 0x3u8 == value % 4,
{
    assert((value >> 4u8) & 0xFu8 == value / 16) by (bit_vector);
    assert(value & 0xFu8 == value % 16) by (bit_vector);
    assert((value >> 2u8) & 0x3Fu8 == value / 4) by (bit_vector);
    assert(value & 0x3u8 == value % 4) by (bit_vector);
}

/// Reading back a header that `build_raw_header` wrote gives the fields it was
/// written with, when each field fits its width on the wire and the IHL field
/// counts the options.
pub proof fn lemma_ipv4_roundtrip(
    version: u8,
    ihl: u8,
    dscp: u8,
    ecn: u8,
    total_length: u16,
    id: u16,
    flags: u8,
    offset: u16,
    ttl: u8,
    protocol: u8,
    source_address: u32,
    destination_address: u32,
    options: Seq<u8>,
)
    requires
        version < 16,
        ihl < 16,
        dscp < 64,
        ecn < 4,
        flags < 8,
        offset < 8192,
        4 * ihl == 20 + options.len(),
    ensures
        ({
            let raw = ipv4_raw_header(
                version,
                ihl,
                dscp,
                ecn,
                total_length,
                id,
                flags,
                offset,
                ttl,
                protocol,
                source_address,
                destination_address,
                options,
            );
            let h = parse_ipv4(raw);
            &&& ipv4_buildable(raw)
            &&& h.version == version
            &&& h.ihl == ihl
            &&& h.dspc == dscp
            &&& h.ecn == ecn
            &&& h.total_length == total_length
            &&& h.id == id
            &&& h.flags == flags
            &&& h.offset == offset
            &&& h.ttl == ttl
            &&& h.protocol == protocol
            &&& h.checksum == internet_checksum(
                ipv4_fixed_bytes(
                    version,
                    ihl,
                    dscp,
                    ecn,
                    total_length,
                    id,
                    flags,
                    offset,
                    ttl,
                    protocol,
                    0,
                    source_address,
                    destination_address,
                ) + options,
            )
            &&& h.source_address == source_address
            &&& h.destination_address == destination_address
            &&& h.options == options
        }),
{
    let ck = internet_checksum(
        ipv4_fixed_bytes(
            version,
            ihl,
            dscp,
            ecn,
            total_length,
            id,
            flags,
            offset,
            ttl,
            protocol,
            0,
            source_address,
            destination_address,
        ) + options,
    );
    let raw = ipv4_raw_header(
        version,
        ihl,
        dscp,
        ecn,
        total_length,
        id,
        flags,
        offset,
        ttl,
        protocol,
        source_address,
        destination_address,
        options,
    );
    let fo = ((flags % 8) * 8192 + offset % 8192) as u16;
    lemma_be16_roundtrip(total_length);
    lemma_be16_roundtrip(id);
    lemma_be16_roundtrip(fo);
    lemma_be16_roundtrip(ck);
    lemma_be32_roundtrip(source_address);
    lemma_be32_roundtrip(destination_address);
    assert(raw[0] == version * 16 + ihl);
    assert(raw[1] == dscp * 4 + ecn);
    assert(raw[2] == be16_bytes(total_length)[0]);
    assert(raw[3] == be16_bytes(total_length)[1]);
    assert(raw[4] == be16_bytes(id)[0]);
    assert(raw[5] == be16_bytes(id)[1]);
    assert(raw[6] == be16_bytes(fo)[0]);
    assert(raw[7] == be16_bytes(fo)[1]);
    assert(raw[10] == be16_bytes(ck)[0]);
    assert(raw[11] == be16_bytes(ck)[1]);
    assert(raw[12] == be32_bytes(source_address)[0]);
    assert(raw[13] == be32_bytes(source_address)[1]);
    assert(raw[14] == be32_bytes(source_address)[2]);
    assert(raw[15] == be32_bytes(source_address)[3]);
    assert(raw[16] == be32_bytes(destination_address)[0]);
    assert(raw[17] == be32_bytes(destination_address)[1]);
    assert(raw[18] == be32_bytes(destination_address)[2]);
    assert(raw[19] == be32_bytes(destination_address)[3]);
    assert(raw.subrange(20, raw.len() as int) =~= options);
}

/// A header that `build_raw_header` wrote passes the receiver's checksum test:
/// the Internet checksum of all its bytes is zero.
pub proof fn lemma_ipv4_checksum_verifies(
    version: u8,
    ihl: u8,
    dscp: u8,
    ecn: u8,
    total_length: u16,
    id: u16,
    flags: u8,
    offset: u16,
    ttl: u8,
    protocol: u8,
    source_address: u32,
    destination_address: u32,
    options: Seq<u8>,
)
    ensures
        internet_checksum(
            ipv4_raw_header(
                version,
                ihl,
                dscp,
                ecn,
                total_length,
                id,
                flags,
                offset,
                ttl,
                protocol,
                source_address,
                destination_address,
                options,
            ),
        ) == 0,
{
    let unsummed = ipv4_fixed_bytes(
        version,
        ihl,
        dscp,
        ecn,
        total_length,
        id,
        flags,
        offset,
        ttl,
        protocol,
        0,
        source_address,
        destination_address,
    ) + options;
    let ck = internet_checksum(unsummed);
    let a = unsummed.take(10);
    let b = unsummed.skip(12);
    assert(unsummed =~= a + seq![0u8, 0u8] + b);
    assert(ipv4_raw_header(
        version,
        ihl,
        dscp,
        ecn,
        total_length,
        id,
        flags,
        offset,
        ttl,
        protocol,
        source_address,
        destination_address,
        options,
    ) =~= a + be16_bytes(ck) + b);
    lemma_checksum_verifies(a, b);
}

impl<'a> IPV4Header<'a> {
    /// Reads the header at the start of `buf`.
    pub fn build(buf: &'a [u8]) -> (r: Self)
        requires
            ipv4_buildable(buf@),
        ensures
            r@ == parse_ipv4(buf@),
    {
        let (version, ihl) = IPV4Header::get_version_and_ihl(buf[0]);
        let (dspc, ecn) = IPV4Header::get_dscp_and_ecn(buf[1]);
        let total_length = IPV4Header::get_total_length(buf);
        let id = IPV4Header::get_id(buf);
        let (flags, offset) = IPV4Header::get_flags_and_offset(buf);
        let (ttl, protocol) = IPV4Header::get_ttl_and_protocol(buf);
        let checksum = IPV4Header::get_checksum(buf);
        let (source_address, destination_address) =
            IPV4Header::get_source_and_destination_address(buf);
        let header_length = 4 * ihl as usize;
        Self {
            version,
            ihl,
            dspc,
            ecn,
            total_length,
            id,
            flags,
            offset,
            ttl,
            protocol,
            checksum,
            source_address,
            destination_address,
            options: &buf[20..header_length],
        }
    }

    /// The header length in bytes (four times the IHL field).
    pub fn get_header_length(&self) -> (r: usize)
        ensures
            r == 4 * self@.ihl,
    {
        4 * self.ihl as usize
    }

    pub fn get_version(&self) -> (r: u8)
        ensures
            r == self@.version,
    {
        self.version
    }

    /// The three flag bits (reserved, don't fragment, more fragments).
    pub fn get_flags(&self) -> (r: u8)
        ensures
            r == self@.flags,
    {
        self.flags
    }

    /// The fragment offset, in units of eight bytes.
    pub fn get_offset(&self) -> (r: u16)
        ensures
            r == self@.offset,
    {
        self.offset
    }

    pub fn get_ttl(&self) -> (r: u8)
        ensures
            r == self@.ttl,
    {
        self.ttl
    }

    /// The option bytes between the fixed header and the payload.
    pub fn get_options(&self) -> (r: &'a [u8])
        ensures
            r@ == self@.options,
    {
        self.options
    }

    /// The protocol number of the payload.
    pub fn get_protocol(&self) -> (r: u8)
        ensures
            r == self@.protocol,
    {
        self.protocol
    }

    pub fn get_source_address(&self) -> (r: u32)
        ensures
            r == self@.source_address,
    {
        self.source_address
    }

    pub fn get_destination_address(&self) -> (r: u32)
        ensures
            r == self@.destination_address,
    {
        self.destination_address
    }

    /// Writes the 20 fixed bytes of a header; each field is cut to its width.
    fn fixed_bytes(
        version: u8,
        ihl: u8,
        dscp: u8,
        ecn: u8,
        total_length: u16,
        id: u16,
        flags: u8,
        offset: u16,
        ttl: u8,
        protocol: u8,
        checksum: u16,
        source_address: u32,
        destination_address: u32,
    ) -> (r: Vec<u8>)
        ensures
            r@ == ipv4_fixed_bytes(
                version,
                ihl,
                dscp,
                ecn,
                total_length,
                id,
                flags,
                offset,
                ttl,
                protocol,
                checksum,
                source_address,
                destination_address,
            ),
    {
        let mut out: Vec<u8> = Vec::new();
        out.push((version % 16) * 16 + ihl % 16);
        out.push((dscp % 64) * 4 + ecn % 4);
        push_be16(&mut out, total_length);
        push_be16(&mut out, id);
        push_be16(&mut out, ((flags % 8) as u16) * 8192 + offset % 8192);
        out.push(ttl);
        out.push(protocol);
        push_be16(&mut out, checksum);
        push_be32(&mut out, source_address);
        push_be32(&mut out, destination_address);
        assert(out@ =~= ipv4_fixed_bytes(
            version,
            ihl,
            dscp,
            ecn,
            total_length,
            id,
            flags,
            offset,
            ttl,
            protocol,
            checksum,
            source_address,
            destination_address,
        ));
        out
    }

    /// Writes a header with the given fields followed by `options`, and fills in
    /// its checksum.
    pub fn build_raw_header(
        version: u8,
        ihl: u8,
        dscp: u8,
        ecn: u8,
        total_length: u16,
        id: u16,
        flags: u8,
        offset: u16,
        ttl: u8,
        protocol: u8,
        source_address: u32,
        destination_address: u32,
        options: Option<&[u8]>,
    ) -> (r: Vec<u8>)
        requires
            option_bytes(options).len() <= 40,
        ensures
            r@ == ipv4_raw_header(
                version,
                ihl,
                dscp,
                ecn,
                total_length,
                id,
                flags,
                offset,
                ttl,
                protocol,
                source_address,
                destination_address,
                option_bytes(options),
            ),
    {
        let mut header = Self::fixed_bytes(
            version,
            ihl,
            dscp,
            ecn,
            total_length,
            id,
            flags,
            offset,
            ttl,
            protocol,
            0,
            source_address,
            destination_address,
        );
        match options {
            Some(o) => push_bytes(&mut header, o),
            None => {
                assert(header@ =~= header@ + option_bytes(options));
            },
        }
        let sum = checksum(header.as_slice());
        header[10] = (sum / 256) as u8;
        header[11] = (sum % 256) as u8;
        assert(header@ =~= ipv4_raw_header(
            version,
            ihl,
            dscp,
            ecn,
            total_length,
            id,
            flags,
            offset,
            ttl,
            protocol,
            source_address,
            destination_address,
            option_bytes(options),
        ));
        header
    }

    pub fn get_version_and_ihl(value: u8) -> (r: (u8, u8))
        ensures
            r == (value / 16, value % 16),
    {
        proof {
            lemma_nibbles(value);
        }
        ((value >> 4) & 0xF, value & 0xF)
    }

    pub fn get_dscp_and_ecn(value: u8) -> (r: (u8, u8))
        ensures
            r == (value / 4, value % 4),
    {
        proof {
            lemma_nibbles(value);
        }
        ((value >> 2) & 0x3F, value & 0x3)
    }

    pub fn get_total_length(buf: &[u8]) -> (r: u16)
        requires
            buf@.len() >= 4,
        ensures
            r == be16(buf@[2], buf@[3]),
    {
        read_be16(buf, 2)
    }

    pub fn get_id(buf: &[u8]) -> (r: u16)
        requires
            buf@.len() >= 6,
        ensures
            r == be16(buf@[4], buf@[5]),
    {
        read_be16(buf, 4)
    }

    pub fn get_flags_and_offset(buf: &[u8]) -> (r: (u8, u16))
        requires
            buf@.len() >= 8,
        ensures
            r == ((be16(buf@[6], buf@[7]) / 8192) as u8, be16(buf@[6], buf@[7]) % 8192),
    {
        let value = read_be16(buf, 6);
        assert((value >> 13u16) & 0x7u16 == value / 8192) by (bit_vector);
        assert(value & 0x1FFFu16 == value % 8192) by (bit_vector);
        (((value >> 13) & 0x7) as u8, value & 0x1FFF)
    }

    pub fn get_ttl_and_protocol(buf: &[u8]) -> (r: (u8, u8))
        requires
            buf@.len() >= 10,
        ensures
            r == (buf@[8], buf@[9]),
    {
        (buf[8], buf[9])
    }

    pub fn get_checksum(buf: &[u8]) -> (r: u16)
        requires
            buf@.len() >= 12,
        ensures
            r == be16(buf@[10], buf@[11]),
    {
        read_be16(buf, 10)
    }

    pub fn get_source_and_destination_address(buf: &[u8]) -> (r: (u32, u32))
        requires
            buf@.len() >= 20,
        ensures
            r == (
                be32(buf@[12], buf@[13], buf@[14], buf@[15]),
                be32(buf@[16], buf@[17], buf@[18], buf@[19]),
            ),
    {
        (read_be32(buf, 12), read_be32(buf, 16))
    }
}

} // verus!
