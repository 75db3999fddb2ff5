//! Network byte order and the Internet checksum (RFC 1071).
use vstd::prelude::*;

verus! {

/// The big-endian value of two bytes.
pub open spec fn be16(hi: u8, lo: u8) -> u16 {
    (hi * 256 + lo) as u16
}

/// The big-endian value of four bytes.
pub open spec fn be32(b0: u8, b1: u8, b2: u8, b3: u8) -> u32 {
    (b0 * 0x100_0000 + b1 * 0x1_0000 + b2 * 0x100 + b3) as u32
}

/// The two bytes of `v` in network byte order.
pub open spec fn be16_bytes(v: u16) -> Seq<u8> {
    seq![(v / 256) as u8, (v % 256) as u8]
}

/// The four bytes of `v` in network byte order.
pub open spec fn be32_bytes(v: u32) -> Seq<u8> {
    seq![
        (v / 0x100_0000) as u8,
        ((v / 0x1_0000) % 256) as u8,
        ((v / 0x100) % 256) as u8,
        (v % 256) as u8,
    ]
}

pub proof fn lemma_be16_roundtrip(v: u16)
    ensures
        be16(be16_bytes(v)[0], be16_bytes(v)[1]) == v,
{
}

pub proof fn lemma_be32_roundtrip(v: u32)
    ensures
        be32(be32_bytes(v)[0], be32_bytes(v)[1], be32_bytes(v)[2], be32_bytes(v)[3]) == v,
{
    let b0 = v / 0x100_0000;
    let r0 = v % 0x100_0000;
    let b1 = r0 / 0x1_0000;
    let r1 = r0 % 0x1_0000;
    let b2 = r1 / 0x100;
    let b3 = r1 % 0x100;
    assert((v / 0x1_0000) % 256 == b1) by (nonlinear_arith)
        requires
            b1 == (v % 0x100_0000) / 0x1_0000,
    ;
    assert((v / 0x100) % 256 == b2) by (nonlinear_arith)
        requires
            b2 == ((v % 0x100_0000) % 0x1_0000) / 0x100,
    ;
    assert(v % 256 == b3) by (nonlinear_arith)
        requires
            b3 == ((v % 0x100_0000) % 0x1_0000) % 0x100,
    ;
}

/// Reads a big-endian 16-bit value at `pos`.
pub fn read_be16(buf: &[u8], pos: usize) -> (r: u16)
    requires
        pos + 2 <= buf@.len(),
    ensures
        r == be16(buf@[pos as int], buf@[pos + 1]),
{
    (buf[pos] as u16) * 256 + (buf[pos + 1] as u16)
}

/// Reads a big-endian 32-bit value at `pos`.
pub fn read_be32(buf: &[u8], pos: usize) -> (r: u32)
    requires
        pos + 4 <= buf@.len(),
    ensures
        r == be32(buf@[pos as int], buf@[pos + 1], buf@[pos + 2], buf@[pos + 3]),
{
    (buf[pos] as u32) * 0x100_0000 + (buf[pos + 1] as u32) * 0x1_0000 + (buf[pos + 2] as u32)
        * 0x100 + (buf[pos + 3] as u32)
}

/// Appends `v` to `out` in network byte order.
pub fn push_be16(out: &mut Vec<u8>, v: u16)
    ensures
        final(out)@ == old(out)@ + be16_bytes(v),
{
    out.push((v / 256) as u8);
    out.push((v % 256) as u8);
}

/// Appends `v` to `out` in network byte order.
pub fn push_be32(out: &mut Vec<u8>, v: u32)
    ensures
        final(out)@ == old(out)@ + be32_bytes(v),
{
    out.push((v / 0x100_0000) as u8);
    out.push(((v / 0x1_0000) % 256) as u8);
    out.push(((v / 0x100) % 256) as u8);
    out.push((v % 256) as u8);
}

/// Appends the bytes of `s` to `out`.
pub fn push_bytes(out: &mut Vec<u8>, s: &[u8])
    ensures
        final(out)@ == old(out)@ + s@,
{
    let mut i: usize = 0;
    while i < s.len()
        invariant
            i <= s@.len(),
            out@ == old(out)@ + s@.take(i as int),
        decreases s@.len() - i,
    {
        assert(s@.take(i + 1) =~= s@.take(i as int).push(s@[i as int]));
        out.push(s[i]);
        i = i + 1;
    }
    assert(s@.take(i as int) =~= s@);
}

/// The sum of the 16-bit big-endian words of `s`; an odd last byte counts as the
/// high byte of a word whose low byte is zero.
pub open spec fn word_sum(s: Seq<u8>) -> nat
    decreases s.len(),
{
    if s.len() == 0 {
        0
    } else if s.len() == 1 {
        s[0] as nat * 256
    } else {
        s[0] as nat * 256 + s[1] as nat + word_sum(s.skip(2))
    }
}

/// Adds the carries above 16 bits back into the low 16 bits until none is left.
pub open spec fn fold_carries(n: nat) -> nat
    decreases n,
{
    if n <= 0xFFFF {
        n
    } else {
        proof {
            assert(n % 0x1_0000 + n / 0x1_0000 < n) by (nonlinear_arith)
                requires
                    n > 0xFFFF,
            ;
        }
        fold_carries(n % 0x1_0000 + n / 0x1_0000)
    }
}

pub proof fn lemma_fold_carries_bound(n: nat)
    ensures
        fold_carries(n) <= 0xFFFF,
    decreases n,
{
    if n > 0xFFFF {
        assert(n % 0x1_0000 + n / 0x1_0000 < n) by (nonlinear_arith)
            requires
                n > 0xFFFF,
        ;
        lemma_fold_carries_bound(n % 0x1_0000 + n / 0x1_0000);
    }
}

/// The Internet checksum of `s`: the one's complement of the one's complement sum
/// of its 16-bit words.
pub open spec fn internet_checksum(s: Seq<u8>) -> u16 {
    (0xFFFF - fold_carries(word_sum(s))) as u16
}

proof fn lemma_word_sum_append(a: Seq<u8>, b: Seq<u8>)
    requires
        a.len() % 2 == 0,
    ensures
        word_sum(a + b) == word_sum(a) + word_sum(b),
    decreases a.len(),
{
    if a.len() == 0 {
        assert(a + b =~= b);
    } else {
        assert((a + b).skip(2) =~= a.skip(2) + b);
        lemma_word_sum_append(a.skip(2), b);
    }
}

proof fn lemma_word_sum_pair(x: u8, y: u8, b: Seq<u8>)
    ensures
        word_sum(seq![x, y] + b) == x * 256 + y + word_sum(b),
{
    assert((seq![x, y] + b).skip(2) =~= b);
}

proof fn lemma_fold_carries_mod(n: nat)
    ensures
        fold_carries(n) % 0xFFFF == n % 0xFFFF,
        (fold_carries(n) == 0) == (n == 0),
    decreases n,
{
    if n > 0xFFFF {
        let q = n / 0x1_0000;
        let r = n % 0x1_0000;
        assert(n == 0x1_0000 * q + r && q >= 1 && r + q < n) by (nonlinear_arith)
            requires
                n > 0xFFFF,
                q == n / 0x1_0000,
                r == n % 0x1_0000,
        ;
        assert((r + q) % 0xFFFF == n % 0xFFFF) by (nonlinear_arith)
            requires
                n == 0x1_0000 * q + r,
        ;
        lemma_fold_carries_mod((r + q) as nat);
    }
}

/// Data whose checksum field holds the Internet checksum of the data with that
/// field zero sums to all ones: its own Internet checksum is zero, as a receiver
/// checks. The field starts at an even offset.
pub proof fn lemma_checksum_verifies(a: Seq<u8>, b: Seq<u8>)
    requires
        a.len() % 2 == 0,
    ensures
        internet_checksum(a + be16_bytes(internet_checksum(a + seq![0u8, 0u8] + b)) + b) == 0,
{
    let zeroed = a + seq![0u8, 0u8] + b;
    let ck = internet_checksum(zeroed);
    let filled = a + be16_bytes(ck) + b;
    assert(zeroed =~= a + (seq![0u8, 0u8] + b));
    assert(filled =~= a + (seq![(ck / 256) as u8, (ck % 256) as u8] + b));
    lemma_word_sum_append(a, seq![0u8, 0u8] + b);
    lemma_word_sum_append(a, seq![(ck / 256) as u8, (ck % 256) as u8] + b);
    lemma_word_sum_pair(0, 0, b);
    lemma_word_sum_pair((ck / 256) as u8, (ck % 256) as u8, b);
    let s = word_sum(zeroed);
    lemma_fold_carries_bound(s);
    lemma_fold_carries_mod(s);
    assert(ck == 0xFFFF - fold_carries(s));
    let t = word_sum(filled);
    assert(t == s + ck);
    assert(t > 0);
    lemma_fold_carries_mod(t);
    lemma_fold_carries_bound(t);
    assert(t % 0xFFFF == 0) by (nonlinear_arith)
        requires
            t == s + 0xFFFF - fold_carries(s),
            fold_carries(s) % 0xFFFF == s % 0xFFFF,
            fold_carries(s) <= 0xFFFF,
    ;
    assert(fold_carries(t) == 0xFFFF);
}

/// Computes the Internet checksum of `data`.
pub fn checksum(data: &[u8]) -> (r: u16)
    requires
        data@.len() <= u32::MAX,
    ensures
        r == internet_checksum(data@),
{
    let len = data.len();
    let mut sum: u64 = 0;
    let mut i: usize = 0;
    assert(data@.skip(0) =~= data@);
    while len - i > 1
        invariant
            len == data@.len(),
            len <= u32::MAX,
            i <= len,
            sum <= 0x1_0000 * i,
            sum + word_sum(data@.skip(i as int)) == word_sum(data@),
        decreases len - i,
    {
        assert(data@.skip(i as int).skip(2) =~= data@.skip(i + 2));
        sum = sum + (data[i] as u64) * 256 + (data[i + 1] as u64);
        i = i + 2;
    }
    if i < len {
        assert(data@.skip(i as int).len() == 1);
        sum = sum + (data[i] as u64) * 256;
        i = i + 1;
    }
    assert(word_sum(data@.skip(i as int)) == 0);
    proof {
        lemma_fold_carries_bound(sum as nat);
    }
    while sum > 0xFFFF
        invariant
            fold_carries(sum as nat) == fold_carries(word_sum(data@)),
        decreases sum,
    {
        assert(sum % 0x1_0000 + sum / 0x1_0000 < sum) by (nonlinear_arith)
            requires
                sum > 0xFFFF,
        ;
        sum = sum % 0x1_0000 + sum / 0x1_0000;
    }
    (0xFFFF - sum) as u16
}

} // verus!
