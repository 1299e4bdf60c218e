use super::{be16, ipv4, ipv6};
use vstd::arithmetic::div_mod::lemma_mod_multiples_vanish;
use vstd::prelude::*;

verus! {

pub const TCP_MIN_HEADER_LEN: usize = 20;

pub const FIN: u8 = 0x01;

pub const SYN: u8 = 0x02;

pub const RST: u8 = 0x04;

pub const PSH: u8 = 0x08;

pub const ACK: u8 = 0x10;

/// The sum of the big-endian 16-bit words of `s`; an odd last byte counts as the high byte
/// of a word whose low byte is zero.
pub open spec fn word_sum(s: Seq<u8>) -> nat
    decreases s.len(),
{
    if s.len() == 0 {
        0
    } else if s.len() == 1 {
        s[0] as nat * 256
    } else {
        (be16(s[0], s[1]) + word_sum(s.subrange(2, s.len() as int))) as nat
    }
}

/// End-around-carry folding of a sum into 16 bits: the value in `1..=0xffff` congruent to
/// `x` modulo `0xffff`, or 0 for a zero sum.
pub open spec fn spec_fold(x: int) -> int {
    if x == 0 {
        0
    } else {
        (x - 1) % 0xffff + 1
    }
}

/// The one's-complement checksum of a word sum: the complement of its folded value.
pub open spec fn spec_ones_complement(sum: int) -> int {
    0xffff - spec_fold(sum)
}

/// `s` with the TCP checksum field (bytes 16 and 17) set to zero.
pub open spec fn zero_checksum_field(s: Seq<u8>) -> Seq<u8> {
    s.update(16, 0).update(17, 0)
}

/// The TCP checksum over an IPv4 pseudo header and a segment whose checksum field is zero.
pub open spec fn spec_tcp_checksum_v4(ip_hdr: Seq<u8>, seg: Seq<u8>) -> int {
    spec_ones_complement(
        word_sum(ipv4::spec_pseudo_header(ip_hdr, seg.len() as u16) + zero_checksum_field(seg)) as int,
    )
}

/// The TCP checksum over an IPv6 pseudo header and a segment whose checksum field is zero.
pub open spec fn spec_tcp_checksum_v6(ip_hdr: Seq<u8>, seg: Seq<u8>) -> int {
    spec_ones_complement(
        word_sum(ipv6::spec_pseudo_header(ip_hdr, seg.len() as u16) + zero_checksum_field(seg)) as int,
    )
}

/// `s` with a 16-bit value written big-endian at `at`.
pub open spec fn with_be16(s: Seq<u8>, at: int, v: int) -> Seq<u8> {
    s.update(at, (v / 256) as u8).update(at + 1, (v % 256) as u8)
}

/// The word sum of a byte sequence is at most `0xffff` for each of its 16-bit words.
pub proof fn lemma_word_sum_bound(s: Seq<u8>)
    ensures
        word_sum(s) <= 0xffff * s.len(),
        word_sum(s) <= 0xffff * ((s.len() + 1) / 2),
    decreases s.len(),
{
    if s.len() >= 2 {
        lemma_word_sum_bound(s.subrange(2, s.len() as int));
    }
}

/// The word sum of a concatenation whose first part has even length is the sum of the
/// word sums.
pub proof fn lemma_word_sum_concat(a: Seq<u8>, b: Seq<u8>)
    requires
        a.len() % 2 == 0,
    ensures
        word_sum(a + b) == word_sum(a) + word_sum(b),
    decreases a.len(),
{
    if a.len() == 0 {
        assert(a + b =~= b);
    } else {
        let rest = a.subrange(2, a.len() as int);
        lemma_word_sum_concat(rest, b);
        assert((a + b).subrange(2, (a + b).len() as int) =~= rest + b);
    }
}

/// Writing a word at an even offset over two zero bytes adds that word to the word sum.
pub proof fn lemma_word_sum_put(s: Seq<u8>, at: int, v: int)
    requires
        0 <= at,
        at % 2 == 0,
        at + 2 <= s.len(),
        s[at] == 0,
        s[at + 1] == 0,
        0 <= v <= 0xffff,
    ensures
        word_sum(with_be16(s, at, v)) == word_sum(s) + v,
    decreases s.len(),
{
    let t = with_be16(s, at, v);
    if at == 0 {
        assert(t.subrange(2, t.len() as int) =~= s.subrange(2, s.len() as int));
    } else {
        let rest = s.subrange(2, s.len() as int);
        lemma_word_sum_put(rest, at - 2, v);
        assert(t.subrange(2, t.len() as int) =~= with_be16(rest, at - 2, v));
    }
}

/// Folding is preserved by one end-around-carry step, which makes the value smaller.
proof fn lemma_fold_step(x: int)
    requires
        x >= 0x10000,
    ensures
        spec_fold(x % 0x10000 + x / 0x10000) == spec_fold(x),
        x % 0x10000 + x / 0x10000 < x,
{
    let q = x / 0x10000;
    let r = x % 0x10000;
    let y = q + r;
    assert(x == 0x10000 * q + r);
    assert(y >= 1);
    assert(x - 1 == 0xffff * q + (y - 1));
    lemma_mod_multiples_vanish(q, y - 1, 0xffff);
}

/// Adding a checksum to the sum it was computed from gives a sum that folds to `0xffff`,
/// so its one's-complement checksum is zero.
pub proof fn lemma_complement_closes(s: int)
    requires
        s >= 0,
    ensures
        spec_ones_complement(s + spec_ones_complement(s)) == 0,
{
    let f = spec_fold(s);
    let t = s + (0xffff - f);
    if s == 0 {
        assert(t == 0xffff);
    } else {
        let k = (s - 1) / 0xffff;
        assert(s - 1 == 0xffff * k + (s - 1) % 0xffff);
        assert(t - 1 == 0xffff * k + 0xfffe);
        lemma_mod_multiples_vanish(k, 0xfffe, 0xffff);
    }
}

proof fn lemma_fold_range(x: int)
    requires
        x >= 0,
    ensures
        0 <= spec_fold(x) <= 0xffff,
        0 <= spec_ones_complement(x) <= 0xffff,
{
}

/// After `recompute_checksum_v4`, the one's-complement sum over the IPv4 pseudo header and
/// the rewritten segment is zero: a receiver that checks the segment accepts it.
pub proof fn lemma_checksum_v4_verifies(ip_hdr: Seq<u8>, seg: Seq<u8>)
    requires
        ip_hdr.len() >= 20,
        seg.len() >= 18,
    ensures
        ({
            let out = with_be16(zero_checksum_field(seg), 16, spec_tcp_checksum_v4(ip_hdr, seg));
            spec_ones_complement(
                word_sum(ipv4::spec_pseudo_header(ip_hdr, out.len() as u16) + out) as int,
            ) == 0
        }),
{
    let z = zero_checksum_field(seg);
    let p = ipv4::spec_pseudo_header(ip_hdr, seg.len() as u16);
    let s = word_sum(p + z) as int;
    let c = spec_tcp_checksum_v4(ip_hdr, seg);
    lemma_fold_range(s);
    let out = with_be16(z, 16, c);
    lemma_word_sum_put(z, 16, c);
    lemma_word_sum_concat(p, out);
    lemma_word_sum_concat(p, z);
    lemma_complement_closes(s);
}

/// The segment that `recompute_checksum_v4` writes checks out against the RFC 793 pseudo
/// header: the IPv4 source and destination addresses, a zero byte, the TCP protocol number
/// 6 and the segment's length; the one's-complement checksum over that header and the
/// segment is zero.
pub proof fn lemma_checksum_v4_rfc793(ip_hdr: Seq<u8>, seg: Seq<u8>)
    requires
        ip_hdr.len() >= 20,
        seg.len() >= 18,
        seg.len() <= 0xffff,
    ensures
        ({
            let out = with_be16(zero_checksum_field(seg), 16, spec_tcp_checksum_v4(ip_hdr, seg));
            let ph = seq![
                ip_hdr[12], ip_hdr[13], ip_hdr[14], ip_hdr[15],
                ip_hdr[16], ip_hdr[17], ip_hdr[18], ip_hdr[19],
                0u8, 6u8, (seg.len() / 256) as u8, (seg.len() % 256) as u8,
            ];
            spec_ones_complement(word_sum(ph + out) as int) == 0
        }),
{
    lemma_checksum_v4_verifies(ip_hdr, seg);
    let out = with_be16(zero_checksum_field(seg), 16, spec_tcp_checksum_v4(ip_hdr, seg));
    assert(ipv4::spec_pseudo_header(ip_hdr, out.len() as u16) =~= seq![
        ip_hdr[12], ip_hdr[13], ip_hdr[14], ip_hdr[15],
        ip_hdr[16], ip_hdr[17], ip_hdr[18], ip_hdr[19],
        0u8, 6u8, (seg.len() / 256) as u8, (seg.len() % 256) as u8,
    ]);
}

/// The segment that `recompute_checksum_v6` writes checks out against the IPv6 pseudo
/// header of RFC 8200: the source and destination addresses, the segment's length in 32
/// bits, three zero bytes and the next header 6 (TCP).
pub proof fn lemma_checksum_v6_rfc8200(ip_hdr: Seq<u8>, seg: Seq<u8>)
    requires
        ip_hdr.len() >= 40,
        seg.len() >= 18,
        seg.len() <= 0xffff,
    ensures
        ({
            let out = with_be16(zero_checksum_field(seg), 16, spec_tcp_checksum_v6(ip_hdr, seg));
            let ph = ip_hdr.subrange(8, 40) + seq![
                0u8, 0u8, (seg.len() / 256) as u8, (seg.len() % 256) as u8, 0u8, 0u8, 0u8, 6u8,
            ];
            spec_ones_complement(word_sum(ph + out) as int) == 0
        }),
{
    lemma_checksum_v6_verifies(ip_hdr, seg);
}

/// After `recompute_checksum_v6`, the one's-complement sum over the IPv6 pseudo header and
/// the rewritten segment is zero: a receiver that checks the segment accepts it.
pub proof fn lemma_checksum_v6_verifies(ip_hdr: Seq<u8>, seg: Seq<u8>)
    requires
        ip_hdr.len() >= 40,
        seg.len() >= 18,
    ensures
        ({
            let out = with_be16(zero_checksum_field(seg), 16, spec_tcp_checksum_v6(ip_hdr, seg));
            spec_ones_complement(
                word_sum(ipv6::spec_pseudo_header(ip_hdr, out.len() as u16) + out) as int,
            ) == 0
        }),
{
    let z = zero_checksum_field(seg);
    let p = ipv6::spec_pseudo_header(ip_hdr, seg.len() as u16);
    let s = word_sum(p + z) as int;
    let c = spec_tcp_checksum_v6(ip_hdr, seg);
    lemma_fold_range(s);
    let out = with_be16(z, 16, c);
    lemma_word_sum_put(z, 16, c);
    lemma_word_sum_concat(p, out);
    lemma_word_sum_concat(p, z);
    lemma_complement_closes(s);
}

/// After `ipv4::recompute_checksum`, the one's-complement sum over the header (as long as
/// its IHL says, and long enough to hold the checksum field) is zero.
pub proof fn lemma_ipv4_header_checksum_verifies(hdr: Seq<u8>)
    requires
        hdr.len() >= ipv4::spec_header_len(hdr) >= 12,
    ensures
        ({
            let c = ipv4::spec_ipv4_checksum(hdr);
            let out = with_be16(hdr, 10, c);
            spec_ones_complement(
                word_sum(out.subrange(0, ipv4::spec_header_len(hdr))) as int,
            ) == 0
        }),
{
    let ihl = ipv4::spec_header_len(hdr);
    let z = hdr.update(10, 0).update(11, 0);
    let zp = z.subrange(0, ihl);
    let s = word_sum(zp) as int;
    let c = ipv4::spec_ipv4_checksum(hdr);
    lemma_fold_range(s);
    let out = with_be16(hdr, 10, c);
    assert(out.subrange(0, ihl) =~= with_be16(zp, 10, c));
    lemma_word_sum_put(zp, 10, c);
    lemma_complement_closes(s);
}

pub fn data_offset(hdr: &[u8]) -> (r: usize)
    requires
        hdr@.len() >= 13,
    ensures
        r == (hdr@[12] / 16) * 4,
{
    let b = hdr[12];
    let hi = b >> 4;
    assert(hi == b / 16) by (bit_vector)
        requires
            hi == b >> 4,
    ;
    hi as usize * 4
}

pub fn src_port(hdr: &[u8]) -> (r: u16)
    requires
        hdr@.len() >= 2,
    ensures
        r == be16(hdr@[0], hdr@[1]),
{
    hdr[0] as u16 * 256 + hdr[1] as u16
}

pub fn dst_port(hdr: &[u8]) -> (r: u16)
    requires
        hdr@.len() >= 4,
    ensures
        r == be16(hdr@[2], hdr@[3]),
{
    hdr[2] as u16 * 256 + hdr[3] as u16
}

pub fn seq_num(hdr: &[u8]) -> (r: u32)
    requires
        hdr@.len() >= 8,
    ensures
        r == ipv4::be32_at(hdr@, 4),
{
    hdr[4] as u32 * 0x1000000 + hdr[5] as u32 * 0x10000 + hdr[6] as u32 * 0x100 + hdr[7] as u32
}

pub fn ack_num(hdr: &[u8]) -> (r: u32)
    requires
        hdr@.len() >= 12,
    ensures
        r == ipv4::be32_at(hdr@, 8),
{
    hdr[8] as u32 * 0x1000000 + hdr[9] as u32 * 0x10000 + hdr[10] as u32 * 0x100
        + hdr[11] as u32
}

pub fn flags(hdr: &[u8]) -> (r: u8)
    requires
        hdr@.len() >= 14,
    ensures
        r == hdr@[13],
{
    hdr[13]
}

/// `s` with a 32-bit value written big-endian at `at` to `at + 3`.
pub open spec fn with_be32(s: Seq<u8>, at: int, v: u32) -> Seq<u8> {
    s.update(at, (v / 0x1000000) as u8).update(at + 1, (v / 0x10000 % 256) as u8).update(
        at + 2,
        (v / 0x100 % 256) as u8,
    ).update(at + 3, (v % 256) as u8)
}

/// Writes `v` big-endian at `at` to `at + 3`.
pub fn put_be32(buf: &mut [u8], at: usize, v: u32)
    requires
        at + 4 <= old(buf)@.len(),
    ensures
        final(buf)@ == with_be32(old(buf)@, at as int, v),
{
    buf[at] = (v / 0x1000000) as u8;
    buf[at + 1] = (v / 0x10000 % 256) as u8;
    buf[at + 2] = (v / 0x100 % 256) as u8;
    buf[at + 3] = (v % 256) as u8;
}

pub fn set_seq_num(hdr: &mut [u8], seq: u32)
    requires
        old(hdr)@.len() >= 8,
    ensures
        final(hdr)@ == with_be32(old(hdr)@, 4, seq),
{
    put_be32(hdr, 4, seq);
}

pub fn set_flags(hdr: &mut [u8], f: u8)
    requires
        old(hdr)@.len() >= 14,
    ensures
        final(hdr)@ == old(hdr)@.update(13, f),
{
    hdr[13] = f;
}

pub fn add_flag(hdr: &mut [u8], f: u8)
    requires
        old(hdr)@.len() >= 14,
    ensures
        final(hdr)@ == old(hdr)@.update(13, old(hdr)@[13] | f),
{
    hdr[13] = hdr[13] | f;
}

/// The payload length of a segment of `total_tcp_len` bytes: what the header leaves over,
/// or 0 when the header claims more than the segment holds.
pub fn payload_len(hdr: &[u8], total_tcp_len: usize) -> (r: usize)
    requires
        hdr@.len() >= 13,
    ensures
        r == if total_tcp_len >= (hdr@[12] / 16) * 4 {
            total_tcp_len - (hdr@[12] / 16) * 4
        } else {
            0
        },
{
    total_tcp_len.saturating_sub(data_offset(hdr))
}

/// Adds the word sum of `data` to `sum`.
fn accumulate(sum: u32, data: &[u8]) -> (r: u32)
    requires
        sum + word_sum(data@) <= u32::MAX,
    ensures
        r == sum + word_sum(data@),
{
    let mut acc = sum;
    let mut i: usize = 0;
    let len = data.len();
    assert(data@.subrange(0, len as int) =~= data@);
    while len - i > 1
        invariant
            i <= len,
            len == data@.len(),
            acc + word_sum(data@.subrange(i as int, len as int)) == sum + word_sum(data@),
            sum + word_sum(data@) <= u32::MAX,
        decreases len - i,
    {
        let ghost rest = data@.subrange(i as int, len as int);
        assert(rest.subrange(2, rest.len() as int) =~= data@.subrange(i + 2, len as int));
        acc = acc + (data[i] as u32 * 256 + data[i + 1] as u32);
        i = i + 2;
    }
    if i < len {
        let ghost rest = data@.subrange(i as int, len as int);
        assert(rest.len() == 1);
        acc = acc + data[i] as u32 * 256;
    } else {
        assert(data@.subrange(i as int, len as int).len() == 0);
    }
    acc
}

/// Folds a 32-bit sum into 16 bits with end-around carry and complements it.
fn fold_complement(sum: u32) -> (r: u16)
    ensures
        r == spec_ones_complement(sum as int),
{
    let mut s = sum;
    while s >= 0x10000
        invariant
            spec_fold(s as int) == spec_fold(sum as int),
        decreases s,
    {
        proof {
            lemma_fold_step(s as int);
        }
        s = s % 0x10000 + s / 0x10000;
    }
    let low = s as u16;
    let r = !low;
    assert(r == 0xffff - low) by (bit_vector)
        requires
            r == !low,
    ;
    r
}

/// The Internet checksum of `data`: the complement of its folded 16-bit word sum.
pub fn ones_complement_sum(data: &[u8]) -> (r: u16)
    requires
        word_sum(data@) <= u32::MAX,
    ensures
        r == spec_ones_complement(word_sum(data@) as int),
{
    let sum = accumulate(0, data);
    fold_complement(sum)
}

/// `s` with the two bytes at `at` set to zero.
pub open spec fn zero_field_at(s: Seq<u8>, at: int) -> Seq<u8> {
    s.update(at, 0).update(at + 1, 0)
}

/// Writes, into the segment that starts at `off` in `buf`, the TCP checksum computed over
/// `pseudo` and the segment with its checksum field zeroed.
pub fn fill_checksum_at(buf: &mut [u8], off: usize, pseudo: &[u8])
    requires
        off + 18 <= old(buf)@.len(),
        pseudo@.len() % 2 == 0,
        word_sum(pseudo@) + word_sum(
            zero_checksum_field(old(buf)@.subrange(off as int, old(buf)@.len() as int)),
        ) <= u32::MAX,
    ensures
        final(buf)@ == with_be16(
            zero_field_at(old(buf)@, off + 16),
            off + 16,
            spec_ones_complement(
                word_sum(
                    pseudo@ + zero_checksum_field(
                        old(buf)@.subrange(off as int, old(buf)@.len() as int),
                    ),
                ) as int,
            ),
        ),
{
    buf[off + 16] = 0;
    buf[off + 17] = 0;
    let len = buf.len();
    let seg = vstd::slice::slice_subrange(&*buf, off, len);
    assert(seg@ =~= zero_checksum_field(old(buf)@.subrange(off as int, old(buf)@.len() as int)));
    let sum = accumulate(0, pseudo);
    let sum = accumulate(sum, seg);
    proof {
        lemma_word_sum_concat(pseudo@, seg@);
    }
    let cksum = fold_complement(sum);
    ipv4::put_be16(buf, off + 16, cksum);
}

/// Recomputes the TCP checksum of a segment carried over IPv4.
pub fn recompute_checksum_v4(ip_hdr: &[u8], tcp_segment: &mut [u8])
    requires
        ip_hdr@.len() >= 20,
        old(tcp_segment)@.len() >= 18,
        word_sum(ipv4::spec_pseudo_header(ip_hdr@, old(tcp_segment)@.len() as u16))
            + word_sum(zero_checksum_field(old(tcp_segment)@)) <= u32::MAX,
    ensures
        final(tcp_segment)@ == with_be16(
            zero_checksum_field(old(tcp_segment)@),
            16,
            spec_tcp_checksum_v4(ip_hdr@, old(tcp_segment)@),
        ),
{
    assert(old(tcp_segment)@.subrange(0, old(tcp_segment)@.len() as int) =~= old(tcp_segment)@);
    let pseudo = ipv4::pseudo_header(ip_hdr, tcp_segment.len() as u16);
    fill_checksum_at(tcp_segment, 0, pseudo.as_slice());
}

/// Recomputes the TCP checksum of a segment carried over IPv6.
pub fn recompute_checksum_v6(ip_hdr: &[u8], tcp_segment: &mut [u8])
    requires
        ip_hdr@.len() >= 40,
        old(tcp_segment)@.len() >= 18,
        word_sum(ipv6::spec_pseudo_header(ip_hdr@, old(tcp_segment)@.len() as u16))
            + word_sum(zero_checksum_field(old(tcp_segment)@)) <= u32::MAX,
    ensures
        final(tcp_segment)@ == with_be16(
            zero_checksum_field(old(tcp_segment)@),
            16,
            spec_tcp_checksum_v6(ip_hdr@, old(tcp_segment)@),
        ),
{
    assert(old(tcp_segment)@.subrange(0, old(tcp_segment)@.len() as int) =~= old(tcp_segment)@);
    let pseudo = ipv6::pseudo_header(ip_hdr, tcp_segment.len() as u16);
    fill_checksum_at(tcp_segment, 0, pseudo.as_slice());
}

} // verus!
