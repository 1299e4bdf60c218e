use super::be16;
use vstd::prelude::*;

verus! {

pub const IPV6_HEADER_LEN: usize = 40;

/// The big-endian value of a byte sequence.
pub open spec fn be_value(s: Seq<u8>) -> nat
    decreases s.len(),
{
    if s.len() == 0 {
        0
    } else {
        be_value(s.drop_last()) * 256 + s.last() as nat
    }
}

pub fn payload_length(hdr: &[u8]) -> (r: u16)
    requires
        hdr@.len() >= 6,
    ensures
        r == be16(hdr@[4], hdr@[5]),
{
    hdr[4] as u16 * 256 + hdr[5] as u16
}

pub fn next_header(hdr: &[u8]) -> (r: u8)
    requires
        hdr@.len() >= 7,
    ensures
        r == hdr@[6],
{
    hdr[6]
}

/// `256` raised to `n`.
pub open spec fn byte_power(n: nat) -> nat
    decreases n,
{
    if n == 0 {
        1
    } else {
        256 * byte_power((n - 1) as nat)
    }
}

proof fn lemma_be_value_bound(s: Seq<u8>)
    ensures
        be_value(s) < byte_power(s.len()),
    decreases s.len(),
{
    if s.len() > 0 {
        lemma_be_value_bound(s.drop_last());
    }
}

proof fn lemma_byte_power_mono(a: nat, b: nat)
    requires
        a <= b,
    ensures
        byte_power(a) <= byte_power(b),
    decreases b,
{
    if a < b {
        lemma_byte_power_mono(a, (b - 1) as nat);
    }
}

/// The 128-bit big-endian value of the 16 bytes of `hdr` that start at `at`.
fn read_u128(hdr: &[u8], at: usize) -> (r: u128)
    requires
        at + 16 <= hdr@.len(),
    ensures
        r == be_value(hdr@.subrange(at as int, at + 16)),
{
    let mut v: u128 = 0;
    let mut i: usize = 0;
    while i < 16
        invariant
            i <= 16,
            at + 16 <= hdr@.len(),
            at + 16 <= hdr.len(),
            v == be_value(hdr@.subrange(at as int, at + i)),
        decreases 16 - i,
    {
        proof {
            lemma_be_value_bound(hdr@.subrange(at as int, at + i));
            lemma_byte_power_mono(i as nat, 15);
            reveal_with_fuel(byte_power, 16);
            assert(byte_power(15) == 0x1000000000000000000000000000000);
            assert(hdr@.subrange(at as int, at + i + 1).drop_last() =~= hdr@.subrange(
                at as int,
                at + i,
            ));
        }
        v = v * 256 + hdr[at + i] as u128;
        i = i + 1;
    }
    v
}

/// The source address, as the big-endian integer of its sixteen octets.
pub fn src_addr(hdr: &[u8]) -> (r: u128)
    requires
        hdr@.len() >= 40,
    ensures
        r == be_value(hdr@.subrange(8, 24)),
{
    read_u128(hdr, 8)
}

/// The destination address, as the big-endian integer of its sixteen octets.
pub fn dst_addr(hdr: &[u8]) -> (r: u128)
    requires
        hdr@.len() >= 40,
    ensures
        r == be_value(hdr@.subrange(24, 40)),
{
    read_u128(hdr, 24)
}

pub fn set_payload_length(hdr: &mut [u8], len: u16)
    requires
        old(hdr)@.len() >= 6,
    ensures
        final(hdr)@ == old(hdr)@.update(4, (len / 256) as u8).update(5, (len % 256) as u8),
{
    super::ipv4::put_be16(hdr, 4, len);
}

/// The IPv6 TCP pseudo header: both addresses, the 32-bit TCP length, three zero bytes and
/// the next-header value 6.
pub open spec fn spec_pseudo_header(hdr: Seq<u8>, tcp_len: u16) -> Seq<u8> {
    hdr.subrange(8, 40) + seq![
        0u8,
        0u8,
        (tcp_len / 256) as u8,
        (tcp_len % 256) as u8,
        0u8,
        0u8,
        0u8,
        6u8,
    ]
}

pub fn pseudo_header(hdr: &[u8], tcp_len: u16) -> (ph: [u8; 40])
    requires
        hdr@.len() >= 40,
    ensures
        ph@ == spec_pseudo_header(hdr@, tcp_len),
{
    let mut ph = [0u8; 40];
    let mut i: usize = 0;
    while i < 32
        invariant
            i <= 32,
            hdr@.len() >= 40,
            ph@.len() == 40,
            forall|j: int| 0 <= j < i ==> ph@[j] == hdr@[8 + j],
            forall|j: int| i <= j < 40 ==> ph@[j] == 0,
        decreases 32 - i,
    {
        ph[i] = hdr[8 + i];
        i = i + 1;
    }
    ph[34] = (tcp_len / 256) as u8;
    ph[35] = (tcp_len % 256) as u8;
    ph[39] = 6;
    assert(ph@ =~= spec_pseudo_header(hdr@, tcp_len));
    ph
}

} // verus!
