use crate::text::{
    digit_char, is_dec_digit, lemma_decimal_digits, lemma_parse_decimal, lemma_split_on_append,
    lemma_split_on_single, chars_of, decimal_value, dec_value, digit_run, digits_of, push_digits, split_chars, split_on,
    string_of,
};
use vstd::prelude::*;

verus! {

/// An IP address: an IPv4 address as the big-endian integer of its four octets, or an
/// IPv6 address as the big-endian integer of its sixteen octets.
#[derive(Debug, Clone, Copy, PartialEq, Eq, Hash, Structural)]
pub enum IpAddr {
    V4(u32),
    V6(u128),
}

/// A socket address: an IP address with a port (and, for IPv6, flow information and a
/// scope id).
#[allow(inconsistent_fields)]
#[derive(Debug, Clone, Copy, PartialEq, Eq, Hash, Structural)]
pub enum SocketAddr {
    V4 { ip: u32, port: u16 },
    V6 { ip: u128, port: u16, flowinfo: u32, scope_id: u32 },
}

impl IpAddr {
    /// `127.0.0.0/8` for IPv4, `::1` for IPv6.
    pub open spec fn spec_is_loopback(&self) -> bool {
        match *self {
            IpAddr::V4(a) => a / 0x1000000 == 127,
            IpAddr::V6(a) => a == 1,
        }
    }

    /// `0.0.0.0` for IPv4, `::` for IPv6.
    pub open spec fn spec_is_unspecified(&self) -> bool {
        match *self {
            IpAddr::V4(a) => a == 0,
            IpAddr::V6(a) => a == 0,
        }
    }

    #[verifier::when_used_as_spec(spec_is_loopback)]
    pub fn is_loopback(&self) -> (r: bool)
        ensures
            r == self.spec_is_loopback(),
    {
        match self {
            IpAddr::V4(a) => *a / 0x1000000 == 127,
            IpAddr::V6(a) => *a == 1,
        }
    }

    #[verifier::when_used_as_spec(spec_is_unspecified)]
    pub fn is_unspecified(&self) -> (r: bool)
        ensures
            r == self.spec_is_unspecified(),
    {
        match self {
            IpAddr::V4(a) => *a == 0,
            IpAddr::V6(a) => *a == 0,
        }
    }
}

impl SocketAddr {
    pub open spec fn spec_ip(&self) -> IpAddr {
        match *self {
            SocketAddr::V4 { ip, .. } => IpAddr::V4(ip),
            SocketAddr::V6 { ip, .. } => IpAddr::V6(ip),
        }
    }

    pub open spec fn spec_port(&self) -> u16 {
        match *self {
            SocketAddr::V4 { port, .. } => port,
            SocketAddr::V6 { port, .. } => port,
        }
    }

    #[verifier::when_used_as_spec(spec_ip)]
    pub fn ip(&self) -> (r: IpAddr)
        ensures
            r == self.spec_ip(),
    {
        match self {
            SocketAddr::V4 { ip, .. } => IpAddr::V4(*ip),
            SocketAddr::V6 { ip, .. } => IpAddr::V6(*ip),
        }
    }

    #[verifier::when_used_as_spec(spec_port)]
    pub fn port(&self) -> (r: u16)
        ensures
            r == self.spec_port(),
    {
        match self {
            SocketAddr::V4 { port, .. } => *port,
            SocketAddr::V6 { port, .. } => *port,
        }
    }

    pub fn is_ipv4(&self) -> (r: bool)
        ensures
            r == (*self is V4),
    {
        match self {
            SocketAddr::V4 { .. } => true,
            SocketAddr::V6 { .. } => false,
        }
    }
}

/// One IPv4 octet in text: one to three decimal digits, no leading zero, at most 255.
pub open spec fn spec_octet(t: Seq<char>) -> Option<u8> {
    if 1 <= t.len() <= 3 && digit_run(t) == t.len() && !(t.len() > 1 && t[0] == '0')
        && dec_value(t) <= 255 {
        Some(dec_value(t) as u8)
    } else {
        None
    }
}

/// An IPv4 address in dotted-decimal text: four octets separated by `'.'`.
pub open spec fn spec_parse_ipv4(s: Seq<char>) -> Option<u32> {
    let p = split_on(s, '.');
    if p.len() == 4 && spec_octet(p[0]) is Some && spec_octet(p[1]) is Some && spec_octet(
        p[2],
    ) is Some && spec_octet(p[3]) is Some {
        Some(
            (spec_octet(p[0])->0 as nat * 0x1000000 + spec_octet(p[1])->0 as nat * 0x10000
                + spec_octet(p[2])->0 as nat * 0x100 + spec_octet(p[3])->0 as nat) as u32,
        )
    } else {
        None
    }
}

fn parse_octet(t: &[char]) -> (r: Option<u8>)
    ensures
        r == spec_octet(t@),
{
    if t.len() < 1 || t.len() > 3 {
        return None;
    }
    if t.len() > 1 && t[0] == '0' {
        return None;
    }
    match decimal_value(t, 255) {
        Some(v) => Some(v as u8),
        None => None,
    }
}

fn parse_ipv4_chars(s: &[char]) -> (r: Option<u32>)
    ensures
        r == spec_parse_ipv4(s@),
{
    let p = split_chars(s, '.');
    if p.len() != 4 {
        return None;
    }
    assert(p.deep_view()[0] == p@[0]@ && p.deep_view()[1] == p@[1]@);
    assert(p.deep_view()[2] == p@[2]@ && p.deep_view()[3] == p@[3]@);
    let a = parse_octet(p[0].as_slice());
    let b = parse_octet(p[1].as_slice());
    let c = parse_octet(p[2].as_slice());
    let d = parse_octet(p[3].as_slice());
    match (a, b, c, d) {
        (Some(a), Some(b), Some(c), Some(d)) => Some(
            (a as u32) * 0x1000000 + (b as u32) * 0x10000 + (c as u32) * 0x100 + d as u32,
        ),
        _ => None,
    }
}

pub open spec fn is_hex_digit(c: char) -> bool {
    ('0' <= c <= '9') || ('a' <= c <= 'f') || ('A' <= c <= 'F')
}

pub open spec fn hex_digit_val(c: char) -> nat {
    if c <= '9' {
        (c as nat - 48) as nat
    } else if c <= 'F' {
        (c as nat - 55) as nat
    } else {
        (c as nat - 87) as nat
    }
}

/// The value of a run of hexadecimal digits.
pub open spec fn hex_value(t: Seq<char>) -> nat
    decreases t.len(),
{
    if t.len() == 0 {
        0
    } else {
        hex_value(t.drop_last()) * 16 + hex_digit_val(t.last())
    }
}

/// One IPv6 group in text: one to four hexadecimal digits, either case.
pub open spec fn spec_hex_group(t: Seq<char>) -> Option<u16> {
    if 1 <= t.len() <= 4 && (forall|i: int| 0 <= i < t.len() ==> is_hex_digit(#[trigger] t[i])) {
        Some(hex_value(t) as u16)
    } else {
        None
    }
}

proof fn lemma_hex_value_bound(t: Seq<char>)
    requires
        forall|i: int| 0 <= i < t.len() ==> is_hex_digit(#[trigger] t[i]),
    ensures
        t.len() <= 4 ==> hex_value(t) < 65536,
        t.len() <= 3 ==> hex_value(t) < 4096,
        t.len() <= 2 ==> hex_value(t) < 256,
        t.len() <= 1 ==> hex_value(t) < 16,
    decreases t.len(),
{
    if t.len() > 0 {
        lemma_hex_value_bound(t.drop_last());
        assert(is_hex_digit(t[t.len() - 1]));
    }
}

fn parse_hex_group(t: &[char]) -> (r: Option<u16>)
    ensures
        r == spec_hex_group(t@),
{
    if t.len() < 1 || t.len() > 4 {
        return None;
    }
    let mut acc: u32 = 0;
    let mut i: usize = 0;
    assert(t@.subrange(0, 0) =~= Seq::<char>::empty());
    while i < t.len()
        invariant
            1 <= t@.len() <= 4,
            i <= t@.len(),
            forall|j: int| 0 <= j < i ==> is_hex_digit(#[trigger] t@[j]),
            acc == hex_value(t@.subrange(0, i as int)),
            acc < 65536,
        decreases t@.len() - i,
    {
        let c = t[i];
        let d: u32 = if '0' <= c && c <= '9' {
            c as u32 - 48
        } else if 'a' <= c && c <= 'f' {
            c as u32 - 87
        } else if 'A' <= c && c <= 'F' {
            c as u32 - 55
        } else {
            return None;
        };
        assert(t@.subrange(0, i + 1).drop_last() =~= t@.subrange(0, i as int));
        proof {
            lemma_hex_value_bound(t@.subrange(0, i + 1));
        }
        acc = acc * 16 + d;
        i = i + 1;
    }
    assert(t@.subrange(0, i as int) =~= t@);
    Some(acc as u16)
}

/// The groups that one colon-separated piece stands for: a hexadecimal group, or, where
/// `allow_v4` holds, an embedded IPv4 address as two groups.
pub open spec fn spec_piece_groups(t: Seq<char>, allow_v4: bool) -> Option<Seq<u16>> {
    if spec_hex_group(t) is Some {
        Some(seq![spec_hex_group(t)->0])
    } else if allow_v4 && spec_parse_ipv4(t) is Some {
        let a = spec_parse_ipv4(t)->0;
        Some(seq![(a / 0x10000) as u16, (a % 0x10000) as u16])
    } else {
        None
    }
}

/// The groups of a list of pieces; only the last piece may be an embedded IPv4 address,
/// and only where `allow_v4` holds.
pub open spec fn spec_pieces_groups(p: Seq<Seq<char>>, allow_v4: bool) -> Option<Seq<u16>>
    decreases p.len(),
{
    if p.len() == 0 {
        Some(Seq::empty())
    } else {
        match (spec_pieces_groups(p.drop_last(), false), spec_piece_groups(p.last(), allow_v4)) {
            (Some(a), Some(b)) => Some(a + b),
            _ => None,
        }
    }
}

/// The groups of colon-separated text (none for the empty text).
pub open spec fn spec_groups(t: Seq<char>, allow_v4: bool) -> Option<Seq<u16>> {
    if t.len() == 0 {
        Some(Seq::empty())
    } else {
        spec_pieces_groups(split_on(t, ':'), allow_v4)
    }
}

/// The first position at or after `i` where `"::"` starts.
pub open spec fn find_pair(s: Seq<char>, i: nat) -> Option<nat>
    decreases s.len() - i,
{
    if i + 1 >= s.len() {
        None
    } else if s[i as int] == ':' && s[i + 1 as int] == ':' {
        Some(i)
    } else {
        find_pair(s, i + 1)
    }
}

/// The 128-bit value of a list of 16-bit groups, most significant first.
pub open spec fn groups_value(g: Seq<u16>) -> nat
    decreases g.len(),
{
    if g.len() == 0 {
        0
    } else {
        groups_value(g.drop_last()) * 0x10000 + g.last() as nat
    }
}

/// An IPv6 address in text: eight groups, or fewer around a single `"::"` that stands for
/// at least one zero group; the last two groups may be written as an IPv4 address.
pub open spec fn spec_parse_ipv6(s: Seq<char>) -> Option<u128> {
    match find_pair(s, 0) {
        None => match spec_groups(s, true) {
            Some(g) => if g.len() == 8 {
                Some(groups_value(g) as u128)
            } else {
                None
            },
            None => None,
        },
        Some(k) => match (
            spec_groups(s.subrange(0, k as int), false),
            spec_groups(s.subrange(k as int + 2, s.len() as int), true),
        ) {
            (Some(h), Some(t)) => if h.len() + t.len() <= 7 {
                Some(
                    groups_value(
                        h + Seq::new((8 - h.len() - t.len()) as nat, |i: int| 0u16) + t,
                    ) as u128,
                )
            } else {
                None
            },
            _ => None,
        },
    }
}

fn piece_groups(t: &[char], allow_v4: bool) -> (r: Option<Vec<u16>>)
    ensures
        match (r, spec_piece_groups(t@, allow_v4)) {
            (Some(v), Some(w)) => v@ == w,
            (None, None) => true,
            _ => false,
        },
{
    match parse_hex_group(t) {
        Some(g) => {
            let mut v: Vec<u16> = Vec::new();
            v.push(g);
            assert(v@ =~= seq![g]);
            Some(v)
        },
        None => {
            if !allow_v4 {
                return None;
            }
            match parse_ipv4_chars(t) {
                Some(a) => {
                    let mut v: Vec<u16> = Vec::new();
                    v.push((a / 0x10000) as u16);
                    v.push((a % 0x10000) as u16);
                    assert(v@ =~= seq![(a / 0x10000) as u16, (a % 0x10000) as u16]);
                    Some(v)
                },
                None => None,
            }
        },
    }
}

fn groups_of(t: &[char], allow_v4: bool) -> (r: Option<Vec<u16>>)
    ensures
        match (r, spec_groups(t@, allow_v4)) {
            (Some(v), Some(w)) => v@ == w,
            (None, None) => true,
            _ => false,
        },
{
    if t.len() == 0 {
        return Some(Vec::new());
    }
    let p = split_chars(t, ':');
    let n = p.len();
    let mut acc: Vec<u16> = Vec::new();
    let mut ok = true;
    let mut i: usize = 0;
    assert(p.deep_view().subrange(0, 0) =~= Seq::<Seq<char>>::empty());
    while i + 1 < n
        invariant
            1 <= n == p@.len(),
            i + 1 <= n,
            ok ==> spec_pieces_groups(p.deep_view().subrange(0, i as int), false) == Some(acc@),
            !ok ==> spec_pieces_groups(p.deep_view().subrange(0, i as int), false) is None,
        decreases n - i,
    {
        let ghost q = p.deep_view().subrange(0, i + 1);
        assert(q.drop_last() =~= p.deep_view().subrange(0, i as int));
        assert(q.last() == p@[i as int]@);
        let g = piece_groups(p[i].as_slice(), false);
        match g {
            Some(v) => {
                if ok {
                    let ghost before = acc@;
                    let mut k: usize = 0;
                    while k < v.len()
                        invariant
                            k <= v@.len(),
                            acc@ == before + v@.subrange(0, k as int),
                        decreases v@.len() - k,
                    {
                        acc.push(v[k]);
                        assert(v@.subrange(0, k + 1) =~= v@.subrange(0, k as int).push(v@[k as int]));
                        k = k + 1;
                    }
                    assert(v@.subrange(0, v@.len() as int) =~= v@);
                }
            },
            None => {
                ok = false;
            },
        }
        i = i + 1;
    }
    let ghost q = p.deep_view();
    assert(q.drop_last() =~= p.deep_view().subrange(0, i as int));
    assert(q.last() == p@[i as int]@);
    let g = piece_groups(p[i].as_slice(), allow_v4);
    if !ok {
        return None;
    }
    match g {
        Some(v) => {
            let ghost before = acc@;
            let mut k: usize = 0;
            while k < v.len()
                invariant
                    k <= v@.len(),
                    acc@ == before + v@.subrange(0, k as int),
                decreases v@.len() - k,
            {
                acc.push(v[k]);
                assert(v@.subrange(0, k + 1) =~= v@.subrange(0, k as int).push(v@[k as int]));
                k = k + 1;
            }
            assert(v@.subrange(0, v@.len() as int) =~= v@);
            Some(acc)
        },
        None => None,
    }
}

fn find_double_colon(s: &[char]) -> (r: Option<usize>)
    ensures
        r matches Some(k) ==> k + 1 < s@.len(),
        match (r, find_pair(s@, 0)) {
            (Some(k), Some(j)) => k == j,
            (None, None) => true,
            _ => false,
        },
{
    let mut i: usize = 0;
    while i < s.len() && i + 1 < s.len()
        invariant
            i <= s@.len(),
            find_pair(s@, 0) == find_pair(s@, i as nat),
        decreases s@.len() - i,
    {
        if s[i] == ':' && s[i + 1] == ':' {
            return Some(i);
        }
        i = i + 1;
    }
    None
}

spec fn group_power(n: nat) -> nat
    decreases n,
{
    if n == 0 {
        1
    } else {
        group_power((n - 1) as nat) * 0x10000
    }
}

proof fn lemma_groups_value_bound(g: Seq<u16>)
    ensures
        groups_value(g) < group_power(g.len()),
    decreases g.len(),
{
    if g.len() > 0 {
        lemma_groups_value_bound(g.drop_last());
        let v = groups_value(g.drop_last());
        let l = g.last() as nat;
        let p = group_power((g.len() - 1) as nat);
        assert(v * 0x10000 + l < p * 0x10000) by (nonlinear_arith)
            requires
                v < p,
                l < 0x10000,
        ;
    }
}

proof fn lemma_group_power_mono(a: nat, b: nat)
    requires
        a <= b,
    ensures
        group_power(a) <= group_power(b),
    decreases b - a,
{
    if a < b {
        lemma_group_power_mono(a, (b - 1) as nat);
    }
}

proof fn lemma_group_powers()
    ensures
        group_power(7) == 0x10000000000000000000000000000,
        group_power(8) == 0x100000000000000000000000000000000,
{
    reveal_with_fuel(group_power, 9);
}

fn value_of_groups(g: &[u16]) -> (r: u128)
    requires
        g@.len() <= 8,
    ensures
        r == groups_value(g@),
{
    let mut acc: u128 = 0;
    let mut i: usize = 0;
    assert(g@.subrange(0, 0) =~= Seq::<u16>::empty());
    while i < g.len()
        invariant
            i <= g@.len() <= 8,
            acc == groups_value(g@.subrange(0, i as int)),
        decreases g@.len() - i,
    {
        assert(g@.subrange(0, i + 1).drop_last() =~= g@.subrange(0, i as int));
        proof {
            lemma_groups_value_bound(g@.subrange(0, i as int));
            lemma_groups_value_bound(g@.subrange(0, i + 1));
            lemma_group_powers();
            if i < 7 {
                lemma_group_power_mono(i as nat, 7);
            }
            lemma_group_power_mono((i + 1) as nat, 8);
        }
        acc = acc * 0x10000 + g[i] as u128;
        i = i + 1;
    }
    assert(g@.subrange(0, i as int) =~= g@);
    acc
}

fn slice_chars(s: &[char], from: usize, to: usize) -> (r: Vec<char>)
    requires
        from <= to <= s@.len(),
    ensures
        r@ == s@.subrange(from as int, to as int),
{
    let mut r: Vec<char> = Vec::new();
    let mut i = from;
    while i < to
        invariant
            from <= i <= to <= s@.len(),
            r@ == s@.subrange(from as int, i as int),
        decreases to - i,
    {
        r.push(s[i]);
        assert(s@.subrange(from as int, i + 1) =~= s@.subrange(from as int, i as int).push(s@[i as int]));
        i = i + 1;
    }
    r
}

fn parse_ipv6_chars(s: &[char]) -> (r: Option<u128>)
    ensures
        r == spec_parse_ipv6(s@),
{
    match find_double_colon(s) {
        None => match groups_of(s, true) {
            Some(g) => {
                if g.len() != 8 {
                    return None;
                }
                Some(value_of_groups(g.as_slice()))
            },
            None => None,
        },
        Some(k) => {
            let n = s.len();
            assert(k + 1 < n);
            let head = slice_chars(s, 0, k);
            let tail = slice_chars(s, k + 2, n);
            let h = groups_of(head.as_slice(), false);
            let t = groups_of(tail.as_slice(), true);
            match (h, t) {
                (Some(h), Some(t)) => {
                    if h.len() > 7 || t.len() > 7 - h.len() {
                        return None;
                    }
                    let zeros = 8 - h.len() - t.len();
                    let mut all: Vec<u16> = h;
                    let mut z: usize = 0;
                    while z < zeros
                        invariant
                            z <= zeros,
                            all@ == h@ + Seq::new(z as nat, |i: int| 0u16),
                        decreases zeros - z,
                    {
                        all.push(0);
                        assert(h@ + Seq::new((z + 1) as nat, |i: int| 0u16) =~= (h@ + Seq::new(z as nat, |i: int| 0u16)).push(0u16));
                        z = z + 1;
                    }
                    let ghost mid = all@;
                    let mut k2: usize = 0;
                    while k2 < t.len()
                        invariant
                            k2 <= t@.len(),
                            all@ == mid + t@.subrange(0, k2 as int),
                        decreases t@.len() - k2,
                    {
                        all.push(t[k2]);
                        assert(t@.subrange(0, k2 + 1) =~= t@.subrange(0, k2 as int).push(t@[k2 as int]));
                        k2 = k2 + 1;
                    }
                    assert(t@.subrange(0, t@.len() as int) =~= t@);
                    Some(value_of_groups(all.as_slice()))
                },
                _ => None,
            }
        },
    }
}

/// An IP address in text: IPv4 dotted decimal or IPv6 (`str::parse::<IpAddr>`).
pub open spec fn spec_parse_ip(s: Seq<char>) -> Option<IpAddr> {
    if spec_parse_ipv4(s) is Some {
        Some(IpAddr::V4(spec_parse_ipv4(s)->0))
    } else if spec_parse_ipv6(s) is Some {
        Some(IpAddr::V6(spec_parse_ipv6(s)->0))
    } else {
        None
    }
}

/// Reads an IP address from text; `None` where the text is not one.
pub fn parse_ip(s: &str) -> (r: Option<IpAddr>)
    ensures
        r == spec_parse_ip(s@),
{
    let v = chars_of(s);
    match parse_ipv4_chars(v.as_slice()) {
        Some(a) => Some(IpAddr::V4(a)),
        None => match parse_ipv6_chars(v.as_slice()) {
            Some(a) => Some(IpAddr::V6(a)),
            None => None,
        },
    }
}

/// A port in text: one or more decimal digits (leading zeros allowed), at most 65535.
pub open spec fn spec_port_text(t: Seq<char>) -> Option<u16> {
    if t.len() >= 1 && digit_run(t) == t.len() && dec_value(t) <= 65535 {
        Some(dec_value(t) as u16)
    } else {
        None
    }
}

/// A scope id in text: one or more decimal digits, at most `u32::MAX`.
pub open spec fn spec_scope_text(t: Seq<char>) -> Option<u32> {
    if t.len() >= 1 && digit_run(t) == t.len() && dec_value(t) <= 0xffff_ffff {
        Some(dec_value(t) as u32)
    } else {
        None
    }
}

/// `a.b.c.d:port`.
pub open spec fn spec_parse_socket_v4(s: Seq<char>) -> Option<SocketAddr> {
    let p = split_on(s, ':');
    if p.len() == 2 && spec_parse_ipv4(p[0]) is Some && spec_port_text(p[1]) is Some {
        Some(SocketAddr::V4 { ip: spec_parse_ipv4(p[0])->0, port: spec_port_text(p[1])->0 })
    } else {
        None
    }
}

/// `[ipv6]:port` or `[ipv6%scope]:port`.
pub open spec fn spec_parse_socket_v6(s: Seq<char>) -> Option<SocketAddr> {
    if s.len() >= 1 && s[0] == '[' {
        let p = split_on(s.drop_first(), ']');
        if p.len() == 2 && p[1].len() >= 1 && p[1][0] == ':' && spec_port_text(
            p[1].drop_first(),
        ) is Some {
            let q = split_on(p[0], '%');
            let scope = if q.len() == 1 {
                Some(0u32)
            } else if q.len() == 2 {
                spec_scope_text(q[1])
            } else {
                None
            };
            if spec_parse_ipv6(q[0]) is Some && scope is Some {
                Some(
                    SocketAddr::V6 {
                        ip: spec_parse_ipv6(q[0])->0,
                        port: spec_port_text(p[1].drop_first())->0,
                        flowinfo: 0,
                        scope_id: scope->0,
                    },
                )
            } else {
                None
            }
        } else {
            None
        }
    } else {
        None
    }
}

/// A socket address in text (`str::parse::<SocketAddr>`).
pub open spec fn spec_parse_socket(s: Seq<char>) -> Option<SocketAddr> {
    if spec_parse_socket_v4(s) is Some {
        spec_parse_socket_v4(s)
    } else {
        spec_parse_socket_v6(s)
    }
}

fn parse_port_chars(t: &[char]) -> (r: Option<u16>)
    ensures
        r == spec_port_text(t@),
{
    if t.len() == 0 {
        return None;
    }
    match decimal_value(t, 65535) {
        Some(v) => Some(v as u16),
        None => None,
    }
}

fn parse_scope_chars(t: &[char]) -> (r: Option<u32>)
    ensures
        r == spec_scope_text(t@),
{
    if t.len() == 0 {
        return None;
    }
    match decimal_value(t, 0xffff_ffff) {
        Some(v) => Some(v as u32),
        None => None,
    }
}

fn parse_socket_v4_chars(s: &[char]) -> (r: Option<SocketAddr>)
    ensures
        r == spec_parse_socket_v4(s@),
{
    let p = split_chars(s, ':');
    if p.len() != 2 {
        return None;
    }
    assert(p.deep_view()[0] == p@[0]@ && p.deep_view()[1] == p@[1]@);
    match (parse_ipv4_chars(p[0].as_slice()), parse_port_chars(p[1].as_slice())) {
        (Some(ip), Some(port)) => Some(SocketAddr::V4 { ip, port }),
        _ => None,
    }
}

fn parse_socket_v6_chars(s: &[char]) -> (r: Option<SocketAddr>)
    ensures
        r == spec_parse_socket_v6(s@),
{
    if s.len() == 0 || s[0] != '[' {
        return None;
    }
    let rest = slice_chars(s, 1, s.len());
    assert(rest@ =~= s@.drop_first());
    let p = split_chars(rest.as_slice(), ']');
    if p.len() != 2 {
        return None;
    }
    assert(p.deep_view()[0] == p@[0]@ && p.deep_view()[1] == p@[1]@);
    let after = &p[1];
    if after.len() == 0 || after[0] != ':' {
        return None;
    }
    let port_text = slice_chars(after.as_slice(), 1, after.len());
    assert(port_text@ =~= after@.drop_first());
    let port = match parse_port_chars(port_text.as_slice()) {
        Some(port) => port,
        None => return None,
    };
    let q = split_chars(p[0].as_slice(), '%');
    assert(q.deep_view()[0] == q@[0]@);
    let scope: Option<u32> = if q.len() == 1 {
        Some(0)
    } else if q.len() == 2 {
        assert(q.deep_view()[1] == q@[1]@);
        parse_scope_chars(q[1].as_slice())
    } else {
        None
    };
    match (parse_ipv6_chars(q[0].as_slice()), scope) {
        (Some(ip), Some(scope_id)) => Some(SocketAddr::V6 { ip, port, flowinfo: 0, scope_id }),
        _ => None,
    }
}

/// What a refused socket address shows (`AddrParseError` of the socket kind).
pub const SOCKET_ADDR_ERROR: &'static str = "invalid socket address syntax";

/// Reads a socket address from text; `None` where the text is not one.
pub fn parse_socket_addr(s: &str) -> (r: Option<SocketAddr>)
    ensures
        r == spec_parse_socket(s@),
{
    let v = chars_of(s);
    match parse_socket_v4_chars(v.as_slice()) {
        Some(a) => Some(a),
        None => parse_socket_v6_chars(v.as_slice()),
    }
}

/// Dotted-decimal text of an IPv4 address.
pub open spec fn spec_ipv4_text(a: u32) -> Seq<char> {
    digits_of((a / 0x1000000) as nat, 10) + seq!['.'] + digits_of(((a / 0x10000) % 0x100) as nat, 10)
        + seq!['.'] + digits_of(((a / 0x100) % 0x100) as nat, 10) + seq!['.'] + digits_of(
        (a % 0x100) as nat,
        10,
    )
}

fn push_str_chars(out: &mut Vec<char>, s: &str)
    ensures
        final(out)@ == old(out)@ + s@,
{
    let v = chars_of(s);
    let mut i: usize = 0;
    while i < v.len()
        invariant
            i <= v@.len(),
            v@ == s@,
            out@ == old(out)@ + v@.subrange(0, i as int),
        decreases v@.len() - i,
    {
        out.push(v[i]);
        assert(v@.subrange(0, i + 1) =~= v@.subrange(0, i as int).push(v@[i as int]));
        i = i + 1;
    }
    assert(v@.subrange(0, i as int) =~= v@);
}

fn push_ipv4_text(out: &mut Vec<char>, a: u32)
    ensures
        final(out)@ == old(out)@ + spec_ipv4_text(a),
{
    push_digits(out, (a / 0x1000000) as u64, 10);
    out.push('.');
    push_digits(out, ((a / 0x10000) % 0x100) as u64, 10);
    out.push('.');
    push_digits(out, ((a / 0x100) % 0x100) as u64, 10);
    out.push('.');
    push_digits(out, (a % 0x100) as u64, 10);
    assert(out@ =~= old(out)@ + spec_ipv4_text(a));
}

/// The eight 16-bit groups of an IPv6 address, most significant first.
pub open spec fn segments_of(a: nat, n: nat) -> Seq<u16>
    decreases n,
{
    if n == 0 {
        Seq::empty()
    } else {
        segments_of(a / 0x10000, (n - 1) as nat).push((a % 0x10000) as u16)
    }
}

/// The number of zero groups in a row from position `i`.
pub open spec fn zero_run(g: Seq<u16>, i: nat) -> nat
    decreases g.len() - i,
{
    if i < g.len() && g[i as int] == 0 {
        1 + zero_run(g, i + 1)
    } else {
        0
    }
}

/// The earliest start, at or after `i`, of a longest run of zero groups.
pub open spec fn best_zero_start(g: Seq<u16>, i: nat) -> nat
    decreases g.len() - i,
{
    if i >= g.len() {
        g.len()
    } else {
        let b = best_zero_start(g, i + 1);
        if zero_run(g, i) >= zero_run(g, b) {
            i
        } else {
            b
        }
    }
}

/// Groups in lowercase hexadecimal, separated by `':'`.
pub open spec fn hex_join(g: Seq<u16>) -> Seq<char>
    decreases g.len(),
{
    if g.len() == 0 {
        Seq::empty()
    } else if g.len() == 1 {
        digits_of(g[0] as nat, 16)
    } else {
        hex_join(g.drop_last()) + seq![':'] + digits_of(g.last() as nat, 16)
    }
}

/// Text of an IPv6 address: `::ffff:a.b.c.d` for an IPv4-mapped address; otherwise the
/// groups in hexadecimal with the earliest longest run of two or more zero groups written
/// as `"::"`.
pub open spec fn spec_ipv6_text(a: u128) -> Seq<char> {
    let g = segments_of(a as nat, 8);
    if g[0] == 0 && g[1] == 0 && g[2] == 0 && g[3] == 0 && g[4] == 0 && g[5] == 0xffff {
        "::ffff:"@ + spec_ipv4_text((g[6] as nat * 0x10000 + g[7] as nat) as u32)
    } else {
        let b = best_zero_start(g, 0);
        let z = zero_run(g, b);
        if z > 1 {
            hex_join(g.subrange(0, b as int)) + "::"@ + hex_join(g.subrange((b + z) as int, 8))
        } else {
            hex_join(g)
        }
    }
}

proof fn lemma_segments_len(a: nat, n: nat)
    ensures
        segments_of(a, n).len() == n,
    decreases n,
{
    if n > 0 {
        lemma_segments_len(a / 0x10000, (n - 1) as nat);
    }
}

fn segments(a: u128) -> (r: Vec<u16>)
    ensures
        r@ == segments_of(a as nat, 8),
{
    let mut parts: Vec<u16> = Vec::new();
    let mut x = a;
    let mut k: usize = 0;
    while k < 8
        invariant
            k <= 8,
            parts@.len() == k,
            segments_of(a as nat, 8) == segments_of(x as nat, (8 - k) as nat) + parts@.reverse(),
        decreases 8 - k,
    {
        let ghost before = parts@;
        proof {
            let rest = segments_of((x / 0x10000) as nat, (8 - k - 1) as nat);
            assert(segments_of(x as nat, (8 - k) as nat) == rest.push((x % 0x10000) as u16));
            assert(before.push((x % 0x10000) as u16).reverse() =~= seq![(x % 0x10000) as u16] + before.reverse());
            assert(rest.push((x % 0x10000) as u16) + before.reverse() =~= rest + (seq![(x % 0x10000) as u16] + before.reverse()));
        }
        parts.push((x % 0x10000) as u16);
        x = x / 0x10000;
        k = k + 1;
    }
    let mut r: Vec<u16> = Vec::new();
    let mut i: usize = 8;
    assert(segments_of(x as nat, 0) =~= Seq::<u16>::empty());
    while i > 0
        invariant
            i <= 8,
            parts@.len() == 8,
            r@ == parts@.reverse().subrange(0, (8 - i) as int),
            segments_of(a as nat, 8) =~= parts@.reverse(),
        decreases i,
    {
        i = i - 1;
        r.push(parts[i]);
        assert(parts@.reverse().subrange(0, (8 - i) as int) =~= parts@.reverse().subrange(
            0,
            (8 - i - 1) as int,
        ).push(parts@[i as int]));
    }
    assert(parts@.reverse().subrange(0, 8) =~= parts@.reverse());
    r
}

fn push_hex_join(out: &mut Vec<char>, g: &[u16], from: usize, to: usize)
    requires
        from <= to <= g@.len(),
    ensures
        final(out)@ == old(out)@ + hex_join(g@.subrange(from as int, to as int)),
{
    let mut i = from;
    assert(g@.subrange(from as int, from as int) =~= Seq::<u16>::empty());
    while i < to
        invariant
            from <= i <= to <= g@.len(),
            out@ == old(out)@ + hex_join(g@.subrange(from as int, i as int)),
        decreases to - i,
    {
        let ghost before = out@;
        if i > from {
            out.push(':');
        }
        push_digits(out, g[i] as u64, 16);
        proof {
            let q = g@.subrange(from as int, i + 1);
            assert(q.drop_last() =~= g@.subrange(from as int, i as int));
            if i == from {
                assert(q =~= seq![g@[i as int]]);
                assert(hex_join(q) == digits_of(g@[i as int] as nat, 16));
            }
            assert(out@ =~= old(out)@ + hex_join(q));
        }
        i = i + 1;
    }
}

fn push_ipv6_text(out: &mut Vec<char>, a: u128)
    ensures
        final(out)@ == old(out)@ + spec_ipv6_text(a),
{
    let g = segments(a);
    proof {
        lemma_segments_len(a as nat, 8);
    }
    if g[0] == 0 && g[1] == 0 && g[2] == 0 && g[3] == 0 && g[4] == 0 && g[5] == 0xffff {
        push_str_chars(out, "::ffff:");
        push_ipv4_text(out, (g[6] as u32) * 0x10000 + g[7] as u32);
        assert(out@ =~= old(out)@ + spec_ipv6_text(a));
        return;
    }
    let mut runs: Vec<u8> = Vec::new();
    let mut k: usize = 0;
    while k < 9
        invariant
            k <= 9,
            g@ == segments_of(a as nat, 8),
            g@.len() == 8,
            runs@.len() == k,
            forall|j: int| 0 <= j < k ==> runs@[j] as nat == zero_run(g@, (8 - j) as nat),
            forall|j: int| 0 <= j < k ==> runs@[j] <= j,
        decreases 9 - k,
    {
        if k == 0 {
            runs.push(0);
        } else {
            let i = 8 - k;
            if g[i] == 0 {
                let prev = runs[k - 1];
                runs.push(prev + 1);
            } else {
                runs.push(0);
            }
        }
        k = k + 1;
    }
    let mut b: usize = 8;
    let mut i: usize = 8;
    while i > 0
        invariant
            i <= 8,
            b <= 8,
            g@ == segments_of(a as nat, 8),
            g@.len() == 8,
            runs@.len() == 9,
            forall|j: int| 0 <= j < 9 ==> runs@[j] as nat == zero_run(g@, (8 - j) as nat),
            b == best_zero_start(g@, i as nat),
        decreases i,
    {
        i = i - 1;
        if runs[8 - i] >= runs[8 - b] {
            b = i;
        }
    }
    let z = runs[8 - b] as usize;
    assert(z == zero_run(g@, b as nat));
    proof {
        lemma_zero_run_bound(g@, b as nat);
    }
    if z > 1 {
        push_hex_join(out, g.as_slice(), 0, b);
        out.push(':');
        out.push(':');
        push_hex_join(out, g.as_slice(), b + z, 8);
        proof {
            reveal_strlit("::");
        }
        assert(out@ =~= old(out)@ + spec_ipv6_text(a));
    } else {
        push_hex_join(out, g.as_slice(), 0, 8);
        assert(g@.subrange(0, 8) =~= g@);
        assert(out@ =~= old(out)@ + spec_ipv6_text(a));
    }
}

proof fn lemma_zero_run_bound(g: Seq<u16>, i: nat)
    ensures
        i <= g.len() ==> i + zero_run(g, i) <= g.len(),
    decreases g.len() - i,
{
    if i < g.len() {
        lemma_zero_run_bound(g, i + 1);
    }
}

/// Text of an IP address.
pub open spec fn spec_ip_text(ip: IpAddr) -> Seq<char> {
    match ip {
        IpAddr::V4(a) => spec_ipv4_text(a),
        IpAddr::V6(a) => spec_ipv6_text(a),
    }
}

/// Text of a socket address: `a.b.c.d:port`, `[ipv6]:port`, or `[ipv6%scope]:port` when
/// the scope id is not zero.
pub open spec fn spec_socket_text(sa: SocketAddr) -> Seq<char> {
    match sa {
        SocketAddr::V4 { ip, port } => spec_ipv4_text(ip) + seq![':'] + digits_of(port as nat, 10),
        SocketAddr::V6 { ip, port, scope_id, .. } => if scope_id == 0 {
            seq!['['] + spec_ipv6_text(ip) + "]:"@ + digits_of(port as nat, 10)
        } else {
            seq!['['] + spec_ipv6_text(ip) + seq!['%'] + digits_of(scope_id as nat, 10) + "]:"@
                + digits_of(port as nat, 10)
        },
    }
}

impl IpAddr {
    /// The address as text (`Display`).
    pub fn to_text(&self) -> (s: String)
        ensures
            s@ == spec_ip_text(*self),
    {
        let mut v: Vec<char> = Vec::new();
        match self {
            IpAddr::V4(a) => push_ipv4_text(&mut v, *a),
            IpAddr::V6(a) => push_ipv6_text(&mut v, *a),
        }
        assert(v@ =~= spec_ip_text(*self));
        string_of(v.as_slice())
    }
}

impl SocketAddr {
    /// The socket address as text (`Display`).
    pub fn to_text(&self) -> (s: String)
        ensures
            s@ == spec_socket_text(*self),
    {
        let mut v: Vec<char> = Vec::new();
        match self {
            SocketAddr::V4 { ip, port } => {
                push_ipv4_text(&mut v, *ip);
                v.push(':');
                push_digits(&mut v, *port as u64, 10);
            },
            SocketAddr::V6 { ip, port, scope_id, .. } => {
                v.push('[');
                push_ipv6_text(&mut v, *ip);
                if *scope_id != 0 {
                    v.push('%');
                    push_digits(&mut v, *scope_id as u64, 10);
                }
                push_str_chars(&mut v, "]:");
                push_digits(&mut v, *port as u64, 10);
            },
        }
        assert(v@ =~= spec_socket_text(*self));
        string_of(v.as_slice())
    }
}

proof fn lemma_digits_lack(n: nat, c: char)
    requires
        !is_dec_digit(c),
    ensures
        !digits_of(n, 10).contains(c),
{
    lemma_decimal_digits(n);
    if digits_of(n, 10).contains(c) {
        let i = choose|i: int| 0 <= i < digits_of(n, 10).len() && digits_of(n, 10)[i] == c;
        assert(is_dec_digit(digits_of(n, 10)[i]));
    }
}

proof fn lemma_octet_text(n: nat)
    requires
        n < 256,
    ensures
        spec_octet(digits_of(n, 10)) == Some(n as u8),
{
    lemma_decimal_digits(n);
}

proof fn lemma_ipv4_text_pieces(a: u32)
    ensures
        split_on(spec_ipv4_text(a), '.') == seq![
            digits_of((a / 0x1000000) as nat, 10),
            digits_of(((a / 0x10000) % 0x100) as nat, 10),
            digits_of(((a / 0x100) % 0x100) as nat, 10),
            digits_of((a % 0x100) as nat, 10),
        ],
        !spec_ipv4_text(a).contains(':'),
{
    let d0 = digits_of((a / 0x1000000) as nat, 10);
    let d1 = digits_of(((a / 0x10000) % 0x100) as nat, 10);
    let d2 = digits_of(((a / 0x100) % 0x100) as nat, 10);
    let d3 = digits_of((a % 0x100) as nat, 10);
    lemma_digits_lack((a / 0x1000000) as nat, '.');
    lemma_digits_lack(((a / 0x10000) % 0x100) as nat, '.');
    lemma_digits_lack(((a / 0x100) % 0x100) as nat, '.');
    lemma_digits_lack((a % 0x100) as nat, '.');
    lemma_split_on_single(d0, '.');
    lemma_split_on_append(d0, d1, '.');
    lemma_split_on_append(d0 + seq!['.'] + d1, d2, '.');
    lemma_split_on_append(d0 + seq!['.'] + d1 + seq!['.'] + d2, d3, '.');
    assert(seq![d0].push(d1).push(d2).push(d3) =~= seq![d0, d1, d2, d3]);
    lemma_digits_lack((a / 0x1000000) as nat, ':');
    lemma_digits_lack(((a / 0x10000) % 0x100) as nat, ':');
    lemma_digits_lack(((a / 0x100) % 0x100) as nat, ':');
    lemma_digits_lack((a % 0x100) as nat, ':');
    let t = spec_ipv4_text(a);
    if t.contains(':') {
        let i = choose|i: int| 0 <= i < t.len() && t[i] == ':';
        let l0 = d0.len() as int;
        let l1 = d1.len() as int;
        let l2 = d2.len() as int;
        if i < l0 {
            assert(t[i] == d0[i]);
        } else if i == l0 {
        } else if i < l0 + 1 + l1 {
            assert(t[i] == d1[i - l0 - 1]);
        } else if i == l0 + 1 + l1 {
        } else if i < l0 + 2 + l1 + l2 {
            assert(t[i] == d2[i - l0 - 2 - l1]);
        } else if i == l0 + 2 + l1 + l2 {
        } else {
            assert(t[i] == d3[i - l0 - 3 - l1 - l2]);
        }
    }
}

/// The text of an IPv4 address reads back as the same address.
proof fn lemma_ipv4_text_roundtrip(a: u32)
    ensures
        spec_parse_ipv4(spec_ipv4_text(a)) == Some(a),
{
    lemma_ipv4_text_pieces(a);
    lemma_octet_text((a / 0x1000000) as nat);
    lemma_octet_text(((a / 0x10000) % 0x100) as nat);
    lemma_octet_text(((a / 0x100) % 0x100) as nat);
    lemma_octet_text((a % 0x100) as nat);
    assert(a == (a / 0x1000000) * 0x1000000 + ((a / 0x10000) % 0x100) * 0x10000 + ((a / 0x100)
        % 0x100) * 0x100 + a % 0x100) by (bit_vector);
}

/// The text of an IPv4 socket address reads back as the same socket address.
proof fn lemma_socket_v4_text_roundtrip(ip: u32, port: u16)
    ensures
        spec_parse_socket(spec_socket_text(SocketAddr::V4 { ip, port })) == Some(
            SocketAddr::V4 { ip, port },
        ),
{
    let t = spec_ipv4_text(ip);
    let d = digits_of(port as nat, 10);
    lemma_ipv4_text_pieces(ip);
    lemma_ipv4_text_roundtrip(ip);
    lemma_digits_lack(port as nat, ':');
    lemma_split_on_single(t, ':');
    lemma_split_on_append(t, d, ':');
    assert(seq![t].push(d) =~= seq![t, d]);
    lemma_decimal_digits(port as nat);
}

/// Hexadecimal digits, as the text of an IPv6 group shows them.
proof fn lemma_hex_digits(n: nat)
    ensures
        digits_of(n, 16).len() >= 1,
        forall|i: int| 0 <= i < digits_of(n, 16).len() ==> is_hex_digit(#[trigger] digits_of(n, 16)[i]),
        hex_value(digits_of(n, 16)) == n,
        n < 16 ==> digits_of(n, 16).len() == 1,
        n < 256 ==> digits_of(n, 16).len() <= 2,
        n < 4096 ==> digits_of(n, 16).len() <= 3,
        n < 65536 ==> digits_of(n, 16).len() <= 4,
    decreases n,
{
    let d = digits_of(n, 16);
    let k = (n % 16) as int;
    assert(hex_digit_val(digit_char(k)) == k && is_hex_digit(digit_char(k)));
    if n >= 16 {
        lemma_hex_digits(n / 16);
        let p = digits_of(n / 16, 16);
        assert(d == p.push(digit_char(k)));
        assert(d.drop_last() =~= p);
        assert forall|i: int| 0 <= i < d.len() implies is_hex_digit(#[trigger] d[i]) by {
            if i < p.len() {
                assert(d[i] == p[i]);
            }
        }
        assert(d.last() == digit_char(k));
        assert(hex_value(d) == hex_value(p) * 16 + hex_digit_val(d.last()));
        assert((n / 16) * 16 + n % 16 == n) by (nonlinear_arith);
        assert(n < 256 ==> n / 16 < 16) by (nonlinear_arith);
        assert(n < 4096 ==> n / 16 < 256) by (nonlinear_arith);
        assert(n < 65536 ==> n / 16 < 4096) by (nonlinear_arith);
    } else {
        assert(n % 16 == n);
        assert(d =~= seq![digit_char(n as int)]);
        assert(d.drop_last() =~= Seq::<char>::empty());
        assert(hex_value(d.drop_last()) == 0);
        assert(hex_value(d) == hex_value(d.drop_last()) * 16 + hex_digit_val(d.last()));
    }
}

/// The group text of a 16-bit value reads back as that value.
proof fn lemma_hex_group_text(x: u16)
    ensures
        spec_hex_group(digits_of(x as nat, 16)) == Some(x),
        !digits_of(x as nat, 16).contains(':'),
        !digits_of(x as nat, 16).contains('.'),
{
    lemma_hex_digits(x as nat);
    let d = digits_of(x as nat, 16);
    if d.contains(':') {
        let i = choose|i: int| 0 <= i < d.len() && d[i] == ':';
        assert(is_hex_digit(d[i]));
    }
    if d.contains('.') {
        let i = choose|i: int| 0 <= i < d.len() && d[i] == '.';
        assert(is_hex_digit(d[i]));
    }
}

/// A character that the text of an IPv6 address may hold.
spec fn v6_char(c: char) -> bool {
    is_hex_digit(c) || c == ':' || c == '.'
}

/// No `"::"` starts at or after `i`.
spec fn no_pair_from(s: Seq<char>, i: int) -> bool {
    forall|j: int| i <= j && j + 1 < s.len() ==> !(#[trigger] s[j] == ':' && s[j + 1] == ':')
}

/// The hexadecimal texts of groups, one piece each.
spec fn hex_pieces(g: Seq<u16>) -> Seq<Seq<char>>
    decreases g.len(),
{
    if g.len() == 0 {
        Seq::empty()
    } else {
        hex_pieces(g.drop_last()).push(digits_of(g.last() as nat, 16))
    }
}

/// What the groups in hexadecimal, joined by `':'`, look like.
proof fn lemma_hex_join_shape(g: Seq<u16>)
    ensures
        forall|i: int| 0 <= i < hex_join(g).len() ==> v6_char(#[trigger] hex_join(g)[i]),
        no_pair_from(hex_join(g), 0),
        g.len() == 0 ==> hex_join(g).len() == 0,
        g.len() >= 1 ==> hex_join(g).len() >= 1 && hex_join(g)[0] != ':' && hex_join(g).last()
            != ':' && split_on(hex_join(g), ':') == hex_pieces(g),
        g.len() >= 2 ==> hex_join(g).contains(':'),
    decreases g.len(),
{
    if g.len() == 0 {
        return;
    }
    let d = digits_of(g.last() as nat, 16);
    lemma_hex_digits(g.last() as nat);
    lemma_hex_group_text(g.last());
    assert(hex_pieces(g).drop_last() =~= hex_pieces(g.drop_last()));
    if g.len() == 1 {
        assert(g.last() == g[0]);
        assert(hex_join(g) == d);
        lemma_split_on_single(d, ':');
        assert(hex_pieces(g.drop_last()) =~= Seq::<Seq<char>>::empty());
        assert(hex_pieces(g) =~= seq![d]);
        assert(is_hex_digit(d[0]));
        assert(is_hex_digit(d[d.len() - 1]));
        assert forall|i: int| 0 <= i < hex_join(g).len() implies v6_char(#[trigger] hex_join(g)[i]) by {
            assert(is_hex_digit(d[i]));
        }
        assert forall|j: int| 0 <= j && j + 1 < d.len() implies !(#[trigger] d[j] == ':' && d[j + 1] == ':') by {
            assert(is_hex_digit(d[j]));
        }
    } else {
        let h = hex_join(g.drop_last());
        lemma_hex_join_shape(g.drop_last());
        let t = h + seq![':'] + d;
        assert(hex_join(g) == t);
        lemma_split_on_append(h, d, ':');
        assert(t[h.len() as int] == ':');
        assert(t[0] == h[0]);
        assert(t.last() == d[d.len() - 1]);
        assert(is_hex_digit(d[d.len() - 1]));
        assert forall|i: int| 0 <= i < t.len() implies v6_char(#[trigger] t[i]) by {
            if i < h.len() {
                assert(t[i] == h[i]);
            } else if i > h.len() {
                assert(t[i] == d[i - h.len() - 1]);
                assert(is_hex_digit(d[i - h.len() - 1]));
            }
        }
        assert forall|j: int| 0 <= j && j + 1 < t.len() implies !(#[trigger] t[j] == ':' && t[j + 1] == ':') by {
            if j + 1 < h.len() {
                assert(t[j] == h[j] && t[j + 1] == h[j + 1]);
            } else if j + 1 == h.len() {
                assert(t[j] == h.last());
            } else if j == h.len() {
                assert(t[j + 1] == d[0]);
                assert(is_hex_digit(d[0]));
            } else {
                assert(t[j] == d[j - h.len() - 1]);
                assert(is_hex_digit(d[j - h.len() - 1]));
            }
        }
    }
}

/// Hexadecimal pieces read back as their groups.
proof fn lemma_hex_pieces_groups(g: Seq<u16>, allow_v4: bool)
    ensures
        spec_pieces_groups(hex_pieces(g), allow_v4) == Some(g),
    decreases g.len(),
{
    if g.len() > 0 {
        lemma_hex_pieces_groups(g.drop_last(), false);
        lemma_hex_group_text(g.last());
        assert(hex_pieces(g).drop_last() =~= hex_pieces(g.drop_last()));
        assert(g.drop_last() + seq![g.last()] =~= g);
    } else {
        assert(g =~= Seq::<u16>::empty());
    }
}

/// Groups joined in hexadecimal read back as the same groups.
proof fn lemma_hex_join_groups(g: Seq<u16>, allow_v4: bool)
    ensures
        spec_groups(hex_join(g), allow_v4) == Some(g),
{
    lemma_hex_join_shape(g);
    if g.len() == 0 {
        assert(g =~= Seq::<u16>::empty());
    } else {
        lemma_hex_pieces_groups(g, allow_v4);
    }
}

/// Positions without `"::"` do not change where the first one is found.
proof fn lemma_find_pair_skip(s: Seq<char>, i: nat, k: nat)
    requires
        i <= k,
        forall|j: int| i <= j < k && j + 1 < s.len() ==> !(#[trigger] s[j] == ':' && s[j + 1] == ':'),
    ensures
        find_pair(s, i) == find_pair(s, k),
    decreases k - i,
{
    if i < k {
        lemma_find_pair_skip(s, i + 1, k);
    }
}

/// Every character of `s` may stand in the text of an IPv6 address.
spec fn all_v6(s: Seq<char>) -> bool {
    forall|i: int| 0 <= i < s.len() ==> v6_char(#[trigger] s[i])
}

proof fn lemma_all_v6_concat(a: Seq<char>, b: Seq<char>)
    requires
        all_v6(a),
        all_v6(b),
    ensures
        all_v6(a + b),
{
    assert forall|i: int| 0 <= i < (a + b).len() implies v6_char(#[trigger] (a + b)[i]) by {
        if i < a.len() {
            assert((a + b)[i] == a[i]);
        } else {
            assert((a + b)[i] == b[i - a.len()]);
        }
    }
}

proof fn lemma_all_v6_lacks(s: Seq<char>, c: char)
    requires
        all_v6(s),
        !v6_char(c),
    ensures
        !s.contains(c),
{
    if s.contains(c) {
        let i = choose|i: int| 0 <= i < s.len() && s[i] == c;
        assert(v6_char(s[i]));
    }
}

proof fn lemma_decimal_all_v6(n: nat)
    ensures
        all_v6(digits_of(n, 10)),
{
    lemma_decimal_digits(n);
    assert forall|i: int| 0 <= i < digits_of(n, 10).len() implies v6_char(#[trigger] digits_of(n, 10)[i]) by {
        assert(is_dec_digit(digits_of(n, 10)[i]));
    }
}

/// The characters of dotted-decimal text.
proof fn lemma_ipv4_text_all_v6(a: u32)
    ensures
        all_v6(spec_ipv4_text(a)),
        spec_ipv4_text(a).len() >= 7,
{
    let d0 = digits_of((a / 0x1000000) as nat, 10);
    let d1 = digits_of(((a / 0x10000) % 0x100) as nat, 10);
    let d2 = digits_of(((a / 0x100) % 0x100) as nat, 10);
    let d3 = digits_of((a % 0x100) as nat, 10);
    lemma_decimal_all_v6((a / 0x1000000) as nat);
    lemma_decimal_all_v6(((a / 0x10000) % 0x100) as nat);
    lemma_decimal_all_v6(((a / 0x100) % 0x100) as nat);
    lemma_decimal_all_v6((a % 0x100) as nat);
    lemma_decimal_digits((a / 0x1000000) as nat);
    lemma_decimal_digits(((a / 0x10000) % 0x100) as nat);
    lemma_decimal_digits(((a / 0x100) % 0x100) as nat);
    lemma_decimal_digits((a % 0x100) as nat);
    let dot = seq!['.'];
    assert(all_v6(dot));
    lemma_all_v6_concat(d0, dot);
    lemma_all_v6_concat(d0 + dot, d1);
    lemma_all_v6_concat(d0 + dot + d1, dot);
    lemma_all_v6_concat(d0 + dot + d1 + dot, d2);
    lemma_all_v6_concat(d0 + dot + d1 + dot + d2, dot);
    lemma_all_v6_concat(d0 + dot + d1 + dot + d2 + dot, d3);
}

/// The groups of a value below `0x10000` to the power `n` give back the value.
proof fn lemma_segments_value(a: nat, n: nat)
    requires
        a < group_power(n),
    ensures
        groups_value(segments_of(a, n)) == a,
    decreases n,
{
    if n == 0 {
        assert(segments_of(a, n) =~= Seq::<u16>::empty());
    } else {
        let p = group_power((n - 1) as nat);
        assert(a / 0x10000 < p) by (nonlinear_arith)
            requires
                a < p * 0x10000,
        ;
        lemma_segments_value(a / 0x10000, (n - 1) as nat);
        let g = segments_of(a, n);
        assert(g.drop_last() =~= segments_of(a / 0x10000, (n - 1) as nat));
        assert((a / 0x10000) * 0x10000 + a % 0x10000 == a) by (nonlinear_arith);
    }
}

/// The groups that a run of zero groups covers are zero.
proof fn lemma_zero_run_zeros(g: Seq<u16>, i: nat)
    ensures
        forall|k: int| i <= k < i + zero_run(g, i) ==> g[k] == 0,
    decreases g.len() - i,
{
    if i < g.len() && g[i as int] == 0 {
        lemma_zero_run_zeros(g, i + 1);
    }
}

proof fn lemma_best_zero_start_bound(g: Seq<u16>, i: nat)
    ensures
        best_zero_start(g, i) <= g.len(),
    decreases g.len() - i,
{
    if i < g.len() {
        lemma_best_zero_start_bound(g, i + 1);
    }
}

/// `"ffff:a.b.c.d"` reads back as the groups `0xffff`, then the IPv4 address as two groups.
#[verifier::spinoff_prover]
proof fn lemma_ffff_tail(x: u32)
    ensures
        spec_groups(seq!['f', 'f', 'f', 'f'] + seq![':'] + spec_ipv4_text(x), true) == Some(
            seq![0xffffu16, (x / 0x10000) as u16, (x % 0x10000) as u16],
        ),
        spec_ipv4_text(x).len() >= 7,
        all_v6(spec_ipv4_text(x)),
{
    let f = seq!['f', 'f', 'f', 'f'];
    let v = spec_ipv4_text(x);
    let r = f + seq![':'] + v;
    lemma_ipv4_text_pieces(x);
    lemma_split_on_single(f, ':');
    lemma_split_on_append(f, v, ':');
    let ps = seq![f, v];
    assert(seq![f].push(v) =~= ps);
    assert(split_on(r, ':') == ps);
    assert(digits_of(65535, 16) =~= f) by {
        reveal_with_fuel(digits_of, 5);
    }
    lemma_hex_group_text(0xffff);
    assert(ps.drop_last() =~= seq![f]);
    assert(seq![f].drop_last() =~= Seq::<Seq<char>>::empty());
    assert(spec_pieces_groups(Seq::<Seq<char>>::empty(), false) == Some(Seq::<u16>::empty()));
    assert(seq![f].last() == f);
    assert(spec_piece_groups(f, false) == Some(seq![0xffffu16]));
    assert(Seq::<u16>::empty() + seq![0xffffu16] =~= seq![0xffffu16]);
    assert(spec_pieces_groups(seq![f], false) == Some(seq![0xffffu16]));
    lemma_ipv4_text_all_v6(x);
    lemma_ipv4_text_roundtrip(x);
    let lo = seq![(x / 0x10000) as u16, (x % 0x10000) as u16];
    assert(spec_piece_groups(v, true) == Some(lo));
    assert(seq![0xffffu16] + lo =~= seq![0xffffu16, (x / 0x10000) as u16, (x % 0x10000) as u16]);
}

/// `"::ffff:a.b.c.d"` reads back as the IPv4-mapped address.
#[verifier::spinoff_prover]
proof fn lemma_mapped_text(a: u128)
    requires
        segments_of(a as nat, 8)[0] == 0 && segments_of(a as nat, 8)[1] == 0
            && segments_of(a as nat, 8)[2] == 0 && segments_of(a as nat, 8)[3] == 0
            && segments_of(a as nat, 8)[4] == 0 && segments_of(a as nat, 8)[5] == 0xffff,
    ensures
        spec_parse_ipv6(spec_ipv6_text(a)) == Some(a),
        all_v6(spec_ipv6_text(a)),
        spec_ipv6_text(a).contains(':'),
{
    let g = segments_of(a as nat, 8);
    lemma_segments_len(a as nat, 8);
    lemma_group_powers();
    lemma_segments_value(a as nat, 8);
    let g6 = g[6];
    let g7 = g[7];
    let x = (g6 as nat * 0x10000 + g7 as nat) as u32;
    assert(x == g6 as nat * 0x10000 + g7 as nat);
    assert(x / 0x10000 == g6 && x % 0x10000 == g7) by (nonlinear_arith)
        requires
            x == g6 as nat * 0x10000 + g7 as nat,
            g6 < 0x10000,
            g7 < 0x10000,
    ;
    let v = spec_ipv4_text(x);
    let pre = "::ffff:"@;
    reveal_strlit("::ffff:");
    let f = seq!['f', 'f', 'f', 'f'];
    assert(pre =~= seq![':', ':'] + f + seq![':']);
    let t = spec_ipv6_text(a);
    assert(t == pre + v);
    assert(t[0] == ':' && t[1] == ':');
    assert(find_pair(t, 0) == Some(0nat));
    assert(t.subrange(0, 0) =~= Seq::<char>::empty());
    let r = t.subrange(2, t.len() as int);
    assert(r =~= f + seq![':'] + v);
    lemma_ffff_tail(x);
    let tg = seq![0xffffu16, g6, g7];
    assert(spec_groups(r, true) == Some(tg));
    assert(Seq::<u16>::empty() + Seq::new(5, |i: int| 0u16) + tg =~= g);
    assert(all_v6(pre));
    lemma_all_v6_concat(pre, v);
}

/// The first `"::"` of `h + "::" + r` is the one after `h` when `h` holds none and does
/// not end in `':'`.
proof fn lemma_pair_after(h: Seq<char>, r: Seq<char>)
    requires
        no_pair_from(h, 0),
        h.len() == 0 || h.last() != ':',
    ensures
        find_pair(h + seq![':', ':'] + r, 0) == Some(h.len()),
        (h + seq![':', ':'] + r).subrange(0, h.len() as int) == h,
        (h + seq![':', ':'] + r).subrange(h.len() as int + 2, (h + seq![':', ':'] + r).len() as int) == r,
{
    let t = h + seq![':', ':'] + r;
    let k = h.len();
    assert forall|j: int| 0 <= j < k && j + 1 < t.len() implies !(#[trigger] t[j] == ':' && t[j + 1]
        == ':') by {
        if j + 1 < k {
            assert(t[j] == h[j] && t[j + 1] == h[j + 1]);
        } else {
            assert(t[j] == h.last());
        }
    }
    lemma_find_pair_skip(t, 0, k);
    assert(t[k as int] == ':' && t[k as int + 1] == ':');
    assert(t.subrange(0, k as int) =~= h);
    assert(t.subrange(k as int + 2, t.len() as int) =~= r);
}

/// A run of `z` zero groups at `b` put back between the groups around it gives all groups.
proof fn lemma_zeros_between(g: Seq<u16>, b: nat, z: nat)
    requires
        b + z <= g.len(),
        forall|k: int| b <= k < b + z ==> g[k] == 0,
    ensures
        g.subrange(0, b as int) + Seq::new(z, |i: int| 0u16) + g.subrange((b + z) as int, g.len() as int)
            == g,
{
    let x = g.subrange(0, b as int) + Seq::new(z, |i: int| 0u16) + g.subrange(
        (b + z) as int,
        g.len() as int,
    );
    assert forall|i: int| 0 <= i < g.len() implies x[i] == g[i] by {
        if b <= i < b + z {
            assert(g[i] == 0);
        }
    }
    assert(x =~= g);
}

/// The groups with the chosen run of zeros written as `"::"` read back as the address.
#[verifier::spinoff_prover]
proof fn lemma_compressed_text(a: u128, b: nat, z: nat)
    requires
        b == best_zero_start(segments_of(a as nat, 8), 0),
        z == zero_run(segments_of(a as nat, 8), b),
        z > 1,
        spec_ipv6_text(a) == hex_join(segments_of(a as nat, 8).subrange(0, b as int)) + "::"@
            + hex_join(segments_of(a as nat, 8).subrange((b + z) as int, 8)),
    ensures
        spec_parse_ipv6(spec_ipv6_text(a)) == Some(a),
        all_v6(spec_ipv6_text(a)),
        spec_ipv6_text(a).contains(':'),
{
    let g = segments_of(a as nat, 8);
    lemma_segments_len(a as nat, 8);
    lemma_group_powers();
    lemma_segments_value(a as nat, 8);
    lemma_best_zero_start_bound(g, 0);
    lemma_zero_run_bound(g, b);
    lemma_zero_run_zeros(g, b);
    let pg = g.subrange(0, b as int);
    let qg = g.subrange((b + z) as int, 8);
    let h = hex_join(pg);
    let r = hex_join(qg);
    let dc = "::"@;
    reveal_strlit("::");
    assert(dc =~= seq![':', ':']);
    let t = spec_ipv6_text(a);
    assert(t == h + seq![':', ':'] + r);
    lemma_hex_join_shape(pg);
    lemma_hex_join_shape(qg);
    lemma_pair_after(h, r);
    lemma_hex_join_groups(pg, false);
    lemma_hex_join_groups(qg, true);
    assert((8 - pg.len() - qg.len()) as nat == z);
    lemma_zeros_between(g, b, z);
    assert(all_v6(seq![':', ':']));
    lemma_all_v6_concat(h, seq![':', ':']);
    lemma_all_v6_concat(h + seq![':', ':'], r);
    assert(t[h.len() as int] == ':');
}

/// The text of an IPv6 address reads back as that address; it holds a `':'` and only
/// hexadecimal digits, `':'` and `'.'`.
proof fn lemma_ipv6_text_facts(a: u128)
    ensures
        spec_parse_ipv6(spec_ipv6_text(a)) == Some(a),
        all_v6(spec_ipv6_text(a)),
        spec_ipv6_text(a).contains(':'),
{
    let g = segments_of(a as nat, 8);
    lemma_segments_len(a as nat, 8);
    if g[0] == 0 && g[1] == 0 && g[2] == 0 && g[3] == 0 && g[4] == 0 && g[5] == 0xffff {
        lemma_mapped_text(a);
    } else {
        let b = best_zero_start(g, 0);
        let z = zero_run(g, b);
        if z > 1 {
            lemma_compressed_text(a, b, z);
        } else {
            lemma_group_powers();
            lemma_segments_value(a as nat, 8);
            let t = hex_join(g);
            lemma_hex_join_shape(g);
            lemma_find_pair_skip(t, 0, t.len());
            assert(find_pair(t, t.len()) is None);
            lemma_hex_join_groups(g, true);
        }
    }
}

/// Every character of text cut at `sep` is `sep` or a character of one of the pieces.
proof fn lemma_split_pieces_chars(s: Seq<char>, sep: char, p: spec_fn(char) -> bool)
    requires
        forall|k: int, m: int|
            0 <= k < split_on(s, sep).len() && 0 <= m < split_on(s, sep)[k].len() ==> p(
                #[trigger] split_on(s, sep)[k][m],
            ),
    ensures
        forall|i: int| 0 <= i < s.len() ==> #[trigger] s[i] == sep || p(s[i]),
    decreases s.len(),
{
    if s.len() > 0 {
        let q = split_on(s.drop_last(), sep);
        let w = split_on(s, sep);
        crate::text::lemma_split_on_nonempty(s.drop_last(), sep);
        if s.last() == sep {
            assert forall|k: int, m: int| 0 <= k < q.len() && 0 <= m < q[k].len() implies p(
                #[trigger] q[k][m],
            ) by {
                assert(w[k] == q[k]);
                assert(w[k][m] == q[k][m]);
            }
        } else {
            assert forall|k: int, m: int| 0 <= k < q.len() && 0 <= m < q[k].len() implies p(
                #[trigger] q[k][m],
            ) by {
                if k < q.len() - 1 {
                    assert(w[k] == q[k]);
                } else {
                    assert(w[k] == q.last().push(s.last()));
                }
                assert(w[k][m] == q[k][m]);
            }
            let lk = q.len() - 1;
            assert(w[lk] == q.last().push(s.last()));
            assert(w[lk][q.last().len() as int] == s.last());
        }
        lemma_split_pieces_chars(s.drop_last(), sep, p);
        assert forall|i: int| 0 <= i < s.len() implies #[trigger] s[i] == sep || p(s[i]) by {
            if i < s.len() - 1 {
                assert(s[i] == s.drop_last()[i]);
            }
        }
    }
}

/// The first piece of text cut at `sep` starts with the text's first character, when that
/// character is not `sep`.
proof fn lemma_split_first(s: Seq<char>, sep: char)
    requires
        s.len() >= 1,
        s[0] != sep,
    ensures
        split_on(s, sep)[0].len() >= 1,
        split_on(s, sep)[0][0] == s[0],
    decreases s.len(),
{
    let q = split_on(s.drop_last(), sep);
    crate::text::lemma_split_on_nonempty(s.drop_last(), sep);
    if s.len() == 1 {
        assert(s.drop_last() =~= Seq::<char>::empty());
        assert(q == seq![Seq::<char>::empty()]);
    } else {
        assert(s.drop_last()[0] == s[0]);
        lemma_split_first(s.drop_last(), sep);
    }
}

/// Dotted-decimal text holds only decimal digits and `'.'`.
proof fn lemma_ipv4_chars(s: Seq<char>)
    requires
        spec_parse_ipv4(s) is Some,
    ensures
        forall|i: int| 0 <= i < s.len() ==> is_dec_digit(#[trigger] s[i]) || s[i] == '.',
{
    let pcs = split_on(s, '.');
    assert forall|k: int, m: int| 0 <= k < pcs.len() && 0 <= m < pcs[k].len() implies is_dec_digit(
        #[trigger] pcs[k][m],
    ) by {
        assert(spec_octet(pcs[k]) is Some);
        crate::text::lemma_digit_run_facts(pcs[k]);
    }
    let p = |c: char| is_dec_digit(c);
    assert forall|k: int, m: int| 0 <= k < pcs.len() && 0 <= m < pcs[k].len() implies p(
        #[trigger] pcs[k][m],
    ) by {}
    lemma_split_pieces_chars(s, '.', p);
    assert forall|i: int| 0 <= i < s.len() implies is_dec_digit(#[trigger] s[i]) || s[i] == '.' by {
        assert(s[i] == '.' || p(s[i]));
    }
}

/// Text with a character other than a decimal digit or `'.'` is no IPv4 address.
proof fn lemma_not_ipv4(s: Seq<char>, i: int)
    requires
        0 <= i < s.len(),
        !is_dec_digit(s[i]),
        s[i] != '.',
    ensures
        spec_parse_ipv4(s) is None,
{
    if spec_parse_ipv4(s) is Some {
        lemma_ipv4_chars(s);
    }
}

/// The text of an IP address reads back as that address.
pub proof fn lemma_ip_text_roundtrip(ip: IpAddr)
    ensures
        spec_parse_ip(spec_ip_text(ip)) == Some(ip),
{
    match ip {
        IpAddr::V4(a) => {
            lemma_ipv4_text_roundtrip(a);
        },
        IpAddr::V6(a) => {
            let t = spec_ipv6_text(a);
            lemma_ipv6_text_facts(a);
            let i = choose|i: int| 0 <= i < t.len() && t[i] == ':';
            lemma_not_ipv4(t, i);
        },
    }
}

/// The text of an IPv6 socket address, from `'['` to the port, reads back as that
/// address with no flow information.
proof fn lemma_socket_v6_text(ip: u128, port: u16, scope_id: u32)
    ensures
        spec_parse_socket(spec_socket_text(SocketAddr::V6 { ip, port, flowinfo: 0, scope_id }))
            == Some(SocketAddr::V6 { ip, port, flowinfo: 0, scope_id }),
{
    let sa = SocketAddr::V6 { ip, port, flowinfo: 0, scope_id };
    let s = spec_socket_text(sa);
    let t = spec_ipv6_text(ip);
    let d = digits_of(port as nat, 10);
    let e = digits_of(scope_id as nat, 10);
    lemma_ipv6_text_facts(ip);
    lemma_decimal_digits(port as nat);
    lemma_decimal_digits(scope_id as nat);
    lemma_all_v6_lacks(t, ']');
    lemma_all_v6_lacks(t, '%');
    lemma_digits_lack(port as nat, ']');
    lemma_digits_lack(scope_id as nat, ']');
    lemma_digits_lack(scope_id as nat, '%');
    reveal_strlit("]:");
    assert("]:"@ =~= seq![']', ':']);
    // not the IPv4 form: the first piece before a ':' starts with '['
    assert(s[0] == '[');
    lemma_split_first(s, ':');
    let p0 = split_on(s, ':')[0];
    lemma_not_ipv4(p0, 0);
    assert(spec_parse_socket_v4(s) is None);
    let tail = seq![':'] + d;
    assert(!tail.contains(']')) by {
        if tail.contains(']') {
            let j = choose|j: int| 0 <= j < tail.len() && tail[j] == ']';
            assert(tail[j] == d[j - 1]);
        }
    }
    assert(spec_port_text(d) == Some(port));
    assert(tail.drop_first() =~= d);
    if scope_id == 0 {
        assert(s.drop_first() =~= t + seq![']'] + tail);
        lemma_split_on_single(t, ']');
        lemma_split_on_append(t, tail, ']');
        assert(seq![t].push(tail) =~= seq![t, tail]);
        lemma_split_on_single(t, '%');
    } else {
        let head = t + seq!['%'] + e;
        assert(!head.contains(']')) by {
            if head.contains(']') {
                let j = choose|j: int| 0 <= j < head.len() && head[j] == ']';
                if j < t.len() {
                    assert(head[j] == t[j]);
                } else if j > t.len() {
                    assert(head[j] == e[j - t.len() - 1]);
                }
            }
        }
        assert(s.drop_first() =~= head + seq![']'] + tail);
        lemma_split_on_single(head, ']');
        lemma_split_on_append(head, tail, ']');
        assert(seq![head].push(tail) =~= seq![head, tail]);
        lemma_split_on_single(t, '%');
        lemma_split_on_append(t, e, '%');
        assert(seq![t].push(e) =~= seq![t, e]);
        assert(spec_scope_text(e) == Some(scope_id));
    }
}

/// The text of a socket address reads back as that address; of an IPv6 socket address the
/// text does not show the flow information, so this holds where it is zero.
pub proof fn lemma_socket_text_roundtrip(sa: SocketAddr)
    requires
        sa is V6 ==> sa->V6_flowinfo == 0,
    ensures
        spec_parse_socket(spec_socket_text(sa)) == Some(sa),
{
    match sa {
        SocketAddr::V4 { ip, port } => {
            lemma_socket_v4_text_roundtrip(ip, port);
        },
        SocketAddr::V6 { ip, port, flowinfo, scope_id } => {
            lemma_socket_v6_text(ip, port, scope_id);
        },
    }
}

} // verus!
