use super::{be16, push_range};
use vstd::prelude::*;
use vstd::utf8::{decode_utf8, encode_utf8, valid_utf8};

verus! {

/// Size in bytes of every ClientHello this module builds.
pub const CLIENT_HELLO_SIZE: usize = 517;

/// Longest SNI, in bytes, that fits into a ClientHello of `CLIENT_HELLO_SIZE` bytes.
pub const MAX_SNI_LEN: usize = 219;

/// The recorded ClientHello whose fixed parts every generated ClientHello reuses. It was
/// captured with the SNI `mci.ir`.
pub const TEMPLATE: [u8; 304] = [
    0x16, 0x03, 0x01, 0x02, 0x00, 0x01, 0x00, 0x01, 0xfc, 0x03, 0x03, 0x41,
    0xd5, 0xb5, 0x49, 0xd9, 0xcd, 0x1a, 0xdf, 0xa7, 0x29, 0x6c, 0x84, 0x18,
    0xd1, 0x57, 0xdc, 0x7b, 0x62, 0x4c, 0x84, 0x28, 0x24, 0xff, 0x49, 0x3b,
    0x93, 0x75, 0xbb, 0x48, 0xd3, 0x4f, 0x2b, 0x20, 0xbf, 0x01, 0x8b, 0xcc,
    0x90, 0xa7, 0xc8, 0x9a, 0x23, 0x00, 0x94, 0x81, 0x5a, 0xd0, 0xc1, 0x5b,
    0x73, 0x6e, 0x38, 0xc0, 0x12, 0x09, 0xd7, 0x2d, 0x28, 0x2c, 0xb5, 0xe2,
    0x10, 0x53, 0x28, 0x15, 0x00, 0x24, 0x13, 0x02, 0x13, 0x03, 0x13, 0x01,
    0xc0, 0x2c, 0xc0, 0x30, 0xc0, 0x2b, 0xc0, 0x2f, 0xcc, 0xa9, 0xcc, 0xa8,
    0xc0, 0x24, 0xc0, 0x28, 0xc0, 0x23, 0xc0, 0x27, 0x00, 0x9f, 0x00, 0x9e,
    0x00, 0x6b, 0x00, 0x67, 0x00, 0xff, 0x01, 0x00, 0x01, 0x8f, 0x00, 0x00,
    0x00, 0x0b, 0x00, 0x09, 0x00, 0x00, 0x06, 0x6d, 0x63, 0x69, 0x2e, 0x69,
    0x72, 0x00, 0x0b, 0x00, 0x04, 0x03, 0x00, 0x01, 0x02, 0x00, 0x0a, 0x00,
    0x16, 0x00, 0x14, 0x00, 0x1d, 0x00, 0x17, 0x00, 0x1e, 0x00, 0x19, 0x00,
    0x18, 0x01, 0x00, 0x01, 0x01, 0x01, 0x02, 0x01, 0x03, 0x01, 0x04, 0x00,
    0x23, 0x00, 0x00, 0x00, 0x10, 0x00, 0x0e, 0x00, 0x0c, 0x02, 0x68, 0x32,
    0x08, 0x68, 0x74, 0x74, 0x70, 0x2f, 0x31, 0x2e, 0x31, 0x00, 0x16, 0x00,
    0x00, 0x00, 0x17, 0x00, 0x00, 0x00, 0x0d, 0x00, 0x2a, 0x00, 0x28, 0x04,
    0x03, 0x05, 0x03, 0x06, 0x03, 0x08, 0x07, 0x08, 0x08, 0x08, 0x09, 0x08,
    0x0a, 0x08, 0x0b, 0x08, 0x04, 0x08, 0x05, 0x08, 0x06, 0x04, 0x01, 0x05,
    0x01, 0x06, 0x01, 0x03, 0x03, 0x03, 0x01, 0x03, 0x02, 0x04, 0x02, 0x05,
    0x02, 0x06, 0x02, 0x00, 0x2b, 0x00, 0x05, 0x04, 0x03, 0x04, 0x03, 0x03,
    0x00, 0x2d, 0x00, 0x02, 0x01, 0x01, 0x00, 0x33, 0x00, 0x26, 0x00, 0x24,
    0x00, 0x1d, 0x00, 0x20, 0x43, 0x5b, 0xac, 0xc4, 0xd0, 0x5f, 0x9d, 0x41,
    0xfe, 0xf4, 0x4a, 0xb3, 0xad, 0x55, 0x61, 0x6c, 0x36, 0xe0, 0x61, 0x34,
    0x73, 0xe2, 0x33, 0x87, 0x70, 0xef, 0xda, 0xa9, 0x86, 0x93, 0xd2, 0x17,
    0x00, 0x15, 0x00, 0xd5,
];

/// The template's bytes.
pub open spec fn spec_template() -> Seq<u8> {
    TEMPLATE@
}

/// The captured ClientHello that fake ones are built from.
pub fn template_bytes() -> (r: &'static [u8])
    ensures
        r@ == spec_template(),
{
    TEMPLATE.as_slice()
}

/// Big-endian encoding of a 16-bit value.
pub open spec fn be16_bytes(v: int) -> Seq<u8> {
    seq![(v / 256) as u8, (v % 256) as u8]
}

/// The ClientHello for the SNI bytes `sni`, with the given client random, session id and
/// key share: the template's record and handshake headers, the random, the session id,
/// the template's cipher suites and leading extensions, a server_name extension holding
/// `sni`, the template's remaining extensions, the key share, and a padding extension that
/// brings the total to `CLIENT_HELLO_SIZE` bytes.
pub open spec fn spec_client_hello(
    sni: Seq<u8>,
    random: Seq<u8>,
    session_id: Seq<u8>,
    key_share: Seq<u8>,
) -> Seq<u8> {
    let n = sni.len() as int;
    spec_template().subrange(0, 11) + random + seq![0x20u8] + session_id
        + spec_template().subrange(76, 120) + be16_bytes(n + 5) + be16_bytes(n + 3) + seq![0u8]
        + be16_bytes(n) + sni + spec_template().subrange(133, 268) + key_share + seq![
        0x00u8,
        0x15u8,
    ] + be16_bytes(219 - n) + Seq::new((219 - n) as nat, |i: int| 0u8)
}

fn push_be16(out: &mut Vec<u8>, v: u16)
    ensures
        final(out)@ == old(out)@ + be16_bytes(v as int),
{
    out.push((v / 256) as u8);
    out.push((v % 256) as u8);
    assert(final(out)@ =~= old(out)@ + be16_bytes(v as int));
}

/// Builds the ClientHello for `sni` from the given random values.
pub fn client_hello_with(sni: &str, random: &[u8; 32], session_id: &[u8; 32], key_share: &[u8; 32]) -> (out: Vec<u8>)
    requires
        encode_utf8(sni@).len() <= MAX_SNI_LEN,
    ensures
        out@ == spec_client_hello(encode_utf8(sni@), random@, session_id@, key_share@),
        out@.len() == CLIENT_HELLO_SIZE,
{
    let tpl = template_bytes();
    let sni_bytes = sni.as_bytes();
    let n = sni_bytes.len();
    let mut out: Vec<u8> = Vec::with_capacity(CLIENT_HELLO_SIZE);
    push_range(&mut out, tpl, 0, 11);
    push_range(&mut out, random.as_slice(), 0, 32);
    out.push(0x20);
    push_range(&mut out, session_id.as_slice(), 0, 32);
    push_range(&mut out, tpl, 76, 120);
    push_be16(&mut out, (n + 5) as u16);
    push_be16(&mut out, (n + 3) as u16);
    out.push(0x00);
    push_be16(&mut out, n as u16);
    push_range(&mut out, sni_bytes, 0, n);
    push_range(&mut out, tpl, 133, 268);
    push_range(&mut out, key_share.as_slice(), 0, 32);
    out.push(0x00);
    out.push(0x15);
    let pad_len = MAX_SNI_LEN - n;
    push_be16(&mut out, pad_len as u16);
    let ghost before_pad = out@;
    let mut i: usize = 0;
    while i < pad_len
        invariant
            i <= pad_len,
            out@ == before_pad + Seq::new(i as nat, |j: int| 0u8),
        decreases pad_len - i,
    {
        out.push(0);
        assert(before_pad + Seq::new((i + 1) as nat, |j: int| 0u8) =~= (before_pad + Seq::new(
            i as nat,
            |j: int| 0u8,
        )).push(0u8));
        i = i + 1;
    }
    assert(random@.subrange(0, 32) =~= random@);
    assert(session_id@.subrange(0, 32) =~= session_id@);
    assert(key_share@.subrange(0, 32) =~= key_share@);
    assert(sni_bytes@.subrange(0, n as int) =~= sni_bytes@);
    assert(out@ =~= spec_client_hello(encode_utf8(sni@), random@, session_id@, key_share@));
    out
}

/// The value of an ASCII hexadecimal digit.
pub open spec fn hex_digit(c: u8) -> Option<int> {
    if 0x30 <= c <= 0x39 {
        Some(c - 0x30)
    } else if 0x61 <= c <= 0x66 {
        Some(c - 0x61 + 10)
    } else if 0x41 <= c <= 0x46 {
        Some(c - 0x41 + 10)
    } else {
        None
    }
}

/// The byte that a two-byte base-16 number reads as: two hex digits, or a `+` sign
/// followed by one digit.
pub open spec fn hex_pair(b0: u8, b1: u8) -> Option<u8> {
    if b0 == 0x2b {
        match hex_digit(b1) {
            Some(d) => Some(d as u8),
            None => None,
        }
    } else {
        match (hex_digit(b0), hex_digit(b1)) {
            (Some(d0), Some(d1)) => Some((d0 * 16 + d1) as u8),
            _ => None,
        }
    }
}

/// The bytes that an even-length text of two-byte hex numbers decodes to, or `None` when
/// one of the numbers is not valid.
pub open spec fn spec_hex_decode(b: Seq<u8>) -> Option<Seq<u8>>
    decreases b.len(),
{
    if b.len() < 2 {
        Some(Seq::empty())
    } else {
        match hex_pair(b[0], b[1]) {
            None => None,
            Some(v) => match spec_hex_decode(b.subrange(2, b.len() as int)) {
                Some(rest) => Some(seq![v] + rest),
                None => None,
            },
        }
    }
}

/// Every two-byte piece of `b` that decoding reaches, from offset `i` on, starts and ends
/// on a character boundary; decoding stops at the first piece that is not a number.
pub open spec fn hex_pieces_on_boundaries(b: Seq<u8>, i: int) -> bool
    decreases b.len() - i,
{
    if i < 0 || i + 2 > b.len() {
        true
    } else {
        &&& vstd::utf8::is_char_boundary(b, i)
        &&& vstd::utf8::is_char_boundary(b, i + 2)
        &&& (hex_pair(b[i], b[i + 1]) is Some ==> hex_pieces_on_boundaries(b, i + 2))
    }
}

proof fn lemma_hex_decode_step(b: Seq<u8>, i: int, acc: Seq<u8>)
    requires
        0 <= i,
        i + 2 <= b.len(),
        hex_pair(b[i], b[i + 1]) is Some,
    ensures
        spec_hex_decode(b.subrange(i, b.len() as int)) == match spec_hex_decode(
            b.subrange(i + 2, b.len() as int),
        ) {
            Some(rest) => Some(seq![hex_pair(b[i], b[i + 1])->0] + rest),
            None => None,
        },
{
    let t = b.subrange(i, b.len() as int);
    assert(t.subrange(2, t.len() as int) =~= b.subrange(i + 2, b.len() as int));
}

fn hex_value(c: u8) -> (r: Option<u8>)
    ensures
        r matches Some(v) ==> hex_digit(c) == Some(v as int),
        r is None ==> hex_digit(c) is None,
{
    if 0x30 <= c && c <= 0x39 {
        Some(c - 0x30)
    } else if 0x61 <= c && c <= 0x66 {
        Some(c - 0x61 + 10)
    } else if 0x41 <= c && c <= 0x46 {
        Some(c - 0x41 + 10)
    } else {
        None
    }
}

fn pair_value(b0: u8, b1: u8) -> (r: Option<u8>)
    ensures
        r == hex_pair(b0, b1),
{
    if b0 == 0x2b {
        hex_value(b1)
    } else {
        match (hex_value(b0), hex_value(b1)) {
            (Some(d0), Some(d1)) => Some(d0 * 16 + d1),
            _ => None,
        }
    }
}

/// Decodes a hexadecimal text two bytes at a time.
pub fn decode(s: &str) -> (r: Result<Vec<u8>, String>)
    requires
        encode_utf8(s@).len() % 2 == 0 ==> hex_pieces_on_boundaries(encode_utf8(s@), 0),
    ensures
        encode_utf8(s@).len() % 2 == 1 ==> (r matches Err(e) && e@ == "odd length"@),
        encode_utf8(s@).len() % 2 == 0 ==> match spec_hex_decode(encode_utf8(s@)) {
            Some(v) => (r matches Ok(out) && out@ == v),
            None => (r matches Err(e) && e@ == "invalid digit found in string"@),
        },
{
    broadcast use vstd::string::group_string_axioms;

    let b = s.as_bytes();
    let len = b.len();
    if len % 2 != 0 {
        return Err("odd length".to_string());
    }
    let mut out: Vec<u8> = Vec::new();
    let mut i: usize = 0;
    assert(b@.subrange(0, len as int) =~= b@);
    while i < len
        invariant
            b@ == encode_utf8(s@),
            len == b@.len(),
            len % 2 == 0,
            i % 2 == 0,
            i <= len,
            spec_hex_decode(b@) == match spec_hex_decode(b@.subrange(i as int, len as int)) {
                Some(rest) => Some(out@ + rest),
                None => None,
            },
        decreases len - i,
    {
        match pair_value(b[i], b[i + 1]) {
            Some(v) => {
                proof {
                    lemma_hex_decode_step(b@, i as int, out@);
                    assert(forall|x: Seq<u8>| out@ + (seq![v] + x) =~= out@.push(v) + x);
                }
                out.push(v);
            },
            None => {
                proof {
                    let t = b@.subrange(i as int, len as int);
                    assert(t[0] == b@[i as int] && t[1] == b@[i + 1]);
                }
                return Err("invalid digit found in string".to_string());
            },
        }
        i = i + 2;
    }
    assert(b@.subrange(len as int, len as int).len() == 0);
    assert(out@ + Seq::<u8>::empty() =~= out@);
    Ok(out)
}

/// 32 bytes from the thread-local generator of the `rand` crate (`rand::thread_rng` and
/// `RngCore::fill_bytes`). Nothing is stated of their values: they are random.
#[verifier::external_body]
fn random_block() -> [u8; 32] {
    let mut block = [0u8; 32];
    rand::RngCore::fill_bytes(&mut rand::thread_rng(), &mut block);
    block
}

/// Builds a fake ClientHello for `sni` with a fresh random, session id and key share.
pub fn build_client_hello(sni: &str) -> (out: Vec<u8>)
    requires
        encode_utf8(sni@).len() <= MAX_SNI_LEN,
    ensures
        out@.len() == CLIENT_HELLO_SIZE,
        out@ == spec_client_hello(
            encode_utf8(sni@),
            out@.subrange(11, 43),
            out@.subrange(44, 76),
            out@.subrange(
                262 + encode_utf8(sni@).len() as int,
                294 + encode_utf8(sni@).len() as int,
            ),
        ),
{
    let random = random_block();
    let session_id = random_block();
    let key_share = random_block();
    let out = client_hello_with(sni, &random, &session_id, &key_share);
    proof {
        let ch = spec_client_hello(encode_utf8(sni@), random@, session_id@, key_share@);
        assert(ch.subrange(11, 43) =~= random@);
        assert(ch.subrange(44, 76) =~= session_id@);
        let n = encode_utf8(sni@).len() as int;
        assert(ch.subrange(262 + n, 294 + n) =~= key_share@);
    }
    out
}

/// The SNI that a ClientHello of at least `CLIENT_HELLO_SIZE` bytes carries at the layout
/// `spec_client_hello` gives it: the length at bytes 125 and 126, the name from byte 127,
/// when those bytes are in range and are UTF-8.
pub open spec fn spec_parse_sni(ch: Seq<u8>) -> Option<Seq<char>> {
    if ch.len() < CLIENT_HELLO_SIZE {
        None
    } else {
        let n = be16(ch[125], ch[126]);
        let name = ch.subrange(127, 127 + n);
        if 127 + n > ch.len() || !valid_utf8(name) {
            None
        } else {
            Some(decode_utf8(name))
        }
    }
}

/// Decodes `bytes` as UTF-8.
#[verifier::external_body]
fn string_from_utf8(bytes: Vec<u8>) -> (r: Option<String>)
    ensures
        r is Some <==> valid_utf8(bytes@),
        r matches Some(s) ==> s@ == decode_utf8(bytes@),
{
    String::from_utf8(bytes).ok()
}

/// The server name that a ClientHello carries where the template puts it.
pub fn parse_sni(client_hello: &[u8]) -> (r: Option<String>)
    ensures
        r is Some <==> spec_parse_sni(client_hello@) is Some,
        r matches Some(s) ==> Some(s@) == spec_parse_sni(client_hello@),
{
    if client_hello.len() < CLIENT_HELLO_SIZE {
        return None;
    }
    let sni_len = client_hello[125] as usize * 256 + client_hello[126] as usize;
    if 127 + sni_len > client_hello.len() {
        return None;
    }
    let mut name: Vec<u8> = Vec::new();
    push_range(&mut name, client_hello, 127, 127 + sni_len);
    assert(name@ =~= client_hello@.subrange(127, 127 + sni_len));
    string_from_utf8(name)
}

/// Reading the SNI back out of a built ClientHello gives the SNI it was built from,
/// whatever the random fields hold.
pub proof fn lemma_parse_sni_of_client_hello(
    sni: Seq<char>,
    random: Seq<u8>,
    session_id: Seq<u8>,
    key_share: Seq<u8>,
)
    requires
        encode_utf8(sni).len() <= MAX_SNI_LEN,
        random.len() == 32,
        session_id.len() == 32,
        key_share.len() == 32,
    ensures
        spec_parse_sni(spec_client_hello(encode_utf8(sni), random, session_id, key_share))
            == Some(sni),
{
    let b = encode_utf8(sni);
    let ch = spec_client_hello(b, random, session_id, key_share);
    let n = b.len() as int;
    assert(ch.len() == 517);
    assert(ch[125] == (n / 256) as u8);
    assert(ch[126] == (n % 256) as u8);
    assert(ch.subrange(127, 127 + n) =~= b);
    vstd::utf8::encode_utf8_valid_utf8(sni);
    vstd::utf8::encode_utf8_decode_utf8(sni);
}

/// A big-endian 16-bit field of `s` at `at`.
pub open spec fn field16(s: Seq<u8>, at: int) -> int {
    s[at] as int * 256 + s[at + 1] as int
}

/// From `pos` to `end`, `s` is a run of TLS extensions: each a 2-byte type and a 2-byte
/// length followed by exactly that many bytes, the last one ending at `end`.
pub open spec fn extensions_tile(s: Seq<u8>, pos: int, end: int) -> bool
    decreases end - pos,
{
    if pos >= end {
        pos == end
    } else if pos + 4 > end {
        false
    } else {
        let next = pos + 4 + field16(s, pos + 2);
        next <= end && extensions_tile(s, next, end)
    }
}

/// The five parts of a built ClientHello: everything before the server_name extension's
/// length, the server_name extension's data, the template's middle extensions, the key
/// share, and the padding extension.
proof fn lemma_client_hello_parts(
    sni: Seq<u8>,
    random: Seq<u8>,
    session_id: Seq<u8>,
    key_share: Seq<u8>,
)
    requires
        sni.len() <= MAX_SNI_LEN,
        random.len() == 32,
        session_id.len() == 32,
        key_share.len() == 32,
    ensures
        ({
            let ch = spec_client_hello(sni, random, session_id, key_share);
            let n = sni.len() as int;
            let t = spec_template();
            &&& ch.len() == CLIENT_HELLO_SIZE
            &&& ch.subrange(0, 120) == t.subrange(0, 11) + random + seq![0x20u8] + session_id
                + t.subrange(76, 120)
            &&& ch.subrange(120, 127 + n) == be16_bytes(n + 5) + be16_bytes(n + 3) + seq![0u8]
                + be16_bytes(n) + sni
            &&& ch.subrange(127 + n, 262 + n) == t.subrange(133, 268)
            &&& ch.subrange(262 + n, 294 + n) == key_share
            &&& ch.subrange(294 + n, 517) == seq![0x00u8, 0x15u8] + be16_bytes(219 - n)
                + Seq::new((219 - n) as nat, |i: int| 0u8)
        }),
{
    let ch = spec_client_hello(sni, random, session_id, key_share);
    let n = sni.len() as int;
    let t = spec_template();
    let head = t.subrange(0, 11) + random + seq![0x20u8] + session_id + t.subrange(76, 120);
    let name = be16_bytes(n + 5) + be16_bytes(n + 3) + seq![0u8] + be16_bytes(n) + sni;
    let mid = t.subrange(133, 268);
    let tail = seq![0x00u8, 0x15u8] + be16_bytes(219 - n) + Seq::new((219 - n) as nat, |i: int| 0u8);
    assert(ch =~= head + name + mid + key_share + tail);
    assert(ch.subrange(0, 120) =~= head);
    assert(ch.subrange(120, 127 + n) =~= name);
    assert(ch.subrange(127 + n, 262 + n) =~= mid);
    assert(ch.subrange(262 + n, 294 + n) =~= key_share);
    assert(ch.subrange(294 + n, 517) =~= tail);
}

/// A byte of `s` read through a part of it.
proof fn lemma_part_byte(s: Seq<u8>, a: int, b: int, i: int)
    requires
        0 <= a <= i < b <= s.len(),
    ensures
        s[i] == s.subrange(a, b)[i - a],
{
}

/// Every length field of a built ClientHello equals the size of what it covers: the record
/// length, the handshake length, the session id's length, the cipher suites and
/// compression methods, the extensions block (which the extensions tile exactly), the
/// server_name extension (its data, its name list and the name, which is `sni`), the key
/// share extension (its list and the 32-byte X25519 key, which is `key_share`), and the
/// padding extension (zeros up to 517 bytes).
pub proof fn lemma_client_hello_lengths(
    sni: Seq<u8>,
    random: Seq<u8>,
    session_id: Seq<u8>,
    key_share: Seq<u8>,
)
    requires
        sni.len() <= MAX_SNI_LEN,
        random.len() == 32,
        session_id.len() == 32,
        key_share.len() == 32,
    ensures
        ({
            let ch = spec_client_hello(sni, random, session_id, key_share);
            let n = sni.len() as int;
            let pad = 294 + n;
            &&& ch.len() == CLIENT_HELLO_SIZE
            &&& ch[0] == 0x16 && field16(ch, 3) == ch.len() - 5
            &&& ch[5] == 1 && ch[6] as int * 0x10000 + field16(ch, 7) == ch.len() - 9
            &&& ch.subrange(11, 43) == random
            &&& ch[43] == 32 && ch.subrange(44, 76) == session_id
            &&& 78 + field16(ch, 76) == 114 && ch[114] == 1 && ch[115] == 0
            &&& field16(ch, 116) == ch.len() - 118
            &&& extensions_tile(ch, 118, ch.len() as int)
            &&& field16(ch, 118) == 0
            &&& field16(ch, 120) == (127 + n) - 122
            &&& field16(ch, 122) == (127 + n) - 124
            &&& ch[124] == 0
            &&& field16(ch, 125) == n && ch.subrange(127, 127 + n) == sni
            &&& field16(ch, 252 + n) == 0x33 && field16(ch, 254 + n) == (294 + n) - (256 + n)
            &&& field16(ch, 256 + n) == (294 + n) - (258 + n)
            &&& field16(ch, 258 + n) == 0x1d && field16(ch, 260 + n) == 32
            &&& ch.subrange(262 + n, 294 + n) == key_share
            &&& field16(ch, pad) == 0x15 && field16(ch, pad + 2) == ch.len() - (pad + 4)
            &&& forall|i: int| pad + 4 <= i < ch.len() ==> ch[i] == 0
        }),
{
    let ch = spec_client_hello(sni, random, session_id, key_share);
    let n = sni.len() as int;
    lemma_client_hello_parts(sni, random, session_id, key_share);
    lemma_client_hello_head(sni, random, session_id, key_share);
    lemma_client_hello_name(sni, random, session_id, key_share);
    lemma_client_hello_tail(ch, n);
    lemma_client_hello_tiles(ch, n);
}

/// The record, handshake, session id, cipher suite, compression and extensions-block
/// lengths of a built ClientHello.
proof fn lemma_client_hello_head(
    sni: Seq<u8>,
    random: Seq<u8>,
    session_id: Seq<u8>,
    key_share: Seq<u8>,
)
    requires
        sni.len() <= MAX_SNI_LEN,
        random.len() == 32,
        session_id.len() == 32,
        key_share.len() == 32,
    ensures
        ({
            let ch = spec_client_hello(sni, random, session_id, key_share);
            &&& ch[0] == 0x16 && field16(ch, 3) == ch.len() - 5
            &&& ch[5] == 1 && ch[6] as int * 0x10000 + field16(ch, 7) == ch.len() - 9
            &&& ch.subrange(11, 43) == random
            &&& ch[43] == 32 && ch.subrange(44, 76) == session_id
            &&& 78 + field16(ch, 76) == 114 && ch[114] == 1 && ch[115] == 0
            &&& field16(ch, 116) == ch.len() - 118
            &&& field16(ch, 118) == 0
        }),
{
    lemma_client_hello_parts(sni, random, session_id, key_share);
    let ch = spec_client_hello(sni, random, session_id, key_share);
    let h = ch.subrange(0, 120);
    assert forall|i: int| 0 <= i < 120 implies ch[i] == h[i] by {}
    assert(ch.subrange(11, 43) =~= h.subrange(11, 43));
    assert(ch.subrange(44, 76) =~= h.subrange(44, 76));
    assert(h.subrange(11, 43) =~= random);
    assert(h.subrange(44, 76) =~= session_id);
}

/// The server_name extension of a built ClientHello: its data length, its name list's
/// length, the host_name type, the name's length and the name.
proof fn lemma_client_hello_name(
    sni: Seq<u8>,
    random: Seq<u8>,
    session_id: Seq<u8>,
    key_share: Seq<u8>,
)
    requires
        sni.len() <= MAX_SNI_LEN,
        random.len() == 32,
        session_id.len() == 32,
        key_share.len() == 32,
    ensures
        ({
            let ch = spec_client_hello(sni, random, session_id, key_share);
            let n = sni.len() as int;
            &&& field16(ch, 120) == (127 + n) - 122
            &&& field16(ch, 122) == (127 + n) - 124
            &&& ch[124] == 0
            &&& field16(ch, 125) == n && ch.subrange(127, 127 + n) == sni
        }),
{
    lemma_client_hello_parts(sni, random, session_id, key_share);
    let ch = spec_client_hello(sni, random, session_id, key_share);
    let n = sni.len() as int;
    let m = ch.subrange(120, 127 + n);
    assert forall|i: int| 120 <= i < 127 + n implies ch[i] == m[i - 120] by {}
    assert(ch.subrange(127, 127 + n) =~= m.subrange(7, 7 + n));
    assert(m.subrange(7, 7 + n) =~= sni);
}

/// The key share and padding extensions of a ClientHello laid out as `lemma_client_hello_parts`
/// gives it.
proof fn lemma_client_hello_tail(ch: Seq<u8>, n: int)
    requires
        0 <= n <= 219,
        ch.len() == CLIENT_HELLO_SIZE,
        ch.subrange(127 + n, 262 + n) == spec_template().subrange(133, 268),
        ch.subrange(294 + n, 517) == seq![0x00u8, 0x15u8] + be16_bytes(219 - n) + Seq::new(
            (219 - n) as nat,
            |i: int| 0u8,
        ),
    ensures
        ({
            let pad = 294 + n;
            &&& field16(ch, 252 + n) == 0x33 && field16(ch, 254 + n) == (294 + n) - (256 + n)
            &&& field16(ch, 256 + n) == (294 + n) - (258 + n)
            &&& field16(ch, 258 + n) == 0x1d && field16(ch, 260 + n) == 32
            &&& field16(ch, pad) == 0x15 && field16(ch, pad + 2) == ch.len() - (pad + 4)
            &&& forall|i: int| pad + 4 <= i < ch.len() ==> ch[i] == 0
        }),
{
    let t = spec_template();
    let mid = ch.subrange(127 + n, 262 + n);
    assert forall|k: int| 252 <= k < 262 implies #[trigger] ch[k + n] == t[k + 6] by {
        lemma_part_byte(ch, 127 + n, 262 + n, k + n);
    }
    assert(ch[252 + n] == t[258] && ch[253 + n] == t[259] && ch[254 + n] == t[260]);
    assert(ch[255 + n] == t[261] && ch[256 + n] == t[262] && ch[257 + n] == t[263]);
    assert(ch[258 + n] == t[264] && ch[259 + n] == t[265] && ch[260 + n] == t[266]);
    assert(ch[261 + n] == t[267]);
    let tail = ch.subrange(294 + n, 517);
    assert forall|i: int| 294 + n <= i < 517 implies #[trigger] ch[i] == tail[i - (294 + n)] by {
        lemma_part_byte(ch, 294 + n, 517, i);
    }
    assert(ch[294 + n] == tail[0] && ch[295 + n] == tail[1]);
    assert(ch[296 + n] == tail[2] && ch[297 + n] == tail[3]);
}

/// The extensions of a ClientHello laid out as `lemma_client_hello_parts` gives it, from
/// the server_name extension to the padding, tile the extensions block exactly.
proof fn lemma_client_hello_tiles(ch: Seq<u8>, n: int)
    requires
        0 <= n <= 219,
        ch.len() == CLIENT_HELLO_SIZE,
        ch[118] == 0 && ch[119] == 0,
        field16(ch, 120) == n + 5,
        ch.subrange(127 + n, 262 + n) == spec_template().subrange(133, 268),
        field16(ch, 254 + n) == 38,
        field16(ch, 296 + n) == 219 - n,
    ensures
        extensions_tile(ch, 118, 517),
{
    let t = spec_template();
    assert forall|k: int| 133 <= k < 268 implies ch[k - 6 + n] == #[trigger] t[k] by {
        lemma_part_byte(ch, 127 + n, 262 + n, k - 6 + n);
    }
    assert(extensions_tile(ch, 517, 517));
    assert(extensions_tile(ch, 294 + n, 517));
    assert(extensions_tile(ch, 252 + n, 517));
    assert(ch[248 + n] == t[254] && ch[249 + n] == t[255]);
    assert(extensions_tile(ch, 246 + n, 517));
    assert(ch[239 + n] == t[245] && ch[240 + n] == t[246]);
    assert(extensions_tile(ch, 237 + n, 517));
    assert(ch[193 + n] == t[199] && ch[194 + n] == t[200]);
    assert(extensions_tile(ch, 191 + n, 517));
    assert(ch[189 + n] == t[195] && ch[190 + n] == t[196]);
    assert(extensions_tile(ch, 187 + n, 517));
    assert(ch[185 + n] == t[191] && ch[186 + n] == t[192]);
    assert(extensions_tile(ch, 183 + n, 517));
    assert(ch[167 + n] == t[173] && ch[168 + n] == t[174]);
    assert(extensions_tile(ch, 165 + n, 517));
    assert(ch[163 + n] == t[169] && ch[164 + n] == t[170]);
    assert(extensions_tile(ch, 161 + n, 517));
    assert(ch[137 + n] == t[143] && ch[138 + n] == t[144]);
    assert(extensions_tile(ch, 135 + n, 517));
    assert(ch[129 + n] == t[135] && ch[130 + n] == t[136]);
    assert(extensions_tile(ch, 127 + n, 517));
    assert(extensions_tile(ch, 118, 517));
}

} // verus!
