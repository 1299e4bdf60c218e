use crate::packet::tls::MAX_SNI_LEN;
use crate::text::{digit_char, lemma_kept_lines_clean, lines_trimmed, push_char, split_on, trim, trimmed_lines};
use vstd::prelude::*;
use vstd::string::StringExecFns;
use vstd::utf8::encode_utf8;

verus! {

broadcast use vstd::string::group_string_axioms;

/// The SNIs that the scanner probes when no list is given, one per line.
pub const DEFAULT_SNIS: &'static str = "security.vercel.com\n";

pub const DEFAULT_TARGET: &'static str = "104.18.4.130:443";

pub const DEFAULT_TIMEOUT_SECS: u64 = 6;

pub const DEFAULT_CONCURRENCY: usize = 10;

/// How one probe ended.
#[derive(Clone, Debug)]
pub enum ProbeOutcome {
    Passed,
    ConnectFailed(String),
    ConnectTimeout,
    HandshakeFailed(String),
    ReadTimeout,
    BadResponse(u8),
    EmptyResponse,
}

/// The outcome of probing one SNI.
#[derive(Clone, Debug)]
pub struct ProbeResult {
    pub sni: String,
    pub outcome: ProbeOutcome,
}

/// Two lowercase hexadecimal digits of a byte.
pub open spec fn hex_byte(b: u8) -> Seq<char> {
    seq![digit_char((b / 16) as int), digit_char((b % 16) as int)]
}

/// The text that describes an outcome.
pub open spec fn outcome_text(o: ProbeOutcome) -> Seq<char> {
    match o {
        ProbeOutcome::Passed => "ok"@,
        ProbeOutcome::ConnectFailed(e) => "connect failed: "@ + e@,
        ProbeOutcome::ConnectTimeout => "connect timeout"@,
        ProbeOutcome::HandshakeFailed(e) => "handshake failed: "@ + e@,
        ProbeOutcome::ReadTimeout => "read timeout"@,
        ProbeOutcome::BadResponse(b) => "bad response: 0x"@ + hex_byte(b),
        ProbeOutcome::EmptyResponse => "empty response"@,
    }
}

fn hex_digit(d: u8) -> (c: char)
    requires
        d < 16,
    ensures
        c == digit_char(d as int),
{
    if d < 10 {
        (48 + d) as char
    } else {
        (87 + d) as char
    }
}

impl ProbeOutcome {
    /// The outcome as text (`Display`).
    pub fn describe(&self) -> (s: String)
        ensures
            s@ == outcome_text(*self),
    {
        match self {
            ProbeOutcome::Passed => String::from_str("ok"),
            ProbeOutcome::ConnectFailed(e) => {
                let s = String::from_str("connect failed: ");
                s.concat(e.as_str())
            },
            ProbeOutcome::ConnectTimeout => String::from_str("connect timeout"),
            ProbeOutcome::HandshakeFailed(e) => {
                let s = String::from_str("handshake failed: ");
                s.concat(e.as_str())
            },
            ProbeOutcome::ReadTimeout => String::from_str("read timeout"),
            ProbeOutcome::BadResponse(b) => {
                let mut s = String::from_str("bad response: 0x");
                push_char(&mut s, hex_digit(*b / 16));
                push_char(&mut s, hex_digit(*b % 16));
                assert(s@ =~= outcome_text(*self));
                s
            },
            ProbeOutcome::EmptyResponse => String::from_str("empty response"),
        }
    }

    pub fn is_ok(&self) -> (r: bool)
        ensures
            r == (*self is Passed),
    {
        match self {
            ProbeOutcome::Passed => true,
            _ => false,
        }
    }
}

/// The SNIs listed in `content`: one per line, trimmed, skipping blank lines and lines
/// that start with `'#'`.
pub fn parse_sni_list(content: &str) -> (r: Vec<String>)
    ensures
        r.deep_view() == trimmed_lines(content@, true),
{
    lines_trimmed(content, true)
}

/// Every SNI of a list is non-blank, has no surrounding white space and is not a comment.
pub proof fn lemma_sni_list_entries(content: Seq<char>)
    ensures
        forall|i: int|
            0 <= i < trimmed_lines(content, true).len() ==> {
                let e = #[trigger] trimmed_lines(content, true)[i];
                e.len() > 0 && e[0] != '#' && trim(e) == e
            },
{
    lemma_kept_lines_clean(split_on(content, '\n'), true);
}

/// The built-in SNI list.
pub fn default_snis() -> (r: Vec<String>)
    ensures
        r.deep_view() == trimmed_lines(DEFAULT_SNIS@, true),
{
    parse_sni_list(DEFAULT_SNIS)
}

/// What a probe of `sni` ends with before any connection is made: an SNI that does not
/// fit the ClientHello fails the handshake at once.
pub fn precheck_sni(sni: &str) -> (r: Option<ProbeOutcome>)
    ensures
        r is Some <==> encode_utf8(sni@).len() > MAX_SNI_LEN,
        r matches Some(o) ==> (o matches ProbeOutcome::HandshakeFailed(e) && e@ == "sni too long"@),
{
    if sni.as_bytes().len() > MAX_SNI_LEN {
        Some(ProbeOutcome::HandshakeFailed(String::from_str("sni too long")))
    } else {
        None
    }
}

/// The outcome of a probe that read a full 5-byte record header back: a TLS handshake
/// record (`0x16`) passes, anything else is a bad response.
pub fn response_outcome(first_byte: u8) -> (r: ProbeOutcome)
    ensures
        first_byte == 0x16 ==> r is Passed,
        first_byte != 0x16 ==> r == ProbeOutcome::BadResponse(first_byte),
{
    if first_byte == 0x16 {
        ProbeOutcome::Passed
    } else {
        ProbeOutcome::BadResponse(first_byte)
    }
}

} // verus!
