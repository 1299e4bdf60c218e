use crate::error::XrayParseError;
use crate::net::{parse_ip, spec_parse_ip};
use crate::text::{
    ascii_lower, chars_of, eq_ascii_nocase, eq_ignore_ascii_case, parse_unsigned, push_char,
    same_text, spec_parse_unsigned, starts_with, string_of, to_ascii_lowercase, trim, trim_chars,
    trim_str,
};
use vstd::utf8::encode_utf8;
use vstd::prelude::*;
use vstd::string::StringExecFns;

verus! {

broadcast use vstd::string::group_string_axioms;

/// A proxy endpoint read from a VLESS, Trojan or VMess share link.
#[derive(Clone, Debug)]
pub struct XrayShare {
    pub protocol: String,
    pub name: Option<String>,
    pub user_id: Option<String>,
    pub host: String,
    pub port: u16,
    pub security: Option<String>,
    pub encryption: Option<String>,
    pub sni: Option<String>,
    pub http_host: Option<String>,
    pub network: Option<String>,
    pub fingerprint: Option<String>,
    pub path: Option<String>,
    pub mode: Option<String>,
    pub allow_insecure: bool,
    pub tls: bool,
}

/// The fields of an `XrayShare` as character sequences.
pub struct XrayShareView {
    pub protocol: Seq<char>,
    pub name: Option<Seq<char>>,
    pub user_id: Option<Seq<char>>,
    pub host: Seq<char>,
    pub port: u16,
    pub security: Option<Seq<char>>,
    pub encryption: Option<Seq<char>>,
    pub sni: Option<Seq<char>>,
    pub http_host: Option<Seq<char>>,
    pub network: Option<Seq<char>>,
    pub fingerprint: Option<Seq<char>>,
    pub path: Option<Seq<char>>,
    pub mode: Option<Seq<char>>,
    pub allow_insecure: bool,
    pub tls: bool,
}

impl View for XrayShare {
    type V = XrayShareView;

    open spec fn view(&self) -> XrayShareView {
        XrayShareView {
            protocol: self.protocol@,
            name: self.name.deep_view(),
            user_id: self.user_id.deep_view(),
            host: self.host@,
            port: self.port,
            security: self.security.deep_view(),
            encryption: self.encryption.deep_view(),
            sni: self.sni.deep_view(),
            http_host: self.http_host.deep_view(),
            network: self.network.deep_view(),
            fingerprint: self.fingerprint.deep_view(),
            path: self.path.deep_view(),
            mode: self.mode.deep_view(),
            allow_insecure: self.allow_insecure,
            tls: self.tls,
        }
    }
}

/// A host that names this machine: `localhost` in any ASCII case, or an IP address that is
/// a loopback or unspecified address.
pub open spec fn spec_is_local_host(host: Seq<char>) -> bool {
    eq_ascii_nocase(host, "localhost"@) || (spec_parse_ip(host) is Some && (spec_parse_ip(
        host,
    )->0.spec_is_loopback() || spec_parse_ip(host)->0.spec_is_unspecified()))
}

/// Whether a host is `localhost` or a loopback or unspecified IP address.
pub fn is_local_host(host: &str) -> (r: bool)
    ensures
        r == spec_is_local_host(host@),
{
    if eq_ignore_ascii_case(host, "localhost") {
        return true;
    }
    match parse_ip(host) {
        Some(ip) => ip.is_loopback() || ip.is_unspecified(),
        None => false,
    }
}

/// The value of an optional text that is present and not empty.
pub open spec fn non_empty(o: Option<Seq<char>>) -> Option<Seq<char>> {
    match o {
        Some(v) => if v.len() > 0 {
            Some(v)
        } else {
            None
        },
        None => None,
    }
}

impl XrayShareView {
    pub open spec fn label(self) -> Seq<char> {
        match non_empty(self.name) {
            Some(n) => n,
            None => self.host,
        }
    }

    pub open spec fn upstream_host(self) -> Seq<char> {
        if spec_is_local_host(self.host) {
            match self.http_host {
                Some(h) => h,
                None => match self.sni {
                    Some(s) => s,
                    None => self.host,
                },
            }
        } else {
            self.host
        }
    }

    pub open spec fn upstream_port(self) -> u16 {
        if spec_is_local_host(self.host) {
            if self.tls {
                443
            } else {
                80
            }
        } else {
            self.port
        }
    }
}

impl XrayShare {
    /// The share's name when it has a non-empty one, else its host.
    pub fn label(&self) -> (r: String)
        ensures
            r@ == self@.label(),
    {
        match &self.name {
            Some(n) => {
                if n.as_str().is_empty() {
                    self.host.clone()
                } else {
                    n.clone()
                }
            },
            None => self.host.clone(),
        }
    }

    /// Whether the share points at this machine.
    pub fn endpoint_is_local(&self) -> (r: bool)
        ensures
            r == spec_is_local_host(self@.host),
    {
        is_local_host(self.host.as_str())
    }

    /// The real upstream host: for a share that points at this machine, its `host`
    /// parameter, else its `sni`, else its address; otherwise its address.
    pub fn upstream_host(&self) -> (r: &str)
        ensures
            r@ == self@.upstream_host(),
    {
        if self.endpoint_is_local() {
            match &self.http_host {
                Some(h) => h.as_str(),
                None => match &self.sni {
                    Some(s) => s.as_str(),
                    None => self.host.as_str(),
                },
            }
        } else {
            self.host.as_str()
        }
    }

    /// The real upstream port: 443 (TLS) or 80 for a share that points at this machine,
    /// its own port otherwise.
    pub fn upstream_port(&self) -> (r: u16)
        ensures
            r == self@.upstream_port(),
    {
        if self.endpoint_is_local() {
            if self.tls {
                443
            } else {
                80
            }
        } else {
            self.port
        }
    }
}

/// The parts of a parsed URL that a share link uses; query pairs are decoded as
/// `application/x-www-form-urlencoded`.
pub struct UrlParts {
    pub scheme: String,
    pub host: Option<String>,
    pub port: Option<u16>,
    pub username: String,
    pub query: Vec<(String, String)>,
    pub fragment: Option<String>,
}

pub struct UrlPartsView {
    pub scheme: Seq<char>,
    pub host: Option<Seq<char>>,
    pub port: Option<u16>,
    pub username: Seq<char>,
    pub query: Seq<(Seq<char>, Seq<char>)>,
    pub fragment: Option<Seq<char>>,
}

impl View for UrlParts {
    type V = UrlPartsView;

    open spec fn view(&self) -> UrlPartsView {
        UrlPartsView {
            scheme: self.scheme@,
            host: self.host.deep_view(),
            port: self.port,
            username: self.username@,
            query: self.query.deep_view(),
            fragment: self.fragment.deep_view(),
        }
    }
}

/// What `url::Url::parse` reads from a text (`None` where it refuses the text).
pub uninterp spec fn url_parse(input: Seq<char>) -> Option<UrlPartsView>;

/// Parses `input` with `url::Url::parse` and reads its scheme, `host_str`, `port`,
/// `username`, `query_pairs` and `fragment`. Trusted: the result is the named function
/// `url_parse` of the text; which `ParseError` comes back on a refusal is not stated.
#[verifier::external_body]
fn parse_url(input: &str) -> (r: Result<UrlParts, url::ParseError>)
    ensures
        r is Ok <==> url_parse(input@) is Some,
        r matches Ok(p) ==> url_parse(input@) == Some(p@),
{
    let url = url::Url::parse(input)?;
    let query = url.query_pairs().map(|(k, v)| (k.into_owned(), v.into_owned())).collect();
    Ok(UrlParts {
        scheme: url.scheme().to_string(),
        host: url.host_str().map(|h| h.to_string()),
        port: url.port(),
        username: url.username().to_string(),
        query,
        fragment: url.fragment().map(|f| f.to_string()),
    })
}

/// The value of the first query pair with the given key.
pub open spec fn query_value(q: Seq<(Seq<char>, Seq<char>)>, key: Seq<char>) -> Option<Seq<char>>
    decreases q.len(),
{
    if q.len() == 0 {
        None
    } else if q[0].0 == key {
        Some(q[0].1)
    } else {
        query_value(q.drop_first(), key)
    }
}

/// Some pair says `security=tls` (in any ASCII case of the value).
pub open spec fn query_tls(q: Seq<(Seq<char>, Seq<char>)>) -> bool {
    exists|i: int| 0 <= i < q.len() && q[i].0 == "security"@ && eq_ascii_nocase(q[i].1, "tls"@)
}

/// Some pair says `allowInsecure` or `insecure` is `1` or `true`.
pub open spec fn query_insecure(q: Seq<(Seq<char>, Seq<char>)>) -> bool {
    exists|i: int|
        0 <= i < q.len() && (q[i].0 == "allowInsecure"@ || q[i].0 == "insecure"@) && (q[i].1
            == "1"@ || q[i].1 == "true"@)
}

/// The share that a VLESS or Trojan URL describes.
pub open spec fn url_share(p: UrlPartsView) -> XrayShareView {
    let tls = query_tls(p.query);
    XrayShareView {
        protocol: p.scheme.map_values(|c: char| ascii_lower(c)),
        name: match p.fragment {
            Some(f) => non_empty(Some(trim(f))),
            None => None,
        },
        user_id: non_empty(Some(trim(p.username))),
        host: p.host->0,
        port: match p.port {
            Some(port) => port,
            None => if tls {
                443
            } else {
                80
            },
        },
        security: non_empty(query_value(p.query, "security"@)),
        encryption: non_empty(query_value(p.query, "encryption"@)),
        sni: non_empty(query_value(p.query, "sni"@)),
        http_host: non_empty(query_value(p.query, "host"@)),
        network: non_empty(query_value(p.query, "type"@)),
        fingerprint: non_empty(query_value(p.query, "fp"@)),
        path: non_empty(query_value(p.query, "path"@)),
        mode: non_empty(query_value(p.query, "mode"@)),
        allow_insecure: query_insecure(p.query),
        tls,
    }
}

fn find_query(q: &Vec<(String, String)>, key: &str) -> (r: Option<String>)
    ensures
        r.deep_view() == non_empty(query_value(q.deep_view(), key@)),
{
    let mut i: usize = 0;
    assert(q.deep_view().subrange(0, q@.len() as int) =~= q.deep_view());
    while i < q.len()
        invariant
            i <= q@.len(),
            query_value(q.deep_view(), key@) == query_value(
                q.deep_view().subrange(i as int, q@.len() as int),
                key@,
            ),
        decreases q@.len() - i,
    {
        let ghost rest = q.deep_view().subrange(i as int, q@.len() as int);
        assert(rest[0] == q.deep_view()[i as int]);
        assert(rest.drop_first() =~= q.deep_view().subrange(i + 1, q@.len() as int));
        if same_text(q[i].0.as_str(), key) {
            let v = &q[i].1;
            if v.as_str().is_empty() {
                return None;
            }
            return Some(v.clone());
        }
        i = i + 1;
    }
    None
}

fn query_says_tls(q: &Vec<(String, String)>) -> (r: bool)
    ensures
        r == query_tls(q.deep_view()),
{
    let mut i: usize = 0;
    while i < q.len()
        invariant
            i <= q@.len(),
            forall|j: int|
                0 <= j < i ==> !(q.deep_view()[j].0 == "security"@ && eq_ascii_nocase(
                    #[trigger] q.deep_view()[j].1,
                    "tls"@,
                )),
        decreases q@.len() - i,
    {
        assert(q.deep_view()[i as int] == (q@[i as int].0@, q@[i as int].1@));
        if same_text(q[i].0.as_str(), "security") && eq_ignore_ascii_case(q[i].1.as_str(), "tls") {
            return true;
        }
        i = i + 1;
    }
    false
}

fn query_says_insecure(q: &Vec<(String, String)>) -> (r: bool)
    ensures
        r == query_insecure(q.deep_view()),
{
    let mut i: usize = 0;
    while i < q.len()
        invariant
            i <= q@.len(),
            forall|j: int|
                0 <= j < i ==> !((q.deep_view()[j].0 == "allowInsecure"@ || q.deep_view()[j].0
                    == "insecure"@) && (#[trigger] q.deep_view()[j].1 == "1"@ || q.deep_view()[j].1
                    == "true"@)),
        decreases q@.len() - i,
    {
        assert(q.deep_view()[i as int] == (q@[i as int].0@, q@[i as int].1@));
        let k = q[i].0.as_str();
        let v = q[i].1.as_str();
        if (same_text(k, "allowInsecure") || same_text(k, "insecure")) && (same_text(v, "1")
            || same_text(v, "true")) {
            return true;
        }
        i = i + 1;
    }
    false
}

fn non_empty_trimmed(s: &str) -> (r: Option<String>)
    ensures
        r.deep_view() == non_empty(Some(trim(s@))),
{
    let t = trim_str(s);
    if t.as_str().is_empty() {
        None
    } else {
        Some(t)
    }
}

/// The share that a parsed VLESS or Trojan URL describes. The lowercased scheme must be
/// `vless` or `trojan` (else `UnsupportedScheme` with it), and the URL must have a host
/// (else `MissingHost`).
pub fn share_from_url(p: &UrlParts) -> (r: Result<XrayShare, XrayParseError>)
    ensures
        ({
            let proto = p@.scheme.map_values(|c: char| ascii_lower(c));
            if proto != "vless"@ && proto != "trojan"@ {
                r matches Err(XrayParseError::UnsupportedScheme(s)) && s@ == proto
            } else if p@.host is None {
                r matches Err(XrayParseError::MissingHost)
            } else {
                r matches Ok(s) && s@ == url_share(p@)
            }
        }),
{
    let protocol = to_ascii_lowercase(p.scheme.as_str());
    if !same_text(protocol.as_str(), "vless") && !same_text(protocol.as_str(), "trojan") {
        return Err(XrayParseError::UnsupportedScheme(protocol));
    }
    let host = match &p.host {
        Some(h) => h.clone(),
        None => return Err(XrayParseError::MissingHost),
    };
    let tls = query_says_tls(&p.query);
    let port = match p.port {
        Some(port) => port,
        None => if tls {
            443
        } else {
            80
        },
    };
    let name = match &p.fragment {
        Some(f) => non_empty_trimmed(f.as_str()),
        None => None,
    };
    let share = XrayShare {
        protocol,
        name,
        user_id: non_empty_trimmed(p.username.as_str()),
        host,
        port,
        security: find_query(&p.query, "security"),
        encryption: find_query(&p.query, "encryption"),
        sni: find_query(&p.query, "sni"),
        http_host: find_query(&p.query, "host"),
        network: find_query(&p.query, "type"),
        fingerprint: find_query(&p.query, "fp"),
        path: find_query(&p.query, "path"),
        mode: find_query(&p.query, "mode"),
        allow_insecure: query_says_insecure(&p.query),
        tls,
    };
    assert(share@ == url_share(p@));
    Ok(share)
}

/// The outcome of reading a parsed URL as a share.
/// A URL share link allows an insecure TLS certificate exactly when one of its query pairs
/// has the key `allowInsecure` or `insecure` and the value `1` or `true`.
pub proof fn lemma_url_share_allow_insecure(p: UrlPartsView, r: Result<XrayShare, XrayParseError>)
    requires
        url_share_outcome(p, r),
        r is Ok,
    ensures
        r->Ok_0@.allow_insecure <==> exists|i: int|
            0 <= i < p.query.len() && (p.query[i].0 == "allowInsecure"@ || p.query[i].0
                == "insecure"@) && (p.query[i].1 == "1"@ || p.query[i].1 == "true"@),
{
}

pub open spec fn url_share_outcome(p: UrlPartsView, r: Result<XrayShare, XrayParseError>) -> bool {
    let proto = p.scheme.map_values(|c: char| ascii_lower(c));
    if proto != "vless"@ && proto != "trojan"@ {
        r matches Err(XrayParseError::UnsupportedScheme(s)) && s@ == proto
    } else if p.host is None {
        r matches Err(XrayParseError::MissingHost)
    } else {
        r matches Ok(s) && s@ == url_share(p)
    }
}

/// A value of a top-level field of a JSON object, as far as share links read it.
#[derive(Clone, Debug)]
pub enum JsonScalar {
    Text(String),
    Number(Option<u64>, String),
    Other,
}

pub enum JsonScalarView {
    Text(Seq<char>),
    Number(Option<u64>, Seq<char>),
    Other,
}

impl DeepView for JsonScalar {
    type V = JsonScalarView;

    open spec fn deep_view(&self) -> JsonScalarView {
        match self {
            JsonScalar::Text(s) => JsonScalarView::Text(s@),
            JsonScalar::Number(n, t) => JsonScalarView::Number(*n, t@),
            JsonScalar::Other => JsonScalarView::Other,
        }
    }
}

/// What `serde_json::from_slice::<Value>` reads from bytes: `None` where it refuses them;
/// otherwise the fields of the top-level object (a JSON string as `Text`, a number as
/// `Number` with its `as_u64` and its text, anything else as `Other`), or `None` inside
/// when the document is not an object.
pub uninterp spec fn json_object(bytes: Seq<u8>) -> Option<Option<Seq<(Seq<char>, JsonScalarView)>>>;

/// Parses `bytes` with `serde_json::from_slice` into a `Value` and reads the fields of the
/// top-level object. Trusted: the result is the named function `json_object` of the bytes;
/// which `serde_json::Error` comes back is not stated.
#[verifier::external_body]
fn parse_json_object(bytes: &[u8]) -> (r: Result<Option<Vec<(String, JsonScalar)>>, serde_json::Error>)
    ensures
        r is Ok <==> json_object(bytes@) is Some,
        r matches Ok(o) ==> json_object(bytes@) == Some(o.deep_view()),
{
    let value: serde_json::Value = serde_json::from_slice(bytes)?;
    Ok(value.as_object().map(|m| m.iter().map(|(k, v)| (k.clone(), match v {
        serde_json::Value::String(s) => JsonScalar::Text(s.clone()),
        serde_json::Value::Number(n) => JsonScalar::Number(n.as_u64(), n.to_string()),
        _ => JsonScalar::Other,
    })).collect()))
}

/// What the base64 `STANDARD` engine decodes from bytes (`None` where it refuses them).
pub uninterp spec fn base64_standard(input: Seq<u8>) -> Option<Seq<u8>>;

/// What the base64 `URL_SAFE_NO_PAD` engine decodes from bytes (`None` where it refuses
/// them).
pub uninterp spec fn base64_url_safe_no_pad(input: Seq<u8>) -> Option<Seq<u8>>;

/// Decodes with `base64::engine::general_purpose::STANDARD`. Trusted: the result is the
/// named function `base64_standard` of the input.
#[verifier::external_body]
fn decode_standard(input: &[u8]) -> (r: Option<Vec<u8>>)
    ensures
        r.deep_view() == base64_standard(input@),
{
    base64::Engine::decode(&base64::engine::general_purpose::STANDARD, input).ok()
}

/// Decodes with `base64::engine::general_purpose::URL_SAFE_NO_PAD`. Trusted: the result is
/// the named function `base64_url_safe_no_pad` of the input.
#[verifier::external_body]
fn decode_url_safe_no_pad(input: &[u8]) -> (r: Option<Vec<u8>>)
    ensures
        r.deep_view() == base64_url_safe_no_pad(input@),
{
    base64::Engine::decode(&base64::engine::general_purpose::URL_SAFE_NO_PAD, input).ok()
}

/// `s` without line feeds, carriage returns and spaces.
pub open spec fn drop_b64_noise(s: Seq<char>) -> Seq<char>
    decreases s.len(),
{
    if s.len() == 0 {
        s
    } else {
        let r = drop_b64_noise(s.drop_last());
        let c = s.last();
        if c == '\n' || c == '\r' || c == ' ' {
            r
        } else {
            r.push(c)
        }
    }
}

/// A base64 payload trimmed, without line breaks and spaces, and padded with `'='` to a
/// multiple of four bytes.
pub open spec fn spec_pad_base64(input: Seq<char>) -> Seq<char> {
    let t = drop_b64_noise(trim(input));
    let rem = encode_utf8(t).len() % 4;
    t + Seq::new(if rem == 0 { 0 } else { (4 - rem) as nat }, |i: int| '=')
}

/// `input` without line breaks and spaces, padded with `=` to a multiple of four.
pub fn pad_base64(input: &str) -> (r: String)
    ensures
        r@ == spec_pad_base64(input@),
{
    let v = chars_of(input);
    let t = trim_chars(v.as_slice());
    let mut kept: Vec<char> = Vec::new();
    let mut i: usize = 0;
    assert(t@.subrange(0, 0) =~= Seq::<char>::empty());
    while i < t.len()
        invariant
            i <= t@.len(),
            kept@ == drop_b64_noise(t@.subrange(0, i as int)),
        decreases t@.len() - i,
    {
        let c = t[i];
        assert(t@.subrange(0, i + 1).drop_last() =~= t@.subrange(0, i as int));
        if !(c == '\n' || c == '\r' || c == ' ') {
            kept.push(c);
        }
        i = i + 1;
    }
    assert(t@.subrange(0, i as int) =~= t@);
    let mut out = string_of(kept.as_slice());
    let rem = out.as_str().as_bytes().len() % 4;
    let pad: usize = if rem == 0 { 0 } else { 4 - rem };
    let mut k: usize = 0;
    let ghost base = out@;
    while k < pad
        invariant
            k <= pad,
            out@ == base + Seq::new(k as nat, |j: int| '='),
        decreases pad - k,
    {
        push_char(&mut out, '=');
        assert(base + Seq::new((k + 1) as nat, |j: int| '=') =~= (base + Seq::new(k as nat, |j: int| '=')).push('='));
        k = k + 1;
    }
    out
}

proof fn lemma_encode_pad_len(k: nat)
    ensures
        encode_utf8(Seq::new(k, |i: int| '=')).len() == k,
    decreases k,
{
    let s = Seq::new(k, |i: int| '=');
    if k > 0 {
        lemma_encode_pad_len((k - 1) as nat);
        assert(s.drop_first() =~= Seq::new((k - 1) as nat, |i: int| '='));
        assert(s[0] == '=');
        assert(vstd::utf8::encode_scalar('=' as u32).len() == 1);
    }
}

/// A padded base64 payload is a whole number of four-byte quanta.
pub proof fn lemma_padded_base64_quanta(input: Seq<char>)
    ensures
        encode_utf8(spec_pad_base64(input)).len() % 4 == 0,
{
    let t = drop_b64_noise(trim(input));
    let rem = encode_utf8(t).len() % 4;
    let k: nat = if rem == 0 { 0 } else { (4 - rem) as nat };
    crate::text::lemma_encode_utf8_concat(t, Seq::new(k, |i: int| '='));
    lemma_encode_pad_len(k);
}

/// The bytes of a VMess payload: standard base64 of the padded payload, else URL-safe
/// base64 without padding of the payload as given.
pub open spec fn vmess_payload_bytes(payload: Seq<char>) -> Option<Seq<u8>> {
    match base64_standard(encode_utf8(spec_pad_base64(payload))) {
        Some(b) => Some(b),
        None => base64_url_safe_no_pad(encode_utf8(payload)),
    }
}

fn decode_base64(payload: &str) -> (r: Result<Vec<u8>, XrayParseError>)
    ensures
        match vmess_payload_bytes(payload@) {
            Some(b) => r matches Ok(v) && v@ == b,
            None => r matches Err(XrayParseError::Base64),
        },
{
    let padded = pad_base64(payload);
    match decode_standard(padded.as_str().as_bytes()) {
        Some(v) => Ok(v),
        None => match decode_url_safe_no_pad(payload.as_bytes()) {
            Some(v) => Ok(v),
            None => Err(XrayParseError::Base64),
        },
    }
}

/// The value of the first field with the given key.
pub open spec fn json_get(e: Seq<(Seq<char>, JsonScalarView)>, key: Seq<char>) -> Option<JsonScalarView>
    decreases e.len(),
{
    if e.len() == 0 {
        None
    } else if e[0].0 == key {
        Some(e[0].1)
    } else {
        json_get(e.drop_first(), key)
    }
}

/// The text of a field that holds a JSON string.
pub open spec fn json_text(e: Seq<(Seq<char>, JsonScalarView)>, key: Seq<char>) -> Option<Seq<char>> {
    match json_get(e, key) {
        Some(JsonScalarView::Text(s)) => Some(s),
        _ => None,
    }
}

/// The port of a VMess document: its `port` field as a decimal string or as a number no
/// larger than 65535, 443 where the field is absent or of another kind; `Err` holds the
/// text of a port that is neither.
pub open spec fn vmess_port(e: Seq<(Seq<char>, JsonScalarView)>) -> Result<u16, Seq<char>> {
    match json_get(e, "port"@) {
        Some(JsonScalarView::Text(s)) => match spec_parse_unsigned(s, 65535) {
            Ok(v) => Ok(v as u16),
            Err(_) => Err(s),
        },
        Some(JsonScalarView::Number(n, t)) => match n {
            Some(v) => if v <= 65535 {
                Ok(v as u16)
            } else {
                Err(t)
            },
            None => Err(t),
        },
        _ => Ok(443),
    }
}

/// The share that a VMess document describes, with the given port.
pub open spec fn vmess_share(e: Seq<(Seq<char>, JsonScalarView)>, port: u16) -> XrayShareView {
    XrayShareView {
        protocol: "vmess"@,
        name: non_empty(json_text(e, "ps"@)),
        user_id: non_empty(json_text(e, "id"@)),
        host: json_text(e, "add"@)->0,
        port,
        security: non_empty(json_text(e, "tls"@)),
        encryption: None,
        sni: non_empty(json_text(e, "sni"@)),
        http_host: non_empty(json_text(e, "host"@)),
        network: non_empty(json_text(e, "net"@)),
        fingerprint: non_empty(json_text(e, "fp"@)),
        path: non_empty(json_text(e, "path"@)),
        mode: None,
        allow_insecure: false,
        tls: match json_text(e, "tls"@) {
            Some(v) => eq_ascii_nocase(v, "tls"@),
            None => false,
        },
    }
}

/// The outcome of reading a VMess document as a share: its `add` field must hold a string
/// (else `MissingHost`), then its port must be valid (else `InvalidPort`).
pub open spec fn vmess_outcome(
    e: Seq<(Seq<char>, JsonScalarView)>,
    r: Result<XrayShare, XrayParseError>,
) -> bool {
    if json_text(e, "add"@) is None {
        r matches Err(XrayParseError::MissingHost)
    } else {
        match vmess_port(e) {
            Err(t) => r matches Err(XrayParseError::InvalidPort(s)) && s@ == t,
            Ok(port) => r matches Ok(s) && s@ == vmess_share(e, port),
        }
    }
}

/// The fields of a document that may not be an object (none then).
pub open spec fn object_fields(o: Option<Seq<(Seq<char>, JsonScalarView)>>) -> Seq<(Seq<char>, JsonScalarView)> {
    match o {
        Some(e) => e,
        None => Seq::empty(),
    }
}

fn json_lookup<'a>(e: &'a Vec<(String, JsonScalar)>, key: &str) -> (r: Option<&'a JsonScalar>)
    ensures
        match (r, json_get(e.deep_view(), key@)) {
            (Some(v), Some(w)) => v.deep_view() == w,
            (None, None) => true,
            _ => false,
        },
{
    let mut i: usize = 0;
    assert(e.deep_view().subrange(0, e@.len() as int) =~= e.deep_view());
    while i < e.len()
        invariant
            i <= e@.len(),
            json_get(e.deep_view(), key@) == json_get(
                e.deep_view().subrange(i as int, e@.len() as int),
                key@,
            ),
        decreases e@.len() - i,
    {
        let ghost rest = e.deep_view().subrange(i as int, e@.len() as int);
        assert(rest[0] == e.deep_view()[i as int]);
        assert(rest.drop_first() =~= e.deep_view().subrange(i + 1, e@.len() as int));
        if same_text(e[i].0.as_str(), key) {
            return Some(&e[i].1);
        }
        i = i + 1;
    }
    None
}

fn json_string_field(e: &Vec<(String, JsonScalar)>, key: &str) -> (r: Option<String>)
    ensures
        r.deep_view() == json_text(e.deep_view(), key@),
{
    match json_lookup(e, key) {
        Some(JsonScalar::Text(s)) => Some(s.clone()),
        _ => None,
    }
}

fn non_empty_field(e: &Vec<(String, JsonScalar)>, key: &str) -> (r: Option<String>)
    ensures
        r.deep_view() == non_empty(json_text(e.deep_view(), key@)),
{
    match json_string_field(e, key) {
        Some(s) => {
            if s.as_str().is_empty() {
                None
            } else {
                Some(s)
            }
        },
        None => None,
    }
}

/// The share that a VMess document (the fields of its top-level object, if it is one)
/// describes.
pub fn share_from_vmess_json(fields: &Option<Vec<(String, JsonScalar)>>) -> (r: Result<XrayShare, XrayParseError>)
    ensures
        vmess_outcome(object_fields(fields.deep_view()), r),
{
    let empty: Vec<(String, JsonScalar)> = Vec::new();
    let e = match fields {
        Some(e) => e,
        None => &empty,
    };
    assert(e.deep_view() == object_fields(fields.deep_view())) by {
        if fields is None {
            assert(empty.deep_view() =~= Seq::<(Seq<char>, JsonScalarView)>::empty());
        }
    }
    let host = match json_string_field(e, "add") {
        Some(h) => h,
        None => return Err(XrayParseError::MissingHost),
    };
    let port: u16 = match json_lookup(e, "port") {
        Some(JsonScalar::Text(s)) => match parse_unsigned(s.as_str(), 65535) {
            Ok(v) => v as u16,
            Err(_) => return Err(XrayParseError::InvalidPort(s.clone())),
        },
        Some(JsonScalar::Number(n, t)) => match n {
            Some(v) => {
                if *v <= 65535 {
                    *v as u16
                } else {
                    return Err(XrayParseError::InvalidPort(t.clone()));
                }
            },
            None => return Err(XrayParseError::InvalidPort(t.clone())),
        },
        _ => 443,
    };
    let tls = match json_string_field(e, "tls") {
        Some(v) => eq_ignore_ascii_case(v.as_str(), "tls"),
        None => false,
    };
    let share = XrayShare {
        protocol: String::from_str("vmess"),
        name: non_empty_field(e, "ps"),
        user_id: non_empty_field(e, "id"),
        host,
        port,
        security: non_empty_field(e, "tls"),
        encryption: None,
        sni: non_empty_field(e, "sni"),
        http_host: non_empty_field(e, "host"),
        network: non_empty_field(e, "net"),
        fingerprint: non_empty_field(e, "fp"),
        path: non_empty_field(e, "path"),
        mode: None,
        allow_insecure: false,
        tls,
    };
    assert(share@ == vmess_share(e.deep_view(), port));
    Ok(share)
}

/// `s` with every leading copy of `p` removed (`str::trim_start_matches`).
pub open spec fn strip_prefix_all(s: Seq<char>, p: Seq<char>) -> Seq<char>
    decreases s.len(),
{
    if p.len() > 0 && p.len() <= s.len() && s.subrange(0, p.len() as int) == p {
        strip_prefix_all(s.subrange(p.len() as int, s.len() as int), p)
    } else {
        s
    }
}

/// The outcome of reading a share link.
pub open spec fn share_link_outcome(input: Seq<char>, r: Result<XrayShare, XrayParseError>) -> bool {
    let t = trim(input);
    if t.len() == 0 {
        r matches Err(XrayParseError::Empty)
    } else if "vmess://"@.len() <= t.len() && t.subrange(0, "vmess://"@.len() as int) == "vmess://"@ {
        match vmess_payload_bytes(trim(strip_prefix_all(t, "vmess://"@))) {
            None => r matches Err(XrayParseError::Base64),
            Some(b) => match json_object(b) {
                None => r matches Err(XrayParseError::Json(_)),
                Some(o) => vmess_outcome(object_fields(o), r),
            },
        }
    } else {
        match url_parse(t) {
            None => r matches Err(XrayParseError::Url(_)),
            Some(p) => url_share_outcome(p, r),
        }
    }
}

/// Reading a share link is reading its trimmed text: the two admit the same results; and
/// `Empty` comes exactly for a blank link.
pub proof fn lemma_share_link_trim(input: Seq<char>, r: Result<XrayShare, XrayParseError>)
    ensures
        share_link_outcome(input, r) == share_link_outcome(trim(input), r),
        share_link_outcome(input, Err(XrayParseError::Empty)) <==> trim(input).len() == 0,
{
    crate::text::lemma_trim_idempotent(input);
}

fn prefix_at(v: &Vec<char>, i: usize, p: &Vec<char>) -> (r: bool)
    requires
        i <= v@.len(),
    ensures
        r == (p@.len() <= v@.len() - i && v@.subrange(i as int, v@.len() as int).subrange(
            0,
            p@.len() as int,
        ) == p@),
{
    if p.len() > v.len() - i {
        return false;
    }
    let ghost rest = v@.subrange(i as int, v@.len() as int);
    let mut k: usize = 0;
    while k < p.len()
        invariant
            i <= v@.len() <= usize::MAX,
            k <= p@.len() <= v@.len() - i,
            rest == v@.subrange(i as int, v@.len() as int),
            forall|j: int| 0 <= j < k ==> v@[i + j] == p@[j],
        decreases p@.len() - k,
    {
        if v[i + k] != p[k] {
            assert(rest.subrange(0, p@.len() as int)[k as int] != p@[k as int]);
            return false;
        }
        k = k + 1;
    }
    assert(rest.subrange(0, p@.len() as int) =~= p@);
    true
}

fn strip_vmess_prefixes(v: &Vec<char>) -> (r: Vec<char>)
    ensures
        r@ == strip_prefix_all(v@, "vmess://"@),
{
    let p = chars_of("vmess://");
    let mut i: usize = 0;
    let n = v.len();
    assert(v@.subrange(0, v@.len() as int) =~= v@);
    proof {
        reveal_strlit("vmess://");
    }
    let mut more = prefix_at(v, i, &p);
    while more
        invariant
            more == (p@.len() <= v@.len() - i && v@.subrange(i as int, v@.len() as int).subrange(
                0,
                p@.len() as int,
            ) == p@),
            p@ == "vmess://"@,
            p@.len() == 8,
            i <= v@.len() == n,
            strip_prefix_all(v@, "vmess://"@) == strip_prefix_all(
                v@.subrange(i as int, v@.len() as int),
                "vmess://"@,
            ),
        decreases v@.len() - i,
    {
        let ghost rest = v@.subrange(i as int, v@.len() as int);
        assert(rest.subrange(8, rest.len() as int) =~= v@.subrange(i + 8, v@.len() as int));
        i = i + 8;
        more = prefix_at(v, i, &p);
    }
    let mut r: Vec<char> = Vec::new();
    let mut j = i;
    while j < v.len()
        invariant
            i <= j <= v@.len(),
            r@ == v@.subrange(i as int, j as int),
        decreases v@.len() - j,
    {
        r.push(v[j]);
        assert(v@.subrange(i as int, j + 1) =~= v@.subrange(i as int, j as int).push(v@[j as int]));
        j = j + 1;
    }
    r
}

fn parse_vmess(input: &Vec<char>) -> (r: Result<XrayShare, XrayParseError>)
    ensures
        match vmess_payload_bytes(trim(strip_prefix_all(input@, "vmess://"@))) {
            None => r matches Err(XrayParseError::Base64),
            Some(b) => match json_object(b) {
                None => r matches Err(XrayParseError::Json(_)),
                Some(o) => vmess_outcome(object_fields(o), r),
            },
        },
{
    let stripped = strip_vmess_prefixes(input);
    let payload_chars = trim_chars(stripped.as_slice());
    let payload = string_of(payload_chars.as_slice());
    let bytes = match decode_base64(payload.as_str()) {
        Ok(b) => b,
        Err(e) => return Err(e),
    };
    match parse_json_object(bytes.as_slice()) {
        Ok(fields) => share_from_vmess_json(&fields),
        Err(e) => Err(XrayParseError::Json(e)),
    }
}

fn parse_url_style(input: &str) -> (r: Result<XrayShare, XrayParseError>)
    ensures
        match url_parse(input@) {
            None => r matches Err(XrayParseError::Url(_)),
            Some(p) => url_share_outcome(p, r),
        },
{
    match parse_url(input) {
        Ok(p) => share_from_url(&p),
        Err(e) => Err(XrayParseError::Url(e)),
    }
}

/// Reads a share link: `vmess://` followed by base64 JSON, or a `vless://` or
/// `trojan://` URL; surrounding white space is ignored.
pub fn parse_share_link(input: &str) -> (r: Result<XrayShare, XrayParseError>)
    ensures
        share_link_outcome(input@, r),
{
    let v = chars_of(input);
    let t = trim_chars(v.as_slice());
    if t.len() == 0 {
        return Err(XrayParseError::Empty);
    }
    if starts_with(t.as_slice(), "vmess://") {
        parse_vmess(&t)
    } else {
        let text = string_of(t.as_slice());
        parse_url_style(text.as_str())
    }
}

} // verus!
