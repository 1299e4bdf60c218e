use crate::net::{
    parse_ip, parse_socket_addr, spec_ip_text, spec_ipv4_text, spec_ipv6_text, spec_parse_ip,
    spec_parse_socket, IpAddr, SocketAddr, SOCKET_ADDR_ERROR,
};
use crate::text::{
    ascii_upper, chars_of, decimal_string, digits_of, int_error_message, is_white,
    is_whitespace_char, lines_trimmed, parse_unsigned, spec_parse_unsigned, string_of,
    to_ascii_uppercase, trim, trim_chars, trim_str, trimmed_lines, IntErrorKind,
};
use crate::config::{
    config_valid, connects_to_listener, default_listen, default_connect, first_faulty, listener_fault,
    spec_connects_to_listener, validate, Config, ListenerConfig,
};
use crate::error::{config_error_text, ConfigError};
use crate::net::spec_socket_text;
use crate::packet::tls::MAX_SNI_LEN;
use crate::scan::ProbeResult;
use crate::xray::{parse_share_link, share_link_outcome, XrayShare, XrayShareView};
use vstd::utf8::encode_utf8;
use std::collections::VecDeque;
use vstd::prelude::*;
use vstd::string::StringExecFns;

verus! {

broadcast use vstd::string::group_string_axioms;

/// How many log lines the desktop log keeps.
pub const LOG_MAX: usize = 300;

/// The last `n` items of `s` (all of them when there are fewer).
pub open spec fn last_n<T>(s: Seq<T>, n: nat) -> Seq<T> {
    if s.len() <= n {
        s
    } else {
        s.subrange(s.len() - n, s.len() as int)
    }
}

/// `r + 1`, wrapping to 0 after `u64::MAX`.
pub open spec fn next_revision(r: u64) -> u64 {
    if r == u64::MAX {
        0
    } else {
        (r + 1) as u64
    }
}

/// The desktop log: the newest lines (at most `LOG_MAX`), a revision counter that moves
/// on every change, and whether new lines are kept.
pub struct UiLog {
    lines: VecDeque<String>,
    revision: u64,
    enabled: bool,
}

impl UiLog {
    pub closed spec fn spec_lines(&self) -> Seq<Seq<char>> {
        self.lines.deep_view()
    }

    pub closed spec fn spec_revision(&self) -> u64 {
        self.revision
    }

    pub closed spec fn spec_enabled(&self) -> bool {
        self.enabled
    }

    /// The log never holds more than `LOG_MAX` lines.
    pub open spec fn wf(&self) -> bool {
        self.spec_lines().len() <= LOG_MAX
    }

    /// An empty, enabled log at revision 0.
    pub fn new() -> (r: Self)
        ensures
            r.wf(),
            r.spec_lines() == Seq::<Seq<char>>::empty(),
            r.spec_revision() == 0,
            r.spec_enabled(),
    {
        let r = UiLog { lines: VecDeque::new(), revision: 0, enabled: true };
        assert(r.lines.deep_view() =~= Seq::<Seq<char>>::empty());
        r
    }

    fn bump(&mut self)
        ensures
            final(self).revision == next_revision(old(self).revision),
            final(self).lines == old(self).lines,
            final(self).enabled == old(self).enabled,
    {
        if self.revision == u64::MAX {
            self.revision = 0;
        } else {
            self.revision = self.revision + 1;
        }
    }

    /// Drops the oldest lines beyond `LOG_MAX`.
    fn keep_newest(&mut self)
        ensures
            final(self).spec_lines() == last_n(old(self).spec_lines(), LOG_MAX as nat),
            final(self).revision == old(self).revision,
            final(self).enabled == old(self).enabled,
    {
        let ghost start = self.lines.deep_view();
        let ghost cut: int = 0;
        while self.lines.len() > LOG_MAX
            invariant
                0 <= cut <= start.len(),
                self.lines.deep_view() == start.subrange(cut, start.len() as int),
                self.lines@.len() > LOG_MAX ==> cut < start.len() - LOG_MAX,
                self.lines@.len() <= LOG_MAX ==> (cut == 0 || cut == start.len() - LOG_MAX),
                self.revision == old(self).revision,
                self.enabled == old(self).enabled,
            decreases self.lines@.len(),
        {
            let ghost before = self.lines@;
            let ghost before_dv = self.lines.deep_view();
            let _ = self.lines.pop_front();
            proof {
                assert(self.lines@ == before.subrange(1, before.len() as int));
                assert(self.lines.deep_view() =~= before_dv.drop_first());
                assert(before_dv.drop_first() =~= start.subrange(cut + 1, start.len() as int));
                cut = cut + 1;
            }
        }
        assert(self.lines.deep_view() =~= last_n(start, LOG_MAX as nat));
    }

    /// Appends a line when the log is enabled, dropping the oldest lines beyond
    /// `LOG_MAX`, and moves the revision; does nothing when the log is disabled.
    pub fn push(&mut self, line: String)
        requires
            old(self).wf(),
        ensures
            final(self).wf(),
            final(self).spec_enabled() == old(self).spec_enabled(),
            old(self).spec_enabled() ==> final(self).spec_lines() == last_n(
                old(self).spec_lines().push(line@),
                LOG_MAX as nat,
            ),
            old(self).spec_enabled() ==> final(self).spec_revision() == next_revision(
                old(self).spec_revision(),
            ),
            !old(self).spec_enabled() ==> *final(self) == *old(self),
    {
        if !self.enabled {
            return;
        }
        let ghost before = self.lines.deep_view();
        let ghost line_view = line@;
        self.lines.push_back(line);
        assert(self.lines.deep_view() =~= before.push(line_view));
        self.keep_newest();
        self.bump();
    }

    /// The lines, oldest first.
    pub fn snapshot(&self) -> (r: Vec<String>)
        ensures
            r.deep_view() == self.spec_lines(),
    {
        let mut r: Vec<String> = Vec::new();
        let mut i: usize = 0;
        while i < self.lines.len()
            invariant
                i <= self.lines@.len(),
                r.deep_view() == self.lines.deep_view().subrange(0, i as int),
            decreases self.lines@.len() - i,
        {
            let ghost before = r.deep_view();
            r.push(self.lines[i].clone());
            proof {
                assert(r.deep_view() =~= before.push(self.lines@[i as int]@));
                assert(before.push(self.lines@[i as int]@) =~= self.lines.deep_view().subrange(
                    0,
                    i + 1,
                ));
            }
            i = i + 1;
        }
        assert(self.lines.deep_view().subrange(0, i as int) =~= self.lines.deep_view());
        r
    }

    /// Replaces the lines with the newest `LOG_MAX` of `restored` and moves the revision.
    pub fn restore(&mut self, restored: Vec<String>)
        ensures
            final(self).wf(),
            final(self).spec_lines() == last_n(restored.deep_view(), LOG_MAX as nat),
            final(self).spec_revision() == next_revision(old(self).spec_revision()),
            final(self).spec_enabled() == old(self).spec_enabled(),
    {
        let ghost all = restored.deep_view();
        let start: usize = if restored.len() > LOG_MAX { restored.len() - LOG_MAX } else { 0 };
        let mut lines: VecDeque<String> = VecDeque::new();
        let mut i: usize = start;
        assert(all.subrange(start as int, start as int) =~= Seq::<Seq<char>>::empty());
        assert(lines.deep_view() =~= Seq::<Seq<char>>::empty());
        while i < restored.len()
            invariant
                start <= i <= restored@.len(),
                all == restored.deep_view(),
                lines.deep_view() == all.subrange(start as int, i as int),
            decreases restored@.len() - i,
        {
            let ghost before = lines.deep_view();
            lines.push_back(restored[i].clone());
            proof {
                assert(lines.deep_view() =~= before.push(restored@[i as int]@));
                assert(before.push(restored@[i as int]@) =~= all.subrange(start as int, i + 1));
            }
            i = i + 1;
        }
        assert(lines.deep_view() =~= last_n(all, LOG_MAX as nat));
        self.lines = lines;
        self.bump();
    }

    /// Drops every line and moves the revision.
    pub fn clear(&mut self)
        ensures
            final(self).wf(),
            final(self).spec_lines() == Seq::<Seq<char>>::empty(),
            final(self).spec_revision() == next_revision(old(self).spec_revision()),
            final(self).spec_enabled() == old(self).spec_enabled(),
    {
        self.lines.clear();
        assert(self.lines.deep_view() =~= Seq::<Seq<char>>::empty());
        self.bump();
    }

    /// Turns keeping new lines on or off; turning it off also clears the log.
    pub fn set_enabled(&mut self, enabled: bool)
        requires
            old(self).wf(),
        ensures
            final(self).wf(),
            final(self).spec_enabled() == enabled,
            enabled ==> final(self).spec_lines() == old(self).spec_lines()
                && final(self).spec_revision() == old(self).spec_revision(),
            !enabled ==> final(self).spec_lines() == Seq::<Seq<char>>::empty()
                && final(self).spec_revision() == next_revision(old(self).spec_revision()),
    {
        self.enabled = enabled;
        if !enabled {
            self.clear();
        }
    }

    /// The revision counter.
    pub fn revision(&self) -> (r: u64)
        ensures
            r == self.spec_revision(),
    {
        self.revision
    }

    /// Whether new lines are kept.
    pub fn is_enabled(&self) -> (r: bool)
        ensures
            r == self.spec_enabled(),
    {
        self.enabled
    }
}

/// Restoring a snapshot of a log gives back the same lines.
pub proof fn lemma_log_snapshot_restore(log: UiLog)
    requires
        log.wf(),
    ensures
        last_n(log.spec_lines(), LOG_MAX as nat) == log.spec_lines(),
{
}

/// Whether logging starts enabled when the saved state does not say.
pub fn default_true() -> (r: bool)
    ensures
        r,
{
    true
}

/// What the public-IP check knows.
#[derive(Clone, Debug)]
pub enum ConnectionStatus {
    Idle,
    Checking,
    Connected(String),
    Failed(String),
}

pub open spec fn status_text(s: ConnectionStatus) -> Seq<char> {
    match s {
        ConnectionStatus::Idle => "IP: unchecked"@,
        ConnectionStatus::Checking => "IP: checking"@,
        ConnectionStatus::Connected(ip) => "IP: "@ + ip@,
        ConnectionStatus::Failed(e) => "IP check failed: "@ + e@,
    }
}

impl ConnectionStatus {
    /// The short text of the status badge.
    pub fn pill_text(&self) -> (r: String)
        ensures
            *self is Idle ==> r@ == "IP unchecked"@,
            *self is Checking ==> r@ == "Checking IP"@,
            *self matches ConnectionStatus::Connected(ip) ==> r@ == "IP "@ + ip@,
            *self is Failed ==> r@ == "IP check failed"@,
    {
        match self {
            ConnectionStatus::Idle => String::from_str("IP unchecked"),
            ConnectionStatus::Checking => String::from_str("Checking IP"),
            ConnectionStatus::Connected(ip) => String::from_str("IP ").concat(ip.as_str()),
            ConnectionStatus::Failed(_) => String::from_str("IP check failed"),
        }
    }

    /// The status as one line of text.
    pub fn detail(&self) -> (r: String)
        ensures
            r@ == status_text(*self),
    {
        match self {
            ConnectionStatus::Idle => String::from_str("IP: unchecked"),
            ConnectionStatus::Checking => String::from_str("IP: checking"),
            ConnectionStatus::Connected(ip) => String::from_str("IP: ").concat(ip.as_str()),
            ConnectionStatus::Failed(e) => String::from_str("IP check failed: ").concat(e.as_str()),
        }
    }
}

/// The non-blank lines of an import text, trimmed.
pub fn share_lines(text: &str) -> (r: Vec<String>)
    ensures
        r.deep_view() == trimmed_lines(text@, false),
{
    lines_trimmed(text, false)
}

/// Every share line is non-blank and has no surrounding white space.
pub proof fn lemma_share_lines_clean(text: Seq<char>)
    ensures
        forall|i: int|
            0 <= i < trimmed_lines(text, false).len() ==> {
                let e = #[trigger] trimmed_lines(text, false)[i];
                e.len() > 0 && trim(e) == e
            },
{
    crate::text::lemma_kept_lines_clean(crate::text::split_on(text, '\n'), false);
}

/// How many share links an import text holds.
pub fn share_line_count(text: &str) -> (r: usize)
    ensures
        r == trimmed_lines(text@, false).len(),
{
    share_lines(text).len()
}

/// The `selected`-th share link of an import text, if there is one.
pub fn selected_share_line(text: &str, selected: usize) -> (r: Option<String>)
    ensures
        selected < trimmed_lines(text@, false).len() ==> (r matches Some(s) && s@ == trimmed_lines(
            text@,
            false,
        )[selected as int]),
        selected >= trimmed_lines(text@, false).len() ==> r is None,
{
    let lines = share_lines(text);
    if selected < lines.len() {
        assert(lines.deep_view()[selected as int] == lines@[selected as int]@);
        Some(lines[selected].clone())
    } else {
        None
    }
}

/// The selection kept within the list: 0 for an empty list, the last line when it is
/// past the end.
pub fn clamp_selection(count: usize, selected: usize) -> (r: usize)
    ensures
        count == 0 ==> r == 0,
        count > 0 ==> r == (if selected >= count { (count - 1) as usize } else { selected }),
{
    if count == 0 {
        0
    } else if selected >= count {
        count - 1
    } else {
        selected
    }
}

/// `value` when it has at most `max` characters; otherwise its first and last
/// `(max - 3) / 2` characters (`max - 3` taken as 0 when `max < 3`) around `"..."`.
pub open spec fn spec_truncate_middle(value: Seq<char>, max: nat) -> Seq<char> {
    if value.len() <= max {
        value
    } else {
        let keep = (if max >= 3 { (max - 3) as nat } else { 0nat }) / 2;
        value.subrange(0, keep as int) + "..."@ + value.subrange(
            value.len() - keep,
            value.len() as int,
        )
    }
}

/// A shortened value is never longer than the limit (for a limit of three or more), and a
/// value within the limit is kept as it is.
pub proof fn lemma_truncate_middle_fits(value: Seq<char>, max: nat)
    ensures
        value.len() <= max ==> spec_truncate_middle(value, max) == value,
        max >= 3 ==> spec_truncate_middle(value, max).len() <= max,
{
    reveal_strlit("...");
}

/// `value`, or, when longer than `max` characters, its start and end around `"..."`.
pub fn truncate_middle(value: &str, max: usize) -> (r: String)
    ensures
        r@ == spec_truncate_middle(value@, max as nat),
{
    let v = chars_of(value);
    if v.len() <= max {
        return string_of(v.as_slice());
    }
    let keep = (if max >= 3 { max - 3 } else { 0 }) / 2;
    let mut out: Vec<char> = Vec::new();
    let mut i: usize = 0;
    while i < keep
        invariant
            i <= keep < v@.len(),
            out@ == v@.subrange(0, i as int),
        decreases keep - i,
    {
        out.push(v[i]);
        assert(v@.subrange(0, i + 1) =~= v@.subrange(0, i as int).push(v@[i as int]));
        i = i + 1;
    }
    out.push('.');
    out.push('.');
    out.push('.');
    let ghost mid = out@;
    let tail_start: usize = v.len() - keep;
    let mut j: usize = tail_start;
    while j < v.len()
        invariant
            tail_start == v@.len() - keep,
            tail_start <= j <= v@.len(),
            out@ == mid + v@.subrange(tail_start as int, j as int),
        decreases v@.len() - j,
    {
        out.push(v[j]);
        assert(v@.subrange(tail_start as int, j + 1) =~= v@.subrange(tail_start as int, j as int).push(
            v@[j as int],
        ));
        j = j + 1;
    }
    proof {
        reveal_strlit("...");
    }
    assert(out@ =~= spec_truncate_middle(value@, max as nat));
    string_of(out.as_slice())
}

/// The message that `ParseIntError` shows for each kind.
pub open spec fn int_error_text(k: IntErrorKind) -> Seq<char> {
    match k {
        IntErrorKind::Empty => "cannot parse integer from empty string"@,
        IntErrorKind::InvalidDigit => "invalid digit found in string"@,
        IntErrorKind::PosOverflow => "number too large to fit in target type"@,
    }
}

/// `"invalid <name>: <reason>"` for a form field that is not an unsigned integer no
/// larger than `max` (after trimming), else its value.
pub open spec fn spec_parse_field(name: Seq<char>, value: Seq<char>, max: nat) -> Result<nat, Seq<char>> {
    match spec_parse_unsigned(trim(value), max) {
        Ok(v) => Ok(v),
        Err(k) => Err("invalid "@ + name + ": "@ + int_error_text(k)),
    }
}

fn parse_field(name: &str, value: &str, max: u64) -> (r: Result<u64, String>)
    ensures
        r matches Ok(v) ==> v <= max,
        match (r, spec_parse_field(name@, value@, max as nat)) {
            (Ok(a), Ok(b)) => a == b,
            (Err(a), Err(b)) => a@ == b,
            _ => false,
        },
{
    let t = trim_str(value);
    match parse_unsigned(t.as_str(), max) {
        Ok(v) => Ok(v),
        Err(k) => {
            let msg = String::from_str("invalid ").concat(name).concat(": ");
            let reason = int_error_message(k);
            Err(msg.concat(reason.as_str()))
        },
    }
}

/// A form field read as a `u64`.
pub fn parse_u64(name: &str, value: &str) -> (r: Result<u64, String>)
    ensures
        match (r, spec_parse_field(name@, value@, u64::MAX as nat)) {
            (Ok(a), Ok(b)) => a == b,
            (Err(a), Err(b)) => a@ == b,
            _ => false,
        },
{
    parse_field(name, value, u64::MAX)
}

/// A form field read as a `usize`.
pub fn parse_usize(name: &str, value: &str) -> (r: Result<usize, String>)
    ensures
        match (r, spec_parse_field(name@, value@, usize::MAX as nat)) {
            (Ok(a), Ok(b)) => a == b,
            (Err(a), Err(b)) => a@ == b,
            _ => false,
        },
{
    match parse_field(name, value, usize::MAX as u64) {
        Ok(v) => Ok(v as usize),
        Err(e) => Err(e),
    }
}

/// An optional form field: blank (after trimming) gives `None`, otherwise a `u64`.
pub fn parse_optional_u64(name: &str, value: &str) -> (r: Result<Option<u64>, String>)
    ensures
        trim(value@).len() == 0 ==> r == Ok::<Option<u64>, String>(None),
        trim(value@).len() > 0 ==> match (r, spec_parse_field(name@, value@, u64::MAX as nat)) {
            (Ok(Some(a)), Ok(b)) => a == b,
            (Err(a), Err(b)) => a@ == b,
            _ => false,
        },
{
    let t = trim_str(value);
    if t.as_str().is_empty() {
        Ok(None)
    } else {
        match parse_u64(name, value) {
            Ok(v) => Ok(Some(v)),
            Err(e) => Err(e),
        }
    }
}

/// The trimmed text, or `fallback` when it is blank.
pub fn if_empty(value: &str, fallback: &str) -> (r: String)
    ensures
        trim(value@).len() == 0 ==> r@ == fallback@,
        trim(value@).len() > 0 ==> r@ == trim(value@),
{
    let t = trim_str(value);
    if t.as_str().is_empty() {
        String::from_str(fallback)
    } else {
        t
    }
}

/// `"<host>:<port>"`, with the port of `value` when it is a socket address and 40443
/// otherwise.
pub open spec fn spec_replace_socket_host(value: Seq<char>, host: Seq<char>) -> Seq<char> {
    match spec_parse_socket(trim(value)) {
        Some(a) => host + seq![':'] + digits_of(a.spec_port() as nat, 10),
        None => host + ":40443"@,
    }
}

/// `host:port` with the port of the socket address in `value` (40443 when it is none).
pub fn replace_socket_host(value: &str, host: &str) -> (r: String)
    ensures
        r@ == spec_replace_socket_host(value@, host@),
{
    let t = trim_str(value);
    match parse_socket_addr(t.as_str()) {
        Some(a) => {
            let port = decimal_string(a.port() as u64);
            proof {
                reveal_strlit(":");
            }
            String::from_str(host).concat(":").concat(port.as_str())
        },
        None => String::from_str(host).concat(":40443"),
    }
}

/// The address to reach a proxy bound at `addr` from this machine: an unspecified address
/// becomes the loopback address of its family; IPv6 goes in brackets.
pub open spec fn spec_local_check_addr(addr: SocketAddr) -> Seq<char> {
    let port = digits_of(addr.spec_port() as nat, 10);
    match addr.spec_ip() {
        IpAddr::V4(a) => spec_ipv4_text(if a == 0 { 0x7f00_0001u32 } else { a }) + seq![':'] + port,
        IpAddr::V6(a) => seq!['['] + spec_ipv6_text(if a == 0 { 1u128 } else { a }) + "]:"@ + port,
    }
}

/// The address to reach a local proxy at: an unspecified address becomes loopback.
pub fn local_check_addr(addr: SocketAddr) -> (r: String)
    ensures
        r@ == spec_local_check_addr(addr),
{
    let port = decimal_string(addr.port() as u64);
    proof {
        reveal_strlit(":");
        reveal_strlit("[");
    }
    match addr.ip() {
        IpAddr::V4(a) => {
            let ip = IpAddr::V4(if a == 0 { 0x7f00_0001u32 } else { a });
            ip.to_text().concat(":").concat(port.as_str())
        },
        IpAddr::V6(a) => {
            let ip = IpAddr::V6(if a == 0 { 1u128 } else { a });
            let text = ip.to_text();
            String::from_str("[").concat(text.as_str()).concat("]:").concat(port.as_str())
        },
    }
}

/// An optional socket address field: blank (after trimming) gives `None`; otherwise the
/// address, or `"invalid <label> address: invalid socket address syntax"`.
pub open spec fn spec_parse_optional_socket(label: Seq<char>, value: Seq<char>) -> Result<Option<SocketAddr>, Seq<char>> {
    let t = trim(value);
    if t.len() == 0 {
        Ok(None)
    } else {
        match spec_parse_socket(t) {
            Some(a) => Ok(Some(a)),
            None => Err("invalid "@ + label + " address: "@ + SOCKET_ADDR_ERROR@),
        }
    }
}

/// An optional socket address field: empty is `None`; anything else must parse.
pub fn parse_optional_socket(label: &str, value: &str) -> (r: Result<Option<SocketAddr>, String>)
    ensures
        match (r, spec_parse_optional_socket(label@, value@)) {
            (Ok(a), Ok(b)) => a == b,
            (Err(a), Err(b)) => a@ == b,
            _ => false,
        },
{
    let t = trim_str(value);
    if t.as_str().is_empty() {
        return Ok(None);
    }
    match parse_socket_addr(t.as_str()) {
        Some(a) => Ok(Some(a)),
        None => Err(
            String::from_str("invalid ").concat(label).concat(" address: ").concat(
                SOCKET_ADDR_ERROR,
            ),
        ),
    }
}

/// The proxy URL for the public-IP check: the HTTP proxy when one is set, else the SOCKS5
/// proxy; an invalid address is refused with its message.
pub open spec fn spec_connection_check_proxy_url(http: Seq<char>, socks: Seq<char>) -> Result<Seq<char>, Seq<char>> {
    match spec_parse_optional_socket("Xray HTTP/HTTPS proxy"@, http) {
        Err(e) => Err(e),
        Ok(Some(a)) => Ok("http://"@ + spec_local_check_addr(a)),
        Ok(None) => match spec_parse_optional_socket("Xray SOCKS5 proxy"@, socks) {
            Err(e) => Err(e),
            Ok(Some(a)) => Ok("socks5h://"@ + spec_local_check_addr(a)),
            Ok(None) => Err("enable an Xray HTTP/HTTPS or SOCKS5 proxy before checking IP"@),
        },
    }
}

/// The proxy URL for the connection check: the HTTP proxy if set, else the SOCKS5 one.
pub fn connection_check_proxy_url(http_listen: &str, socks_listen: &str) -> (r: Result<String, String>)
    ensures
        match (r, spec_connection_check_proxy_url(http_listen@, socks_listen@)) {
            (Ok(a), Ok(b)) => a@ == b,
            (Err(a), Err(b)) => a@ == b,
            _ => false,
        },
{
    match parse_optional_socket("Xray HTTP/HTTPS proxy", http_listen) {
        Err(e) => return Err(e),
        Ok(Some(a)) => {
            let addr = local_check_addr(a);
            return Ok(String::from_str("http://").concat(addr.as_str()));
        },
        Ok(None) => {},
    }
    match parse_optional_socket("Xray SOCKS5 proxy", socks_listen) {
        Err(e) => Err(e),
        Ok(Some(a)) => {
            let addr = local_check_addr(a);
            Ok(String::from_str("socks5h://").concat(addr.as_str()))
        },
        Ok(None) => Err(
            String::from_str("enable an Xray HTTP/HTTPS or SOCKS5 proxy before checking IP"),
        ),
    }
}

/// The first successful attempt.
pub open spec fn first_ok(a: Seq<Result<Seq<char>, Seq<char>>>) -> Option<Seq<char>>
    decreases a.len(),
{
    if a.len() == 0 {
        None
    } else {
        match a[0] {
            Ok(v) => Some(v),
            Err(_) => first_ok(a.drop_first()),
        }
    }
}

/// The public IP from the endpoints tried in order: the first answer; else the error of
/// the last attempt, or a note that there was nothing to try when that error is empty.
pub open spec fn spec_public_ip(a: Seq<Result<Seq<char>, Seq<char>>>) -> Result<Seq<char>, Seq<char>> {
    match first_ok(a) {
        Some(v) => Ok(v),
        None => {
            let last = if a.len() == 0 {
                Seq::empty()
            } else {
                match a.last() {
                    Err(e) => e,
                    Ok(_) => Seq::empty(),
                }
            };
            if last.len() == 0 {
                Err("no IP endpoints were configured"@)
            } else {
                Err(last)
            }
        },
    }
}

pub open spec fn attempts_view(a: Seq<Result<String, String>>) -> Seq<Result<Seq<char>, Seq<char>>> {
    a.map_values(
        |r: Result<String, String>|
            match r {
                Ok(v) => Ok(v@),
                Err(e) => Err(e@),
            },
    )
}

/// Folds the answers of the public-IP endpoints, tried in order.
pub fn public_ip_from_attempts(attempts: &Vec<Result<String, String>>) -> (r: Result<String, String>)
    ensures
        match (r, spec_public_ip(attempts_view(attempts@))) {
            (Ok(a), Ok(b)) => a@ == b,
            (Err(a), Err(b)) => a@ == b,
            _ => false,
        },
{
    let ghost av = attempts_view(attempts@);
    let mut last_error = String::new();
    let mut i: usize = 0;
    assert(av.subrange(0, av.len() as int) =~= av);
    while i < attempts.len()
        invariant
            i <= attempts@.len(),
            av == attempts_view(attempts@),
            first_ok(av) == first_ok(av.subrange(i as int, av.len() as int)),
            i == 0 ==> last_error@.len() == 0,
            i > 0 ==> (av[i - 1] matches Err(e) && last_error@ == e),
        decreases attempts@.len() - i,
    {
        let ghost rest = av.subrange(i as int, av.len() as int);
        assert(rest.drop_first() =~= av.subrange(i + 1, av.len() as int));
        assert(rest[0] == av[i as int]);
        match &attempts[i] {
            Ok(v) => {
                return Ok(v.clone());
            },
            Err(e) => {
                last_error = e.clone();
            },
        }
        i = i + 1;
    }
    assert(av.subrange(i as int, av.len() as int).len() == 0);
    if last_error.as_str().is_empty() {
        Err(String::from_str("no IP endpoints were configured"))
    } else {
        Err(last_error)
    }
}

/// The leading run of non-white characters.
pub open spec fn leading_word(t: Seq<char>) -> Seq<char>
    decreases t.len(),
{
    if t.len() == 0 || is_white(t[0]) {
        Seq::empty()
    } else {
        seq![t[0]] + leading_word(t.drop_first())
    }
}

/// The answer of an IP-echo endpoint: its first word (of the trimmed body) must be an IP
/// address, which is given back in its normal text; otherwise
/// `"<endpoint> returned unexpected response: <body>"` with the trimmed body.
pub open spec fn spec_ip_from_response(endpoint: Seq<char>, body: Seq<char>) -> Result<Seq<char>, Seq<char>> {
    let b = trim(body);
    match spec_parse_ip(leading_word(b)) {
        Some(ip) => Ok(spec_ip_text(ip)),
        None => Err(endpoint + " returned unexpected response: "@ + b),
    }
}

/// The public IP from a lookup service's reply: its first word, which must be an IP.
pub fn ip_from_response(endpoint: &str, body: &str) -> (r: Result<String, String>)
    ensures
        match (r, spec_ip_from_response(endpoint@, body@)) {
            (Ok(a), Ok(b)) => a@ == b,
            (Err(a), Err(b)) => a@ == b,
            _ => false,
        },
{
    let v = chars_of(body);
    let b = trim_chars(v.as_slice());
    let mut word: Vec<char> = Vec::new();
    let mut i: usize = 0;
    assert(b@.subrange(0, b@.len() as int) =~= b@);
    while i < b.len() && !is_whitespace_char(b[i])
        invariant
            i <= b@.len(),
            word@ == b@.subrange(0, i as int),
            leading_word(b@) == word@ + leading_word(b@.subrange(i as int, b@.len() as int)),
        decreases b@.len() - i,
    {
        let ghost rest = b@.subrange(i as int, b@.len() as int);
        assert(rest.drop_first() =~= b@.subrange(i + 1, b@.len() as int));
        word.push(b[i]);
        assert(b@.subrange(0, i + 1) =~= b@.subrange(0, i as int).push(b@[i as int]));
        assert(word@ + leading_word(b@.subrange(i + 1, b@.len() as int)) =~= (word@.drop_last()
            + (seq![b@[i as int]] + leading_word(rest.drop_first()))));
        i = i + 1;
    }
    proof {
        let rest = b@.subrange(i as int, b@.len() as int);
        assert(leading_word(rest) == Seq::<char>::empty());
        assert(leading_word(b@) =~= word@);
    }
    let w = string_of(word.as_slice());
    match parse_ip(w.as_str()) {
        Some(ip) => Ok(ip.to_text()),
        None => {
            let bs = string_of(b.as_slice());
            Err(String::from_str(endpoint).concat(" returned unexpected response: ").concat(bs.as_str()))
        },
    }
}

/// The line that names a share in the import list: its position (from 1), its protocol
/// in capitals and its label.
pub open spec fn share_label_text(index: usize, s: XrayShareView) -> Seq<char> {
    digits_of((index + 1) as nat, 10) + ". "@ + s.protocol.map_values(|c: char| ascii_upper(c))
        + seq![' '] + s.label()
}

/// The line for an import line that is not a share link: its position and the line
/// shortened to 44 characters.
pub open spec fn raw_label_text(index: usize, line: Seq<char>) -> Seq<char> {
    digits_of((index + 1) as nat, 10) + ". "@ + spec_truncate_middle(line, 44)
}

/// The numbered label of a share line in the import list.
pub fn share_label(index: usize, line: &str) -> (r: String)
    requires
        index < usize::MAX,
    ensures
        forall|s: XrayShare| share_link_outcome(line@, Ok(s)) ==> r@ == share_label_text(index, s@),
        (forall|s: XrayShare| !share_link_outcome(line@, Ok(s))) ==> r@ == raw_label_text(
            index,
            line@,
        ),
{
    let number = decimal_string((index + 1) as u64);
    let head = number.concat(". ");
    match parse_share_link(line) {
        Ok(share) => {
            let proto = to_ascii_uppercase(share.protocol.as_str());
            let label = share.label();
            proof {
                reveal_strlit(" ");
            }
            head.concat(proto.as_str()).concat(" ").concat(label.as_str())
        },
        Err(e) => {
            let short = truncate_middle(line, 44);
            head.concat(short.as_str())
        },
    }
}

/// The text fields of the proxy form.
#[derive(Clone, Debug)]
pub struct FormState {
    pub listen: String,
    pub connect: String,
    pub fake_sni: String,
    pub conn_timeout_sec: String,
    pub handshake_timeout_sec: String,
    pub keepalive_time_sec: String,
    pub keepalive_interval_sec: String,
    pub idle_timeout: String,
    pub buffer_size: String,
    pub graceful_shutdown_sec: String,
}

/// The form shows a listener's fields.
pub open spec fn form_shows_listener(f: FormState, l: ListenerConfig) -> bool {
    &&& f.listen@ == spec_socket_text(l.listen)
    &&& f.connect@ == spec_socket_text(l.connect)
    &&& f.fake_sni@ == l.fake_sni@
    &&& f.conn_timeout_sec@ == digits_of(l.conn_timeout_sec as nat, 10)
    &&& f.handshake_timeout_sec@ == digits_of(l.handshake_timeout_sec as nat, 10)
    &&& f.keepalive_time_sec@ == digits_of(l.keepalive_time_sec as nat, 10)
    &&& f.keepalive_interval_sec@ == digits_of(l.keepalive_interval_sec as nat, 10)
}

/// The form shows a configuration's shared settings.
pub open spec fn form_shows_settings(f: FormState, cfg: Config) -> bool {
    &&& f.idle_timeout@ == (match cfg.idle_timeout {
        Some(v) => digits_of(v as nat, 10),
        None => Seq::empty(),
    })
    &&& f.buffer_size@ == digits_of(cfg.buffer_size as nat, 10)
    &&& f.graceful_shutdown_sec@ == digits_of(cfg.graceful_shutdown_sec as nat, 10)
}

/// The first error of reading the listener fields of the form, in the order of the fields.
#[verifier::opaque]
pub open spec fn form_listener_error(f: FormState) -> Option<Seq<char>> {
    let m = u64::MAX as nat;
    if spec_parse_socket(trim(f.listen@)) is None {
        Some("invalid "@ + "listen"@ + " address: "@ + SOCKET_ADDR_ERROR@)
    } else if spec_parse_socket(trim(f.connect@)) is None {
        Some("invalid "@ + "connect"@ + " address: "@ + SOCKET_ADDR_ERROR@)
    } else if spec_parse_field("conn_timeout_sec"@, f.conn_timeout_sec@, m) is Err {
        Some(err_text(spec_parse_field("conn_timeout_sec"@, f.conn_timeout_sec@, m)))
    } else if spec_parse_field("handshake_timeout_sec"@, f.handshake_timeout_sec@, m) is Err {
        Some(err_text(spec_parse_field("handshake_timeout_sec"@, f.handshake_timeout_sec@, m)))
    } else if spec_parse_field("keepalive_time_sec"@, f.keepalive_time_sec@, m) is Err {
        Some(err_text(spec_parse_field("keepalive_time_sec"@, f.keepalive_time_sec@, m)))
    } else if spec_parse_field("keepalive_interval_sec"@, f.keepalive_interval_sec@, m) is Err {
        Some(err_text(spec_parse_field("keepalive_interval_sec"@, f.keepalive_interval_sec@, m)))
    } else {
        None
    }
}

/// The first error of reading the shared fields of the form, in the order of the fields.
#[verifier::opaque]
pub open spec fn form_shared_error(f: FormState) -> Option<Seq<char>> {
    let m = u64::MAX as nat;
    if trim(f.idle_timeout@).len() > 0 && spec_parse_field("idle_timeout"@, f.idle_timeout@, m) is Err {
        Some(err_text(spec_parse_field("idle_timeout"@, f.idle_timeout@, m)))
    } else if spec_parse_field("buffer_size"@, f.buffer_size@, usize::MAX as nat) is Err {
        Some(err_text(spec_parse_field("buffer_size"@, f.buffer_size@, usize::MAX as nat)))
    } else if spec_parse_field("graceful_shutdown_sec"@, f.graceful_shutdown_sec@, m) is Err {
        Some(err_text(spec_parse_field("graceful_shutdown_sec"@, f.graceful_shutdown_sec@, m)))
    } else {
        None
    }
}

/// The first error of reading the form's fields, in the order of the fields.
pub open spec fn form_field_error(f: FormState) -> Option<Seq<char>> {
    if form_listener_error(f) is Some {
        form_listener_error(f)
    } else {
        form_shared_error(f)
    }
}

/// The listener that the form describes.
pub open spec fn form_listener_is(f: FormState, l: ListenerConfig) -> bool {
    let m = u64::MAX as nat;
    &&& l.listen == spec_parse_socket(trim(f.listen@))->0
    &&& l.connect == spec_parse_socket(trim(f.connect@))->0
    &&& l.fake_sni@ == trim(f.fake_sni@)
    &&& l.conn_timeout_sec == ok_value(spec_parse_field("conn_timeout_sec"@, f.conn_timeout_sec@, m))
    &&& l.handshake_timeout_sec == ok_value(spec_parse_field("handshake_timeout_sec"@, f.handshake_timeout_sec@, m))
    &&& l.keepalive_time_sec == ok_value(spec_parse_field("keepalive_time_sec"@, f.keepalive_time_sec@, m))
    &&& l.keepalive_interval_sec == ok_value(spec_parse_field("keepalive_interval_sec"@, f.keepalive_interval_sec@, m))
}

pub open spec fn err_text<T>(r: Result<T, Seq<char>>) -> Seq<char> {
    match r {
        Ok(_) => Seq::empty(),
        Err(e) => e,
    }
}

pub open spec fn ok_value(r: Result<nat, Seq<char>>) -> nat {
    match r {
        Ok(v) => v,
        Err(_) => 0,
    }
}

/// What the check of a one-listener configuration read from the form refuses, as text.
pub open spec fn form_check_error(f: FormState) -> Option<Seq<char>> {
    let listen = spec_parse_socket(trim(f.listen@))->0;
    let connect = spec_parse_socket(trim(f.connect@))->0;
    let sni = trim(f.fake_sni@);
    if encode_utf8(sni).len() > MAX_SNI_LEN {
        Some("fake_sni too long (max 219 bytes): '"@ + sni + "'"@)
    } else if spec_connects_to_listener(listen, connect) {
        Some("listener connects back to itself: "@ + spec_socket_text(listen) + " -> "@
            + spec_socket_text(connect))
    } else {
        None
    }
}

/// The configuration read from the form, with its one listener.
pub open spec fn form_config_is(f: FormState, cfg: Config) -> bool {
    let m = u64::MAX as nat;
    &&& cfg.listeners@.len() == 1
    &&& form_listener_is(f, cfg.listeners@[0])
    &&& cfg.idle_timeout == (if trim(f.idle_timeout@).len() == 0 {
        None
    } else {
        Some(ok_value(spec_parse_field("idle_timeout"@, f.idle_timeout@, m)) as u64)
    })
    &&& cfg.buffer_size == ok_value(spec_parse_field("buffer_size"@, f.buffer_size@, usize::MAX as nat))
    &&& cfg.graceful_shutdown_sec == ok_value(spec_parse_field("graceful_shutdown_sec"@, f.graceful_shutdown_sec@, m))
}

fn socket_field(value: &str, what: &str) -> (r: Result<SocketAddr, String>)
    ensures
        match spec_parse_socket(trim(value@)) {
            Some(a) => r == Ok::<SocketAddr, String>(a),
            None => r matches Err(e) && e@ == "invalid "@ + what@ + " address: "@ + SOCKET_ADDR_ERROR@,
        },
{
    let t = trim_str(value);
    match parse_socket_addr(t.as_str()) {
        Some(a) => Ok(a),
        None => Err(
            String::from_str("invalid ").concat(what).concat(" address: ").concat(
                SOCKET_ADDR_ERROR,
            ),
        ),
    }
}

impl FormState {
    /// The form for a configuration: its first listener (or the default listener when it
    /// has none) and its shared settings, as text.
    pub fn from_config(cfg: &Config) -> (f: Self)
        ensures
            cfg.listeners@.len() > 0 ==> form_shows_listener(f, cfg.listeners@[0]),
            cfg.listeners@.len() == 0 ==> f.listen@ == spec_socket_text(default_listen())
                && f.connect@ == spec_socket_text(default_connect()) && f.fake_sni@
                == "security.vercel.com"@ && f.conn_timeout_sec@ == digits_of(5, 10)
                && f.handshake_timeout_sec@ == digits_of(2, 10) && f.keepalive_time_sec@
                == digits_of(11, 10) && f.keepalive_interval_sec@ == digits_of(2, 10),
            form_shows_settings(f, *cfg),
    {
        let fallback = ListenerConfig::default();
        let l: &ListenerConfig = if cfg.listeners.len() > 0 {
            &cfg.listeners[0]
        } else {
            &fallback
        };
        FormState {
            listen: l.listen.to_text(),
            connect: l.connect.to_text(),
            fake_sni: l.fake_sni.clone(),
            conn_timeout_sec: decimal_string(l.conn_timeout_sec),
            handshake_timeout_sec: decimal_string(l.handshake_timeout_sec),
            keepalive_time_sec: decimal_string(l.keepalive_time_sec),
            keepalive_interval_sec: decimal_string(l.keepalive_interval_sec),
            idle_timeout: match cfg.idle_timeout {
                Some(v) => decimal_string(v),
                None => String::new(),
            },
            buffer_size: decimal_string(cfg.buffer_size as u64),
            graceful_shutdown_sec: decimal_string(cfg.graceful_shutdown_sec),
        }
    }

    fn listener_from_form(&self) -> (r: Result<ListenerConfig, String>)
        ensures
            form_listener_error(*self) matches Some(e) ==> (r matches Err(m) && m@ == e),
            form_listener_error(*self) is None ==> (r matches Ok(l) && form_listener_is(*self, l)),
    {
        reveal(form_listener_error);
        let listen = match socket_field(self.listen.as_str(), "listen") {
            Ok(a) => a,
            Err(e) => return Err(e),
        };
        let connect = match socket_field(self.connect.as_str(), "connect") {
            Ok(a) => a,
            Err(e) => return Err(e),
        };
        let fake_sni = trim_str(self.fake_sni.as_str());
        let conn_timeout_sec = match parse_u64("conn_timeout_sec", self.conn_timeout_sec.as_str()) {
            Ok(v) => v,
            Err(e) => return Err(e),
        };
        let handshake_timeout_sec = match parse_u64(
            "handshake_timeout_sec",
            self.handshake_timeout_sec.as_str(),
        ) {
            Ok(v) => v,
            Err(e) => return Err(e),
        };
        let keepalive_time_sec = match parse_u64("keepalive_time_sec", self.keepalive_time_sec.as_str()) {
            Ok(v) => v,
            Err(e) => return Err(e),
        };
        let keepalive_interval_sec = match parse_u64(
            "keepalive_interval_sec",
            self.keepalive_interval_sec.as_str(),
        ) {
            Ok(v) => v,
            Err(e) => return Err(e),
        };
        Ok(ListenerConfig {
            listen,
            connect,
            fake_sni,
            conn_timeout_sec,
            handshake_timeout_sec,
            keepalive_time_sec,
            keepalive_interval_sec,
        })
    }

    fn shared_from_form(&self) -> (r: Result<(Option<u64>, usize, u64), String>)
        ensures
            form_shared_error(*self) matches Some(e) ==> (r matches Err(m) && m@ == e),
            form_shared_error(*self) is None ==> (r matches Ok(v) && v.0 == (if trim(
                self.idle_timeout@,
            ).len() == 0 {
                None
            } else {
                Some(ok_value(spec_parse_field("idle_timeout"@, self.idle_timeout@, u64::MAX as nat)) as u64)
            }) && v.1 == ok_value(spec_parse_field("buffer_size"@, self.buffer_size@, usize::MAX as nat))
                && v.2 == ok_value(spec_parse_field("graceful_shutdown_sec"@, self.graceful_shutdown_sec@, u64::MAX as nat))),
    {
        reveal(form_shared_error);
        let idle_timeout = match parse_optional_u64("idle_timeout", self.idle_timeout.as_str()) {
            Ok(v) => v,
            Err(e) => return Err(e),
        };
        let buffer_size = match parse_usize("buffer_size", self.buffer_size.as_str()) {
            Ok(v) => v,
            Err(e) => return Err(e),
        };
        let graceful_shutdown_sec = match parse_u64(
            "graceful_shutdown_sec",
            self.graceful_shutdown_sec.as_str(),
        ) {
            Ok(v) => v,
            Err(e) => return Err(e),
        };
        Ok((idle_timeout, buffer_size, graceful_shutdown_sec))
    }

    /// The configuration that the form describes, checked; the first faulty field, or the
    /// check's message, is the error.
    #[verifier::spinoff_prover]
    pub fn to_config(&self) -> (r: Result<Config, String>)
        ensures
            form_field_error(*self) matches Some(e) ==> (r matches Err(m) && m@ == e),
            form_field_error(*self) is None ==> match form_check_error(*self) {
                Some(e) => r matches Err(m) && m@ == e,
                None => r matches Ok(cfg) && form_config_is(*self, cfg),
            },
    {
        let listener = match self.listener_from_form() {
            Ok(l) => l,
            Err(e) => return Err(e),
        };
        let (idle_timeout, buffer_size, graceful_shutdown_sec) = match self.shared_from_form() {
            Ok(v) => v,
            Err(e) => return Err(e),
        };
        let mut listeners: Vec<ListenerConfig> = Vec::new();
        listeners.push(listener);
        let cfg = Config { idle_timeout, buffer_size, listeners, graceful_shutdown_sec };
        let ghost l = cfg.listeners@[0];
        assert(form_listener_is(*self, l));
        let checked = validate(&cfg);
        proof {
            assert(cfg.listeners@.len() == 1);
            assert forall|i: int| first_faulty(cfg.listeners@, i) implies i == 0 by {}
        }
        match checked {
            Ok(()) => {
                assert(!listener_fault(l));
                Ok(cfg)
            },
            Err(e) => {
                proof {
                    reveal_strlit("'");
                    reveal_strlit(" -> ");
                    assert(listener_fault(l));
                }
                let m = e.message();
                assert(m@ == config_error_text(e));
                Err(m)
            },
        }
    }

    /// Refuses a form whose listener would connect back to itself.
    pub fn ensure_no_proxy_loop(&self) -> (r: Result<(), String>)
        ensures
            spec_parse_socket(trim(self.listen@)) is None ==> (r matches Err(m) && m@
                == "invalid "@ + "listen"@ + " address: "@ + SOCKET_ADDR_ERROR@),
            spec_parse_socket(trim(self.listen@)) is Some && spec_parse_socket(trim(self.connect@)) is None
                ==> (r matches Err(m) && m@ == "invalid "@ + "connect"@ + " address: "@ + SOCKET_ADDR_ERROR@),
            (spec_parse_socket(trim(self.listen@)) is Some && spec_parse_socket(trim(self.connect@)) is Some)
                ==> ({
                let l = spec_parse_socket(trim(self.listen@))->0;
                let c = spec_parse_socket(trim(self.connect@))->0;
                if spec_connects_to_listener(l, c) {
                r matches Err(m) && m@ == "Refusing proxy loop: listen "@ + spec_socket_text(l)
                    + " connects to "@ + spec_socket_text(c)
            } else {
                r is Ok
            }}),
    {
        let listen = match socket_field(self.listen.as_str(), "listen") {
            Ok(a) => a,
            Err(e) => return Err(e),
        };
        let connect = match socket_field(self.connect.as_str(), "connect") {
            Ok(a) => a,
            Err(e) => return Err(e),
        };
        if connects_to_listener(listen, connect) {
            let l = listen.to_text();
            let c = connect.to_text();
            Err(
                String::from_str("Refusing proxy loop: listen ").concat(l.as_str()).concat(
                    " connects to ",
                ).concat(c.as_str()),
            )
        } else {
            Ok(())
        }
    }
}

/// The first IPv4 address of a list.
pub open spec fn first_v4(addrs: Seq<SocketAddr>) -> Option<SocketAddr>
    decreases addrs.len(),
{
    if addrs.len() == 0 {
        None
    } else if addrs[0] is V4 {
        Some(addrs[0])
    } else {
        first_v4(addrs.drop_first())
    }
}

/// The address to use among the resolved addresses of an upstream: the first IPv4 one,
/// else the first one.
pub open spec fn spec_choose_upstream(addrs: Seq<SocketAddr>) -> Option<SocketAddr> {
    if addrs.len() == 0 {
        None
    } else if first_v4(addrs) is Some {
        first_v4(addrs)
    } else {
        Some(addrs[0])
    }
}

/// The resolved address to use: the first IPv4 one, else the first one.
pub fn choose_upstream(addrs: &Vec<SocketAddr>) -> (r: Option<SocketAddr>)
    ensures
        r == spec_choose_upstream(addrs@),
{
    if addrs.len() == 0 {
        return None;
    }
    let mut i: usize = 0;
    assert(addrs@.subrange(0, addrs@.len() as int) =~= addrs@);
    while i < addrs.len()
        invariant
            0 < addrs@.len(),
            i <= addrs@.len(),
            first_v4(addrs@) == first_v4(addrs@.subrange(i as int, addrs@.len() as int)),
        decreases addrs@.len() - i,
    {
        let ghost rest = addrs@.subrange(i as int, addrs@.len() as int);
        assert(rest.drop_first() =~= addrs@.subrange(i + 1, addrs@.len() as int));
        if addrs[i].is_ipv4() {
            return Some(addrs[i]);
        }
        i = i + 1;
    }
    Some(addrs[0])
}

/// What an import sets in the form.
pub struct ImportPlan {
    pub connect: String,
    pub fake_sni: String,
    pub status: String,
}

/// The decision of importing a share whose upstream resolved to `selected`.
pub open spec fn import_outcome(
    share: XrayShareView,
    selected: SocketAddr,
    listen: Seq<char>,
    fake_sni: Seq<char>,
    r: Result<ImportPlan, String>,
) -> bool {
    if selected.spec_ip().spec_is_loopback() || selected.spec_ip().spec_is_unspecified() {
        r matches Err(m) && m@ == "Could not infer a remote upstream from "@ + share.host
            + ". Add a real host/sni or paste the original remote link."@
    } else if spec_parse_socket(trim(listen)) is None {
        r matches Err(m) && m@ == "Invalid listen address: "@ + SOCKET_ADDR_ERROR@
    } else if spec_connects_to_listener(spec_parse_socket(trim(listen))->0, selected) {
        r matches Err(m) && m@ == "Refusing proxy loop: listen "@ + spec_socket_text(
            spec_parse_socket(trim(listen))->0,
        ) + " would connect to "@ + spec_socket_text(selected)
    } else {
        r matches Ok(p) && p.connect@ == spec_socket_text(selected) && p.fake_sni@ == (if trim(
            fake_sni,
        ).len() == 0 {
            "security.vercel.com"@
        } else {
            fake_sni
        }) && p.status@ == "Imported "@ + share.protocol + seq![' '] + share.label() + " via "@
            + share.upstream_host() + " -> "@ + spec_socket_text(selected)
    }
}

/// Decides an import: the upstream must not be this machine, the form's listen address
/// must be valid and must not be reached by the upstream; the form gets the upstream as
/// its connect address and a default fake SNI when it has none.
#[verifier::spinoff_prover]
#[verifier::rlimit(40)]
pub fn plan_import(share: &XrayShare, selected: SocketAddr, listen: &str, fake_sni: &str) -> (r: Result<ImportPlan, String>)
    ensures
        import_outcome(share@, selected, listen@, fake_sni@, r),
{
    let ip = selected.ip();
    if ip.is_loopback() || ip.is_unspecified() {
        return Err(
            String::from_str("Could not infer a remote upstream from ").concat(
                share.host.as_str(),
            ).concat(". Add a real host/sni or paste the original remote link."),
        );
    }
    let t = trim_str(listen);
    let listen_addr = match parse_socket_addr(t.as_str()) {
        Some(a) => a,
        None => return Err(String::from_str("Invalid listen address: ").concat(SOCKET_ADDR_ERROR)),
    };
    let selected_text = selected.to_text();
    if connects_to_listener(listen_addr, selected) {
        let l = listen_addr.to_text();
        return Err(
            String::from_str("Refusing proxy loop: listen ").concat(l.as_str()).concat(
                " would connect to ",
            ).concat(selected_text.as_str()),
        );
    }
    let sni_trimmed = trim_str(fake_sni);
    let new_sni = if sni_trimmed.as_str().is_empty() {
        String::from_str("security.vercel.com")
    } else {
        String::from_str(fake_sni)
    };
    let label = share.label();
    let upstream = share.upstream_host();
    proof {
        reveal_strlit(" ");
    }
    let status = String::from_str("Imported ").concat(share.protocol.as_str()).concat(" ").concat(
        label.as_str(),
    ).concat(" via ").concat(upstream).concat(" -> ").concat(selected_text.as_str());
    assert(status@ == "Imported "@ + share@.protocol + seq![' '] + share@.label() + " via "@
        + share@.upstream_host() + " -> "@ + spec_socket_text(selected));
    assert(new_sni@ == (if trim(fake_sni@).len() == 0 {
        "security.vercel.com"@
    } else {
        fake_sni@
    }));
    assert(!spec_connects_to_listener(spec_parse_socket(trim(listen@))->0, selected));
    Ok(ImportPlan { connect: selected_text, fake_sni: new_sni, status })
}

/// The scanner's settings from its form: a socket address, a timeout of at least one
/// second and a concurrency of at least one (the fields are read as they are, untrimmed).
pub open spec fn scan_settings_outcome(
    target: Seq<char>,
    timeout: Seq<char>,
    concurrency: Seq<char>,
    r: Result<(SocketAddr, u64, usize), String>,
) -> bool {
    if spec_parse_socket(target) is None {
        r matches Err(m) && m@ == "Invalid scan target: "@ + SOCKET_ADDR_ERROR@
    } else if !(spec_parse_unsigned(timeout, u64::MAX as nat) matches Ok(t) && t > 0) {
        r matches Err(m) && m@ == "Invalid scan timeout"@
    } else if !(spec_parse_unsigned(concurrency, usize::MAX as nat) matches Ok(c) && c > 0) {
        r matches Err(m) && m@ == "Invalid scan concurrency"@
    } else {
        r matches Ok(v) && v.0 == spec_parse_socket(target)->0 && v.1 == ok_int(
            spec_parse_unsigned(timeout, u64::MAX as nat),
        ) && v.2 == ok_int(spec_parse_unsigned(concurrency, usize::MAX as nat))
    }
}

pub open spec fn ok_int(r: Result<nat, IntErrorKind>) -> nat {
    match r {
        Ok(v) => v,
        Err(_) => 0,
    }
}

/// The scanner's target, timeout and concurrency read from the form.
pub fn scan_settings(target: &str, timeout_secs: &str, concurrency: &str) -> (r: Result<(SocketAddr, u64, usize), String>)
    ensures
        scan_settings_outcome(target@, timeout_secs@, concurrency@, r),
{
    let addr = match parse_socket_addr(target) {
        Some(a) => a,
        None => return Err(String::from_str("Invalid scan target: ").concat(SOCKET_ADDR_ERROR)),
    };
    let timeout = match parse_unsigned(timeout_secs, u64::MAX) {
        Ok(v) => {
            if v == 0 {
                return Err(String::from_str("Invalid scan timeout"));
            }
            v
        },
        Err(_) => return Err(String::from_str("Invalid scan timeout")),
    };
    let conc = match parse_unsigned(concurrency, usize::MAX as u64) {
        Ok(v) => {
            if v == 0 {
                return Err(String::from_str("Invalid scan concurrency"));
            }
            v as usize
        },
        Err(_) => return Err(String::from_str("Invalid scan concurrency")),
    };
    Ok((addr, timeout, conc))
}

/// How many scan results the desktop keeps.
pub const RESULT_MAX: usize = 800;

/// The progress of a scan as the desktop shows it: how many probes there are, how many
/// have finished and passed, and the newest results (at most `RESULT_MAX`).
pub struct ScanProgress {
    pub total: usize,
    pub done: usize,
    pub ok: usize,
    pub results: Vec<ProbeResult>,
}

impl ScanProgress {
    /// The progress never holds more than `RESULT_MAX` results, nor more passed probes
    /// than finished ones.
    pub open spec fn wf(&self) -> bool {
        self.results@.len() <= RESULT_MAX && self.ok <= self.done
    }

    pub fn new() -> (r: Self)
        ensures
            r.wf(),
            r.total == 0 && r.done == 0 && r.ok == 0 && r.results@.len() == 0,
    {
        ScanProgress { total: 0, done: 0, ok: 0, results: Vec::new() }
    }

    /// A scan of `total` probes starts: the counts and results are reset.
    pub fn start(&mut self, total: usize)
        ensures
            final(self).wf(),
            final(self).total == total,
            final(self).done == 0 && final(self).ok == 0 && final(self).results@.len() == 0,
    {
        self.total = total;
        self.done = 0;
        self.ok = 0;
        self.results = Vec::new();
    }

    /// One probe finished: it is counted (as passed when it passed) and kept among the
    /// newest results.
    pub fn record(&mut self, result: ProbeResult)
        requires
            old(self).wf(),
            old(self).done < usize::MAX,
        ensures
            final(self).wf(),
            final(self).total == old(self).total,
            final(self).done == old(self).done + 1,
            final(self).ok == old(self).ok + (if result.outcome is Passed { 1int } else { 0int }),
            final(self).results@ == last_n(old(self).results@.push(result), RESULT_MAX as nat),
    {
        self.done = self.done + 1;
        if result.outcome.is_ok() {
            self.ok = self.ok + 1;
        }
        let ghost before = self.results@;
        self.results.push(result);
        if self.results.len() > RESULT_MAX {
            self.results.remove(0);
            assert(self.results@ =~= last_n(before.push(result), RESULT_MAX as nat));
        } else {
            assert(self.results@ =~= last_n(before.push(result), RESULT_MAX as nat));
        }
    }

    /// `"<done> / <total> complete, <ok> ok"`
    pub fn running_text(&self) -> (r: String)
        ensures
            r@ == digits_of(self.done as nat, 10) + " / "@ + digits_of(self.total as nat, 10)
                + " complete, "@ + digits_of(self.ok as nat, 10) + " ok"@,
    {
        let d = decimal_string(self.done as u64);
        let t = decimal_string(self.total as u64);
        let o = decimal_string(self.ok as u64);
        d.concat(" / ").concat(t.as_str()).concat(" complete, ").concat(o.as_str()).concat(" ok")
    }

    /// `"Scan finished: <ok> ok out of <done>"`
    pub fn finished_text(&self) -> (r: String)
        ensures
            r@ == "Scan finished: "@ + digits_of(self.ok as nat, 10) + " ok out of "@ + digits_of(
                self.done as nat,
                10,
            ),
    {
        let o = decimal_string(self.ok as u64);
        let d = decimal_string(self.done as u64);
        String::from_str("Scan finished: ").concat(o.as_str()).concat(" ok out of ").concat(
            d.as_str(),
        )
    }
}

/// The progress stays within its limits through any sequence of recorded probes.
pub proof fn lemma_scan_progress_bounded(before: Seq<ProbeResult>, r: ProbeResult)
    requires
        before.len() <= RESULT_MAX,
    ensures
        last_n(before.push(r), RESULT_MAX as nat).len() <= RESULT_MAX,
        last_n(before.push(r), RESULT_MAX as nat).last() == r,
{
}

/// `"Scan failed: <e>"`
pub fn scan_failed_text(e: &str) -> (r: String)
    ensures
        r@ == "Scan failed: "@ + e@,
{
    String::from_str("Scan failed: ").concat(e)
}

/// What the desktop shows when the public-IP check answers: the new status, the status
/// line and the log line.
pub open spec fn ip_check_texts(result: Result<Seq<char>, Seq<char>>) -> (Seq<char>, Seq<char>) {
    match result {
        Ok(ip) => ("Connected. Public IP via proxy: "@ + ip, "connection check ok; public IP "@ + ip),
        Err(e) => ("Connection check failed: "@ + e, "connection check failed: "@ + e),
    }
}

/// The status, the status line and the log line for the result of a connection check.
pub fn ip_check_outcome(result: Result<String, String>) -> (r: (ConnectionStatus, String, String))
    ensures
        match result {
            Ok(ip) => r.0 matches ConnectionStatus::Connected(x) && x@ == ip@ && r.1@
                == ip_check_texts(Ok(ip@)).0 && r.2@ == ip_check_texts(Ok(ip@)).1,
            Err(e) => r.0 matches ConnectionStatus::Failed(x) && x@ == e@ && r.1@
                == ip_check_texts(Err(e@)).0 && r.2@ == ip_check_texts(Err(e@)).1,
        },
{
    match result {
        Ok(ip) => {
            let status = String::from_str("Connected. Public IP via proxy: ").concat(ip.as_str());
            let log = String::from_str("connection check ok; public IP ").concat(ip.as_str());
            (ConnectionStatus::Connected(ip), status, log)
        },
        Err(e) => {
            let status = String::from_str("Connection check failed: ").concat(e.as_str());
            let log = String::from_str("connection check failed: ").concat(e.as_str());
            (ConnectionStatus::Failed(e), status, log)
        },
    }
}

/// The status when the public-IP checker stopped without answering.
pub fn checker_stopped() -> (r: ConnectionStatus)
    ensures
        r matches ConnectionStatus::Failed(e) && e@ == "checker stopped"@,
{
    ConnectionStatus::Failed(String::from_str("checker stopped"))
}

/// The labels of the share links of an import text, in order.
pub fn import_labels(text: &str) -> (r: Vec<String>)
    requires
        trimmed_lines(text@, false).len() < usize::MAX,
    ensures
        r@.len() == trimmed_lines(text@, false).len(),
        forall|i: int|
            0 <= i < r@.len() ==> {
                &&& (forall|s: XrayShare|
                    share_link_outcome(trimmed_lines(text@, false)[i], Ok(s)) ==> (#[trigger] r@[i])@
                        == share_label_text(i as usize, s@))
                &&& ((forall|s: XrayShare| !share_link_outcome(trimmed_lines(text@, false)[i], Ok(s)))
                    ==> r@[i]@ == raw_label_text(i as usize, trimmed_lines(text@, false)[i]))
            },
{
    let lines = share_lines(text);
    let mut labels: Vec<String> = Vec::new();
    let mut i: usize = 0;
    while i < lines.len()
        invariant
            i <= lines@.len() < usize::MAX,
            lines.deep_view() == trimmed_lines(text@, false),
            labels@.len() == i,
            forall|j: int|
                0 <= j < i ==> {
                    &&& (forall|s: XrayShare|
                        share_link_outcome(trimmed_lines(text@, false)[j], Ok(s)) ==> (#[trigger] labels@[j])@
                            == share_label_text(j as usize, s@))
                    &&& ((forall|s: XrayShare| !share_link_outcome(trimmed_lines(text@, false)[j], Ok(s)))
                        ==> labels@[j]@ == raw_label_text(j as usize, trimmed_lines(text@, false)[j]))
                },
        decreases lines@.len() - i,
    {
        assert(lines.deep_view()[i as int] == lines@[i as int]@);
        let l = share_label(i, lines[i].as_str());
        labels.push(l);
        i = i + 1;
    }
    labels
}

/// The label of the selected share, or `"No config selected"`.
pub fn selected_label(labels: &Vec<String>, selected: usize) -> (r: String)
    ensures
        selected < labels@.len() ==> r@ == labels@[selected as int]@,
        selected >= labels@.len() ==> r@ == "No config selected"@,
{
    if selected < labels.len() {
        labels[selected].clone()
    } else {
        String::from_str("No config selected")
    }
}

/// The body of an exported log: the lines, each ended by a line feed.
pub open spec fn export_body(lines: Seq<Seq<char>>) -> Seq<char>
    decreases lines.len(),
{
    if lines.len() == 0 {
        Seq::empty()
    } else {
        export_body(lines.drop_last()) + lines.last() + seq!['\n']
    }
}

/// The text of an exported log.
pub fn log_export_body(lines: &Vec<String>) -> (r: String)
    ensures
        r@ == export_body(lines.deep_view()),
{
    let mut out = String::new();
    let mut i: usize = 0;
    assert(lines.deep_view().subrange(0, 0) =~= Seq::<Seq<char>>::empty());
    while i < lines.len()
        invariant
            i <= lines@.len(),
            out@ == export_body(lines.deep_view().subrange(0, i as int)),
        decreases lines@.len() - i,
    {
        let ghost q = lines.deep_view().subrange(0, i + 1);
        assert(q.drop_last() =~= lines.deep_view().subrange(0, i as int));
        assert(q.last() == lines@[i as int]@);
        out = out.concat(lines[i].as_str());
        crate::text::push_char(&mut out, '\n');
        i = i + 1;
    }
    assert(lines.deep_view().subrange(0, i as int) =~= lines.deep_view());
    out
}

/// `"sni-spoof-rs-ui-logs-<seconds>.txt"`
pub fn log_export_file_name(unix_secs: u64) -> (r: String)
    ensures
        r@ == "sni-spoof-rs-ui-logs-"@ + digits_of(unix_secs as nat, 10) + ".txt"@,
{
    let n = decimal_string(unix_secs);
    String::from_str("sni-spoof-rs-ui-logs-").concat(n.as_str()).concat(".txt")
}

/// The status after switching Xray's TUN mode.
pub fn tun_mode_text(enabled: bool) -> (r: &'static str)
    ensures
        enabled ==> r@ == "Xray TUN mode enabled. Run elevated and avoid routing loops."@,
        !enabled ==> r@ == "Xray TUN mode disabled"@,
{
    if enabled {
        "Xray TUN mode enabled. Run elevated and avoid routing loops."
    } else {
        "Xray TUN mode disabled"
    }
}

/// The Xray release archive for an operating system and architecture (as
/// `std::env::consts` names them), where one is published.
pub fn xray_download_url(os: &str, arch: &str) -> (r: Option<String>)
    ensures
        r is Some <==> ((os@ == "macos"@ && (arch@ == "aarch64"@ || arch@ == "x86_64"@)) || (os@
            == "linux"@ && (arch@ == "aarch64"@ || arch@ == "x86_64"@)) || (os@ == "windows"@ && arch@
            == "x86_64"@)),
        r matches Some(u) ==> u@ == "https://github.com/XTLS/Xray-core/releases/latest/download/"@
            + (if os@ == "macos"@ && arch@ == "aarch64"@ {
            "Xray-macos-arm64-v8a.zip"@
        } else if os@ == "macos"@ {
            "Xray-macos-64.zip"@
        } else if os@ == "linux"@ && arch@ == "aarch64"@ {
            "Xray-linux-arm64-v8a.zip"@
        } else if os@ == "linux"@ {
            "Xray-linux-64.zip"@
        } else {
            "Xray-windows-64.zip"@
        }),
{
    let mac = crate::text::same_text(os, "macos");
    let linux = crate::text::same_text(os, "linux");
    let windows = crate::text::same_text(os, "windows");
    let arm = crate::text::same_text(arch, "aarch64");
    let x64 = crate::text::same_text(arch, "x86_64");
    proof {
        reveal_strlit("linux");
        reveal_strlit("macos");
        reveal_strlit("windows");
        assert("linux"@[0] != "macos"@[0]);
        assert("linux"@.len() != "windows"@.len());
        assert("macos"@.len() != "windows"@.len());
        reveal_strlit("aarch64");
        reveal_strlit("x86_64");
        assert("aarch64"@.len() != "x86_64"@.len());
    }
    let file = if mac && arm {
        "Xray-macos-arm64-v8a.zip"
    } else if mac && x64 {
        "Xray-macos-64.zip"
    } else if linux && arm {
        "Xray-linux-arm64-v8a.zip"
    } else if linux && x64 {
        "Xray-linux-64.zip"
    } else if windows && x64 {
        "Xray-windows-64.zip"
    } else {
        return None;
    };
    Some(String::from_str("https://github.com/XTLS/Xray-core/releases/latest/download/").concat(file))
}

/// The Xray binary's file name on an operating system.
pub fn xray_binary_name(os: &str) -> (r: &'static str)
    ensures
        os@ == "windows"@ ==> r@ == "xray.exe"@,
        os@ != "windows"@ ==> r@ == "xray"@,
{
    if crate::text::same_text(os, "windows") {
        "xray.exe"
    } else {
        "xray"
    }
}

/// Whether the Xray path should be looked up again: it is blank or just `xray`.
pub fn xray_path_is_default(path: &str) -> (r: bool)
    ensures
        r == (trim(path@).len() == 0 || trim(path@) == "xray"@),
{
    let t = trim_str(path);
    t.as_str().is_empty() || crate::text::same_text(t.as_str(), "xray")
}

/// The desktop state saved between runs.
pub struct UiState {
    pub form: FormState,
    pub import_text: String,
    pub selected_import: usize,
    pub xray_path: String,
    pub xray_http_listen: String,
    pub xray_socks_listen: Option<String>,
    pub xray_tun_enabled: bool,
    pub xray_log_level: String,
    pub logging_enabled: bool,
    pub light_mode: bool,
    pub scan_target: String,
    pub scan_timeout_secs: String,
    pub scan_concurrency: String,
    pub log_lines: Vec<String>,
}

/// The desktop's settings.
pub struct Settings {
    pub form: FormState,
    pub import_text: String,
    pub selected_import: usize,
    pub xray_path: String,
    pub xray_http_listen: String,
    pub xray_socks_listen: String,
    pub xray_tun_enabled: bool,
    pub xray_log_level: String,
    pub logging_enabled: bool,
    pub light_mode: bool,
    pub scan_target: String,
    pub scan_timeout_secs: String,
    pub scan_concurrency: String,
}

/// A saved text when it is not blank, else the fallback.
pub open spec fn kept_or(saved: Seq<char>, fallback: Seq<char>) -> Seq<char> {
    if trim(saved).len() == 0 {
        fallback
    } else {
        saved
    }
}

fn keep_or(saved: &String, fallback: &str) -> (r: String)
    ensures
        r@ == kept_or(saved@, fallback@),
{
    let t = trim_str(saved.as_str());
    if t.as_str().is_empty() {
        String::from_str(fallback)
    } else {
        saved.clone()
    }
}

fn clone_form(f: &FormState) -> (r: FormState)
    ensures
        r == *f,
{
    FormState {
        listen: f.listen.clone(),
        connect: f.connect.clone(),
        fake_sni: f.fake_sni.clone(),
        conn_timeout_sec: f.conn_timeout_sec.clone(),
        handshake_timeout_sec: f.handshake_timeout_sec.clone(),
        keepalive_time_sec: f.keepalive_time_sec.clone(),
        keepalive_interval_sec: f.keepalive_interval_sec.clone(),
        idle_timeout: f.idle_timeout.clone(),
        buffer_size: f.buffer_size.clone(),
        graceful_shutdown_sec: f.graceful_shutdown_sec.clone(),
    }
}

/// The settings the desktop starts with: the saved ones, with blank texts replaced by
/// defaults; without a saved state, the form of the configuration file and the defaults.
/// The saved Xray path is kept only when it is not blank and exists; otherwise the
/// discovered one is used.
pub fn restore_settings(
    saved: Option<&UiState>,
    config_form: FormState,
    saved_xray_path_exists: bool,
    discovered_xray_path: String,
) -> (r: Settings)
    ensures
        saved is None ==> r.form == config_form && r.import_text@.len() == 0 && r.selected_import
            == 0 && r.xray_path == discovered_xray_path && r.xray_http_listen@ == "127.0.0.1:1080"@
            && r.xray_socks_listen@ == "127.0.0.1:1081"@ && !r.xray_tun_enabled && r.xray_log_level@
            == "warning"@ && r.logging_enabled && r.light_mode && r.scan_target@ == config_form.connect@
            && r.scan_timeout_secs@ == digits_of(6, 10) && r.scan_concurrency@ == digits_of(10, 10),
        saved matches Some(st) ==> {
            &&& r.form == st.form
            &&& r.import_text@ == st.import_text@
            &&& r.selected_import == st.selected_import
            &&& r.xray_path@ == (if trim(st.xray_path@).len() > 0 && saved_xray_path_exists {
                st.xray_path@
            } else {
                discovered_xray_path@
            })
            &&& r.xray_http_listen@ == kept_or(st.xray_http_listen@, "127.0.0.1:1080"@)
            &&& r.xray_socks_listen@ == (match st.xray_socks_listen {
                Some(v) => kept_or(v@, "127.0.0.1:1081"@),
                None => "127.0.0.1:1081"@,
            })
            &&& r.xray_tun_enabled == st.xray_tun_enabled
            &&& r.xray_log_level@ == kept_or(st.xray_log_level@, "warning"@)
            &&& r.logging_enabled == st.logging_enabled
            &&& r.light_mode == st.light_mode
            &&& r.scan_target@ == kept_or(st.scan_target@, st.form.connect@)
            &&& r.scan_timeout_secs@ == kept_or(st.scan_timeout_secs@, digits_of(6, 10))
            &&& r.scan_concurrency@ == kept_or(st.scan_concurrency@, digits_of(10, 10))
        },
{
    match saved {
        None => {
            let scan_target = config_form.connect.clone();
            Settings {
                form: config_form,
                import_text: String::new(),
                selected_import: 0,
                xray_path: discovered_xray_path,
                xray_http_listen: String::from_str("127.0.0.1:1080"),
                xray_socks_listen: String::from_str("127.0.0.1:1081"),
                xray_tun_enabled: false,
                xray_log_level: String::from_str("warning"),
                logging_enabled: true,
                light_mode: true,
                scan_target,
                scan_timeout_secs: decimal_string(crate::scan::DEFAULT_TIMEOUT_SECS),
                scan_concurrency: decimal_string(crate::scan::DEFAULT_CONCURRENCY as u64),
            }
        },
        Some(st) => {
            let path_text = trim_str(st.xray_path.as_str());
            let xray_path = if !path_text.as_str().is_empty() && saved_xray_path_exists {
                st.xray_path.clone()
            } else {
                discovered_xray_path
            };
            let socks = match &st.xray_socks_listen {
                Some(v) => keep_or(v, "127.0.0.1:1081"),
                None => String::from_str("127.0.0.1:1081"),
            };
            let six = decimal_string(crate::scan::DEFAULT_TIMEOUT_SECS);
            let ten = decimal_string(crate::scan::DEFAULT_CONCURRENCY as u64);
            Settings {
                form: clone_form(&st.form),
                import_text: st.import_text.clone(),
                selected_import: st.selected_import,
                xray_path,
                xray_http_listen: keep_or(&st.xray_http_listen, "127.0.0.1:1080"),
                xray_socks_listen: socks,
                xray_tun_enabled: st.xray_tun_enabled,
                xray_log_level: keep_or(&st.xray_log_level, "warning"),
                logging_enabled: st.logging_enabled,
                light_mode: st.light_mode,
                scan_target: keep_or(&st.scan_target, st.form.connect.as_str()),
                scan_timeout_secs: keep_or(&st.scan_timeout_secs, six.as_str()),
                scan_concurrency: keep_or(&st.scan_concurrency, ten.as_str()),
            }
        },
    }
}

/// The state to save: the settings, and the log lines when logging is enabled.
pub fn snapshot_state(settings: &Settings, log: &UiLog) -> (r: UiState)
    ensures
        r.form == settings.form,
        r.import_text@ == settings.import_text@,
        r.selected_import == settings.selected_import,
        r.xray_path@ == settings.xray_path@,
        r.xray_http_listen@ == settings.xray_http_listen@,
        r.xray_socks_listen matches Some(v) && v@ == settings.xray_socks_listen@,
        r.xray_tun_enabled == settings.xray_tun_enabled,
        r.xray_log_level@ == settings.xray_log_level@,
        r.logging_enabled == settings.logging_enabled,
        r.light_mode == settings.light_mode,
        r.scan_target@ == settings.scan_target@,
        r.scan_timeout_secs@ == settings.scan_timeout_secs@,
        r.scan_concurrency@ == settings.scan_concurrency@,
        settings.logging_enabled ==> r.log_lines.deep_view() == log.spec_lines(),
        !settings.logging_enabled ==> r.log_lines@.len() == 0,
{
    UiState {
        form: clone_form(&settings.form),
        import_text: settings.import_text.clone(),
        selected_import: settings.selected_import,
        xray_path: settings.xray_path.clone(),
        xray_http_listen: settings.xray_http_listen.clone(),
        xray_socks_listen: Some(settings.xray_socks_listen.clone()),
        xray_tun_enabled: settings.xray_tun_enabled,
        xray_log_level: settings.xray_log_level.clone(),
        logging_enabled: settings.logging_enabled,
        light_mode: settings.light_mode,
        scan_target: settings.scan_target.clone(),
        scan_timeout_secs: settings.scan_timeout_secs.clone(),
        scan_concurrency: settings.scan_concurrency.clone(),
        log_lines: if settings.logging_enabled {
            log.snapshot()
        } else {
            Vec::new()
        },
    }
}

/// Whether the log changed since the last save and the last save is at least two
/// seconds old.
pub fn autosave_due(revision: u64, saved_revision: u64, since_last_save_ms: u64) -> (r: bool)
    ensures
        r == (revision != saved_revision && since_last_save_ms >= 2000),
{
    revision != saved_revision && since_last_save_ms >= 2000
}

/// Text that starts and ends with a character that is not white space is its own trim.
proof fn lemma_trim_fixed(s: Seq<char>)
    requires
        s.len() > 0,
        !is_white(s[0]),
        !is_white(s.last()),
    ensures
        trim(s) == s,
{
    assert(crate::text::trim_start(s) == s);
}

/// The decimal digits of a number are their own trim, and read back as the number.
proof fn lemma_field_reads_back(name: Seq<char>, n: nat, max: nat)
    requires
        n <= max,
    ensures
        trim(digits_of(n, 10)) == digits_of(n, 10),
        spec_parse_field(name, digits_of(n, 10), max) == Ok::<nat, Seq<char>>(n),
{
    crate::text::lemma_decimal_digits(n);
    let d = digits_of(n, 10);
    assert(crate::text::is_dec_digit(d[0]));
    assert(crate::text::is_dec_digit(d[d.len() - 1]));
    lemma_trim_fixed(d);
    crate::text::lemma_parse_decimal(n, max);
}

/// The text of a socket address is its own trim, and reads back as the address where it
/// carries no IPv6 flow information.
proof fn lemma_socket_reads_back(a: SocketAddr)
    requires
        a is V6 ==> a->V6_flowinfo == 0,
    ensures
        trim(spec_socket_text(a)) == spec_socket_text(a),
        spec_parse_socket(spec_socket_text(a)) == Some(a),
{
    let t = spec_socket_text(a);
    let port = a.spec_port();
    let d = digits_of(port as nat, 10);
    crate::text::lemma_decimal_digits(port as nat);
    assert(t.last() == d[d.len() - 1]);
    assert(crate::text::is_dec_digit(d[d.len() - 1]));
    if let SocketAddr::V4 { ip, .. } = a {
        let d0 = digits_of((ip / 0x1000000) as nat, 10);
        crate::text::lemma_decimal_digits((ip / 0x1000000) as nat);
        assert(t[0] == d0[0]);
        assert(crate::text::is_dec_digit(d0[0]));
    } else {
        assert(t[0] == '[');
    }
    lemma_trim_fixed(t);
    crate::net::lemma_socket_text_roundtrip(a);
}

/// A form that shows a one-listener configuration which `validate` accepts, whose fake
/// SNI has no white space at either end and whose IPv6 addresses carry no flow
/// information, reads back without error as that same configuration.
pub proof fn lemma_form_round_trip(cfg: Config, f: FormState)
    requires
        cfg.listeners@.len() == 1,
        config_valid(cfg),
        cfg.listeners@[0].listen is V6 ==> cfg.listeners@[0].listen->V6_flowinfo == 0,
        cfg.listeners@[0].connect is V6 ==> cfg.listeners@[0].connect->V6_flowinfo == 0,
        trim(cfg.listeners@[0].fake_sni@) == cfg.listeners@[0].fake_sni@,
        form_shows_listener(f, cfg.listeners@[0]),
        form_shows_settings(f, cfg),
    ensures
        form_field_error(f) is None,
        form_check_error(f) is None,
        form_config_is(f, cfg),
{
    let l = cfg.listeners@[0];
    let m = u64::MAX as nat;
    lemma_socket_reads_back(l.listen);
    lemma_socket_reads_back(l.connect);
    lemma_field_reads_back("conn_timeout_sec"@, l.conn_timeout_sec as nat, m);
    lemma_field_reads_back("handshake_timeout_sec"@, l.handshake_timeout_sec as nat, m);
    lemma_field_reads_back("keepalive_time_sec"@, l.keepalive_time_sec as nat, m);
    lemma_field_reads_back("keepalive_interval_sec"@, l.keepalive_interval_sec as nat, m);
    lemma_field_reads_back("buffer_size"@, cfg.buffer_size as nat, usize::MAX as nat);
    lemma_field_reads_back("graceful_shutdown_sec"@, cfg.graceful_shutdown_sec as nat, m);
    match cfg.idle_timeout {
        Some(v) => {
            lemma_field_reads_back("idle_timeout"@, v as nat, m);
            crate::text::lemma_decimal_digits(v as nat);
        },
        None => {
            assert(trim(f.idle_timeout@) =~= Seq::<char>::empty());
        },
    }
    assert(!listener_fault(l));
    reveal(form_listener_error);
    reveal(form_shared_error);
}

} // verus!
