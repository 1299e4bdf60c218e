use crate::error::ConfigError;
use crate::net::{spec_socket_text, SocketAddr};
use crate::packet::tls::MAX_SNI_LEN;
use vstd::prelude::*;
use vstd::string::StringExecFns;
use vstd::utf8::encode_utf8;

verus! {

/// Seconds to wait for the upstream connection: 5.
pub fn default_conn_timeout_sec() -> (r: u64)
    ensures
        r == 5,
{
    5
}

/// Seconds to wait for the fake to be confirmed: 2.
pub fn default_handshake_timeout_sec() -> (r: u64)
    ensures
        r == 2,
{
    2
}

/// Idle seconds before TCP keepalive probes start: 11.
pub fn default_keepalive_time_sec() -> (r: u64)
    ensures
        r == 11,
{
    11
}

/// Seconds between TCP keepalive probes: 2.
pub fn default_keepalive_interval_sec() -> (r: u64)
    ensures
        r == 2,
{
    2
}

/// The relay buffer, in KiB: 8.
pub fn default_buffer_size() -> (r: usize)
    ensures
        r == 8,
{
    8
}

/// Seconds that running connections get to finish on shutdown: 0.
pub fn default_graceful_shutdown_sec() -> (r: u64)
    ensures
        r == 0,
{
    0
}

/// The proxy's configuration: its listeners and the settings shared by all of them.
#[derive(Debug, Clone)]
pub struct Config {
    pub idle_timeout: Option<u64>,
    pub buffer_size: usize,
    pub listeners: Vec<ListenerConfig>,
    pub graceful_shutdown_sec: u64,
}

/// One listener: where it accepts clients, the upstream it connects to, and the SNI that
/// the fake ClientHello carries.
#[derive(Debug, Clone)]
pub struct ListenerConfig {
    pub listen: SocketAddr,
    pub connect: SocketAddr,
    pub fake_sni: String,
    pub conn_timeout_sec: u64,
    pub handshake_timeout_sec: u64,
    pub keepalive_time_sec: u64,
    pub keepalive_interval_sec: u64,
}

/// `127.0.0.1:40443`
pub open spec fn default_listen() -> SocketAddr {
    SocketAddr::V4 { ip: 0x7f00_0001, port: 40443 }
}

/// `172.67.139.236:443`
pub open spec fn default_connect() -> SocketAddr {
    SocketAddr::V4 { ip: 0xac43_8bec, port: 443 }
}

impl Default for ListenerConfig {
    fn default() -> (r: Self)
        ensures
            r.listen == default_listen(),
            r.connect == default_connect(),
            r.fake_sni@ == "security.vercel.com"@,
            r.conn_timeout_sec == 5,
            r.handshake_timeout_sec == 2,
            r.keepalive_time_sec == 11,
            r.keepalive_interval_sec == 2,
    {
        ListenerConfig {
            listen: SocketAddr::V4 { ip: 0x7f00_0001, port: 40443 },
            connect: SocketAddr::V4 { ip: 0xac43_8bec, port: 443 },
            fake_sni: String::from_str("security.vercel.com"),
            conn_timeout_sec: default_conn_timeout_sec(),
            handshake_timeout_sec: default_handshake_timeout_sec(),
            keepalive_time_sec: default_keepalive_time_sec(),
            keepalive_interval_sec: default_keepalive_interval_sec(),
        }
    }
}

impl Default for Config {
    fn default() -> (r: Self)
        ensures
            r.idle_timeout is None,
            r.buffer_size == 8,
            r.graceful_shutdown_sec == 0,
            r.listeners@.len() == 1,
            r.listeners@[0].listen == default_listen(),
            r.listeners@[0].connect == default_connect(),
            r.listeners@[0].fake_sni@ == "security.vercel.com"@,
            r.listeners@[0].conn_timeout_sec == 5,
            r.listeners@[0].handshake_timeout_sec == 2,
            r.listeners@[0].keepalive_time_sec == 11,
            r.listeners@[0].keepalive_interval_sec == 2,
    {
        let mut listeners: Vec<ListenerConfig> = Vec::new();
        listeners.push(ListenerConfig::default());
        Config {
            idle_timeout: None,
            buffer_size: default_buffer_size(),
            listeners,
            graceful_shutdown_sec: default_graceful_shutdown_sec(),
        }
    }
}

/// Whether connecting to `connect` would reach the listener at `listen` itself: the same
/// address, or the same port on a loopback address while the listener is bound to a
/// loopback or unspecified address.
pub open spec fn spec_connects_to_listener(listen: SocketAddr, connect: SocketAddr) -> bool {
    listen == connect || (connect.spec_port() == listen.spec_port()
        && connect.spec_ip().spec_is_loopback() && (listen.spec_ip().spec_is_loopback()
        || listen.spec_ip().spec_is_unspecified()))
}

/// Whether a listener at `listen` that connects to `connect` would reach itself.
pub fn connects_to_listener(listen: SocketAddr, connect: SocketAddr) -> (r: bool)
    ensures
        r == spec_connects_to_listener(listen, connect),
{
    if listen == connect {
        return true;
    }
    connect.port() == listen.port() && connect.ip().is_loopback() && (listen.ip().is_loopback()
        || listen.ip().is_unspecified())
}

/// The fake SNI does not fit the ClientHello template (more than 219 bytes of UTF-8).
pub open spec fn sni_too_long(l: ListenerConfig) -> bool {
    encode_utf8(l.fake_sni@).len() > MAX_SNI_LEN
}

/// What `validate` refuses in one listener.
pub open spec fn listener_fault(l: ListenerConfig) -> bool {
    sni_too_long(l) || spec_connects_to_listener(l.listen, l.connect)
}

/// `i` is the first listener that `validate` refuses.
pub open spec fn first_faulty(ls: Seq<ListenerConfig>, i: int) -> bool {
    0 <= i < ls.len() && listener_fault(ls[i]) && forall|j: int|
        0 <= j < i ==> !listener_fault(#[trigger] ls[j])
}

/// The message of a listener that connects back to itself: `"listen -> connect"`.
pub open spec fn self_loop_text(l: ListenerConfig) -> Seq<char> {
    spec_socket_text(l.listen) + " -> "@ + spec_socket_text(l.connect)
}

/// A configuration that `validate` accepts: it has a listener, and none is refused.
pub open spec fn config_valid(cfg: Config) -> bool {
    cfg.listeners@.len() > 0 && forall|i: int|
        0 <= i < cfg.listeners@.len() ==> !listener_fault(#[trigger] cfg.listeners@[i])
}

/// A listener bound to the address it connects to always connects back to itself.
pub proof fn lemma_listener_loops_to_itself(a: SocketAddr)
    ensures
        spec_connects_to_listener(a, a),
{
}

/// The default configuration passes `validate`.
pub proof fn lemma_default_config_valid(cfg: Config)
    requires
        cfg.listeners@.len() == 1,
        cfg.listeners@[0].listen == default_listen(),
        cfg.listeners@[0].connect == default_connect(),
        cfg.listeners@[0].fake_sni@ == "security.vercel.com"@,
    ensures
        config_valid(cfg),
{
    reveal_strlit("security.vercel.com");
    crate::text::lemma_encode_utf8_len(cfg.listeners@[0].fake_sni@);
    assert(!listener_fault(cfg.listeners@[0]));
}

/// The error that `validate` gives for a configuration it refuses: `Empty` without
/// listeners; otherwise, for the first refused listener, `SniTooLong` with its fake SNI
/// when that is too long, else `SelfLoop` with `"listen -> connect"`.
pub open spec fn check_error_is(cfg: Config, e: ConfigError) -> bool {
    match e {
        ConfigError::Empty => cfg.listeners@.len() == 0,
        ConfigError::SniTooLong(s) => cfg.listeners@.len() > 0 && exists|i: int|
            first_faulty(cfg.listeners@, i) && sni_too_long(cfg.listeners@[i]) && s@
                == cfg.listeners@[i].fake_sni@,
        ConfigError::SelfLoop(s) => cfg.listeners@.len() > 0 && exists|i: int|
            first_faulty(cfg.listeners@, i) && !sni_too_long(cfg.listeners@[i]) && s@
                == self_loop_text(cfg.listeners@[i]),
        _ => false,
    }
}

/// Checks a configuration: it has a listener, and no listener has a fake SNI longer than
/// the template allows or connects back to itself. The first refused listener decides the
/// error.
pub fn validate(cfg: &Config) -> (r: Result<(), ConfigError>)
    ensures
        r is Ok <==> config_valid(*cfg),
        (r matches Err(ConfigError::Empty)) <==> cfg.listeners@.len() == 0,
        r matches Err(ConfigError::SniTooLong(s)) ==> exists|i: int|
            first_faulty(cfg.listeners@, i) && sni_too_long(cfg.listeners@[i]) && s@
                == cfg.listeners@[i].fake_sni@,
        r matches Err(ConfigError::SelfLoop(s)) ==> exists|i: int|
            first_faulty(cfg.listeners@, i) && !sni_too_long(cfg.listeners@[i]) && s@
                == self_loop_text(cfg.listeners@[i]),
        r is Err ==> (r matches Err(ConfigError::Empty) || r matches Err(
            ConfigError::SniTooLong(_),
        ) || r matches Err(ConfigError::SelfLoop(_))),
        r matches Err(e) ==> check_error_is(*cfg, e),
{
    if cfg.listeners.len() == 0 {
        return Err(ConfigError::Empty);
    }
    let mut i: usize = 0;
    while i < cfg.listeners.len()
        invariant
            i <= cfg.listeners@.len(),
            forall|j: int| 0 <= j < i ==> !listener_fault(#[trigger] cfg.listeners@[j]),
        decreases cfg.listeners@.len() - i,
    {
        let lc = &cfg.listeners[i];
        if lc.fake_sni.as_str().as_bytes().len() > MAX_SNI_LEN {
            assert(first_faulty(cfg.listeners@, i as int));
            return Err(ConfigError::SniTooLong(lc.fake_sni.clone()));
        }
        if connects_to_listener(lc.listen, lc.connect) {
            let mut msg = lc.listen.to_text();
            msg.append(" -> ");
            let to = lc.connect.to_text();
            msg.append(to.as_str());
            proof {
                reveal_strlit(" -> ");
            }
            assert(first_faulty(cfg.listeners@, i as int));
            return Err(ConfigError::SelfLoop(msg));
        }
        i = i + 1;
    }
    Ok(())
}

} // verus!
