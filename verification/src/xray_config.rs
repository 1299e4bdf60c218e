use crate::desktop::{parse_optional_socket, spec_parse_optional_socket};
use crate::net::{parse_socket_addr, spec_parse_socket, IpAddr, SocketAddr, SOCKET_ADDR_ERROR};
use crate::text::{eq_ascii_nocase, eq_ignore_ascii_case, same_text, trim, trim_str};
use crate::json::{
    has_piece, json_escape, json_join, lemma_container_has, lemma_member_has_value,
    lemma_piece_middle, lemma_piece_trans, lemma_plain_escape, concat_texts, json_arr, json_array, json_bool, json_boolean, json_member, json_obj,
    json_object, json_str, json_string, member, no_texts, push_text, texts1, texts2, texts3,
    texts4,
};
use crate::net::spec_ip_text;
use crate::text::{decimal_string, digits_of};
use crate::xray::{non_empty, XrayShare, XrayShareView};
use vstd::prelude::*;
use vstd::string::StringExecFns;

verus! {

broadcast use vstd::string::group_string_axioms;

/// One inbound proxy of the Xray configuration.
#[derive(Debug)]
pub enum Inbound {
    Http { listen: IpAddr, port: u16 },
    Socks { listen: IpAddr, port: u16 },
    Tun,
}

/// The name of the TUN device.
pub const TUN_NAME: &'static str = "sni-spoof-rs-tun";

/// The MTU of the TUN device.
pub const TUN_MTU: u64 = 1500;

/// The gateways of the TUN device.
pub const TUN_GATEWAYS: [&'static str; 2] = ["10.250.0.1/16", "fc00:250::1/64"];

/// The DNS servers handed to the TUN device.
pub const TUN_DNS: [&'static str; 2] = ["1.1.1.1", "8.8.8.8"];

/// The routes sent through the TUN device.
pub const TUN_ROUTES: [&'static str; 2] = ["0.0.0.0/0", "::/0"];

/// How Xray picks the interface for outbound traffic from the TUN device.
pub const TUN_OUTBOUNDS_INTERFACE: &'static str = "auto";

/// The protocols sniffed on the TUN inbound.
pub const TUN_SNIFF: [&'static str; 3] = ["http", "tls", "quic"];

/// The address of the SNI listener as the outbound sees it.
pub const OUTBOUND_ADDRESS: &'static str = "127.0.0.1";

/// TLS settings of the outbound stream.
#[derive(Debug)]
pub struct TlsSettings {
    pub server_name: String,
    pub fingerprint: String,
    pub allow_insecure: bool,
}

/// Transport settings of the outbound stream.
#[derive(Debug)]
pub enum Transport {
    Ws { path: String, host_header: Option<String> },
    Grpc { service_name: String },
    Xhttp { path: String, host: String, mode: String },
    Plain,
}

/// The outbound stream settings.
#[derive(Debug)]
pub struct StreamSettings {
    pub network: String,
    pub security: String,
    pub tls: Option<TlsSettings>,
    pub transport: Transport,
}

/// The outbound server, reached through the local SNI listener at 127.0.0.1.
#[derive(Debug)]
pub enum OutboundSettings {
    Vless { port: u16, id: String, encryption: String },
    Trojan { port: u16, password: String },
}

/// An Xray configuration that chains the local proxies to the share through the SNI
/// listener.
#[derive(Debug)]
pub struct XrayConfig {
    pub log_level: String,
    pub inbounds: Vec<Inbound>,
    pub protocol: String,
    pub settings: OutboundSettings,
    pub stream: StreamSettings,
}

pub open spec fn opt_or(o: Option<Seq<char>>, d: Seq<char>) -> Seq<char> {
    match o {
        Some(v) => v,
        None => d,
    }
}

pub open spec fn opt_string_or(o: Option<String>, d: Seq<char>) -> Seq<char> {
    match o {
        Some(v) => v@,
        None => d,
    }
}

/// The stream network: the share's, else `tcp`.
pub open spec fn stream_network(s: XrayShareView) -> Seq<char> {
    opt_or(s.network, "tcp"@)
}

/// The stream security: the share's, else `tls` or `none` by its TLS flag.
pub open spec fn stream_security(s: XrayShareView) -> Seq<char> {
    opt_or(s.security, if s.tls { "tls"@ } else { "none"@ })
}

/// The stream settings that a share asks for.
pub open spec fn stream_is(st: StreamSettings, s: XrayShareView) -> bool {
    let network = stream_network(s);
    let security = stream_security(s);
    &&& st.network@ == network
    &&& st.security@ == security
    &&& tls_is(st.tls, s)
    &&& transport_is(st.transport, s)
}

/// The inbounds asked for: the HTTP proxy, the SOCKS5 proxy and the TUN device, in this
/// order, each when enabled.
pub open spec fn inbounds_are(
    ins: Seq<Inbound>,
    http: Option<SocketAddr>,
    socks: Option<SocketAddr>,
    tun: bool,
) -> bool {
    let a: Seq<Inbound> = match http {
        Some(h) => seq![Inbound::Http { listen: h.spec_ip(), port: h.spec_port() }],
        None => Seq::empty(),
    };
    let b: Seq<Inbound> = match socks {
        Some(h) => seq![Inbound::Socks { listen: h.spec_ip(), port: h.spec_port() }],
        None => Seq::empty(),
    };
    let c: Seq<Inbound> = if tun {
        seq![Inbound::Tun]
    } else {
        Seq::empty()
    };
    ins == a + b + c
}

/// The configuration built for a share.
pub open spec fn xray_config_is(
    c: XrayConfig,
    s: XrayShareView,
    sni_port: u16,
    http: Option<SocketAddr>,
    socks: Option<SocketAddr>,
    tun: bool,
    log_level: Seq<char>,
) -> bool {
    &&& c.log_level@ == (if trim(log_level).len() == 0 {
        "warning"@
    } else {
        trim(log_level)
    })
    &&& inbounds_are(c.inbounds@, http, socks, tun)
    &&& c.protocol@ == s.protocol
    &&& (if s.protocol == "vless"@ {
        c.settings matches OutboundSettings::Vless { port, id, encryption } && port == sni_port
            && id@ == s.user_id->0 && encryption@ == opt_or(s.encryption, "none"@)
    } else {
        c.settings matches OutboundSettings::Trojan { port, password } && port == sni_port
            && password@ == s.user_id->0
    })
    &&& stream_is(c.stream, s)
}

/// Why a share and the proxy settings give no Xray configuration: the share must be VLESS
/// or Trojan and carry user info, the SNI listener must be a socket address, the optional
/// proxy addresses must be valid, and at least one inbound must be enabled; these are
/// checked in this order. `None` when all hold.
pub open spec fn xray_config_refusal(
    s: XrayShareView,
    sni_listener: Seq<char>,
    http_listen: Seq<char>,
    socks_listen: Seq<char>,
    tun: bool,
) -> Option<Seq<char>> {
    let http = spec_parse_optional_socket("Xray HTTP/HTTPS proxy"@, http_listen);
    let socks = spec_parse_optional_socket("Xray SOCKS5 proxy"@, socks_listen);
    if s.protocol != "vless"@ && s.protocol != "trojan"@ {
        Some("all-in-one runtime currently supports VLESS and Trojan links"@)
    } else if non_empty(s.user_id) is None {
        Some("share link is missing UUID/password user info"@)
    } else if spec_parse_socket(trim(sni_listener)) is None {
        Some("invalid SNI listener address: "@ + SOCKET_ADDR_ERROR@)
    } else if http is Err {
        Some(http->Err_0)
    } else if socks is Err {
        Some(socks->Err_0)
    } else if http == Ok::<Option<SocketAddr>, Seq<char>>(None) && socks == Ok::<
        Option<SocketAddr>,
        Seq<char>,
    >(None) && !tun {
        Some("enable at least one Xray inbound proxy address"@)
    } else {
        None
    }
}

/// The outcome of building an Xray configuration: the refusal's message, or the
/// configuration that runs the share through the SNI listener.
pub open spec fn xray_config_outcome(
    s: XrayShareView,
    sni_listener: Seq<char>,
    http_listen: Seq<char>,
    socks_listen: Seq<char>,
    tun: bool,
    log_level: Seq<char>,
    r: Result<XrayConfig, String>,
) -> bool {
    let http = spec_parse_optional_socket("Xray HTTP/HTTPS proxy"@, http_listen);
    let socks = spec_parse_optional_socket("Xray SOCKS5 proxy"@, socks_listen);
    match xray_config_refusal(s, sni_listener, http_listen, socks_listen, tun) {
        Some(m) => r matches Err(e) && e@ == m,
        None => r matches Ok(c) && xray_config_is(
            c,
            s,
            spec_parse_socket(trim(sni_listener))->0.spec_port(),
            match http {
                Ok(h) => h,
                Err(_) => None,
            },
            match socks {
                Ok(h) => h,
                Err(_) => None,
            },
            tun,
            log_level,
        ),
    }
}

fn or_default(o: &Option<String>, d: &str) -> (r: String)
    ensures
        r@ == opt_string_or(*o, d@),
{
    match o {
        Some(v) => v.clone(),
        None => String::from_str(d),
    }
}

pub open spec fn tls_is(t: Option<TlsSettings>, s: XrayShareView) -> bool {
    if eq_ascii_nocase(stream_security(s), "tls"@) {
        t matches Some(t) && t.server_name@ == opt_or(s.sni, opt_or(s.http_host, s.host))
            && t.fingerprint@ == opt_or(s.fingerprint, "chrome"@) && t.allow_insecure
            == s.allow_insecure
    } else {
        t is None
    }
}

pub open spec fn transport_is(t: Transport, s: XrayShareView) -> bool {
    let network = stream_network(s);
    if network == "ws"@ {
        t matches Transport::Ws { path, host_header } && path@ == opt_or(s.path, "/"@)
            && host_header.deep_view() == non_empty(s.http_host)
    } else if network == "grpc"@ {
        t matches Transport::Grpc { service_name } && service_name@ == opt_or(s.path, Seq::empty())
    } else if network == "xhttp"@ {
        t matches Transport::Xhttp { path, host, mode } && path@ == opt_or(s.path, "/"@) && host@
            == opt_or(s.http_host, Seq::empty()) && mode@ == opt_or(s.mode, "auto"@)
    } else {
        t is Plain
    }
}

fn tls_for(share: &XrayShare, security: &String) -> (t: Option<TlsSettings>)
    requires
        security@ == stream_security(share@),
    ensures
        tls_is(t, share@),
{
    if eq_ignore_ascii_case(security.as_str(), "tls") {
        let server_name = match &share.sni {
            Some(v) => v.clone(),
            None => or_default(&share.http_host, share.host.as_str()),
        };
        Some(
            TlsSettings {
                server_name,
                fingerprint: or_default(&share.fingerprint, "chrome"),
                allow_insecure: share.allow_insecure,
            },
        )
    } else {
        None
    }
}

fn transport_for(share: &XrayShare, network: &String) -> (t: Transport)
    requires
        network@ == stream_network(share@),
    ensures
        transport_is(t, share@),
{
    proof {
        reveal_strlit("");
    }
    if same_text(network.as_str(), "ws") {
        let host_header = match &share.http_host {
            Some(h) => if h.as_str().is_empty() {
                None
            } else {
                Some(h.clone())
            },
            None => None,
        };
        let t = Transport::Ws { path: or_default(&share.path, "/"), host_header };
        assert(host_header.deep_view() == non_empty(share@.http_host));
        t
    } else if same_text(network.as_str(), "grpc") {
        let service_name = or_default(&share.path, "");
        assert(service_name@ == opt_or(share@.path, Seq::empty()));
        Transport::Grpc { service_name }
    } else if same_text(network.as_str(), "xhttp") {
        let path = or_default(&share.path, "/");
        let host = or_default(&share.http_host, "");
        let mode = or_default(&share.mode, "auto");
        assert(path@ == opt_or(share@.path, "/"@));
        assert(host@ == opt_or(share@.http_host, Seq::empty()));
        Transport::Xhttp { path, host, mode }
    } else {
        Transport::Plain
    }
}

fn stream_for(share: &XrayShare) -> (st: StreamSettings)
    ensures
        stream_is(st, share@),
{
    let network = or_default(&share.network, "tcp");
    let security = match &share.security {
        Some(v) => v.clone(),
        None => if share.tls {
            String::from_str("tls")
        } else {
            String::from_str("none")
        },
    };
    let tls = tls_for(share, &security);
    let transport = transport_for(share, &network);
    StreamSettings { network, security, tls, transport }
}

fn inbounds_for(http: Option<SocketAddr>, socks: Option<SocketAddr>, tun: bool) -> (r: Vec<Inbound>)
    ensures
        inbounds_are(r@, http, socks, tun),
{
    let mut inbounds: Vec<Inbound> = Vec::new();
    let ghost a: Seq<Inbound> = match http {
        Some(h) => seq![Inbound::Http { listen: h.spec_ip(), port: h.spec_port() }],
        None => Seq::empty(),
    };
    let ghost b: Seq<Inbound> = match socks {
        Some(h) => seq![Inbound::Socks { listen: h.spec_ip(), port: h.spec_port() }],
        None => Seq::empty(),
    };
    let ghost c: Seq<Inbound> = if tun {
        seq![Inbound::Tun]
    } else {
        Seq::empty()
    };
    match http {
        Some(h) => inbounds.push(Inbound::Http { listen: h.ip(), port: h.port() }),
        None => {},
    }
    assert(inbounds@ =~= a);
    match socks {
        Some(h) => inbounds.push(Inbound::Socks { listen: h.ip(), port: h.port() }),
        None => {},
    }
    assert(inbounds@ =~= a + b);
    if tun {
        inbounds.push(Inbound::Tun);
    }
    assert(inbounds@ =~= a + b + c);
    inbounds
}

/// Builds the Xray configuration that runs the share through the local SNI listener.
pub fn xray_config_model(
    share: &XrayShare,
    sni_listener: &str,
    http_listen: &str,
    socks_listen: &str,
    tun_enabled: bool,
    log_level: &str,
) -> (r: Result<XrayConfig, String>)
    ensures
        xray_config_outcome(
            share@,
            sni_listener@,
            http_listen@,
            socks_listen@,
            tun_enabled,
            log_level@,
            r,
        ),
{
    let is_vless = same_text(share.protocol.as_str(), "vless");
    if !is_vless && !same_text(share.protocol.as_str(), "trojan") {
        return Err(
            String::from_str("all-in-one runtime currently supports VLESS and Trojan links"),
        );
    }
    let user_id = match &share.user_id {
        Some(v) => {
            if v.as_str().is_empty() {
                return Err(String::from_str("share link is missing UUID/password user info"));
            }
            v.clone()
        },
        None => return Err(String::from_str("share link is missing UUID/password user info")),
    };
    let sni_text = trim_str(sni_listener);
    let sni_addr = match parse_socket_addr(sni_text.as_str()) {
        Some(a) => a,
        None => return Err(
            String::from_str("invalid SNI listener address: ").concat(SOCKET_ADDR_ERROR),
        ),
    };
    let http_addr = match parse_optional_socket("Xray HTTP/HTTPS proxy", http_listen) {
        Ok(a) => a,
        Err(e) => return Err(e),
    };
    let socks_addr = match parse_optional_socket("Xray SOCKS5 proxy", socks_listen) {
        Ok(a) => a,
        Err(e) => return Err(e),
    };
    if http_addr.is_none() && socks_addr.is_none() && !tun_enabled {
        return Err(String::from_str("enable at least one Xray inbound proxy address"));
    }
    let stream = stream_for(share);
    let settings = if is_vless {
        OutboundSettings::Vless {
            port: sni_addr.port(),
            id: user_id,
            encryption: or_default(&share.encryption, "none"),
        }
    } else {
        OutboundSettings::Trojan { port: sni_addr.port(), password: user_id }
    };
    let inbounds = inbounds_for(http_addr, socks_addr, tun_enabled);
    let level = trim_str(log_level);
    let log_level_text = if level.as_str().is_empty() {
        String::from_str("warning")
    } else {
        level
    };
    let config = XrayConfig {
        log_level: log_level_text,
        inbounds,
        protocol: share.protocol.clone(),
        settings,
        stream,
    };
    Ok(config)
}

/// The JSON text of an inbound, as Xray reads it.
pub open spec fn inbound_json(i: Inbound) -> Seq<char> {
    match i {
        Inbound::Http { listen, port } => json_obj(
            seq![
                json_member("port"@, digits_of(port as nat, 10)),
                json_member("listen"@, json_str(spec_ip_text(listen))),
                json_member("protocol"@, json_str("http"@)),
                json_member("settings"@, json_obj(Seq::empty())),
            ],
        ),
        Inbound::Socks { listen, port } => json_obj(
            seq![
                json_member("port"@, digits_of(port as nat, 10)),
                json_member("listen"@, json_str(spec_ip_text(listen))),
                json_member("protocol"@, json_str("socks"@)),
                json_member(
                    "settings"@,
                    json_obj(
                        seq![
                            json_member("auth"@, json_str("noauth"@)),
                            json_member("udp"@, json_bool(false)),
                        ],
                    ),
                ),
            ],
        ),
        Inbound::Tun => json_obj(
            seq![
                json_member("tag"@, json_str("tun-in"@)),
                json_member("protocol"@, json_str("tun"@)),
                json_member("settings"@, tun_settings_json()),
                json_member(
                    "sniffing"@,
                    json_obj(
                        seq![
                            json_member("enabled"@, json_bool(true)),
                            json_member(
                                "destOverride"@,
                                json_arr(
                                    seq![
                                        json_str(TUN_SNIFF[0]@),
                                        json_str(TUN_SNIFF[1]@),
                                        json_str(TUN_SNIFF[2]@),
                                    ],
                                ),
                            ),
                        ],
                    ),
                ),
            ],
        ),
    }
}

/// The settings of the TUN inbound.
pub open spec fn tun_settings_json() -> Seq<char> {
    json_obj(
        seq![
            json_member("name"@, json_str(TUN_NAME@)),
            json_member("mtu"@, digits_of(TUN_MTU as nat, 10)),
            json_member(
                "gateway"@,
                json_arr(seq![json_str(TUN_GATEWAYS[0]@), json_str(TUN_GATEWAYS[1]@)]),
            ),
            json_member("dns"@, json_arr(seq![json_str(TUN_DNS[0]@), json_str(TUN_DNS[1]@)])),
            json_member("userLevel"@, digits_of(0, 10)),
            json_member(
                "autoSystemRoutingTable"@,
                json_arr(seq![json_str(TUN_ROUTES[0]@), json_str(TUN_ROUTES[1]@)]),
            ),
            json_member("autoOutboundsInterface"@, json_str(TUN_OUTBOUNDS_INTERFACE@)),
        ],
    )
}

/// The `Host` header of a WebSocket transport, when there is one.
pub open spec fn headers_members(h: Option<String>) -> Seq<Seq<char>> {
    match h {
        Some(h) => seq![json_member("Host"@, json_str(h@))],
        None => Seq::empty(),
    }
}

/// The transport's member of the stream settings (none for plain TCP).
pub open spec fn transport_members(t: Transport) -> Seq<Seq<char>> {
    match t {
        Transport::Ws { path, host_header } => seq![
            json_member(
                "wsSettings"@,
                json_obj(
                    seq![
                        json_member("path"@, json_str(path@)),
                        json_member("headers"@, json_obj(headers_members(host_header))),
                    ],
                ),
            ),
        ],
        Transport::Grpc { service_name } => seq![
            json_member(
                "grpcSettings"@,
                json_obj(seq![json_member("serviceName"@, json_str(service_name@))]),
            ),
        ],
        Transport::Xhttp { path, host, mode } => seq![
            json_member(
                "xhttpSettings"@,
                json_obj(
                    seq![
                        json_member("path"@, json_str(path@)),
                        json_member("host"@, json_str(host@)),
                        json_member("mode"@, json_str(mode@)),
                    ],
                ),
            ),
        ],
        Transport::Plain => Seq::empty(),
    }
}

/// The JSON text of the outbound stream settings.
pub open spec fn stream_json(st: StreamSettings) -> Seq<char> {
    json_obj(
        seq![
            json_member("network"@, json_str(st.network@)),
            json_member("security"@, json_str(st.security@)),
        ] + match st.tls {
            Some(t) => seq![
                json_member(
                    "tlsSettings"@,
                    json_obj(
                        seq![
                            json_member("serverName"@, json_str(t.server_name@)),
                            json_member("fingerprint"@, json_str(t.fingerprint@)),
                            json_member("allowInsecure"@, json_bool(t.allow_insecure)),
                        ],
                    ),
                ),
            ],
            None => Seq::empty(),
        } + transport_members(st.transport),
    )
}

/// The JSON text of the outbound server settings: the server is the local SNI listener.
pub open spec fn outbound_settings_json(o: OutboundSettings) -> Seq<char> {
    match o {
        OutboundSettings::Vless { port, id, encryption } => json_obj(
            seq![
                json_member(
                    "vnext"@,
                    json_arr(
                        seq![
                            json_obj(
                                seq![
                                    json_member("address"@, json_str(OUTBOUND_ADDRESS@)),
                                    json_member("port"@, digits_of(port as nat, 10)),
                                    json_member(
                                        "users"@,
                                        json_arr(
                                            seq![
                                                json_obj(
                                                    seq![
                                                        json_member("id"@, json_str(id@)),
                                                        json_member(
                                                            "encryption"@,
                                                            json_str(encryption@),
                                                        ),
                                                    ],
                                                ),
                                            ],
                                        ),
                                    ),
                                ],
                            ),
                        ],
                    ),
                ),
            ],
        ),
        OutboundSettings::Trojan { port, password } => json_obj(
            seq![
                json_member(
                    "servers"@,
                    json_arr(
                        seq![
                            json_obj(
                                seq![
                                    json_member("address"@, json_str(OUTBOUND_ADDRESS@)),
                                    json_member("port"@, digits_of(port as nat, 10)),
                                    json_member("password"@, json_str(password@)),
                                ],
                            ),
                        ],
                    ),
                ),
            ],
        ),
    }
}

/// The whole configuration as the JSON document that Xray reads.
pub open spec fn xray_config_json(c: XrayConfig) -> Seq<char> {
    json_obj(
        seq![
            json_member("log"@, json_obj(seq![json_member("loglevel"@, json_str(c.log_level@))])),
            json_member("inbounds"@, json_arr(c.inbounds@.map_values(|i: Inbound| inbound_json(i)))),
            json_member(
                "outbounds"@,
                json_arr(
                    seq![
                        json_obj(
                            seq![
                                json_member("protocol"@, json_str(c.protocol@)),
                                json_member("settings"@, outbound_settings_json(c.settings)),
                                json_member("streamSettings"@, stream_json(c.stream)),
                            ],
                        ),
                    ],
                ),
            ),
        ],
    )
}

/// A port or another number as JSON.
fn json_number(n: u64) -> (r: String)
    ensures
        r@ == digits_of(n as nat, 10),
{
    decimal_string(n)
}

fn inbound_to_json(i: &Inbound) -> (r: String)
    ensures
        r@ == inbound_json(*i),
{
    match i {
        Inbound::Http { listen, port } => json_object(
            &texts4(
                member("port", json_number(*port as u64).as_str()),
                member("listen", json_string(listen.to_text().as_str()).as_str()),
                member("protocol", json_string("http").as_str()),
                member("settings", json_object(&no_texts()).as_str()),
            ),
        ),
        Inbound::Socks { listen, port } => {
            let settings = json_object(
                &texts2(
                    member("auth", json_string("noauth").as_str()),
                    member("udp", json_boolean(false).as_str()),
                ),
            );
            json_object(
                &texts4(
                    member("port", json_number(*port as u64).as_str()),
                    member("listen", json_string(listen.to_text().as_str()).as_str()),
                    member("protocol", json_string("socks").as_str()),
                    member("settings", settings.as_str()),
                ),
            )
        },
        Inbound::Tun => {
            let sniff = json_array(
                &texts3(
                    json_string(TUN_SNIFF[0]),
                    json_string(TUN_SNIFF[1]),
                    json_string(TUN_SNIFF[2]),
                ),
            );
            let sniffing = json_object(
                &texts2(
                    member("enabled", json_boolean(true).as_str()),
                    member("destOverride", sniff.as_str()),
                ),
            );
            json_object(
                &texts4(
                    member("tag", json_string("tun-in").as_str()),
                    member("protocol", json_string("tun").as_str()),
                    member("settings", tun_settings_to_json().as_str()),
                    member("sniffing", sniffing.as_str()),
                ),
            )
        },
    }
}

fn pair_array(a: &str, b: &str) -> (r: String)
    ensures
        r@ == json_arr(seq![json_str(a@), json_str(b@)]),
{
    json_array(&texts2(json_string(a), json_string(b)))
}

fn tun_settings_to_json() -> (r: String)
    ensures
        r@ == tun_settings_json(),
{
    let first = texts4(
        member("name", json_string(TUN_NAME).as_str()),
        member("mtu", json_number(TUN_MTU).as_str()),
        member("gateway", pair_array(TUN_GATEWAYS[0], TUN_GATEWAYS[1]).as_str()),
        member("dns", pair_array(TUN_DNS[0], TUN_DNS[1]).as_str()),
    );
    let rest = texts3(
        member("userLevel", json_number(0).as_str()),
        member("autoSystemRoutingTable", pair_array(TUN_ROUTES[0], TUN_ROUTES[1]).as_str()),
        member("autoOutboundsInterface", json_string(TUN_OUTBOUNDS_INTERFACE).as_str()),
    );
    let all = concat_texts(first, rest);
    assert(all.deep_view() =~= seq![
        json_member("name"@, json_str(TUN_NAME@)),
        json_member("mtu"@, digits_of(TUN_MTU as nat, 10)),
        json_member("gateway"@, json_arr(seq![json_str(TUN_GATEWAYS[0]@), json_str(TUN_GATEWAYS[1]@)])),
        json_member("dns"@, json_arr(seq![json_str(TUN_DNS[0]@), json_str(TUN_DNS[1]@)])),
        json_member("userLevel"@, digits_of(0, 10)),
        json_member("autoSystemRoutingTable"@, json_arr(seq![json_str(TUN_ROUTES[0]@), json_str(TUN_ROUTES[1]@)])),
        json_member("autoOutboundsInterface"@, json_str(TUN_OUTBOUNDS_INTERFACE@)),
    ]);
    json_object(&all)
}

/// The TLS member of the stream settings, when there is one.
pub open spec fn tls_members(t: Option<TlsSettings>) -> Seq<Seq<char>> {
    match t {
        Some(t) => seq![
            json_member(
                "tlsSettings"@,
                json_obj(
                    seq![
                        json_member("serverName"@, json_str(t.server_name@)),
                        json_member("fingerprint"@, json_str(t.fingerprint@)),
                        json_member("allowInsecure"@, json_bool(t.allow_insecure)),
                    ],
                ),
            ),
        ],
        None => Seq::empty(),
    }
}

fn tls_to_json(t: &Option<TlsSettings>) -> (r: Vec<String>)
    ensures
        r.deep_view() == tls_members(*t),
{
    match t {
        Some(t) => texts1(
            member(
                "tlsSettings",
                json_object(
                    &texts3(
                        member("serverName", json_string(t.server_name.as_str()).as_str()),
                        member("fingerprint", json_string(t.fingerprint.as_str()).as_str()),
                        member("allowInsecure", json_boolean(t.allow_insecure).as_str()),
                    ),
                ).as_str(),
            ),
        ),
        None => no_texts(),
    }
}

fn transport_to_json(t: &Transport) -> (r: Vec<String>)
    ensures
        r.deep_view() == transport_members(*t),
{
    match t {
        Transport::Ws { path, host_header } => {
            let headers = match host_header {
                Some(x) => texts1(member("Host", json_string(x.as_str()).as_str())),
                None => no_texts(),
            };
            let inner = json_object(
                &texts2(
                    member("path", json_string(path.as_str()).as_str()),
                    member("headers", json_object(&headers).as_str()),
                ),
            );
            texts1(member("wsSettings", inner.as_str()))
        },
        Transport::Grpc { service_name } => {
            let inner = json_object(
                &texts1(member("serviceName", json_string(service_name.as_str()).as_str())),
            );
            texts1(member("grpcSettings", inner.as_str()))
        },
        Transport::Xhttp { path, host, mode } => {
            let inner = json_object(
                &texts3(
                    member("path", json_string(path.as_str()).as_str()),
                    member("host", json_string(host.as_str()).as_str()),
                    member("mode", json_string(mode.as_str()).as_str()),
                ),
            );
            texts1(member("xhttpSettings", inner.as_str()))
        },
        Transport::Plain => no_texts(),
    }
}

fn stream_to_json(st: &StreamSettings) -> (r: String)
    ensures
        r@ == stream_json(*st),
{
    let base = texts2(
        member("network", json_string(st.network.as_str()).as_str()),
        member("security", json_string(st.security.as_str()).as_str()),
    );
    let with_tls = concat_texts(base, tls_to_json(&st.tls));
    let all = concat_texts(with_tls, transport_to_json(&st.transport));
    assert(tls_members(st.tls) == match st.tls {
        Some(t) => seq![
            json_member(
                "tlsSettings"@,
                json_obj(
                    seq![
                        json_member("serverName"@, json_str(t.server_name@)),
                        json_member("fingerprint"@, json_str(t.fingerprint@)),
                        json_member("allowInsecure"@, json_bool(t.allow_insecure)),
                    ],
                ),
            ),
        ],
        None => Seq::<Seq<char>>::empty(),
    });
    json_object(&all)
}

fn outbound_settings_to_json(o: &OutboundSettings) -> (r: String)
    ensures
        r@ == outbound_settings_json(*o),
{
    match o {
        OutboundSettings::Vless { port, id, encryption } => {
            let user = json_object(
                &texts2(
                    member("id", json_string(id.as_str()).as_str()),
                    member("encryption", json_string(encryption.as_str()).as_str()),
                ),
            );
            let server = json_object(
                &texts3(
                    member("address", json_string(OUTBOUND_ADDRESS).as_str()),
                    member("port", json_number(*port as u64).as_str()),
                    member("users", json_array(&texts1(user)).as_str()),
                ),
            );
            json_object(&texts1(member("vnext", json_array(&texts1(server)).as_str())))
        },
        OutboundSettings::Trojan { port, password } => {
            let server = json_object(
                &texts3(
                    member("address", json_string(OUTBOUND_ADDRESS).as_str()),
                    member("port", json_number(*port as u64).as_str()),
                    member("password", json_string(password.as_str()).as_str()),
                ),
            );
            json_object(&texts1(member("servers", json_array(&texts1(server)).as_str())))
        },
    }
}

fn inbounds_to_json(ins: &Vec<Inbound>) -> (r: String)
    ensures
        r@ == json_arr(ins@.map_values(|x: Inbound| inbound_json(x))),
{
    let mut out = no_texts();
    let mut i: usize = 0;
    assert(out.deep_view() =~= ins@.subrange(0, 0).map_values(|x: Inbound| inbound_json(x)));
    while i < ins.len()
        invariant
            i <= ins@.len(),
            out.deep_view() == ins@.subrange(0, i as int).map_values(|x: Inbound| inbound_json(x)),
        decreases ins@.len() - i,
    {
        push_text(&mut out, inbound_to_json(&ins[i]));
        assert(out.deep_view() =~= ins@.subrange(0, i + 1).map_values(|x: Inbound| inbound_json(x)));
        i = i + 1;
    }
    assert(ins@.subrange(0, i as int) =~= ins@);
    json_array(&out)
}

impl XrayConfig {
    /// The configuration as a compact JSON document: the same JSON value as the file that
    /// `to_pretty_json` gives, without its line breaks and indentation, and with the keys of
    /// each object in a fixed order of its own rather than sorted.
    pub fn to_json(&self) -> (r: String)
        ensures
            r@ == xray_config_json(*self),
    {
        let log = json_object(
            &texts1(member("loglevel", json_string(self.log_level.as_str()).as_str())),
        );
        let outbound = json_object(
            &texts3(
                member("protocol", json_string(self.protocol.as_str()).as_str()),
                member("settings", outbound_settings_to_json(&self.settings).as_str()),
                member("streamSettings", stream_to_json(&self.stream).as_str()),
            ),
        );
        json_object(
            &texts3(
                member("log", log.as_str()),
                member("inbounds", inbounds_to_json(&self.inbounds).as_str()),
                member("outbounds", json_array(&texts1(outbound)).as_str()),
            ),
        )
    }
}

/// What serde_json writes with `to_string_pretty` for the JSON value that `from_str` reads
/// from `text` (`None` where `text` is no JSON).
pub uninterp spec fn json_pretty(text: Seq<char>) -> Option<Seq<char>>;

/// Reads `text` with `serde_json::from_str` into a `serde_json::Value` and writes that value
/// with `serde_json::to_string_pretty`. Trusted: the result is the named function
/// `json_pretty` of the text; the message of a refusal is not stated.
#[verifier::external_body]
fn pretty_json(text: &str) -> (r: Result<String, String>)
    ensures
        r is Ok <==> json_pretty(text@) is Some,
        r matches Ok(t) ==> json_pretty(text@) == Some(t@),
{
    let value: serde_json::Value = serde_json::from_str(text).map_err(|e| e.to_string())?;
    serde_json::to_string_pretty(&value).map_err(|e| e.to_string())
}

impl XrayConfig {
    /// The configuration as the file Xray is started with: the document of `to_json`,
    /// written by serde_json's pretty printer (keys in order, two-space indentation).
    pub fn to_pretty_json(&self) -> (r: Result<String, String>)
        ensures
            r is Ok <==> json_pretty(xray_config_json(*self)) is Some,
            r matches Ok(t) ==> json_pretty(xray_config_json(*self)) == Some(t@),
    {
        let compact = self.to_json();
        pretty_json(compact.as_str())
    }
}

/// The Xray configuration file that runs the share through the local SNI listener: the
/// refusal's message, or the pretty-printed document of the configuration.
pub fn build_xray_config(
    share: &XrayShare,
    sni_listener: &str,
    http_listen: &str,
    socks_listen: &str,
    tun_enabled: bool,
    log_level: &str,
) -> (r: Result<String, String>)
    ensures
        xray_config_refusal(share@, sni_listener@, http_listen@, socks_listen@, tun_enabled)
            matches Some(m) ==> (r matches Err(e) && e@ == m),
        xray_config_refusal(share@, sni_listener@, http_listen@, socks_listen@, tun_enabled)
            is None ==> exists|c: XrayConfig|
            xray_config_outcome(
                share@,
                sni_listener@,
                http_listen@,
                socks_listen@,
                tun_enabled,
                log_level@,
                Ok(c),
            ) && (r is Ok <==> json_pretty(xray_config_json(c)) is Some) && (r matches Ok(t)
                ==> json_pretty(xray_config_json(c)) == Some(t@)),
{
    match xray_config_model(share, sni_listener, http_listen, socks_listen, tun_enabled, log_level) {
        Err(e) => Err(e),
        Ok(c) => {
            let r = c.to_pretty_json();
            assert(xray_config_outcome(
                share@,
                sni_listener@,
                http_listen@,
                socks_listen@,
                tun_enabled,
                log_level@,
                Ok(c),
            ));
            r
        },
    }
}

/// A key or value made of plain characters is written between quotes as it is.
proof fn lemma_plain_json_str(s: Seq<char>)
    requires
        forall|i: int| 0 <= i < s.len() ==> #[trigger] s[i] != '"' && s[i] != '\\' && s[i] as u32 >= 0x20,
    ensures
        json_str(s) == seq!['"'] + s + seq!['"'],
{
    lemma_plain_escape(s);
}

/// The outbound server entry, up to the key after its port, stands in the member that
/// holds the server list.
proof fn lemma_server_entry(list_key: Seq<char>, addr: Seq<char>, d: Seq<char>, last_key: Seq<char>, last: Seq<char>)
    ensures
        has_piece(
            json_member(
                list_key,
                json_arr(
                    seq![
                        json_obj(
                            seq![
                                json_member("address"@, addr),
                                json_member("port"@, d),
                                json_member(last_key, last),
                            ],
                        ),
                    ],
                ),
            ),
            json_str(list_key) + seq![':', '[', '{'] + json_member("address"@, addr) + seq![',']
                + json_str("port"@) + seq![':'] + d + seq![','] + json_str(last_key) + seq![':'],
        ),
{
    let a = json_member("address"@, addr);
    let p = json_member("port"@, d);
    let w = json_member(last_key, last);
    let three = seq![a, p, w];
    assert(three.drop_last() =~= seq![a, p]);
    assert(seq![a, p].drop_last() =~= seq![a]);
    assert(json_join(seq![a]) == a);
    assert(json_join(seq![a, p]) == json_join(seq![a]) + seq![','] + p);
    assert(json_join(three) == json_join(seq![a, p]) + seq![','] + w);
    let obj = json_obj(three);
    assert(json_join(seq![obj]) == obj);
    let piece = json_str(list_key) + seq![':', '[', '{'] + a + seq![','] + json_str("port"@) + seq![
        ':',
    ] + d + seq![','] + json_str(last_key) + seq![':'];
    let whole = json_member(list_key, json_arr(seq![obj]));
    assert(whole =~= Seq::<char>::empty() + piece + (last + seq!['}', ']']));
    lemma_piece_middle(Seq::empty(), piece, last + seq!['}', ']']);
}

/// The document holds the outbound settings' text.
proof fn lemma_document_has_settings(c: XrayConfig)
    ensures
        has_piece(xray_config_json(c), outbound_settings_json(c.settings)),
{
    let log_m = json_member("log"@, json_obj(seq![json_member("loglevel"@, json_str(c.log_level@))]));
    let in_m = json_member("inbounds"@, json_arr(c.inbounds@.map_values(|i: Inbound| inbound_json(i))));
    let set_m = json_member("settings"@, outbound_settings_json(c.settings));
    let out = json_obj(
        seq![
            json_member("protocol"@, json_str(c.protocol@)),
            set_m,
            json_member("streamSettings"@, stream_json(c.stream)),
        ],
    );
    let outs_m = json_member("outbounds"@, json_arr(seq![out]));
    let top = seq![log_m, in_m, outs_m];
    assert(xray_config_json(c) == json_obj(top));
    lemma_container_has(top, 2);
    lemma_member_has_value("outbounds"@, json_arr(seq![out]));
    lemma_piece_trans(xray_config_json(c), outs_m, json_arr(seq![out]));
    lemma_container_has(seq![out], 0);
    lemma_piece_trans(xray_config_json(c), json_arr(seq![out]), out);
    lemma_container_has(
        seq![
            json_member("protocol"@, json_str(c.protocol@)),
            set_m,
            json_member("streamSettings"@, stream_json(c.stream)),
        ],
        1,
    );
    lemma_piece_trans(xray_config_json(c), out, set_m);
    lemma_member_has_value("settings"@, outbound_settings_json(c.settings));
    lemma_piece_trans(xray_config_json(c), set_m, outbound_settings_json(c.settings));
}

/// The Trojan server entry's text, up to the key after the port, with the address
/// 127.0.0.1 and the port's digits `d`.
proof fn lemma_servers_piece(d: Seq<char>)
    ensures
        json_str("servers"@) + seq![':', '[', '{'] + json_member("address"@, json_str(OUTBOUND_ADDRESS@))
            + seq![','] + json_str("port"@) + seq![':'] + d + seq![','] + json_str("password"@)
            + seq![':'] == "\"servers\":[{\"address\":\"127.0.0.1\",\"port\":"@ + d
            + ",\"password\":"@,
{
    reveal_strlit("127.0.0.1");
    reveal_strlit("address");
    reveal_strlit("port");
    reveal_strlit("servers");
    reveal_strlit("password");
    reveal_strlit("\"servers\":[{\"address\":\"127.0.0.1\",\"port\":");
    reveal_strlit(",\"password\":");
    lemma_plain_json_str("127.0.0.1"@);
    lemma_plain_json_str("address"@);
    lemma_plain_json_str("port"@);
    lemma_plain_json_str("servers"@);
    lemma_plain_json_str("password"@);
    assert(OUTBOUND_ADDRESS@ == "127.0.0.1"@);
    assert(json_str("servers"@) + seq![':', '[', '{'] + json_member(
        "address"@,
        json_str(OUTBOUND_ADDRESS@),
    ) + seq![','] + json_str("port"@) + seq![':'] + d + seq![','] + json_str("password"@) + seq![
        ':',
    ] =~= "\"servers\":[{\"address\":\"127.0.0.1\",\"port\":"@ + d + ",\"password\":"@);
}

/// The VLESS server entry's text, up to the key after the port, with the address
/// 127.0.0.1 and the port's digits `d`.
proof fn lemma_vnext_piece(d: Seq<char>)
    ensures
        json_str("vnext"@) + seq![':', '[', '{'] + json_member("address"@, json_str(OUTBOUND_ADDRESS@))
            + seq![','] + json_str("port"@) + seq![':'] + d + seq![','] + json_str("users"@)
            + seq![':'] == "\"vnext\":[{\"address\":\"127.0.0.1\",\"port\":"@ + d
            + ",\"users\":"@,
{
    reveal_strlit("127.0.0.1");
    reveal_strlit("address");
    reveal_strlit("port");
    reveal_strlit("vnext");
    reveal_strlit("users");
    reveal_strlit("\"vnext\":[{\"address\":\"127.0.0.1\",\"port\":");
    reveal_strlit(",\"users\":");
    lemma_plain_json_str("127.0.0.1"@);
    lemma_plain_json_str("address"@);
    lemma_plain_json_str("port"@);
    lemma_plain_json_str("vnext"@);
    lemma_plain_json_str("users"@);
    assert(OUTBOUND_ADDRESS@ == "127.0.0.1"@);
    assert(json_str("vnext"@) + seq![':', '[', '{'] + json_member(
        "address"@,
        json_str(OUTBOUND_ADDRESS@),
    ) + seq![','] + json_str("port"@) + seq![':'] + d + seq![','] + json_str("users"@) + seq![
        ':',
    ] =~= "\"vnext\":[{\"address\":\"127.0.0.1\",\"port\":"@ + d + ",\"users\":"@);
}

/// The JSON document of a configuration sends the outbound to the local SNI listener:
/// for Trojan it holds `"servers":[{"address":"127.0.0.1","port":<port>,"password":`, for
/// VLESS `"vnext":[{"address":"127.0.0.1","port":<port>,"users":`, with the configured
/// server port.
pub proof fn lemma_json_outbound_port(c: XrayConfig)
    ensures
        c.settings matches OutboundSettings::Trojan { port, .. } ==> has_piece(
            xray_config_json(c),
            "\"servers\":[{\"address\":\"127.0.0.1\",\"port\":"@ + digits_of(port as nat, 10)
                + ",\"password\":"@,
        ),
        c.settings matches OutboundSettings::Vless { port, .. } ==> has_piece(
            xray_config_json(c),
            "\"vnext\":[{\"address\":\"127.0.0.1\",\"port\":"@ + digits_of(port as nat, 10)
                + ",\"users\":"@,
        ),
{
    lemma_document_has_settings(c);
    let addr = json_str(OUTBOUND_ADDRESS@);
    match c.settings {
        OutboundSettings::Trojan { port, password } => {
            let d = digits_of(port as nat, 10);
            let last = json_str(password@);
            lemma_server_entry("servers"@, addr, d, "password"@, last);
            let m = json_member(
                "servers"@,
                json_arr(
                    seq![
                        json_obj(
                            seq![
                                json_member("address"@, addr),
                                json_member("port"@, d),
                                json_member("password"@, last),
                            ],
                        ),
                    ],
                ),
            );
            assert(outbound_settings_json(c.settings) == json_obj(seq![m]));
            lemma_container_has(seq![m], 0);
            lemma_piece_trans(xray_config_json(c), outbound_settings_json(c.settings), m);
            lemma_servers_piece(d);
            lemma_piece_trans(
                xray_config_json(c),
                m,
                json_str("servers"@) + seq![':', '[', '{'] + json_member("address"@, addr) + seq![
                    ',',
                ] + json_str("port"@) + seq![':'] + d + seq![','] + json_str("password"@) + seq![
                    ':',
                ],
            );
        },
        OutboundSettings::Vless { port, id, encryption } => {
            let d = digits_of(port as nat, 10);
            let users = json_arr(
                seq![
                    json_obj(
                        seq![
                            json_member("id"@, json_str(id@)),
                            json_member("encryption"@, json_str(encryption@)),
                        ],
                    ),
                ],
            );
            lemma_server_entry("vnext"@, addr, d, "users"@, users);
            let m = json_member(
                "vnext"@,
                json_arr(
                    seq![
                        json_obj(
                            seq![
                                json_member("address"@, addr),
                                json_member("port"@, d),
                                json_member("users"@, users),
                            ],
                        ),
                    ],
                ),
            );
            assert(outbound_settings_json(c.settings) == json_obj(seq![m]));
            lemma_container_has(seq![m], 0);
            lemma_piece_trans(xray_config_json(c), outbound_settings_json(c.settings), m);
            lemma_vnext_piece(d);
            lemma_piece_trans(
                xray_config_json(c),
                m,
                json_str("vnext"@) + seq![':', '[', '{'] + json_member("address"@, addr) + seq![
                    ',',
                ] + json_str("port"@) + seq![':'] + d + seq![','] + json_str("users"@) + seq![
                    ':',
                ],
            );
        },
    }
}

/// The Xray document built for a share dials the local SNI listener: its outbound server
/// entry carries the port of the SNI listener address that was given.
pub proof fn lemma_outbound_dials_sni_listener(
    s: XrayShareView,
    sni_listener: Seq<char>,
    http_listen: Seq<char>,
    socks_listen: Seq<char>,
    tun: bool,
    log_level: Seq<char>,
    c: XrayConfig,
)
    requires
        xray_config_outcome(s, sni_listener, http_listen, socks_listen, tun, log_level, Ok(c)),
    ensures
        ({
            let port = spec_parse_socket(trim(sni_listener))->0.spec_port();
            &&& s.protocol == "trojan"@ ==> has_piece(
                xray_config_json(c),
                "\"servers\":[{\"address\":\"127.0.0.1\",\"port\":"@ + digits_of(port as nat, 10)
                    + ",\"password\":"@,
            )
            &&& s.protocol == "vless"@ ==> has_piece(
                xray_config_json(c),
                "\"vnext\":[{\"address\":\"127.0.0.1\",\"port\":"@ + digits_of(port as nat, 10)
                    + ",\"users\":"@,
            )
        }),
{
    reveal_strlit("vless");
    reveal_strlit("trojan");
    assert("vless"@ != "trojan"@) by {
        assert("vless"@[0] != "trojan"@[0]);
    }
    lemma_json_outbound_port(c);
}

} // verus!
