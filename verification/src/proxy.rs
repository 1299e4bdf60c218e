use crate::config::{check_error_is, config_valid, validate, Config};
use crate::error::ProxyError;
use crate::net::IpAddr;
use vstd::prelude::*;

verus! {

broadcast use vstd::string::group_string_axioms;

/// The hint shown when the packet backend cannot be opened, for an operating system named
/// as `std::env::consts::OS` names it.
pub fn platform_privilege_hint(os: &str) -> (r: &'static str)
    ensures
        os@ == "linux"@ ==> r@ == "Run as root or grant CAP_NET_RAW to the binary."@,
        os@ == "macos"@ ==> r@ == "Run with sudo so the BPF device can be opened."@,
        os@ == "windows"@ ==> r@ == "Run as Administrator with WinDivert next to the executable."@,
        os@ != "linux"@ && os@ != "macos"@ && os@ != "windows"@ ==> r@
            == "This platform does not have a packet injection backend."@,
{
    proof {
        reveal_strlit("linux");
        reveal_strlit("macos");
        reveal_strlit("windows");
        assert("linux"@[0] != "macos"@[0]);
        assert("linux"@ != "macos"@);
        assert("linux"@.len() != "windows"@.len());
        assert("macos"@.len() != "windows"@.len());
    }
    if crate::text::same_text(os, "linux") {
        "Run as root or grant CAP_NET_RAW to the binary."
    } else if crate::text::same_text(os, "macos") {
        "Run with sudo so the BPF device can be opened."
    } else if crate::text::same_text(os, "windows") {
        "Run as Administrator with WinDivert next to the executable."
    } else {
        "This platform does not have a packet injection backend."
    }
}

/// The upstream of each listener, in order.
pub open spec fn targets_of(cfg: Config) -> Seq<(IpAddr, u16)> {
    cfg.listeners@.map_values(|l: crate::config::ListenerConfig| (l.connect.spec_ip(), l.connect.spec_port()))
}

/// The upstream IP and port of every listener, in order.
pub fn upstream_targets(cfg: &Config) -> (r: Vec<(IpAddr, u16)>)
    ensures
        r@ == targets_of(*cfg),
{
    let mut r: Vec<(IpAddr, u16)> = Vec::new();
    let mut i: usize = 0;
    while i < cfg.listeners.len()
        invariant
            i <= cfg.listeners@.len(),
            r@ == targets_of(*cfg).subrange(0, i as int),
        decreases cfg.listeners@.len() - i,
    {
        let c = cfg.listeners[i].connect;
        r.push((c.ip(), c.port()));
        assert(r@ =~= targets_of(*cfg).subrange(0, i + 1));
        i = i + 1;
    }
    assert(targets_of(*cfg).subrange(0, i as int) =~= targets_of(*cfg));
    r
}

/// What starting the proxy checks before it opens anything: the configuration must pass
/// `validate`; then the upstreams of its listeners are what the sniffer watches.
pub fn prepare_start(cfg: &Config) -> (r: Result<Vec<(IpAddr, u16)>, ProxyError>)
    ensures
        config_valid(*cfg) ==> (r matches Ok(t) && t@ == targets_of(*cfg)),
        !config_valid(*cfg) ==> (r matches Err(ProxyError::Config(e)) && check_error_is(*cfg, e)),
{
    match validate(cfg) {
        Ok(()) => Ok(upstream_targets(cfg)),
        Err(e) => Err(ProxyError::Config(e)),
    }
}

/// The addresses that were found (in order).
pub open spec fn found(s: Seq<Option<IpAddr>>) -> Seq<IpAddr>
    decreases s.len(),
{
    if s.len() == 0 {
        Seq::empty()
    } else {
        let r = found(s.drop_last());
        match s.last() {
            Some(ip) => r.push(ip),
            None => r,
        }
    }
}

/// The local addresses that route to the upstreams, from what each lookup found; the
/// proxy cannot start when none was found.
pub fn local_ips_from(resolved: &Vec<Option<IpAddr>>) -> (r: Result<Vec<IpAddr>, ProxyError>)
    ensures
        found(resolved@).len() == 0 ==> r matches Err(ProxyError::NoLocalIp),
        found(resolved@).len() > 0 ==> (r matches Ok(v) && v@ == found(resolved@)),
{
    let mut out: Vec<IpAddr> = Vec::new();
    let mut i: usize = 0;
    while i < resolved.len()
        invariant
            i <= resolved@.len(),
            out@ == found(resolved@.subrange(0, i as int)),
        decreases resolved@.len() - i,
    {
        assert(resolved@.subrange(0, i + 1).drop_last() =~= resolved@.subrange(0, i as int));
        match resolved[i] {
            Some(ip) => out.push(ip),
            None => {},
        }
        i = i + 1;
    }
    assert(resolved@.subrange(0, i as int) =~= resolved@);
    if out.len() == 0 {
        Err(ProxyError::NoLocalIp)
    } else {
        Ok(out)
    }
}

} // verus!
