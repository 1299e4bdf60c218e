use crate::net::IpAddr;
use vstd::prelude::*;

verus! {

/// A TCP connection from the local side to an upstream, by its four-tuple.
#[derive(Debug, Clone, Copy, PartialEq, Eq, Hash, Structural)]
pub struct ConnId {
    pub src_ip: IpAddr,
    pub src_port: u16,
    pub dst_ip: IpAddr,
    pub dst_port: u16,
}

/// What the sniffer reports to the connection handler.
#[derive(Debug)]
pub enum SnifferResult {
    FakeConfirmed,
    Failed(String),
}

} // verus!
