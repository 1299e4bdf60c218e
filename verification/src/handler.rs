use crate::error::HandlerError;
use crate::net::{IpAddr, SocketAddr};
use crate::proto::{ConnId, SnifferResult};
use vstd::prelude::*;

verus! {

/// The connection that the sniffer watches for a client: from the local address and the
/// port the upstream socket was bound to, to the upstream.
pub fn conn_id_for(local_ip: IpAddr, local_port: u16, upstream: SocketAddr) -> (r: ConnId)
    ensures
        r == (ConnId {
            src_ip: local_ip,
            src_port: local_port,
            dst_ip: upstream.spec_ip(),
            dst_port: upstream.spec_port(),
        }),
{
    ConnId { src_ip: local_ip, src_port: local_port, dst_ip: upstream.ip(), dst_port: upstream.port() }
}

/// What the sniffer's answer means for the connection: relaying starts only once the
/// fake ClientHello is confirmed; a report of failure carries its reason; a closed
/// channel means the registration is gone.
pub fn confirmation(answer: Option<SnifferResult>) -> (r: Result<(), HandlerError>)
    ensures
        answer matches Some(SnifferResult::FakeConfirmed) ==> r is Ok,
        answer matches Some(SnifferResult::Failed(e)) ==> (r matches Err(HandlerError::SnifferFailed(m)) && m == e),
        answer is None ==> r matches Err(HandlerError::Registration),
{
    match answer {
        Some(SnifferResult::FakeConfirmed) => Ok(()),
        Some(SnifferResult::Failed(e)) => Err(HandlerError::SnifferFailed(e)),
        None => Err(HandlerError::Registration),
    }
}

/// The relay buffer in bytes for a buffer size in KiB.
pub fn relay_buffer_bytes(buffer_size: usize) -> (r: usize)
    requires
        buffer_size * 1024 <= usize::MAX,
    ensures
        r == buffer_size * 1024,
{
    buffer_size * 1024
}

} // verus!
