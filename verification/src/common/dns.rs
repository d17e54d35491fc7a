//! The decisions of address resolution: a literal IP, then the SRV record,
//! then the host's own addresses.
use crate::common::ip_filter::{IpAddress, SocketAddress, with_port};
use crate::error::PingError;
use vstd::prelude::*;

verus! {

/// The SRV record that names a Minecraft server: `_minecraft._{protocol}.{host}`.
pub fn srv_record_name(protocol: &str, host: &str) -> (r: String)
    ensures
        r@ == "_minecraft._"@ + protocol@ + "."@ + host@,
{
    let mut r = String::from_str("_minecraft._");
    r.append(protocol);
    r.append(".");
    r.append(host);
    r
}

/// Where the resolution of a host stands; each state keeps the port to use
/// when none comes from an SRV record.
#[derive(Debug, Clone, Copy, PartialEq, Eq, Structural)]
pub enum ResolveState {
    /// Nothing is known yet.
    Start { default_port: u16 },
    /// The host is no IP address; its SRV record is being looked up.
    AwaitingSrv { default_port: u16 },
    /// The SRV record gave no address; the host's own addresses are being looked up.
    AwaitingHost { default_port: u16 },
    /// The resolution has ended.
    Finished,
}

/// What the outside world answered.
pub enum ResolveEvent {
    /// Whether the host text is itself an IP address.
    HostChecked(Option<IpAddress>),
    /// The addresses that the targets of the SRV record resolved to, with the
    /// record's port; none when the lookup failed or found nothing.
    SrvAnswered(Vec<SocketAddress>),
    /// The result of looking up the host's own addresses.
    HostAnswered(Result<Vec<IpAddress>, hickory_resolver::net::NetError>),
}

/// What to do next.
pub enum ResolveAction {
    /// Look up the SRV record named by `srv_record_name`.
    LookupSrv,
    /// Look up the host's own addresses.
    LookupHost,
    /// Stop with this result.
    Finish(Result<Vec<SocketAddress>, PingError>),
}

/// The event that a state waits for.
pub open spec fn event_fits(state: ResolveState, event: ResolveEvent) -> bool {
    match state {
        ResolveState::Start { .. } => event is HostChecked,
        ResolveState::AwaitingSrv { .. } => event is SrvAnswered,
        ResolveState::AwaitingHost { .. } => event is HostAnswered,
        ResolveState::Finished => false,
    }
}

/// One step of resolution: an IP literal is used as it is, with the default
/// port; otherwise the SRV record's addresses are used when it gives any;
/// otherwise the host's own addresses with the default port; a failed host
/// lookup is a DNS error, and one that finds nothing is `DnsIpNotFound`.
pub fn resolve_step(state: ResolveState, event: ResolveEvent) -> (r: (ResolveState, ResolveAction))
    requires
        event_fits(state, event),
    ensures
        match (state, event) {
            (ResolveState::Start { default_port }, ResolveEvent::HostChecked(Some(ip))) => {
                &&& r.0 == ResolveState::Finished
                &&& r.1 matches ResolveAction::Finish(Ok(a)) && a@ == seq![
                    (SocketAddress { ip, port: default_port }),
                ]
            },
            (ResolveState::Start { default_port }, ResolveEvent::HostChecked(None)) => {
                &&& r.0 == (ResolveState::AwaitingSrv { default_port })
                &&& r.1 is LookupSrv
            },
            (ResolveState::AwaitingSrv { default_port }, ResolveEvent::SrvAnswered(addrs)) => {
                if addrs@.len() > 0 {
                    &&& r.0 == ResolveState::Finished
                    &&& r.1 matches ResolveAction::Finish(Ok(a)) && a@ == addrs@
                } else {
                    &&& r.0 == (ResolveState::AwaitingHost { default_port })
                    &&& r.1 is LookupHost
                }
            },
            (ResolveState::AwaitingHost { .. }, ResolveEvent::HostAnswered(Err(e))) => {
                &&& r.0 == ResolveState::Finished
                &&& r.1 matches ResolveAction::Finish(Err(PingError::DnsParse(e2))) && e2 == e
            },
            (ResolveState::AwaitingHost { default_port }, ResolveEvent::HostAnswered(Ok(ips))) => {
                &&& r.0 == ResolveState::Finished
                &&& if ips@.len() == 0 {
                    r.1 matches ResolveAction::Finish(Err(PingError::DnsIpNotFound))
                } else {
                    r.1 matches ResolveAction::Finish(Ok(a)) && a@ == ips@.map_values(
                        |ip: IpAddress| (SocketAddress { ip, port: default_port }),
                    )
                }
            },
            _ => false,
        },
{
    match (state, event) {
        (ResolveState::Start { default_port }, ResolveEvent::HostChecked(Some(ip))) => {
            let mut addrs: Vec<SocketAddress> = Vec::new();
            addrs.push(SocketAddress { ip, port: default_port });
            assert(addrs@ =~= seq![SocketAddress { ip, port: default_port }]);
            (ResolveState::Finished, ResolveAction::Finish(Ok(addrs)))
        },
        (ResolveState::Start { default_port }, ResolveEvent::HostChecked(None)) => {
            (ResolveState::AwaitingSrv { default_port }, ResolveAction::LookupSrv)
        },
        (ResolveState::AwaitingSrv { default_port }, ResolveEvent::SrvAnswered(addrs)) => {
            if addrs.len() > 0 {
                (ResolveState::Finished, ResolveAction::Finish(Ok(addrs)))
            } else {
                (ResolveState::AwaitingHost { default_port }, ResolveAction::LookupHost)
            }
        },
        (ResolveState::AwaitingHost { default_port }, ResolveEvent::HostAnswered(Err(e))) => {
            (ResolveState::Finished, ResolveAction::Finish(Err(PingError::DnsParse(e))))
        },
        (ResolveState::AwaitingHost { default_port }, ResolveEvent::HostAnswered(Ok(ips))) => {
            if ips.len() == 0 {
                (ResolveState::Finished, ResolveAction::Finish(Err(PingError::DnsIpNotFound)))
            } else {
                (ResolveState::Finished, ResolveAction::Finish(Ok(with_port(&ips, default_port))))
            }
        },
        _ => {
            proof {
                assert(false);
            }
            (ResolveState::Finished, ResolveAction::LookupHost)
        },
    }
}

} // verus!
