use minecraft_pinger::common::dns::{resolve_step, srv_record_name, ResolveAction, ResolveEvent, ResolveState};
use minecraft_pinger::common::ip_filter::{IpAddress, SocketAddress};
use minecraft_pinger::error::PingError;

#[test]
fn srv_record_names() {
    assert_eq!(srv_record_name("tcp", "mc.hypixel.net"), "_minecraft._tcp.mc.hypixel.net");
    assert_eq!(srv_record_name("udp", "example.org"), "_minecraft._udp.example.org");
}

#[test]
fn literal_address_is_used_with_the_default_port() {
    let ip = IpAddress::V4([51, 75, 20, 104]);
    let (state, action) =
        resolve_step(ResolveState::Start { default_port: 25565 }, ResolveEvent::HostChecked(Some(ip)));
    assert_eq!(state, ResolveState::Finished);
    match action {
        ResolveAction::Finish(Ok(addrs)) => assert_eq!(addrs, vec![SocketAddress { ip, port: 25565 }]),
        _ => panic!("expected the literal address"),
    }
}

#[test]
fn srv_addresses_win_over_the_host_lookup() {
    let (state, action) =
        resolve_step(ResolveState::Start { default_port: 25565 }, ResolveEvent::HostChecked(None));
    assert_eq!(state, ResolveState::AwaitingSrv { default_port: 25565 });
    assert!(matches!(action, ResolveAction::LookupSrv));
    let found = vec![SocketAddress { ip: IpAddress::V4([1, 2, 3, 4]), port: 25577 }];
    let (state, action) = resolve_step(state, ResolveEvent::SrvAnswered(found.clone()));
    assert_eq!(state, ResolveState::Finished);
    match action {
        ResolveAction::Finish(Ok(addrs)) => assert_eq!(addrs, found),
        _ => panic!("expected the SRV addresses"),
    }
}

#[test]
fn empty_srv_falls_back_to_the_host() {
    let state = ResolveState::AwaitingSrv { default_port: 19132 };
    let (state, action) = resolve_step(state, ResolveEvent::SrvAnswered(vec![]));
    assert_eq!(state, ResolveState::AwaitingHost { default_port: 19132 });
    assert!(matches!(action, ResolveAction::LookupHost));
    let ips = vec![IpAddress::V4([8, 8, 8, 8]), IpAddress::V6([0x2606, 0x4700, 0, 0, 0, 0, 0, 1])];
    let (state, action) = resolve_step(state, ResolveEvent::HostAnswered(Ok(ips.clone())));
    assert_eq!(state, ResolveState::Finished);
    match action {
        ResolveAction::Finish(Ok(addrs)) => assert_eq!(
            addrs,
            vec![SocketAddress { ip: ips[0], port: 19132 }, SocketAddress { ip: ips[1], port: 19132 }]
        ),
        _ => panic!("expected the host addresses"),
    }
}

#[test]
fn host_lookup_failures() {
    let state = ResolveState::AwaitingHost { default_port: 25565 };
    let (_, action) = resolve_step(state, ResolveEvent::HostAnswered(Ok(vec![])));
    assert!(matches!(action, ResolveAction::Finish(Err(PingError::DnsIpNotFound))));
    let (_, action) = resolve_step(state, ResolveEvent::HostAnswered(Err("no such host".into())));
    match action {
        ResolveAction::Finish(Err(e @ PingError::DnsParse(_))) => {
            assert_eq!(e.to_string(), "DNS parse error: no such host")
        },
        _ => panic!("expected a DNS error"),
    }
}
