//! How receivers are found.

use rockcast::cast::client::service::{CastDeviceInfo, CastError, CastService};
use rockcast::cast::discovery::eureka::{body_of, describe, eureka_request, fetch_eureka};
use rockcast::cast::discovery::lan::{
    collect_lan_ipv4, is_vpn_or_virtual, score_lan_iface, virtual_interfaces, IfaceInfo, Ipv4,
};
use rockcast::cast::discovery::mdns::{
    from_resolved, mdns_wait, pick_host, plain_service_name, Resolved,
};
use rockcast::cast::discovery::subnet::{probe_cast_host, scan_shares, scan_targets};
use rockcast::cast::discovery::{
    discover, is_jbl_like, merge_device, search_goes_on, DiscoveredDevice, DiscoveryError,
    CAST_PORT,
};
use rockcast::json::parse_json;
use rockcast::local::{list_local_devices, LocalDeviceInfo};
use rockcast::output::{scan_all, scan_streaming, OutputDevice, ScanStatus};

fn ip(a: u8, b: u8, c: u8, d: u8) -> Ipv4 {
    Ipv4 { a, b, c, d }
}

#[test]
fn discovery_vpn_names_filtered() {
    assert!(is_vpn_or_virtual("AmneziaVPN"));
    assert!(is_vpn_or_virtual("vEthernet (Default Switch)"));
    assert!(!is_vpn_or_virtual("Беспроводная сеть"));
    assert!(!is_vpn_or_virtual("Wi-Fi"));
}

#[test]
fn lan_vpn_names_filtered() {
    assert!(is_vpn_or_virtual("AmneziaVPN"));
    assert!(is_vpn_or_virtual("vEthernet (Default Switch)"));
    assert!(is_vpn_or_virtual("tun0"));
    assert!(is_vpn_or_virtual("wg0"));
    assert!(is_vpn_or_virtual("amneziawg0"));
    assert!(!is_vpn_or_virtual("Беспроводная сеть"));
    assert!(!is_vpn_or_virtual("Wi-Fi"));
    assert!(!is_vpn_or_virtual("wlp2s0"));
}

#[test]
fn probe_known_jbl_on_lan() {
    let ip = ip(192, 168, 31, 109);
    let reply = b"HTTP/1.1 200 OK\r\n\r\n{\"name\":\"JBL Bar\"}".to_vec();
    let dev = probe_cast_host(true, Some(reply), ip).expect("eureka probe");
    assert_eq!(dev.host, "192.168.31.109");
    assert_eq!(dev.port, CAST_PORT);
    assert!(!dev.name.is_empty());
    assert!(probe_cast_host(false, None, ip).is_none());
}

#[test]
fn interfaces_are_scored() {
    assert_eq!(score_lan_iface("Wi-Fi", ip(192, 168, 1, 5), false, true), 170);
    assert_eq!(score_lan_iface("Ethernet", ip(10, 0, 0, 5), false, false), 110);
    assert_eq!(score_lan_iface("eth0", ip(172, 16, 0, 5), false, false), 70);
    assert_eq!(score_lan_iface("Office LAN", ip(169, 254, 0, 5), true, false), 20);
    assert_eq!(score_lan_iface("x", ip(8, 8, 8, 8), false, false), 0);
}

fn iface(name: &str, addr: Ipv4) -> IfaceInfo {
    IfaceInfo { name: name.to_string(), loopback: false, v4: Some(addr), oper_up: true }
}

#[test]
fn interfaces_are_listed_by_score() {
    let list = collect_lan_ipv4(Some(vec![
        iface("Ethernet", ip(10, 0, 0, 2)),
        iface("Wi-Fi", ip(192, 168, 1, 2)),
        iface("tun0", ip(10, 8, 0, 2)),
        iface("Wi-Fi", ip(192, 168, 1, 3)),
        iface("public", ip(8, 8, 8, 8)),
        iface("Self", ip(169, 254, 3, 3)),
        IfaceInfo { name: "lo".to_string(), loopback: true, v4: Some(ip(127, 0, 0, 1)), oper_up: true },
        IfaceInfo { name: "six".to_string(), loopback: false, v4: None, oper_up: true },
    ]));
    let names: Vec<&str> = list.iter().map(|i| i.name.as_str()).collect();
    assert_eq!(names, vec!["Wi-Fi", "Ethernet"]);
    assert!(collect_lan_ipv4(None).is_empty());
    let only = collect_lan_ipv4(Some(vec![iface("Self", ip(169, 254, 3, 3))]));
    assert_eq!(only.len(), 1);
    assert_eq!(
        virtual_interfaces(&vec!["tun0".to_string(), "eth0".to_string(), "tun0".to_string()]),
        vec!["tun0".to_string()]
    );
}

#[test]
fn every_neighbour_is_tried() {
    let lan = collect_lan_ipv4(Some(vec![
        iface("Wi-Fi", ip(192, 168, 1, 7)),
        iface("Ethernet", ip(192, 168, 1, 9)),
    ]));
    let targets = scan_targets(&lan);
    assert_eq!(targets.len(), 253);
    assert!(!targets.contains(&ip(192, 168, 1, 7)));
    assert!(targets.contains(&ip(192, 168, 1, 9)));
    let shares = scan_shares(&targets);
    assert_eq!(shares.len(), 64);
    assert_eq!(shares[0].len(), 4);
    assert_eq!(shares[63].len(), 1);
    assert_eq!(shares.concat(), targets);
    assert!(scan_shares(&vec![]).is_empty());
}

#[test]
fn receivers_describe_themselves() {
    let at = ip(192, 168, 1, 20);
    assert!(eureka_request(at).starts_with(
        "GET /setup/eureka_info?params=name,device_info,build_info HTTP/1.1\r\nHost: 192.168.1.20\r\n"
    ));
    assert_eq!(body_of("a\r\n\r\nb\r\n\r\nc"), Some("b".to_string()));
    assert_eq!(body_of("a\r\n\r\nb"), Some("b".to_string()));
    assert_eq!(body_of("a"), None);
    let v = parse_json(
        "{\"name\":\" Kitchen \",\"device_info\":{\"model_name\":\"M\"},\"mac_address\":\"aa\"}",
    )
    .unwrap();
    let info = describe(&v, at);
    assert_eq!((info.name.as_str(), info.model.as_str(), info.id.as_str()), ("Kitchen", "M", "aa"));
    let info = describe(&parse_json("{}").unwrap(), at);
    assert_eq!(info.name, "Cast 192.168.1.20");
    assert_eq!(info.id, "192.168.1.20");
    assert!(fetch_eureka(&b"HTTP/1.1 200 OK\r\n\r\nnope".to_vec(), at).is_none());
    assert!(fetch_eureka(&b"HTTP".to_vec(), at).is_none());
    let bare = probe_cast_host(true, None, at).unwrap();
    assert_eq!(bare.name, "Cast 192.168.1.20");
    assert_eq!(bare.model, "Cast");
}

fn resolved() -> Resolved {
    Resolved {
        friendly_name: None,
        model: None,
        id: None,
        fullname: "Speaker._googlecast._tcp.local.".to_string(),
        port: 0,
        v4: vec![ip(169, 254, 1, 1), ip(192, 168, 1, 4)],
        addresses: vec![],
    }
}

#[test]
fn answers_name_receivers() {
    let d = from_resolved(&resolved()).unwrap();
    assert_eq!(d.name, "Speaker");
    assert_eq!(d.host, "192.168.1.4");
    assert_eq!(d.port, 8009);
    assert_eq!(d.id, "Speaker:0");
    assert_eq!(plain_service_name("._googlecast._tcp.local."), "");
    let mut r = resolved();
    r.friendly_name = Some("Living room".to_string());
    r.id = Some("x".to_string());
    r.v4 = vec![ip(127, 0, 0, 1)];
    assert!(from_resolved(&r).is_none());
    r.addresses = vec![("::1".to_string(), true), ("fe80::1".to_string(), false)];
    let d = from_resolved(&r).unwrap();
    assert_eq!((d.name.as_str(), d.id.as_str(), d.host.as_str()), ("Living room", "x", "fe80::1"));
    assert_eq!(
        pick_host(&vec![ip(169, 254, 1, 1)], &vec![]),
        Some("169.254.1.1".to_string())
    );
}

#[test]
fn a_search_settles() {
    assert_eq!(mdns_wait(0, 6_000, None), Some(400));
    assert_eq!(mdns_wait(5_900, 6_000, None), Some(100));
    assert_eq!(mdns_wait(6_000, 6_000, None), None);
    assert_eq!(mdns_wait(1_000, 6_000, Some(1_800)), None);
    assert_eq!(mdns_wait(1_000, 6_000, Some(1_799)), Some(400));
    assert!(search_goes_on(6_499, 6_000, false, true));
    assert!(!search_goes_on(6_500, 6_000, false, false));
    assert!(!search_goes_on(0, 6_000, true, true));
}

fn device(name: &str, host: &str, id: &str) -> DiscoveredDevice {
    DiscoveredDevice {
        name: name.to_string(),
        model: String::new(),
        host: host.to_string(),
        port: 8009,
        id: id.to_string(),
    }
}

#[test]
fn reports_are_merged_by_host() {
    let mut found: Vec<DiscoveredDevice> = Vec::new();
    merge_device(&mut found, device("_x", "h", "1"));
    let mut more = device("Bedroom", "h", "long-id");
    more.model = "M".to_string();
    let now = merge_device(&mut found, more);
    assert_eq!(now.name, "Bedroom");
    assert_eq!(found.len(), 1);
    assert_eq!(found[0].id, "long-id");
    assert_eq!(found[0].model, "M");
    assert_eq!(found[0].label(), "Bedroom  [M]");
    assert_eq!(device("A", "h", "1").label(), "A  [Chromecast]");
}

#[test]
fn speakers_are_listed_first() {
    let list = discover(vec![
        device("Attic", "1", "a"),
        device("HARMAN", "2", "b"),
        device("basement", "3", "c"),
    ]);
    let names: Vec<&str> = list.iter().map(|d| d.name.as_str()).collect();
    assert_eq!(names, vec!["HARMAN", "Attic", "basement"]);
    assert!(is_jbl_like(&device("JBL", "1", "a")));
    assert_eq!(CastService::scan(vec![device("A", "1", "a")]).len(), 1);
}

fn local(id: &str) -> LocalDeviceInfo {
    LocalDeviceInfo { id: id.to_string(), name: format!("Local {id}"), cpal_name: None }
}

fn cast(name: &str) -> CastDeviceInfo {
    CastDeviceInfo { discovered: device(name, "h", "c1") }
}

#[test]
fn outputs_are_scanned() {
    let (devices, status) = scan_all(vec![local("l")], Ok(vec![cast("TV"), cast("JBL")]), "PC");
    assert_eq!(devices.len(), 3);
    assert!(devices[0].is_local());
    assert_eq!(devices[0].label("PC"), "Local l  [PC]");
    assert_eq!(devices[1].id(), "c1");
    assert_eq!(devices[1].name(), "TV");
    assert!(devices[1].as_cast().is_some());
    assert!(devices[0].as_cast().is_none());
    match status {
        ScanStatus::Found { local, cast, label } => {
            assert_eq!((local, cast), (1, 2));
            assert_eq!(label, "JBL  [Chromecast]");
        }
        other => panic!("{other:?}"),
    }
    let (devices, status) = scan_all(vec![local("l")], Ok(vec![]), "PC");
    assert_eq!(devices.len(), 1);
    assert!(matches!(status, ScanStatus::NoCast { local: 1 }));
    let bad = CastError::Discovery(DiscoveryError::Mdns("x".to_string()));
    match scan_all(vec![], Err(bad), "PC").1 {
        ScanStatus::Error { local, reason } => assert_eq!((local, reason.as_str()), (0, "mDNS: x")),
        other => panic!("{other:?}"),
    }
}

#[test]
fn a_search_reports_as_it_goes() {
    let (devices, status) =
        scan_streaming(vec![local("l")], vec![cast("A"), cast("B")], Ok(vec![cast("B")]));
    assert!(matches!(devices[0], OutputDevice::Local(_)));
    assert_eq!(devices.len(), 3);
    assert!(matches!(status, ScanStatus::Found { local: 1, cast: 1, .. }));
}

#[test]
fn there_is_an_output_of_this_computer() {
    let list = list_local_devices(None, None, "Speakers");
    assert_eq!(list.len(), 1);
    let list = list_local_devices(
        Some(vec![Some("B".to_string()), Some("A".to_string()), None]),
        Some("B".to_string()),
        "Speakers",
    );
    assert!(list.len() >= 2);
    assert!(list[0].name.contains('B'));
}
