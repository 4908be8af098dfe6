use custom_ospf::config::router_config::{InterfaceConfig, RouterConfig};
use custom_ospf::control_server::{command_kind, help_commands, neighbors_of_target, CommandArgs, CommandKind};
use custom_ospf::interfaces::get_interface_ips;
use custom_ospf::message::{HelloMessage, LSAData, LSAMessage, LSAType};
use custom_ospf::neighbor::{Neighbor, NeighborManager, NeighborState};
use custom_ospf::neighbors::{select_interfaces, Discovery, DiscoveryError, LsaMsg};
use custom_ospf::net::{IpAddress, IpNet, Ipv4Net};
use custom_ospf::netlink::is_route_to;
use custom_ospf::network::interface::NetworkInterface;
use custom_ospf::network::SystemInterface;
use custom_ospf::protocol::keyed::{get_keyed, insert_keyed, remove_keyed};
use custom_ospf::protocol::packet::{classify_datagram, classify_packet, packet_tag, PacketKind};
use custom_ospf::protocol::route_manager::host_to_network_route;
use custom_ospf::protocol::routing_table::{RouteType, RoutingEntry, RoutingTable};
use custom_ospf::system::{SystemError, SystemIntegration};
use custom_ospf::text::decimal_text;
use custom_ospf::types::Route;
use custom_ospf::RouterState;

fn ip(a: u32, b: u32, c: u32, d: u32) -> u32 {
    (a << 24) | (b << 16) | (c << 8) | d
}

#[test]
fn packets_read_back_by_kind() {
    for (k, tag) in [
        (PacketKind::Hello, "HELLO:"),
        (PacketKind::Update, "UPDATE:"),
        (PacketKind::NeighborRequest, "NEIGHBOR_REQUEST:"),
        (PacketKind::NeighborResponse, "NEIGHBOR_RESPONSE:"),
    ] {
        assert_eq!(packet_tag(k), tag);
        let text = format!("{}{{\"x\":1}}", packet_tag(k));
        assert_eq!(classify_packet(&text), Some((k, "{\"x\":1}".to_string())));
    }
    assert_eq!(classify_packet("BYE:{}"), None);
    assert_eq!(classify_packet("HELLO"), None);
    assert_eq!(classify_datagram(&b"UPDATE:{}".to_vec()), Some((PacketKind::Update, "{}".to_string())));
}

#[test]
fn host_bits_are_cleared() {
    assert_eq!(host_to_network_route(&"10.0.0.7/24".to_string()).unwrap(), "10.0.0.0/24");
    assert_eq!(host_to_network_route(&"10.0.0.7".to_string()).unwrap(), "10.0.0.7/32");
    assert!(host_to_network_route(&"10.0.0.300/24".to_string()).is_err());
    assert!(host_to_network_route(&"10.0.0.7/33".to_string()).is_err());
}

#[test]
fn interface_list_from_ip_link_output() {
    let out = b"1: lo: <LOOPBACK,UP> mtu 65536\n    link/loopback 00:00\n2: eth0: <BROADCAST> mtu 1500\r\n3: veth1@if2: <UP> mtu 1500\n".to_vec();
    assert_eq!(
        SystemIntegration::get_interface_list(&out).unwrap(),
        vec!["lo".to_string(), "eth0".to_string(), "veth1".to_string()]
    );
    assert_eq!(SystemIntegration::get_interface_list(&vec![0xff, 0xfe]), Err(SystemError::InvalidUtf8));
    assert!(SystemIntegration::clear_custom_routes().is_ok());
}

#[test]
fn add_route_command_arguments() {
    let r = Route {
        destination: IpNet::V4(Ipv4Net::new(ip(10, 0, 0, 0), 24).unwrap()),
        next_hop: IpAddress::V4(ip(192, 168, 1, 2)),
        metric: 120,
        hop_count: 2,
        path: vec![],
    };
    assert_eq!(
        SystemIntegration::add_route_command(r.destination, &r),
        vec!["route", "add", "10.0.0.0/24", "via", "192.168.1.2", "metric", "120"]
    );
    assert_eq!(decimal_text(0), "0");
    assert_eq!(decimal_text(18_446_744_073_709_551_615), "18446744073709551615");
}

#[test]
fn control_commands() {
    assert_eq!(command_kind(&"status".to_string()), CommandKind::Status);
    assert_eq!(command_kind(&"neighbors_of".to_string()), CommandKind::NeighborsOf);
    assert_eq!(command_kind(&"routing_table".to_string()), CommandKind::RoutingTable);
    assert_eq!(command_kind(&"reboot".to_string()), CommandKind::Unknown);
    assert_eq!(neighbors_of_target(CommandArgs::Text("R2".to_string())), Ok("R2".to_string()));
    assert_eq!(neighbors_of_target(CommandArgs::Object(Some("R3".to_string()))), Ok("R3".to_string()));
    assert_eq!(neighbors_of_target(CommandArgs::Object(None)), Err("Missing or invalid router_id parameter".to_string()));
    assert_eq!(neighbors_of_target(CommandArgs::Missing), Err("router_id parameter required".to_string()));
    assert_eq!(neighbors_of_target(CommandArgs::Other), Err("router_id parameter required".to_string()));
    let help = help_commands();
    assert_eq!(help.len(), 7);
    assert_eq!(help[2].0, "neighbors_of");
}

#[test]
fn discovery_decisions() {
    let addrs = vec![
        ("eth0".to_string(), IpAddress::V6(1)),
        ("eth0".to_string(), IpAddress::V4(ip(10, 0, 0, 1))),
        ("wlan0".to_string(), IpAddress::V4(ip(10, 0, 1, 1))),
    ];
    assert_eq!(select_interfaces(&addrs, &vec!["eth0".to_string()]), Ok(vec![("eth0".to_string(), ip(10, 0, 0, 1))]));
    assert_eq!(select_interfaces(&addrs, &vec!["eth9".to_string()]), Err(DiscoveryError::NoIpv4Interface));
    let mut d = Discovery::new();
    d.record_message(Discovery::hello_message(&"R2".to_string()), IpAddress::V4(ip(10, 0, 0, 2)));
    d.record_message(
        LsaMsg { typ: "LSA".to_string(), sysname: "R2".to_string(), neighbors: Some(vec!["R1".to_string()]) },
        IpAddress::V4(ip(10, 0, 0, 2)),
    );
    d.record_message(LsaMsg { typ: "LSA".to_string(), sysname: "R3".to_string(), neighbors: None }, IpAddress::V4(1));
    d.record_message(LsaMsg { typ: "BYE".to_string(), sysname: "R4".to_string(), neighbors: None }, IpAddress::V4(1));
    assert_eq!(d.direct, vec![("R2".to_string(), "10.0.0.2".to_string())]);
    assert_eq!(d.lsa, vec![("R2".to_string(), vec!["R1".to_string()])]);
    let m = d.lsa_message(&"R1".to_string());
    assert_eq!(m.typ, "LSA");
    assert_eq!(m.neighbors, Some(vec!["R2".to_string()]));
    assert_eq!(Discovery::hello_message(&"R1".to_string()).typ, "HELLO");
}

#[test]
fn interface_addresses_by_name() {
    let sys = vec![
        SystemInterface { name: "eth0".to_string(), is_up: true, is_loopback: false, ipv4: vec![Ipv4Net::new(ip(10, 0, 0, 1), 24).unwrap()] },
        SystemInterface { name: "eth1".to_string(), is_up: true, is_loopback: false, ipv4: vec![] },
    ];
    let names = vec!["eth0".to_string(), "eth1".to_string(), "eth0".to_string(), "eth7".to_string()];
    assert_eq!(get_interface_ips(&names, &sys), vec![("eth0".to_string(), "10.0.0.1".to_string())]);
}

#[test]
fn ospf_messages() {
    let h = HelloMessage::new_at("R1".to_string(), "one".to_string(), 10, 40, vec!["R2".to_string()], 77);
    assert_eq!(h.area_id, 0);
    assert_eq!(h.timestamp, 77);
    assert!(h.designated_router.is_none());
    let l = LSAMessage::new_router_lsa_at("R1".to_string(), 9, vec![], 5);
    assert_eq!(l.lsa_type, LSAType::RouterLSA);
    assert_eq!(l.link_state_id, "R1");
    assert_eq!(l.advertising_router, "R1");
    assert!(matches!(l.data, LSAData::Router(ref d) if d.flags == 0 && d.links.is_empty()));
}

/// One second, in nanoseconds.
const SEC: i64 = 1_000_000_000;

fn ospf_neighbor(id: &str, last: i64, iface: &str) -> Neighbor {
    Neighbor::new_at(id.to_string(), id.to_string(), IpAddress::V4(1), iface.to_string(), 10, 40, last)
}

#[test]
fn neighbor_manager_tracks_hellos_and_deaths() {
    let mut m = NeighborManager::new(40);
    m.add_neighbor(ospf_neighbor("R2", 0, "eth0"));
    m.add_neighbor(ospf_neighbor("R3", 0, "eth1"));
    assert_eq!(m.get_neighbor_count(), 2);
    assert!(m.update_neighbor_hello_at(&"R2".to_string(), 30 * SEC));
    assert!(!m.update_neighbor_hello_at(&"R9".to_string(), 30 * SEC));
    assert_eq!(m.get_neighbor(&"R2".to_string()).unwrap().state, NeighborState::TwoWay);
    assert_eq!(m.get_active_neighbors().len(), 2);
    assert_eq!(m.get_neighbors_for_interface("eth1").len(), 1);
    // forty seconds of silence exactly is not yet too long; a nanosecond more is
    assert!(m.check_dead_neighbors_at(40 * SEC).is_empty());
    let dead = m.check_dead_neighbors_at(40 * SEC + 1);
    assert_eq!(dead, vec!["R3".to_string()]);
    assert_eq!(m.get_neighbor_count(), 1);
    assert!(m.is_neighbor_active(&"R2".to_string()));
    assert!(!m.is_neighbor_active(&"R3".to_string()));
    assert!(m.remove_neighbor(&"R2".to_string()).is_some());
    assert_eq!(m.get_neighbor_count(), 0);
    let n = ospf_neighbor("R4", 100 * SEC, "eth0");
    assert!(n.is_active());
    assert_eq!(n.time_since_last_hello_at(130 * SEC + 7), 30 * SEC as i128 + 7);
}

#[test]
fn protocol_routing_table_prefers_longest_prefix() {
    let mut t = RoutingTable::new();
    let entry = |a: u32, p: u8, hop: u32| RoutingEntry {
        destination: IpNet::V4(Ipv4Net::new(a, p).unwrap()),
        next_hop: IpAddress::V4(hop),
        interface: "eth0".to_string(),
        metric: 1,
        route_type: RouteType::Internal,
    };
    t.add_route(entry(ip(10, 0, 0, 0), 8, 1));
    t.add_route(entry(ip(10, 1, 0, 0), 16, 2));
    t.add_route(entry(ip(10, 1, 0, 1), 16, 3));
    t.add_route(entry(ip(10, 0, 0, 0), 8, 4));
    assert_eq!(t.len(), 3);
    let best = t.find_best_route(IpAddress::V4(ip(10, 1, 2, 3))).unwrap();
    assert_eq!(best.next_hop, IpAddress::V4(3));
    assert_eq!(t.find_best_route(IpAddress::V4(ip(10, 9, 9, 9))).unwrap().next_hop, IpAddress::V4(4));
    assert!(t.find_best_route(IpAddress::V4(ip(11, 0, 0, 1))).is_none());
    t.remove_route(&IpNet::V4(Ipv4Net::new(ip(10, 0, 0, 0), 8).unwrap()));
    assert!(t.get_route(&IpNet::V4(Ipv4Net::new(ip(10, 0, 0, 0), 8).unwrap())).is_none());
    t.clear();
    assert_eq!(t.len(), 0);
}

#[test]
fn configuration_and_router_state() {
    let mut c = RouterConfig::new("R1".to_string(), "one".to_string());
    let iface = |bw: u64| InterfaceConfig {
        name: "eth0".to_string(),
        ip_address: IpAddress::V4(ip(10, 0, 0, 1)),
        network: IpNet::V4(Ipv4Net::new(ip(10, 0, 0, 0), 24).unwrap()),
        bandwidth: bw,
        enabled: true,
        include_in_routing: false,
    };
    c.add_interface(iface(10));
    c.add_interface(iface(20));
    let nis = c.to_network_interfaces();
    assert_eq!(nis.len(), 1);
    assert_eq!(nis[0].1.bandwidth, 20);
    assert!(!nis[0].1.include_in_routing);
    let s = RouterState::new("R1".to_string());
    assert!(!s.enabled);
    assert!(s.neighbors.is_empty());
    let mut n = NetworkInterface::new("eth0".to_string(), IpAddress::V4(1), nis[0].1.network, 100);
    assert_eq!(n.available_bandwidth(), 100);
    n.disable();
    assert_eq!(n.available_bandwidth(), 0);
    n.enable();
    n.set_routing_enabled(false);
    assert!(!n.include_in_routing);
}

#[test]
fn keyed_tables() {
    let mut s: Vec<(String, u32)> = Vec::new();
    insert_keyed(&mut s, "a".to_string(), 1);
    insert_keyed(&mut s, "b".to_string(), 2);
    insert_keyed(&mut s, "a".to_string(), 3);
    assert_eq!(s, vec![("a".to_string(), 3), ("b".to_string(), 2)]);
    assert_eq!(get_keyed(&s, &"a".to_string()), Some(&3));
    assert_eq!(remove_keyed(&mut s, &"a".to_string()), Some(3));
    assert_eq!(get_keyed(&s, &"a".to_string()), None);
}

#[test]
fn kernel_route_matching() {
    assert!(is_route_to(Some((IpAddress::V4(ip(10, 0, 0, 0)), 24)), ip(10, 0, 0, 0), 24));
    assert!(!is_route_to(Some((IpAddress::V4(ip(10, 0, 0, 0)), 16)), ip(10, 0, 0, 0), 24));
    assert!(!is_route_to(None, ip(10, 0, 0, 0), 24));
}

#[test]
fn neighbor_liveness_by_given_time() {
    let n = custom_ospf::protocol::neighbor::Neighbor {
        router_id: "R2".to_string(),
        router_name: "two".to_string(),
        ip_address: IpAddress::V4(1),
        network: IpNet::V4(Ipv4Net::new(1, 32).unwrap()),
        bandwidth: 1,
        last_seen: 100 * SEC,
        socket_addr: custom_ospf::protocol::types::SocketAddress { ip: IpAddress::V4(1), port: 1 },
    };
    // whole seconds of silence count, rounded toward zero
    assert!(n.is_alive_at(139 * SEC, 40));
    assert!(n.is_alive_at(140 * SEC - 1, 40));
    assert!(!n.is_alive_at(140 * SEC, 40));
    assert!(n.is_alive_at(50 * SEC, 40));
}

#[test]
fn host_network_and_age_texts() {
    assert_eq!(custom_ospf::protocol::format_host_cidr("10.0.0.1"), "10.0.0.1/32");
    assert_eq!(custom_ospf::protocol::format_duration_ago(1_500_000_000), "1.5s ago");
    assert_eq!(custom_ospf::protocol::format_duration_ago(0), "0ns ago");
}

#[test]
fn clock_readings_as_signed_nanoseconds() {
    assert_eq!(custom_ospf::protocol::neighbor::nanos_from_clock(Ok(1_700_000_000)), 1_700_000_000);
    assert_eq!(custom_ospf::protocol::neighbor::nanos_from_clock(Err(5)), -5);
    assert_eq!(custom_ospf::protocol::neighbor::nanos_from_clock(Ok(u128::MAX)), i64::MAX);
    assert_eq!(custom_ospf::protocol::neighbor::nanos_from_clock(Err(u128::MAX)), -i64::MAX);
}
