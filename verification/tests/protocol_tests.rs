use custom_ospf::net::{IpAddress, Ipv4Net};
use custom_ospf::network::{Network, SystemInterface};
use custom_ospf::protocol::route_manager::RouteUpdateError;
use custom_ospf::protocol::types::{HelloMessage, NeighborRequest, NeighborResponse, RouteInfo, RoutingUpdate, SocketAddress};
use custom_ospf::protocol::{IncomingMessage, MessageError, MessageOutcome, SimpleRoutingProtocol};
use custom_ospf::routing_table::SystemRouteOp;

/// One millisecond, in the protocol's nanoseconds.
const MS: u64 = 1_000_000;

fn ip(a: u32, b: u32, c: u32, d: u32) -> u32 {
    (a << 24) | (b << 16) | (c << 8) | d
}

fn sys() -> Vec<SystemInterface> {
    vec![SystemInterface {
        name: "eth0".to_string(),
        is_up: true,
        is_loopback: false,
        ipv4: vec![Ipv4Net::new(ip(192, 168, 1, 1), 24).unwrap()],
    }]
}

fn protocol() -> SimpleRoutingProtocol {
    SimpleRoutingProtocol::new("R1".to_string(), vec!["eth0".to_string()], 5555, Network::new(), false, &sys()).unwrap()
}

fn peer(d: u32) -> SocketAddress {
    SocketAddress { ip: IpAddress::V4(ip(192, 168, 1, d)), port: 5555 }
}

fn hello(id: &str, addr: &str) -> IncomingMessage {
    IncomingMessage::Hello(HelloMessage {
        router_id: id.to_string(),
        interfaces: vec![("eth0".to_string(), addr.to_string())],
    })
}

fn update(id: &str, routes: Vec<(&str, u32, &str)>) -> RoutingUpdate {
    RoutingUpdate {
        router_id: id.to_string(),
        sequence: 1,
        routes: routes
            .into_iter()
            .map(|(d, m, h)| RouteInfo { destination: d.to_string(), metric: m, next_hop: h.to_string() })
            .collect(),
    }
}

#[test]
fn new_protocol_knows_its_interfaces() {
    let p = protocol();
    assert_eq!(p.get_status(), ("R1".to_string(), false));
    assert_eq!(p.our_ips.len(), 1);
    assert!(p.our_ips.contains(&ip(192, 168, 1, 1)));
    assert!(p.neighbors.is_empty());
    let rows = p.get_routing_table();
    assert_eq!(rows.len(), 1);
    assert_eq!(rows[0].destination, "192.168.1.1/24");
    assert_eq!(rows[0].next_hop, "direct");
    assert_eq!(rows[0].interface, "eth0");
    assert_eq!(rows[0].metric, 0);
    assert_eq!(rows[0].source, "Direct");
}

#[test]
fn new_protocol_fails_without_usable_interface() {
    let r = SimpleRoutingProtocol::new("R1".to_string(), vec!["wlan9".to_string()], 5555, Network::new(), false, &sys());
    assert!(r.is_err());
}

#[test]
fn start_and_stop_are_idempotent() {
    let mut p = protocol();
    assert!(p.start_protocol());
    assert!(!p.start_protocol());
    assert!(p.get_status().1);
    assert!(p.stop_protocol());
    assert!(!p.stop_protocol());
    assert!(!p.get_status().1);
}

#[test]
fn hello_records_a_living_neighbor() {
    let mut p = protocol();
    let r = p.handle_message(hello("R2", "192.168.1.2"), peer(2), 1000 * MS);
    assert!(matches!(r, Ok(MessageOutcome::NeighborSeen { was_dead: true })));
    let r = p.handle_message(hello("R2", "192.168.1.2"), peer(2), 2000 * MS);
    assert!(matches!(r, Ok(MessageOutcome::NeighborSeen { was_dead: false })));
    assert_eq!(p.neighbors.len(), 1);
    let n = &p.neighbors[0].1;
    assert!(n.is_alive);
    assert_eq!(n.last_seen, 2000 * MS);
    assert_eq!(n.router_info.interfaces[0].ip, ip(192, 168, 1, 2));
    assert_eq!(n.router_info.interfaces[0].network.prefix(), 32);
    assert_eq!(p.get_neighbor_ip(&"R2".to_string()), Some(ip(192, 168, 1, 2)));
    assert_eq!(p.get_neighbor_ip(&"R9".to_string()), None);
}

#[test]
fn own_hello_is_ignored_and_bad_address_refused() {
    let mut p = protocol();
    assert!(matches!(p.handle_message(hello("R1", "192.168.1.1"), peer(1), 10 * MS), Ok(MessageOutcome::Ignored)));
    assert!(p.neighbors.is_empty());
    let r = p.handle_message(hello("R2", "not an address"), peer(2), 10 * MS);
    assert!(matches!(r, Err(MessageError::BadInterfaceAddress)));
    assert!(p.neighbors.is_empty());
}

#[test]
fn update_installs_learnt_route() {
    let mut p = protocol();
    p.handle_message(hello("R2", "192.168.1.2"), peer(2), 1000 * MS).unwrap();
    let u = update("R2", vec![("10.0.0.5/24", 1, "0.0.0.0"), ("192.168.1.2/24", 0, "0.0.0.0")]);
    let r = p.handle_message(IncomingMessage::Update(u), peer(2), 1500 * MS).unwrap();
    match r {
        MessageOutcome::RoutesUpdated(ops) => {
            assert_eq!(ops.len(), 1);
            match &ops[0] {
                SystemRouteOp::Add(e) => {
                    assert_eq!(e.destination.ip(), ip(10, 0, 0, 0));
                    assert_eq!(e.destination.prefix(), 24);
                    assert_eq!(e.next_hop, ip(192, 168, 1, 2));
                    assert_eq!(e.metric, 2);
                    assert_eq!(e.interface, "eth0");
                },
                _ => panic!("expected an addition"),
            }
        },
        _ => panic!("expected routes"),
    }
    // the advertisement of our own network is recorded but cannot enter the table
    assert_eq!(p.route_states.len(), 2);
    assert_eq!(p.route_states[0].0, "10.0.0.0/24");
    assert_eq!(p.route_states[1].0, "192.168.1.0/24");
    assert_eq!(p.router.routing_table.get_routes().len(), 2);
    assert_eq!(p.route_states[0].1.advertising_neighbor, "R2");
    assert_eq!(p.route_states[0].1.last_advertised, 1500 * MS);
    assert_eq!(p.neighbors[0].1.last_seen, 1500 * MS);
    assert_eq!(p.router.get_routing_stats(), "Routes: 2 total (1 direct, 1 protocol, 0 static)");
}

#[test]
fn update_errors() {
    let mut p = protocol();
    let u = update("R2", vec![("10.0.0.5/24", 1, "0.0.0.0")]);
    let v6 = SocketAddress { ip: IpAddress::V6(1), port: 5555 };
    assert!(matches!(p.handle_message(IncomingMessage::Update(u), v6, 5 * MS), Err(MessageError::Route(RouteUpdateError::NotIpv4))));
    let u = update("R2", vec![("10.0.0.5/24", u32::MAX, "0.0.0.0")]);
    assert!(matches!(
        p.handle_message(IncomingMessage::Update(u), peer(2), 5 * MS),
        Err(MessageError::Route(RouteUpdateError::MetricOverflow))
    ));
    assert!(p.route_states.is_empty());
    let own = update("R1", vec![("10.0.0.5/24", 1, "0.0.0.0")]);
    assert!(matches!(p.handle_message(IncomingMessage::Update(own), peer(2), 5 * MS), Ok(MessageOutcome::Ignored)));
}

#[test]
fn cleanup_withdraws_routes_of_dead_neighbor() {
    let mut p = protocol();
    p.handle_message(hello("R2", "192.168.1.2"), peer(2), 1000 * MS).unwrap();
    let u = update("R2", vec![("10.0.0.5/24", 1, "0.0.0.0")]);
    p.handle_message(IncomingMessage::Update(u), peer(2), 1000 * MS).unwrap();
    let report = p.perform_cleanup(12_000 * MS);
    assert!(report.dead.is_empty());
    assert!(report.ops.is_empty());
    let report = p.perform_cleanup(13_001 * MS);
    assert_eq!(report.dead, vec!["R2".to_string()]);
    assert!(!p.neighbors[0].1.is_alive);
    assert!(p.route_states.is_empty());
    assert_eq!(report.ops.len(), 1);
    assert!(matches!(&report.ops[0], SystemRouteOp::Delete(e) if e.destination.ip() == ip(10, 0, 0, 0)));
    assert_eq!(p.router.routing_table.get_routes().len(), 1);
    // heard from within the timeout again (by the clock the cleanup is given)
    let report = p.perform_cleanup(2_000 * MS);
    assert_eq!(report.revived, vec!["R2".to_string()]);
    assert!(p.neighbors[0].1.is_alive);
}

#[test]
fn cleanup_withdraws_stale_route_of_living_neighbor() {
    let mut p = protocol();
    p.handle_message(hello("R2", "192.168.1.2"), peer(2), 1000 * MS).unwrap();
    let u = update("R2", vec![("10.0.0.5/24", 1, "0.0.0.0")]);
    p.handle_message(IncomingMessage::Update(u), peer(2), 1000 * MS).unwrap();
    p.handle_message(hello("R2", "192.168.1.2"), peer(2), 16_000 * MS).unwrap();
    let report = p.perform_cleanup(17_001 * MS);
    assert!(report.dead.is_empty());
    assert!(p.route_states.is_empty());
    assert_eq!(report.ops.len(), 1);
}

#[test]
fn remove_routes_by_destination() {
    let mut p = protocol();
    p.handle_message(hello("R2", "192.168.1.2"), peer(2), 1000 * MS).unwrap();
    let u = update("R2", vec![("10.0.0.5/24", 1, "0.0.0.0")]);
    p.handle_message(IncomingMessage::Update(u), peer(2), 1000 * MS).unwrap();
    let ops = p.remove_routes(&vec!["10.0.0.0/24".to_string(), "unknown".to_string()]);
    assert_eq!(ops.len(), 1);
    assert!(p.route_states.is_empty());
    assert_eq!(p.router.routing_table.get_routes().len(), 1);
}

#[test]
fn neighbor_requests_and_responses() {
    let mut p = protocol();
    p.handle_message(hello("R2", "192.168.1.2"), peer(2), 1000 * MS).unwrap();
    let q = NeighborRequest {
        requesting_router_id: "R3".to_string(),
        request_id: "q1".to_string(),
        target_router_id: "R1".to_string(),
    };
    match p.handle_message(IncomingMessage::NeighborRequest(q), peer(3), 2000 * MS).unwrap() {
        MessageOutcome::Reply(resp) => {
            assert_eq!(resp.responding_router_id, "R1");
            assert_eq!(resp.request_id, "q1");
            assert_eq!(resp.neighbors.len(), 1);
            assert_eq!(resp.neighbors[0].router_id, "R2");
            assert_eq!(resp.neighbors[0].ip_address, "192.168.1.2");
            assert_eq!(resp.neighbors[0].last_seen, "1s ago");
            assert!(resp.neighbors[0].is_alive);
            assert_eq!(resp.neighbors[0].interfaces, vec!["192.168.1.2".to_string()]);
        },
        _ => panic!("expected a reply"),
    }
    let other = NeighborRequest {
        requesting_router_id: "R3".to_string(),
        request_id: "q2".to_string(),
        target_router_id: "R9".to_string(),
    };
    assert!(matches!(p.handle_message(IncomingMessage::NeighborRequest(other), peer(3), 2000 * MS), Ok(MessageOutcome::Ignored)));

    let req = p.begin_neighbor_request(&"R2".to_string(), "q7".to_string(), 50 * MS);
    assert_eq!(req.requesting_router_id, "R1");
    assert_eq!(req.target_router_id, "R2");
    let resp = || NeighborResponse { responding_router_id: "R2".to_string(), request_id: "q7".to_string(), neighbors: vec![] };
    assert!(matches!(
        p.handle_message(IncomingMessage::NeighborResponse(resp()), peer(2), 60 * MS),
        Ok(MessageOutcome::Deliver { .. })
    ));
    assert!(matches!(
        p.handle_message(IncomingMessage::NeighborResponse(resp()), peer(2), 60 * MS),
        Ok(MessageOutcome::UnknownResponse)
    ));
}

#[test]
fn expired_requests_are_forgotten() {
    let mut p = protocol();
    p.begin_neighbor_request(&"R2".to_string(), "old".to_string(), 0 * MS);
    p.begin_neighbor_request(&"R3".to_string(), "new".to_string(), 20_000 * MS);
    let gone = p.cleanup_expired_requests(30_001 * MS);
    assert_eq!(gone, vec!["old".to_string()]);
    assert_eq!(p.pending_neighbor_requests.len(), 1);
    assert_eq!(p.pending_neighbor_requests[0].0, "new");
    p.abandon_neighbor_request(&"new".to_string());
    assert!(p.pending_neighbor_requests.is_empty());
}

#[test]
fn hello_update_and_targets() {
    let mut p = protocol();
    let h = p.build_hello();
    assert_eq!(h.router_id, "R1");
    assert_eq!(h.interfaces, vec![("eth0".to_string(), "192.168.1.1".to_string())]);
    let u = p.next_update();
    assert_eq!(u.sequence, 1);
    assert_eq!(u.routes.len(), 1);
    assert_eq!(u.routes[0].destination, "192.168.1.1/24");
    assert_eq!(u.routes[0].next_hop, "0.0.0.0");
    assert_eq!(p.next_update().sequence, 2);
    let t = p.broadcast_targets();
    assert_eq!(t, vec![SocketAddress { ip: IpAddress::V4(ip(192, 168, 1, 255)), port: 5555 }]);
    assert!(p.is_own_packet(peer(1)));
    assert!(!p.is_own_packet(peer(2)));
    assert!(!p.is_own_packet(SocketAddress { ip: IpAddress::V6(1), port: 1 }));
}

#[test]
fn neighbors_of_ourselves_or_another() {
    let mut p = protocol();
    p.handle_message(hello("R2", "192.168.1.2"), peer(2), 1000 * MS).unwrap();
    assert_eq!(p.get_neighbors_of(&"R1".to_string(), 1000 * MS).unwrap().len(), 1);
    assert!(p.get_neighbors_of(&"R2".to_string(), 1000 * MS).is_none());
}

#[test]
fn equal_metric_route_through_another_gateway_fails_over() {
    let mut p = protocol();
    let u = update("R2", vec![("10.0.0.5/24", 1, "0.0.0.0")]);
    p.handle_message(IncomingMessage::Update(u), peer(2), 1000 * MS).unwrap();
    let u = update("R3", vec![("10.0.0.0/24", 1, "0.0.0.0")]);
    match p.handle_message(IncomingMessage::Update(u), peer(3), 2000 * MS).unwrap() {
        MessageOutcome::RoutesUpdated(ops) => {
            assert_eq!(ops.len(), 2);
            assert!(matches!(&ops[0], SystemRouteOp::Delete(e) if e.next_hop == ip(192, 168, 1, 2)));
            assert!(matches!(&ops[1], SystemRouteOp::Add(e) if e.next_hop == ip(192, 168, 1, 3) && e.metric == 2));
        },
        _ => panic!("expected routes"),
    }
    let routes = p.router.routing_table.get_routes();
    assert_eq!(routes.len(), 2);
    assert_eq!(routes[1].next_hop, ip(192, 168, 1, 3));
    assert_eq!(p.route_states.len(), 1);
    assert_eq!(p.route_states[0].0, "10.0.0.0/24");
    assert_eq!(p.route_states[0].1.advertising_neighbor, "R3");
    // the same route again changes nothing
    let u = update("R3", vec![("10.0.0.0/24", 1, "0.0.0.0")]);
    match p.handle_message(IncomingMessage::Update(u), peer(3), 3000 * MS).unwrap() {
        MessageOutcome::RoutesUpdated(ops) => assert!(ops.is_empty()),
        _ => panic!("expected routes"),
    }
}

#[test]
fn neighbor_dies_a_nanosecond_after_the_timeout() {
    let mut p = protocol();
    p.handle_message(hello("R2", "192.168.1.2"), peer(2), 5).unwrap();
    assert!(p.perform_cleanup(12_000_000_005).dead.is_empty());
    assert_eq!(p.perform_cleanup(12_000_000_006).dead, vec!["R2".to_string()]);
    let n = &p.get_neighbors(12_000_001_505)[0];
    assert_eq!(n.last_seen, "12.0000015s ago");
}
