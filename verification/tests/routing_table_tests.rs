use custom_ospf::net::Ipv4Net;
use custom_ospf::routing_table::{delete_route_command, kernel_route, RouteEntry, RouteSource, RoutingTable, SystemRouteOp};

fn ip(a: u32, b: u32, c: u32, d: u32) -> u32 {
    (a << 24) | (b << 16) | (c << 8) | d
}

fn net(a: u32, b: u32, c: u32, d: u32, p: u8) -> Ipv4Net {
    Ipv4Net::new(ip(a, b, c, d), p).unwrap()
}

fn route(dest: Ipv4Net, hop: u32, metric: u32, source: RouteSource) -> RouteEntry {
    RouteEntry { destination: dest, next_hop: hop, interface: "eth0".to_string(), metric, source }
}

fn table() -> RoutingTable {
    RoutingTable::new(vec![net(192, 168, 1, 1, 24)])
}

fn op_summary(ops: &[SystemRouteOp]) -> Vec<(char, u32, u32)> {
    ops.iter()
        .map(|op| match op {
            SystemRouteOp::Add(r) => ('+', r.destination.ip(), r.next_hop),
            SystemRouteOp::Delete(r) => ('-', r.destination.ip(), r.next_hop),
        })
        .collect()
}

#[test]
fn direct_route_needs_no_system_operation() {
    let mut t = table();
    let ops = t.add_route(route(net(192, 168, 1, 1, 24), 0, 0, RouteSource::Direct));
    assert!(ops.is_empty());
    assert!(t.is_directly_connected(&net(192, 168, 1, 1, 24)));
    assert_eq!(t.get_routes().len(), 1);
}

#[test]
fn protocol_route_is_installed_then_found() {
    let mut t = table();
    let ops = t.add_route(route(net(10, 0, 0, 0, 24), ip(192, 168, 1, 2), 2, RouteSource::Protocol));
    assert_eq!(op_summary(&ops), vec![('+', ip(10, 0, 0, 0), ip(192, 168, 1, 2))]);
    let found = t.find_route(&net(10, 0, 0, 0, 24)).unwrap();
    assert_eq!(found.metric, 2);
    assert_eq!(t.find_route_index(&net(10, 0, 0, 0, 24)), Some(0));
}

#[test]
fn better_route_replaces_and_worse_is_kept_out() {
    let mut t = table();
    t.add_route(route(net(10, 0, 0, 0, 24), ip(192, 168, 1, 2), 3, RouteSource::Protocol));
    let ops = t.add_route(route(net(10, 0, 0, 0, 24), ip(192, 168, 1, 3), 1, RouteSource::Protocol));
    assert_eq!(
        op_summary(&ops),
        vec![('-', ip(10, 0, 0, 0), ip(192, 168, 1, 2)), ('+', ip(10, 0, 0, 0), ip(192, 168, 1, 3))]
    );
    let ops = t.add_route(route(net(10, 0, 0, 0, 24), ip(192, 168, 1, 3), 7, RouteSource::Protocol));
    assert!(ops.is_empty());
    assert_eq!(t.find_route(&net(10, 0, 0, 0, 24)).unwrap().metric, 1);
    assert_eq!(t.get_routes().len(), 1);
}

#[test]
fn invalid_routes_are_refused() {
    let mut t = table();
    // gateway outside every local network
    assert!(t.add_route(route(net(10, 0, 0, 0, 24), ip(8, 8, 8, 8), 1, RouteSource::Protocol)).is_empty());
    // loopback and unspecified gateways
    assert!(t.add_route(route(net(10, 0, 0, 0, 24), ip(127, 0, 0, 1), 1, RouteSource::Protocol)).is_empty());
    assert!(t.add_route(route(net(10, 0, 0, 0, 24), 0, 1, RouteSource::Protocol)).is_empty());
    // a local network itself
    assert!(t.add_route(route(net(192, 168, 1, 0, 24), ip(192, 168, 1, 2), 1, RouteSource::Protocol)).is_empty());
    assert_eq!(t.get_routes().len(), 0);
    assert!(!t.is_valid_route(&route(net(10, 0, 0, 0, 24), ip(8, 8, 8, 8), 1, RouteSource::Static)));
    assert!(t.is_valid_route(&route(net(10, 0, 0, 0, 24), ip(192, 168, 1, 9), 1, RouteSource::Static)));
}

#[test]
fn removed_route_is_gone() {
    let mut t = table();
    t.add_route(route(net(10, 0, 0, 0, 24), ip(192, 168, 1, 2), 2, RouteSource::Protocol));
    let ops = t.remove_route(&route(net(10, 0, 0, 0, 24), 0, 0, RouteSource::Protocol));
    assert_eq!(op_summary(&ops), vec![('-', ip(10, 0, 0, 0), ip(192, 168, 1, 2))]);
    assert!(t.find_route(&net(10, 0, 0, 0, 24)).is_none());
    assert!(t.remove_route(&route(net(10, 0, 0, 0, 24), 0, 0, RouteSource::Protocol)).is_empty());
}

#[test]
fn routes_via_dead_gateway_are_withdrawn_newest_first() {
    let mut t = table();
    t.add_route(route(net(10, 0, 0, 0, 24), ip(192, 168, 1, 2), 2, RouteSource::Protocol));
    t.add_route(route(net(10, 0, 1, 0, 24), ip(192, 168, 1, 3), 2, RouteSource::Protocol));
    t.add_route(route(net(10, 0, 2, 0, 24), ip(192, 168, 1, 2), 2, RouteSource::Protocol));
    t.add_route(route(net(10, 0, 3, 0, 24), ip(192, 168, 1, 2), 2, RouteSource::Static));
    let removed = t.remove_routes_via_nexthop(ip(192, 168, 1, 2));
    let dests: Vec<u32> = removed.iter().map(|r| r.destination.ip()).collect();
    assert_eq!(dests, vec![ip(10, 0, 2, 0), ip(10, 0, 0, 0)]);
    assert_eq!(t.get_routes().len(), 2);
    assert!(t.get_routes().iter().all(|r| !(r.next_hop == ip(192, 168, 1, 2) && r.source == RouteSource::Protocol)));
}

#[test]
fn lookup_prefers_longest_prefix_then_the_default() {
    let mut t = table();
    t.add_route(route(net(10, 0, 0, 0, 8), ip(192, 168, 1, 2), 2, RouteSource::Protocol));
    t.add_route(route(net(10, 1, 0, 0, 16), ip(192, 168, 1, 3), 2, RouteSource::Protocol));
    assert!(t.lookup_route(ip(8, 8, 8, 8)).is_none());
    t.add_route(route(net(0, 0, 0, 0, 0), ip(192, 168, 1, 4), 2, RouteSource::Static));
    assert_eq!(t.lookup_route(ip(10, 1, 2, 3)).unwrap().next_hop, ip(192, 168, 1, 3));
    assert_eq!(t.lookup_route(ip(10, 2, 0, 1)).unwrap().next_hop, ip(192, 168, 1, 2));
    assert_eq!(t.lookup_route(ip(8, 8, 8, 8)).unwrap().next_hop, ip(192, 168, 1, 4));
}

#[test]
fn stats_count_each_source() {
    let mut t = table();
    t.add_route(route(net(192, 168, 1, 1, 24), 0, 0, RouteSource::Direct));
    t.add_route(route(net(10, 0, 0, 0, 8), ip(192, 168, 1, 2), 2, RouteSource::Protocol));
    t.add_route(route(net(10, 1, 0, 0, 16), ip(192, 168, 1, 3), 2, RouteSource::Static));
    assert_eq!(t.get_stats(), (1, 1, 1));
}

#[test]
fn clearing_protocol_routes_keeps_the_others() {
    let mut t = table();
    t.add_route(route(net(192, 168, 1, 1, 24), 0, 0, RouteSource::Direct));
    t.add_route(route(net(10, 0, 0, 0, 8), ip(192, 168, 1, 2), 2, RouteSource::Protocol));
    t.add_route(route(net(10, 1, 0, 0, 16), ip(192, 168, 1, 3), 2, RouteSource::Protocol));
    let ops = t.clear_protocol_routes();
    assert_eq!(
        op_summary(&ops),
        vec![('-', ip(10, 1, 0, 0), ip(192, 168, 1, 3)), ('-', ip(10, 0, 0, 0), ip(192, 168, 1, 2))]
    );
    assert_eq!(t.get_stats(), (1, 0, 0));
}

#[test]
fn better_route_and_alternative() {
    let mut t = table();
    t.add_route(route(net(10, 0, 0, 0, 8), ip(192, 168, 1, 2), 2, RouteSource::Protocol));
    assert!(t.has_better_route(&route(net(10, 0, 0, 0, 8), ip(192, 168, 1, 3), 2, RouteSource::Protocol)));
    assert!(!t.has_better_route(&route(net(10, 0, 0, 0, 8), ip(192, 168, 1, 3), 1, RouteSource::Protocol)));
    assert!(t.find_alternative_route(&net(10, 0, 0, 0, 8), ip(192, 168, 1, 2)).is_none());
    assert_eq!(t.find_alternative_route(&net(10, 0, 0, 0, 8), ip(192, 168, 1, 9)).unwrap().metric, 2);
}

#[test]
fn kernel_route_and_delete_command() {
    let r = route(net(10, 0, 0, 7, 24), ip(192, 168, 1, 2), 2, RouteSource::Protocol);
    assert_eq!(kernel_route(&r), (ip(10, 0, 0, 0), 24, ip(192, 168, 1, 2)));
    assert_eq!(delete_route_command(&r), vec!["route", "del", "10.0.0.7/24", "via", "192.168.1.2"]);
    let d = route(net(10, 0, 0, 0, 24), 0, 0, RouteSource::Direct);
    assert_eq!(delete_route_command(&d), vec!["route", "del", "10.0.0.0/24"]);
}
