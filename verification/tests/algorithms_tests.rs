use custom_ospf::algorithms::dijkstra::{calculate_shortest_paths, find_next_hop, reconstruct_path, shortest_distances};
use custom_ospf::net::{IpAddress, IpNet, Ipv4Net};
use custom_ospf::network::topology::{Link, RouterInfo, Topology};
use custom_ospf::protocol::messages::LSAMessage;
use custom_ospf::protocol::neighbor::Neighbor;
use custom_ospf::protocol::types::SocketAddress;
use custom_ospf::routing::compute_routes;

fn ip(a: u32, b: u32, c: u32, d: u32) -> u32 {
    (a << 24) | (b << 16) | (c << 8) | d
}

fn net(c: u32) -> IpNet {
    IpNet::V4(Ipv4Net::new(ip(10, 0, c, 0), 24).unwrap())
}

fn router(id: &str, nets: Vec<IpNet>) -> (String, RouterInfo) {
    (id.to_string(), RouterInfo { id: id.to_string(), name: id.to_string(), networks: nets })
}

fn link(a: &str, b: &str, avail: u64, active: bool) -> Link {
    Link {
        from_router: a.to_string(),
        to_router: b.to_string(),
        network: net(99),
        bandwidth: avail,
        available_bandwidth: avail,
        active,
    }
}

fn topology() -> Topology {
    let mut t = Topology::new();
    t.routers = vec![
        router("A", vec![net(1)]),
        router("B", vec![net(2)]),
        router("C", vec![net(3)]),
        router("D", vec![net(4)]),
    ];
    t.links = vec![link("A", "B", 100_000_000, true), link("B", "C", 1_000_000_000, true), link("A", "C", 10_000_000, true)];
    t
}

#[test]
fn link_cost_formula() {
    assert_eq!(Topology::calculate_link_cost(&link("A", "B", 100_000_000, true)), 10);
    assert_eq!(Topology::calculate_link_cost(&link("A", "B", 3_000_000_000, true)), 1);
    assert_eq!(Topology::calculate_link_cost(&link("A", "B", 0, true)), u32::MAX);
    assert_eq!(Topology::calculate_link_cost(&link("A", "B", 3, true)), 333_333_333);
}

#[test]
fn shortest_paths_to_every_reachable_network() {
    let t = topology();
    let paths = calculate_shortest_paths(&t, "A");
    assert_eq!(paths.len(), 3);
    assert_eq!(paths[0].0, net(1));
    assert_eq!(paths[0].1.cost, 0);
    assert_eq!(paths[0].1.next_hop, None);
    assert_eq!(paths[0].1.path, vec!["A".to_string()]);
    assert_eq!(paths[1].0, net(2));
    assert_eq!(paths[1].1.cost, 10);
    assert_eq!(paths[1].1.next_hop, Some("B".to_string()));
    assert_eq!(paths[1].1.path, vec!["A".to_string(), "B".to_string()]);
    assert_eq!(paths[2].0, net(3));
    assert_eq!(paths[2].1.cost, 11);
    assert_eq!(paths[2].1.next_hop, Some("B".to_string()));
    assert_eq!(paths[2].1.path, vec!["A".to_string(), "B".to_string(), "C".to_string()]);
}

#[test]
fn inactive_links_are_not_used() {
    let mut t = topology();
    t.links[1].active = false;
    let paths = calculate_shortest_paths(&t, "A");
    assert_eq!(paths[2].0, net(3));
    assert_eq!(paths[2].1.cost, 100);
    assert_eq!(paths[2].1.next_hop, Some("C".to_string()));
}

#[test]
fn links_are_used_both_ways() {
    let t = topology();
    let paths = calculate_shortest_paths(&t, "C");
    assert_eq!(paths[0].1.cost, 11);
    assert_eq!(paths[0].1.path, vec!["C".to_string(), "B".to_string(), "A".to_string()]);
}

#[test]
fn index_dijkstra_and_paths() {
    let edges = vec![(0usize, 1usize, 5u32), (1, 2, 5), (0, 2, 20)];
    let (dist, prev) = shortest_distances(4, &edges);
    assert_eq!(dist, vec![Some(0), Some(5), Some(10), None]);
    assert_eq!(prev, vec![None, Some(0), Some(1), None]);
    assert_eq!(reconstruct_path(&prev, 2), vec![0, 1, 2]);
    assert_eq!(find_next_hop(&prev, 0, 2), Some(1));
    assert_eq!(find_next_hop(&prev, 0, 0), None);
    assert_eq!(find_next_hop(&prev, 0, 3), None);
}

fn neighbor(id: &str, c: u32, bw: u64) -> Neighbor {
    Neighbor {
        router_id: id.to_string(),
        router_name: format!("{}-name", id),
        ip_address: IpAddress::V4(ip(10, 0, c, 1)),
        network: net(c),
        bandwidth: bw,
        last_seen: 0,
        socket_addr: SocketAddress { ip: IpAddress::V4(ip(10, 0, c, 1)), port: 5555 },
    }
}

#[test]
fn topology_learns_from_advertisements() {
    let mut t = Topology::new();
    let lsa = LSAMessage {
        router_id: "A".to_string(),
        sequence: 1,
        neighbors: vec![neighbor("B", 2, 1_000_000), neighbor("C", 3, 2_000_000)],
        networks: vec![net(1), net(5)],
    };
    t.update_from_lsa(&lsa);
    assert_eq!(t.routers.len(), 1);
    assert_eq!(t.links.len(), 2);
    // an advertisement from B does not duplicate the link to A
    let lsa_b = LSAMessage { router_id: "B".to_string(), sequence: 1, neighbors: vec![neighbor("A", 1, 5)], networks: vec![net(2)] };
    t.update_from_lsa(&lsa_b);
    assert_eq!(t.links.len(), 2);
    assert_eq!(t.get_neighbors(&"A".to_string()), vec![("B".to_string(), 1000), ("C".to_string(), 500)]);
    assert_eq!(t.get_all_networks(), vec![net(1), net(2), net(5)]);
    t.remove_neighbor(&"B".to_string());
    assert_eq!(t.routers.len(), 1);
    assert_eq!(t.links.len(), 1);
    assert!(t.links.iter().all(|l| l.from_router != "B" && l.to_router != "B"));
}

#[test]
fn adding_a_neighbor_refreshes_its_link() {
    let mut t = Topology::new();
    t.links = vec![Link {
        from_router: "A".to_string(),
        to_router: "B".to_string(),
        network: net(2),
        bandwidth: 1,
        available_bandwidth: 1,
        active: false,
    }];
    t.add_neighbor(neighbor("B", 2, 500));
    assert_eq!(t.routers.len(), 1);
    assert_eq!(t.routers[0].1.name, "B-name");
    assert_eq!(t.links[0].bandwidth, 500);
    assert_eq!(t.links[0].available_bandwidth, 500);
    assert!(t.links[0].active);
}

fn graph(edges: &[(&str, &[&str])]) -> Vec<(String, Vec<String>)> {
    edges.iter().map(|(k, vs)| (k.to_string(), vs.iter().map(|v| v.to_string()).collect())).collect()
}

#[test]
fn breadth_first_routes_are_shortest() {
    let g = graph(&[("A", &["B", "C"]), ("B", &["D"]), ("C", &["D", "E"]), ("D", &["E"])]);
    let mut routes = compute_routes(&g, "A");
    routes.sort_by(|x, y| x.0.cmp(&y.0));
    let as_text: Vec<(String, Vec<String>)> = routes;
    assert_eq!(
        as_text,
        graph(&[("B", &["A", "B"]), ("C", &["A", "C"]), ("D", &["A", "B", "D"]), ("E", &["A", "C", "E"])])
    );
}

#[test]
fn source_appears_only_when_a_route_leads_back() {
    let g = graph(&[("A", &["B"]), ("B", &["A"])]);
    let mut routes = compute_routes(&g, "A");
    routes.sort_by(|x, y| x.0.cmp(&y.0));
    assert_eq!(routes, graph(&[("A", &["A", "B", "A"]), ("B", &["A", "B"])]));
    let lone = compute_routes(&graph(&[("X", &[])]), "A");
    assert!(lone.is_empty());
}

#[test]
fn breadth_first_keeps_the_route_found_first() {
    let g = graph(&[("A", &["B", "C"]), ("B", &["D"]), ("C", &["D"])]);
    let routes = compute_routes(&g, "A");
    assert_eq!(routes, graph(&[("B", &["A", "B"]), ("C", &["A", "C"]), ("D", &["A", "B", "D"])]));
    let g = graph(&[("A", &["C", "B"]), ("B", &["D"]), ("C", &["D"])]);
    let routes = compute_routes(&g, "A");
    assert_eq!(routes, graph(&[("C", &["A", "C"]), ("B", &["A", "B"]), ("D", &["A", "C", "D"])]));
}
