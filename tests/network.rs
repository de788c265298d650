use osm_canvas::network::{is_route_way, Network};
use osm_canvas::osm::{Tags, Way};

fn way(highway: &str, nodes: &[i64]) -> Way {
    Way {
        tags: Tags::from_pairs(vec![("highway".to_string(), highway.to_string())]),
        nodes: nodes.to_vec(),
    }
}

#[test]
fn route_values() {
    assert!(is_route_way(&way("living_street", &[]).tags));
    assert!(is_route_way(&way("primary", &[]).tags));
    assert!(!is_route_way(&way("footway", &[]).tags));
    assert!(!is_route_way(&Tags::new()));
}

#[test]
fn junctions_are_nodes_shared_by_route_ways() {
    let ways = vec![
        (10, way("primary", &[1, 2, 3])),
        (11, way("residential", &[3, 4, 5, 3])),
        (12, way("footway", &[1, 4])),
        (13, way("service", &[5, 6, 2])),
    ];
    let network = Network::new(&ways);
    let mut junctions: Vec<(i64, Vec<i64>)> = network
        .intersections
        .into_iter()
        .map(|(node, mut ids)| {
            ids.sort();
            (node, ids)
        })
        .collect();
    junctions.sort();
    assert_eq!(junctions, vec![(2, vec![10, 13]), (3, vec![10, 11]), (5, vec![11, 13])]);
}

#[test]
fn no_junctions_without_shared_nodes() {
    let ways = vec![(1, way("primary", &[1, 2])), (2, way("primary", &[3, 4]))];
    assert!(Network::new(&ways).intersections.is_empty());
    assert!(Network::new(&Vec::new()).intersections.is_empty());
}
