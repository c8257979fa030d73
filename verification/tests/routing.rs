use universe::error::Error;
use universe::geo::Point;
use universe::movement::Transport;
use universe::routing::{JourneyPlanner, RoutingData, StreetEdge, StreetNode};

fn tile_of(lat: f64, lng: f64) -> u64 {
    u64::from(h3o::LatLng::new(lat, lng).unwrap().to_cell(h3o::Resolution::Nine))
}

fn node(id: u128, x: i64, y: i64, tile: u64) -> StreetNode {
    StreetNode { id, position: Point::new(x, y), tile }
}

fn edge(source: u128, target: u128, length_m: u64, line: &[(i64, i64)], lengths: &[u64]) -> StreetEdge {
    StreetEdge {
        source,
        target,
        length_m,
        geometry: line.iter().map(|(x, y)| Point::new(*x, *y)).collect(),
        segment_lengths_m: lengths.to_vec(),
    }
}

/// Four nodes in a row, a long way round from 1 to 3, and a node apart.
fn network() -> RoutingData {
    RoutingData::try_new(
        vec![
            node(1, 0, 0, 11),
            node(2, 100, 0, 11),
            node(3, 200, 0, 12),
            node(4, 300, 0, 12),
            node(5, 900, 900, 13),
            node(2, 100, 0, 11),
        ],
        vec![
            edge(1, 2, 10, &[(0, 0), (50, 0), (100, 0)], &[5, 5]),
            edge(2, 3, 10, &[(100, 0), (200, 0)], &[10]),
            edge(3, 4, 10, &[(200, 0), (300, 0)], &[10]),
            edge(1, 3, 50, &[(0, 0), (0, 500), (200, 0)], &[25, 25]),
            // a longer way from 2 to 3, and an edge that weighs nothing
            edge(2, 3, 30, &[(100, 0), (150, 90), (200, 0)], &[15, 15]),
            edge(4, 1, 0, &[(300, 0), (0, 0)], &[0]),
            edge(4, 4, 7, &[], &[]),
        ],
    )
    .unwrap()
}

#[test]
fn a_journey_follows_the_shortest_path() {
    let planner = JourneyPlanner::new(network());
    let journey = planner.plan(1, 4).unwrap();
    assert_eq!(journey.transport, Transport::Bicycle);
    assert_eq!(journey.progress(), (0, 0));
    let legs: Vec<(Point, u64)> =
        journey.full_journey().iter().map(|l| (l.destination, l.distance_m)).collect();
    assert_eq!(
        legs,
        vec![
            (Point::new(50, 0), 5),
            (Point::new(100, 0), 5),
            (Point::new(200, 0), 10),
            (Point::new(300, 0), 10),
        ]
    );
    assert_eq!(journey.distance_m(), 30);
    // a single hop
    let journey = planner.plan(2, 3).unwrap();
    assert_eq!(journey.full_journey().len(), 1);
    assert_eq!(journey.distance_m(), 10);
}

#[test]
fn a_journey_to_where_one_is_has_no_legs() {
    let planner = JourneyPlanner::new(network());
    let journey = planner.plan(3, 3).unwrap();
    assert!(journey.is_done());
    assert_eq!(journey.distance_m(), 0);
    let apart = planner.plan(5, 5).unwrap();
    assert!(apart.is_done());
}

#[test]
fn missing_nodes_are_unreachable_and_parted_nodes_have_no_route() {
    let planner = JourneyPlanner::new(network());
    assert_eq!(planner.plan(1, 99).unwrap_err(), Error::NotFound);
    assert_eq!(planner.plan(99, 1).unwrap_err(), Error::NotFound);
    // the edges lead one way only, and the edge back weighs nothing
    assert!(matches!(planner.plan(4, 1), Err(Error::InvalidGeometry(_))));
    assert!(matches!(planner.plan(1, 5), Err(Error::InvalidGeometry(_))));
    assert!(matches!(planner.plan(5, 1), Err(Error::InvalidGeometry(_))));
}

#[test]
fn networks_that_do_not_hold_together_are_refused() {
    let refused = |nodes: Vec<StreetNode>, edges: Vec<StreetEdge>| {
        assert!(matches!(RoutingData::try_new(nodes, edges), Err(Error::InvalidData(_))));
    };
    let nodes = || vec![node(1, 0, 0, 11), node(2, 100, 0, 11)];
    // an edge to nowhere
    refused(nodes(), vec![edge(1, 3, 10, &[], &[])]);
    refused(nodes(), vec![edge(3, 1, 10, &[], &[])]);
    // a polyline without a length for each piece
    refused(nodes(), vec![edge(1, 2, 10, &[(0, 0), (100, 0)], &[])]);
    refused(nodes(), vec![edge(1, 2, 10, &[(0, 0)], &[5, 5])]);
    refused(nodes(), vec![edge(1, 2, 10, &[], &[5])]);
    // edges too long together
    refused(nodes(), vec![edge(1, 2, u64::MAX / 2, &[], &[]), edge(2, 1, 1, &[], &[])]);
    // a node off the globe
    refused(vec![node(1, 0, 900_000_001, 11)], Vec::new());
    assert!(RoutingData::try_new(Vec::new(), Vec::new()).is_ok());
    assert!(RoutingData::try_new(nodes(), vec![edge(1, 2, 10, &[(0, 0)], &[])]).is_ok());
}

#[test]
fn a_path_off_the_globe_is_refused() {
    let routing = RoutingData::try_new(
        vec![node(1, 0, 0, 11), node(2, 100, 0, 11)],
        vec![edge(1, 2, 10, &[(0, 0), (0, 2_000_000_000)], &[10])],
    )
    .unwrap();
    let planner = JourneyPlanner::new(routing);
    assert!(matches!(planner.plan(1, 2), Err(Error::InvalidData(_))));
}

#[test]
fn the_nearest_node_on_the_tile_is_found() {
    let here = tile_of(51.5453468, -0.1553777);
    let planner = JourneyPlanner::new(
        RoutingData::try_new(
            vec![
                node(1, -1_553_000, 515_453_000, here),
                node(2, -1_553_700, 515_453_400, here),
                node(3, -1_553_777, 515_453_468, 1),
                node(4, -1_553_700, 515_453_400, here),
            ],
            Vec::new(),
        )
        .unwrap(),
    );
    let point = Point::new(-1_553_777, 515_453_468);
    // the node on another tile is nearer, and of two as near the first is taken
    assert_eq!(planner.nearest_node(&point, here), Ok(2));
    assert!(matches!(
        planner.nearest_node(&Point::new(0, 900_000_001), here),
        Err(Error::InvalidGeometry(_))
    ));
}

#[test]
fn an_empty_tile_looks_at_the_tiles_around() {
    let here = h3o::LatLng::new(51.5453468, -0.1553777).unwrap().to_cell(h3o::Resolution::Nine);
    let around: Vec<u64> = here.grid_disk::<Vec<_>>(1).into_iter().map(u64::from).collect();
    assert_eq!(around.len(), 7);
    let beside = *around.iter().find(|t| **t != u64::from(here)).unwrap();
    let two_away: u64 = here
        .grid_disk::<Vec<_>>(2)
        .into_iter()
        .map(u64::from)
        .find(|t| !around.contains(t))
        .unwrap();
    let planner = JourneyPlanner::new(
        RoutingData::try_new(
            vec![node(1, 0, 0, two_away), node(2, 500, 500, beside), node(3, 400, 400, beside)],
            Vec::new(),
        )
        .unwrap(),
    );
    let point = Point::new(0, 0);
    assert_eq!(planner.nearest_node(&point, u64::from(here)), Ok(3));
    // with nothing on or around the tile the point is unreachable
    assert_eq!(planner.nearest_node(&point, tile_of(10.0, 10.0)), Err(Error::NotFound));
    // a number that is no tile has no tiles around it
    assert_eq!(planner.nearest_node(&point, 5), Err(Error::NotFound));
}

#[test]
fn a_route_leads_from_point_to_point() {
    let planner = JourneyPlanner::new(network());
    // both points resolve to their nearest nodes, 1 and 4
    let journey = planner.route(&Point::new(3, 0), 11, &Point::new(290, 0), 12).unwrap();
    assert_eq!(journey.transport, Transport::Bicycle);
    assert_eq!(journey.progress(), (0, 0));
    assert_eq!(journey.total_distance_m(), 30);
    assert_eq!(journey.full_journey().last().map(|l| l.destination), Some(Point::new(300, 0)));
    let planned = planner.plan(1, 4).unwrap();
    assert_eq!(journey.full_journey(), planned.full_journey());
    // no node in reach, no path, a point off the globe
    assert!(planner.route(&Point::new(3, 0), 11, &Point::new(290, 0), 7).is_none());
    assert!(planner.route(&Point::new(3, 0), 11, &Point::new(900, 900), 13).is_none());
    assert!(planner.route(&Point::new(3, 0), 11, &Point::new(0, i64::MAX), 12).is_none());
    // from a node to itself the journey has no legs
    let stay = planner.route(&Point::new(3, 0), 11, &Point::new(1, 0), 11).unwrap();
    assert!(stay.full_journey().is_empty());
}
