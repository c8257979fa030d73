use universe::courier::{assign_couriers, picked_up_events, Pickup};
use universe::events::Event;
use universe::geo::Point;
use universe::idents::{OrderId, PersonId, SiteId};
use universe::kitchen::status::ReadyOrder;
use universe::population::{Person, PersonRole, PersonStatusFlag};

const TEN: i64 = 1_761_732_000_000;

fn ready(order: u128, submitted_at: i64, tile: u64) -> ReadyOrder {
    ReadyOrder {
        person_id: PersonId(1000 + order),
        site_id: SiteId(1),
        order_id: OrderId(order),
        submitted_at,
        origin: Point::new(10, 20),
        origin_tile: tile,
        destination: Point::new(30, 40),
        destination_tile: 77,
    }
}

fn person(id: u128, role: PersonRole, status: PersonStatusFlag, tile: u64) -> Person {
    Person {
        id: PersonId(id),
        role,
        status,
        position: Point::new(0, 0),
        tile,
        order_tile: 5,
        order_id: None,
        eating_until: None,
        journey: None,
    }
}

fn courier(id: u128, tile: u64) -> Person {
    person(id, PersonRole::Courier, PersonStatusFlag::Idle, tile)
}

fn pairs(pickups: &Vec<Pickup>) -> Vec<(u128, u128)> {
    pickups.iter().map(|p| (p.order_id.0, p.courier_id.0)).collect()
}

#[test]
fn courier_pickup_queue() {
    // three ready orders on one tile, placed at 10:00, 10:01 and 10:02, and
    // two idle couriers on the tile
    let orders = vec![ready(3, TEN + 120_000, 9), ready(1, TEN, 9), ready(2, TEN + 60_000, 9)];
    let people = vec![
        person(50, PersonRole::Customer, PersonStatusFlag::Idle, 9),
        courier(51, 9),
        person(52, PersonRole::Courier, PersonStatusFlag::Delivering, 9),
        courier(53, 8),
        courier(54, 9),
    ];
    let pickups = assign_couriers(&orders, &people);
    // the two earliest are picked up, in the order of the orders table
    assert_eq!(pairs(&pickups), vec![(1, 51), (2, 54)]);
    assert_eq!(pickups[0].origin, Point::new(10, 20));
    assert_eq!(pickups[0].destination, Point::new(30, 40));
    assert_eq!(pickups[0].origin_tile, 9);
    assert_eq!(pickups[0].destination_tile, 77);
    assert_eq!(pickups[0].submitted_at, TEN);
    assert_eq!(pickups[0].site_id, SiteId(1));
    let events = picked_up_events(&pickups, TEN + 180_000);
    assert_eq!(events.len(), 2);
    assert!(matches!(
        events[1],
        Event::OrderPickedUp {
            site_id: SiteId(1),
            courier_id: PersonId(54),
            order_id: OrderId(2),
            timestamp,
        } if timestamp == TEN + 180_000
    ));
}

#[test]
fn zero_idle_couriers() {
    let orders = vec![ready(1, TEN, 9), ready(2, TEN, 9)];
    let people = vec![
        person(50, PersonRole::Customer, PersonStatusFlag::Idle, 9),
        person(52, PersonRole::Courier, PersonStatusFlag::Delivering, 9),
        person(53, PersonRole::Courier, PersonStatusFlag::Moving, 9),
    ];
    assert!(assign_couriers(&orders, &people).is_empty());
    assert!(assign_couriers(&orders, &Vec::new()).is_empty());
    assert!(assign_couriers(&Vec::new(), &vec![courier(1, 9)]).is_empty());
    assert!(picked_up_events(&Vec::new(), TEN).is_empty());
}

#[test]
fn each_tile_has_its_own_queue() {
    let orders = vec![
        ready(1, TEN + 5, 9),
        ready(2, TEN, 8),
        ready(3, TEN, 9),
        ready(4, TEN, 7),
        ready(5, TEN + 1, 8),
    ];
    let people = vec![courier(60, 8), courier(61, 9), courier(62, 9), courier(63, 9)];
    let pickups = assign_couriers(&orders, &people);
    assert_eq!(pairs(&pickups), vec![(1, 62), (2, 60), (3, 61)]);
}

#[test]
fn orders_of_one_instant_go_by_identifier() {
    let orders = vec![ready(8, TEN, 9), ready(7, TEN, 9)];
    let people = vec![courier(60, 9)];
    assert_eq!(pairs(&assign_couriers(&orders, &people)), vec![(7, 60)]);
}
