use universe::error::Error;
use universe::events::{Event, EventStats, SimulationEvent};
use universe::geo::Point;
use universe::idents::{BrandId, KitchenId, MenuItemId, OrderId, PersonId, SiteId, StationId};
use universe::demand::RATE_SCALE;
use universe::kitchen::KitchenHandler;
use universe::objects::{Instruction, Kitchen, KitchenStation, MenuItem, Site, Station};
use universe::orders::{OrderStatus, MAX_TIME_MS};
use universe::population::{Person, PersonRole, PersonStatusFlag, PopulationHandler};
use universe::routing::{JourneyPlanner, RoutingData, StreetEdge, StreetNode};
use universe::simulation::{
    flush_due, tally, SimulationConfig, SimulationMode, SimulationRunner, DEFAULT_TIME_STEP_MS,
};

const START: i64 = 1_761_652_800_000;
const SITE_TILE: u64 = 500;
const KITCHEN_DOOR: u64 = 900;
const AT_HOME: u64 = 901;

fn kitchens() -> KitchenHandler {
    KitchenHandler::try_new(
        vec![Site {
            id: SiteId(1),
            position: Point::new(0, 0),
            order_tile: SITE_TILE,
            courier_tile: KITCHEN_DOOR,
        }],
        vec![Kitchen { id: KitchenId(10), site_id: SiteId(1), accepted_brands: vec![BrandId(100)] }],
        vec![Station {
            id: StationId(20),
            kitchen_id: KitchenId(10),
            station_type: KitchenStation::Workstation,
        }],
        vec![MenuItem {
            id: MenuItemId(200),
            brand_id: BrandId(100),
            instructions: vec![Instruction {
                required_station: KitchenStation::Workstation,
                expected_duration_s: 20,
            }],
        }],
    )
    .unwrap()
}

fn person(id: u128, role: PersonRole, x: i64, tile: u64, order_tile: u64) -> Person {
    Person {
        id: PersonId(id),
        role,
        status: PersonStatusFlag::Idle,
        position: Point::new(x, 0),
        tile,
        order_tile,
        order_id: None,
        eating_until: None,
        journey: None,
    }
}

fn movement() -> JourneyPlanner {
    let road = |source: u128, target: u128, from: i64, to: i64| StreetEdge {
        source,
        target,
        length_m: 500,
        geometry: vec![Point::new(from, 0), Point::new((from + to) / 2, 0), Point::new(to, 0)],
        segment_lengths_m: vec![250, 250],
    };
    JourneyPlanner::new(
        RoutingData::try_new(
            vec![
                StreetNode { id: 1, position: Point::new(10, 0), tile: KITCHEN_DOOR },
                StreetNode { id: 2, position: Point::new(70_000, 0), tile: AT_HOME },
            ],
            vec![road(1, 2, 10, 70_000), road(2, 1, 70_000, 10)],
        )
        .unwrap(),
    )
}

fn runner(customers: usize, couriers: usize) -> SimulationRunner {
    let mut people = Vec::new();
    for k in 0..customers {
        people.push(person(100 + k as u128, PersonRole::Customer, 70_100, AT_HOME, SITE_TILE));
    }
    for k in 0..couriers {
        people.push(person(200 + k as u128, PersonRole::Courier, 0, KITCHEN_DOOR, SITE_TILE));
    }
    SimulationRunner::new(
        &SimulationConfig::new(START),
        PopulationHandler::try_new(people).unwrap(),
        kitchens(),
        movement(),
    )
}

fn count(events: &Vec<Event>, kind: SimulationEvent) -> usize {
    events.iter().filter(|event| event.kind() == kind).count()
}

#[test]
fn test_simulation_step() {
    let mut runner = runner(3, 2);
    assert!(runner.kitchens.orders.is_empty());
    assert!(runner.kitchens.order_lines.is_empty());
    for tick in 0..100 {
        let events = runner.step(RATE_SCALE / 10).unwrap();
        assert_eq!(runner.now, START + (tick + 1) * 60_000);
        for event in &events {
            // what a line did is told at the instant it was done, which may
            // lie before the tick
            assert!(event.timestamp() <= START + (tick + 1) * 60_000);
        }
    }
    assert_eq!(runner.population.population.len(), 5);
}

#[test]
fn test_simulation_runner() {
    let mut runner = runner(1, 1);
    // the customer orders in the first tick; the kitchen begins at once
    let events = runner.step(RATE_SCALE).unwrap();
    assert_eq!(count(&events, SimulationEvent::OrderCreated), 1);
    assert_eq!(count(&events, SimulationEvent::OrderLineStepStarted), 1);
    assert_eq!(runner.kitchens.orders.len(), 1);
    let lines = runner.kitchens.order_lines.len();
    assert!(1 <= lines && lines <= 5);
    let first = runner.kitchens.orders[0].order_id;
    assert_eq!((first.0 >> 80) as i64, runner.kitchens.orders[0].submitted_at);
    assert_eq!(runner.kitchens.orders[0].site_id, SiteId(1));
    assert_eq!(runner.kitchens.orders[0].person_id, PersonId(100));
    assert_eq!(runner.kitchens.orders[0].destination, Point::new(70_100, 0));

    // no more orders from here on; the first is cooked, picked up, carried
    // along the road and handed over
    let mut all: Vec<Event> = Vec::new();
    let mut seen_delivering = false;
    let mut seen_eating = false;
    for _ in 0..40 {
        let mut events = runner.step(0).unwrap();
        all.append(&mut events);
        seen_delivering |= runner.population.population[1].status == PersonStatusFlag::Delivering;
        seen_eating |= runner.population.population[0].status == PersonStatusFlag::Eating;
    }
    assert_eq!(count(&all, SimulationEvent::OrderCreated), 0);
    assert_eq!(count(&all, SimulationEvent::OrderLineUpdated), lines);
    assert_eq!(count(&all, SimulationEvent::OrderReady), 1);
    assert_eq!(count(&all, SimulationEvent::OrderPickedUp), 1);
    assert_eq!(count(&all, SimulationEvent::OrderDelivered), 1);
    assert!(seen_delivering);
    assert!(seen_eating);
    assert_eq!(runner.kitchens.orders[0].status, OrderStatus::Delivered);
    let order_of = |event: &Event| match event {
        Event::OrderReady { order_id, .. }
        | Event::OrderPickedUp { order_id, .. }
        | Event::OrderDelivered { order_id, .. } => Some(*order_id),
        _ => None,
    };
    let told: Vec<OrderId> = all.iter().filter_map(order_of).collect();
    assert_eq!(told, vec![first, first, first]);
    assert!(all.iter().any(|event| matches!(
        event,
        Event::OrderPickedUp { courier_id: PersonId(200), site_id: SiteId(1), .. }
    )));
    // the courier has gone the legs of the way out in the opposite order,
    // which ends where the first of them ended, and has nothing to do
    let courier = &runner.population.population[1];
    assert_eq!(courier.status, PersonStatusFlag::Idle);
    assert_eq!(courier.position, Point::new(35_005, 0));
    assert_eq!(courier.order_id, None);
    // the customer has eaten for half an hour and is idle again only after
    let customer = &runner.population.population[0];
    assert!(customer.status == PersonStatusFlag::Eating || customer.status == PersonStatusFlag::Idle);
}

#[test]
fn test_simulation() {
    let mut runner = runner(20, 3);
    let mut total = EventStats::new();
    assert_eq!(total.num_orders_created, 0);
    for _ in 0..100 {
        let events = runner.step(RATE_SCALE / 20).unwrap();
        total.add(&tally(&events).unwrap());
    }
    assert!(total.num_orders_created > 0);
    assert!(total.num_order_lines_updated > 0);
    assert_eq!(total.num_orders_created as usize, runner.kitchens.orders.len());
    // no order is left submitted with all its lines finished
    for order in &runner.kitchens.orders {
        if order.status == OrderStatus::Submitted {
            assert!(!runner.kitchens.is_ready(&order.order_id));
        } else {
            assert!(runner.kitchens.is_ready(&order.order_id));
        }
    }
}

#[test]
fn without_couriers_ready_orders_stay_ready() {
    let mut runner = runner(1, 0);
    runner.step(RATE_SCALE).unwrap();
    for _ in 0..10 {
        let events = runner.step(0).unwrap();
        assert_eq!(count(&events, SimulationEvent::OrderPickedUp), 0);
    }
    assert_eq!(runner.kitchens.orders[0].status, OrderStatus::Ready);
    assert!(runner.dispatch().is_empty());
    assert_eq!(runner.kitchens.orders[0].status, OrderStatus::Ready);
}

#[test]
fn orders_without_a_road_stay_ready() {
    let mut runner = runner(1, 1);
    // the customer lives where no node is
    runner.population.population[0].tile = 5;
    runner.step(RATE_SCALE).unwrap();
    for _ in 0..10 {
        let events = runner.step(0).unwrap();
        assert_eq!(count(&events, SimulationEvent::OrderPickedUp), 0);
    }
    assert_eq!(runner.kitchens.orders[0].status, OrderStatus::Ready);
    assert_eq!(runner.population.population[1].status, PersonStatusFlag::Idle);
}

#[test]
fn orders_off_every_site_are_dropped() {
    let mut runner = runner(1, 1);
    runner.population.population[0].order_tile = 42;
    let events = runner.step(RATE_SCALE).unwrap();
    assert!(events.is_empty());
    assert!(runner.kitchens.orders.is_empty());
    assert!(runner.kitchens.order_lines.is_empty());
    assert_eq!(runner.population.population.len(), 2);
    assert_eq!(runner.population.population[0].status, PersonStatusFlag::Idle);
}

#[test]
fn the_clock_stays_within_the_tables() {
    let mut config = SimulationConfig::new(MAX_TIME_MS - 60_000);
    assert_eq!(config.time_increment_ms, DEFAULT_TIME_STEP_MS);
    assert!(!config.dry_run);
    assert!(!config.write_events);
    config.time_increment_ms = 60_000;
    let mut late = SimulationRunner::new(
        &config,
        PopulationHandler::try_new(Vec::new()).unwrap(),
        kitchens(),
        movement(),
    );
    assert!(late.step(0).is_ok());
    assert_eq!(late.now, MAX_TIME_MS);
    assert!(matches!(late.step(0), Err(Error::InvalidData(_))));
    assert_eq!(late.now, MAX_TIME_MS);
    let mut early = runner(0, 0);
    early.now = -1;
    assert!(matches!(early.step(0), Err(Error::InvalidData(_))));
}

#[test]
fn metrics_are_flushed_every_so_often() {
    assert!(!flush_due(0));
    assert!(!flush_due(1));
    assert!(!flush_due(8191));
    assert!(flush_due(8192));
    assert!(!flush_due(8193));
    assert!(flush_due(16384));
    assert!(SimulationMode::Backfill < SimulationMode::Realtime);
    assert!(SimulationMode::Realtime < SimulationMode::Catchup);
}

#[test]
fn events_are_told_by_kind_and_source() {
    let events = vec![
        Event::OrderCreated {
            person_id: PersonId(1),
            order_id: OrderId(2),
            submitted_at: 3,
            destination: Point::new(0, 0),
            items: Vec::new(),
        },
        Event::OrderReady { site_id: SiteId(0x10), order_id: OrderId(2), timestamp: 4 },
        Event::OrderDelivered { order_id: OrderId(2), timestamp: 5 },
        Event::OrderLineStepStarted {
            timestamp: 6,
            order_line_id: universe::idents::OrderLineId(7),
            step_index: 1,
            station_id: StationId(0xab),
        },
    ];
    assert_eq!(
        tally(&events),
        Some(EventStats {
            num_orders_created: 1,
            num_orders_updated: 2,
            num_order_lines_updated: 1,
            num_people_updated: 0,
        })
    );
    assert_eq!(events[0].source(), "/population/00000000-0000-0000-0000-000000000001");
    assert_eq!(events[1].source(), "/sites/00000000-0000-0000-0000-000000000010");
    assert_eq!(events[2].source(), "/orders/00000000-0000-0000-0000-000000000002");
    assert_eq!(events[3].source(), "/stations/00000000-0000-0000-0000-0000000000ab");
    assert_eq!(events[3].timestamp(), 6);
    assert_eq!(events[0].timestamp(), 3);
    assert_eq!(events[3].kind().event_type(), "caspers.universe.order_line_step_started");
    let mut stats = EventStats::new();
    stats.handle_event(&events[1]);
    assert_eq!(stats.num_orders_updated, 1);
}

#[test]
fn a_run_is_its_ticks_in_turn() {
    let mut world = runner(2, 1);
    // no tick: nothing is told and nothing moves
    let told = world.run(&Vec::new()).unwrap();
    assert!(told.is_empty());
    assert_eq!(world.now, START);
    assert!(world.kitchens.orders.is_empty());

    // everybody orders in the first tick and nobody after it
    let mut rates = vec![RATE_SCALE];
    rates.extend(std::iter::repeat(0).take(29));
    let told = world.run(&rates).unwrap();
    assert_eq!(world.now, START + 30 * DEFAULT_TIME_STEP_MS as i64);
    assert_eq!(count(&told, SimulationEvent::OrderCreated), 2);
    assert_eq!(world.kitchens.orders.len(), 2);
    assert_eq!(world.population.population.len(), 3);
    // what is told comes in the order of the ticks: an order is made before it is ready
    let made = told.iter().position(|e| e.kind() == SimulationEvent::OrderCreated).unwrap();
    let ready = told.iter().position(|e| e.kind() == SimulationEvent::OrderReady).unwrap();
    assert!(made < ready);
    let stats = tally(&told).unwrap();
    assert_eq!(stats.num_orders_created, 2);

    // a clock that would leave the calendar ends the run
    let mut late = runner(0, 0);
    late.now = MAX_TIME_MS;
    assert!(matches!(late.run(&vec![0]), Err(Error::InvalidData(_))));
    assert_eq!(late.now, MAX_TIME_MS);
}

#[test]
fn a_ready_order_with_a_courier_and_a_road_is_picked_up() {
    let mut runner = runner(1, 2);
    runner.step(RATE_SCALE).unwrap();
    // the order gets ready; no courier is sent before it is
    let mut picked_in = None;
    for tick in 0..20 {
        let now = runner.now;
        let was_ready = runner.kitchens.orders[0].status == OrderStatus::Ready;
        let events = runner.step(0).unwrap();
        let picked: Vec<&Event> =
            events.iter().filter(|e| e.kind() == SimulationEvent::OrderPickedUp).collect();
        if was_ready {
            // ready at the beginning of the tick: picked up in this tick, by
            // the first idle courier on the tile, and told of once
            assert_eq!(picked.len(), 1);
            match picked[0] {
                Event::OrderPickedUp { site_id, courier_id, order_id, timestamp } => {
                    assert_eq!(*site_id, SiteId(1));
                    assert_eq!(*courier_id, PersonId(200));
                    assert_eq!(*order_id, runner.kitchens.orders[0].order_id);
                    assert_eq!(*timestamp, now);
                },
                _ => unreachable!(),
            }
            assert_eq!(runner.kitchens.orders[0].status, OrderStatus::PickedUp);
            let courier = &runner.population.population[1];
            assert_eq!(courier.status, PersonStatusFlag::Delivering);
            assert_eq!(courier.order_id, Some(runner.kitchens.orders[0].order_id));
            let journey = courier.journey.as_ref().unwrap();
            assert_eq!(journey.progress(), (0, 0));
            assert_eq!(journey.total_distance_m(), 500);
            let ends: Vec<Point> = journey.full_journey().iter().map(|l| l.destination).collect();
            assert_eq!(ends, vec![Point::new(35_005, 0), Point::new(70_000, 0)]);
            // the other courier has nothing to do
            let other = &runner.population.population[2];
            assert_eq!(other.status, PersonStatusFlag::Idle);
            assert!(other.journey.is_none() && other.order_id.is_none());
            assert_eq!(runner.now, now + 60_000);
            picked_in = Some(tick);
            break;
        }
        assert!(picked.is_empty());
    }
    assert!(picked_in.is_some());
    assert!(runner.population.statuses_backed());
}
