use universe::error::Error;
use universe::events::{Event, OrderItem};
use universe::geo::Point;
use universe::idents::{
    BrandId, KitchenId, MenuItemId, OrderId, OrderLineId, PersonId, SiteId, StationId,
};
use universe::kitchen::intake::{choose_kitchen, IncomingOrder};
use universe::kitchen::snapshot::KitchenSnapshot;
use universe::kitchen::stations::step_duration;
use universe::kitchen::{KitchenHandler, KitchenStats};
use universe::objects::{Instruction, Kitchen, KitchenStation, MenuItem, Site, Station};
use universe::orders::{Order, OrderLine, OrderLineStatus, OrderStatus};

const NOW: i64 = 1_761_675_872_000;
const SITE_TILE: u64 = 500;
const EVEN: u32 = 300_000;

fn site() -> Site {
    Site { id: SiteId(1), position: Point::new(10, 20), order_tile: SITE_TILE, courier_tile: 900 }
}

fn kitchen(id: u128, brands: &[u128]) -> Kitchen {
    Kitchen {
        id: KitchenId(id),
        site_id: SiteId(1),
        accepted_brands: brands.iter().map(|b| BrandId(*b)).collect(),
    }
}

fn station(id: u128, kitchen: u128, station_type: KitchenStation) -> Station {
    Station { id: StationId(id), kitchen_id: KitchenId(kitchen), station_type }
}

fn item(id: u128, brand: u128, steps: &[(KitchenStation, u32)]) -> MenuItem {
    MenuItem {
        id: MenuItemId(id),
        brand_id: BrandId(brand),
        instructions: steps
            .iter()
            .map(|(s, d)| Instruction { required_station: *s, expected_duration_s: *d })
            .collect(),
    }
}

fn incoming(person: u128, at: i64, tile: u64, items: &[u128]) -> IncomingOrder {
    IncomingOrder {
        person_id: PersonId(person),
        submitted_at: at,
        destination: Point::new(1, 2),
        destination_tile: tile,
        route_tile: 901,
        items: items
            .iter()
            .map(|i| OrderItem { brand_id: BrandId(100), menu_item_id: MenuItemId(*i) })
            .collect(),
    }
}

/// One site, one kitchen for brand 100, one workstation and one oven; a
/// one-step item (200), a two-step item (201) and an oven item (202).
fn small_kitchen() -> KitchenHandler {
    KitchenHandler::try_new(
        vec![site()],
        vec![kitchen(10, &[100])],
        vec![
            station(20, 10, KitchenStation::Workstation),
            station(21, 10, KitchenStation::Oven),
        ],
        vec![
            item(200, 100, &[(KitchenStation::Workstation, 60)]),
            item(201, 100, &[(KitchenStation::Workstation, 60), (KitchenStation::Oven, 120)]),
            item(202, 100, &[(KitchenStation::Oven, 30)]),
        ],
    )
    .unwrap()
}

fn take_in(handler: &mut KitchenHandler, order: u128, line: u128, items: &[u128]) -> Vec<Event> {
    let ids: Vec<OrderLineId> = (0..items.len() as u128).map(|k| OrderLineId(line + k)).collect();
    handler
        .admit_orders(&vec![incoming(7, NOW, SITE_TILE, items)], &vec![OrderId(order)], &vec![ids])
        .unwrap()
}

fn stats(queued: usize, in_progress: usize, completed: usize, idle: usize) -> KitchenStats {
    KitchenStats { queued, in_progress, completed, idle_stations: idle, total_stations: 2 }
}

#[test]
fn test_step_assignment() {
    let mut handler = small_kitchen();
    take_in(&mut handler, 1, 1, &[200]);
    assert_eq!(handler.get_stats(), stats(1, 0, 0, 2));
    handler.prepare_steps(NOW);
    assert_eq!(handler.get_stats(), stats(0, 1, 0, 1));
}

#[test]
fn test_order_progress() {
    let mut handler = small_kitchen();
    take_in(&mut handler, 1, 1, &[201]);
    handler.prepare_steps(NOW);
    let completion_time = handler.order_lines[0].step_completion_time.unwrap();
    let mut now = NOW;
    while now < completion_time {
        now += 60_000;
    }
    handler.process_order_lines(now);
    assert_eq!(handler.order_lines[0].current_step, 2);
}

#[test]
fn test_empty_orders() {
    let mut handler = small_kitchen();
    let mut now = NOW;
    for _ in 0..5 {
        assert!(handler.process_order_lines(now).is_empty());
        now += 60_000;
    }
    assert_eq!(handler.get_stats(), stats(0, 0, 0, 2));
}

#[test]
fn test_order_completion() {
    let mut handler = small_kitchen();
    take_in(&mut handler, 1, 1, &[200, 201, 202, 200, 201, 202, 200, 201, 202, 200]);
    let mut now = NOW;
    for _ in 0..50 {
        handler.process_order_lines(now);
        now += 60_000;
    }
    let stats = handler.get_stats();
    assert!(stats.in_progress + stats.completed > 0);
    assert_eq!(stats.queued + stats.in_progress + stats.completed, 10);
    assert_eq!(stats.completed, 10);
}

#[test]
fn test_step_progression() {
    let mut handler = small_kitchen();
    let orders = vec![incoming(7, NOW, SITE_TILE, &[200, 201, 202, 200, 201, 202, 200, 201, 202, 200])];
    let events = handler.step(NOW, &orders).unwrap();
    assert!(matches!(events[0], Event::OrderCreated { .. }));
    let initial_count = handler.order_lines.len();
    assert_eq!(initial_count, 10);
    assert!(handler
        .order_lines
        .iter()
        .all(|line| line.current_step == 1 && line.total_steps >= 1));
    let mut now = NOW;
    for _ in 0..100 {
        handler.process_order_lines(now);
        now += 60_000;
    }
    let stats = handler.get_stats();
    assert_eq!(stats.queued + stats.in_progress + stats.completed, initial_count);
}

#[test]
fn test_prepare_empty_orders() {
    let mut handler = small_kitchen();
    // should not fail on an empty batch
    let events = handler.prepare_order_lines(NOW, &Vec::new()).unwrap();
    assert!(events.is_empty());
    let stats = handler.get_stats();
    assert_eq!(stats.queued, 0);
    assert_eq!(stats.in_progress, 0);
}

#[test]
fn an_empty_batch_leaves_the_tables_as_they_are() {
    let mut handler = small_kitchen();
    take_in(&mut handler, 1, 1, &[200]);
    let orders_before = handler.orders.clone();
    let lines_before = handler.order_lines.clone();
    let events = handler.prepare_order_lines(NOW, &Vec::new()).unwrap();
    assert!(events.is_empty());
    assert_eq!(handler.orders, orders_before);
    assert_eq!(handler.order_lines, lines_before);
    let stats = handler.get_stats();
    assert_eq!(stats.queued, 1);
    assert_eq!(stats.in_progress, 0);
}

#[test]
fn test_unreachable_orders() {
    let mut handler = small_kitchen();
    let result = handler.prepare_order_lines(NOW, &vec![incoming(7, NOW, 12345, &[200])]);
    assert!(result.is_ok());
    assert!(result.unwrap().is_empty());
    assert!(handler.orders.is_empty());
    assert!(handler.order_lines.is_empty());
}

#[test]
fn single_item_single_station() {
    let mut handler = small_kitchen();
    let events = take_in(&mut handler, 1, 5, &[200]);
    assert_eq!(events.len(), 1);
    match &events[0] {
        Event::OrderCreated { person_id, order_id, submitted_at, destination, items } => {
            assert_eq!(*person_id, PersonId(7));
            assert_eq!(*order_id, OrderId(1));
            assert_eq!(*submitted_at, NOW);
            assert_eq!(*destination, Point::new(1, 2));
            assert_eq!(items.len(), 1);
            assert_eq!(items[0].menu_item_id, MenuItemId(200));
        },
        other => panic!("unexpected event {:?}", other),
    }
    assert_eq!(
        handler.orders,
        vec![Order {
            order_id: OrderId(1),
            person_id: PersonId(7),
            site_id: SiteId(1),
            submitted_at: NOW,
            destination: Point::new(1, 2),
            destination_tile: 901,
            status: OrderStatus::Submitted,
        }]
    );
    let fresh = OrderLine {
        order_id: OrderId(1),
        order_line_id: OrderLineId(5),
        menu_item_id: MenuItemId(200),
        kitchen_id: Some(KitchenId(10)),
        submitted_at: NOW,
        current_step: 1,
        total_steps: 1,
        assigned_station: None,
        step_completion_time: None,
        is_complete: false,
    };
    assert_eq!(handler.order_lines, vec![fresh]);

    // one pass of binding: the line takes the workstation
    let started = handler.assign_steps_to_stations(NOW, &vec![EVEN]);
    assert_eq!(started.len(), 1);
    assert!(matches!(
        started[0],
        Event::OrderLineStepStarted {
            timestamp: NOW,
            order_line_id: OrderLineId(5),
            step_index: 1,
            station_id: StationId(20),
        }
    ));
    let bound = handler.order_lines[0];
    assert_eq!(bound.assigned_station, Some(StationId(20)));
    assert_eq!(bound.step_completion_time, Some(NOW + 60_000));
    assert!(!handler.is_ready(&OrderId(1)));

    // not yet done: nothing moves
    assert!(handler.advance_steps(NOW + 59_999).is_empty());
    assert!(handler.update_order_status(NOW + 59_999).is_empty());
    assert_eq!(handler.orders[0].status, OrderStatus::Submitted);

    // one advance: the line is finished and the order ready
    let advanced = handler.advance_steps(NOW + 60_000);
    assert_eq!(advanced.len(), 1);
    assert!(matches!(
        advanced[0],
        Event::OrderLineUpdated {
            timestamp,
            order_line_id: OrderLineId(5),
            kitchen_id: KitchenId(10),
            status: OrderLineStatus::Ready,
        } if timestamp == NOW + 60_000
    ));
    let done = handler.order_lines[0];
    assert!(done.is_complete);
    assert_eq!(done.current_step, 2);
    assert_eq!(done.assigned_station, None);
    assert_eq!(done.step_completion_time, None);
    assert!(handler.is_ready(&OrderId(1)));
    let ready = handler.update_order_status(NOW + 60_000);
    assert_eq!(ready.len(), 1);
    assert!(matches!(
        ready[0],
        Event::OrderReady { site_id: SiteId(1), order_id: OrderId(1), timestamp } if timestamp == NOW + 60_000
    ));
    assert_eq!(handler.orders[0].status, OrderStatus::Ready);
    let rows = handler.ready_orders();
    assert_eq!(rows.len(), 1);
    assert_eq!(rows[0].origin, Point::new(10, 20));
    assert_eq!(rows[0].origin_tile, 900);
    assert_eq!(rows[0].destination, Point::new(1, 2));
    assert_eq!(rows[0].order_id, OrderId(1));
    assert_eq!(rows[0].person_id, PersonId(7));
    // a second update changes nothing
    assert!(handler.update_order_status(NOW + 60_000).is_empty());
}

#[test]
fn two_items_one_oven() {
    let mut handler = small_kitchen();
    take_in(&mut handler, 1, 1, &[202, 202]);
    let started = handler.assign_steps_to_stations(NOW, &vec![EVEN, EVEN]);
    assert_eq!(started.len(), 1);
    assert_eq!(handler.order_lines[0].assigned_station, Some(StationId(21)));
    assert_eq!(handler.order_lines[0].step_completion_time, Some(NOW + 30_000));
    assert_eq!(handler.order_lines[1].assigned_station, None);
    assert_eq!(handler.order_lines[1].step_completion_time, None);
    assert_eq!(handler.get_stats(), stats(1, 1, 0, 1));
    // nothing more to bind in a second pass
    assert!(handler.assign_steps_to_stations(NOW, &vec![EVEN, EVEN]).is_empty());

    // the first is done: the oven is given up and the second takes it
    let later = NOW + 60_000;
    let advanced = handler.advance_steps(later);
    assert_eq!(advanced.len(), 1);
    assert!(handler.order_lines[0].is_complete);
    let started = handler.assign_steps_to_stations(later, &vec![EVEN, EVEN]);
    assert_eq!(started.len(), 1);
    assert_eq!(handler.order_lines[1].assigned_station, Some(StationId(21)));
    assert_eq!(handler.order_lines[1].step_completion_time, Some(later + 30_000));
    assert!(!handler.is_ready(&OrderId(1)));
}

#[test]
fn earlier_orders_are_served_first() {
    let mut handler = small_kitchen();
    // the later order enters the table first
    handler
        .admit_orders(
            &vec![incoming(7, NOW + 5, SITE_TILE, &[202]), incoming(8, NOW, SITE_TILE, &[202])],
            &vec![OrderId(1), OrderId(2)],
            &vec![vec![OrderLineId(1)], vec![OrderLineId(2)]],
        )
        .unwrap();
    handler.assign_steps_to_stations(NOW + 10, &vec![EVEN, EVEN]);
    assert_eq!(handler.order_lines[0].assigned_station, None);
    assert_eq!(handler.order_lines[1].assigned_station, Some(StationId(21)));
    // the step starts now, not when the order was placed
    assert_eq!(handler.order_lines[1].step_completion_time, Some(NOW + 10 + 30_000));
}

#[test]
fn a_step_starts_no_earlier_than_the_order() {
    let mut handler = small_kitchen();
    handler
        .admit_orders(
            &vec![incoming(7, NOW + 500, SITE_TILE, &[202])],
            &vec![OrderId(1)],
            &vec![vec![OrderLineId(1)]],
        )
        .unwrap();
    handler.assign_steps_to_stations(NOW, &vec![0]);
    // 30 s times 0.49 are 14.7 s, rounded to 15 s
    assert_eq!(handler.order_lines[0].step_completion_time, Some(NOW + 500 + 15_000));
}

#[test]
fn two_step_line_walks_through_its_recipe() {
    let mut handler = small_kitchen();
    take_in(&mut handler, 1, 1, &[201]);
    let draws = vec![vec![EVEN]];
    let first = handler.process_order_lines_with(NOW, &draws);
    assert_eq!(first.len(), 1);
    assert_eq!(handler.order_lines[0].assigned_station, Some(StationId(20)));
    let second = handler.process_order_lines_with(NOW + 60_000, &draws);
    // the line was waiting with its step over: it takes no other station,
    // and the advance moves it on
    assert_eq!(second.len(), 1);
    assert!(matches!(
        second[0],
        Event::OrderLineStepFinished {
            timestamp,
            order_line_id: OrderLineId(1),
            station_id: StationId(20),
            step_index: 1,
        } if timestamp == NOW + 60_000
    ));
    assert_eq!(handler.order_lines[0].current_step, 2);
    assert_eq!(handler.order_lines[0].assigned_station, None);
    let third = handler.process_order_lines_with(NOW + 120_000, &draws);
    assert_eq!(third.len(), 1);
    assert_eq!(handler.order_lines[0].assigned_station, Some(StationId(21)));
    assert_eq!(handler.order_lines[0].step_completion_time, Some(NOW + 240_000));
    let fourth = handler.process_order_lines_with(NOW + 240_000, &draws);
    assert_eq!(fourth.len(), 1);
    assert!(handler.order_lines[0].is_complete);
    assert_eq!(handler.order_lines[0].current_step, 3);
    // once nothing is left to bind, processing again changes nothing
    let table = handler.order_lines.clone();
    assert!(handler.process_order_lines_with(NOW + 240_000, &draws).is_empty());
    assert_eq!(handler.order_lines, table);
    assert!(handler.process_order_lines(NOW + 240_000).is_empty());
    assert_eq!(handler.order_lines, table);
}

fn two_kitchens() -> KitchenHandler {
    KitchenHandler::try_new(
        vec![site()],
        vec![kitchen(11, &[100]), kitchen(10, &[100]), kitchen(9, &[101])],
        vec![station(20, 10, KitchenStation::Workstation)],
        vec![item(200, 100, &[(KitchenStation::Workstation, 60)])],
    )
    .unwrap()
}

fn line(id: u128, kitchen: u128, complete: bool) -> OrderLine {
    OrderLine {
        order_id: OrderId(1),
        order_line_id: OrderLineId(id),
        menu_item_id: MenuItemId(200),
        kitchen_id: Some(KitchenId(kitchen)),
        submitted_at: NOW,
        current_step: if complete { 2 } else { 1 },
        total_steps: 1,
        assigned_station: None,
        step_completion_time: None,
        is_complete: complete,
    }
}

fn order(id: u128, status: OrderStatus) -> Order {
    Order {
        order_id: OrderId(id),
        person_id: PersonId(7),
        site_id: SiteId(1),
        submitted_at: NOW,
        destination: Point::new(1, 2),
        destination_tile: 901,
        status,
    }
}

#[test]
fn least_loaded_kitchen_selection() {
    let mut handler = two_kitchens();
    // kitchen 10 has three unfinished lines and two finished, kitchen 11 one
    let snapshot = KitchenSnapshot {
        orders: vec![order(1, OrderStatus::Submitted)],
        order_lines: vec![
            line(1, 10, false),
            line(2, 10, false),
            line(3, 10, false),
            line(4, 11, false),
            line(5, 11, true),
            line(6, 11, true),
            line(7, 11, true),
        ],
    };
    assert_eq!(handler.restore(snapshot), Ok(()));
    take_in(&mut handler, 2, 50, &[200]);
    assert_eq!(handler.order_lines.last().unwrap().kitchen_id, Some(KitchenId(11)));
    take_in(&mut handler, 3, 60, &[200]);
    assert_eq!(handler.order_lines.last().unwrap().kitchen_id, Some(KitchenId(11)));
    // three each: the smaller identifier wins
    take_in(&mut handler, 4, 70, &[200]);
    assert_eq!(handler.order_lines.last().unwrap().kitchen_id, Some(KitchenId(10)));
    assert_eq!(
        choose_kitchen(&handler.kitchens, &handler.order_lines, &SiteId(1), &BrandId(100)),
        Some(0)
    );
    assert_eq!(
        choose_kitchen(&handler.kitchens, &handler.order_lines, &SiteId(1), &BrandId(101)),
        Some(2)
    );
    assert_eq!(
        choose_kitchen(&handler.kitchens, &handler.order_lines, &SiteId(1), &BrandId(102)),
        None
    );
    assert_eq!(
        choose_kitchen(&handler.kitchens, &handler.order_lines, &SiteId(2), &BrandId(100)),
        None
    );
}

#[test]
fn lines_of_one_batch_fill_the_kitchens_in_turn() {
    let mut handler = two_kitchens();
    take_in(&mut handler, 1, 1, &[200, 200, 200, 200]);
    let kitchens: Vec<Option<KitchenId>> =
        handler.order_lines.iter().map(|line| line.kitchen_id).collect();
    assert_eq!(
        kitchens,
        vec![Some(KitchenId(10)), Some(KitchenId(11)), Some(KitchenId(10)), Some(KitchenId(11))]
    );
}

#[test]
fn lines_without_a_kitchen_are_dropped() {
    let mut handler = small_kitchen();
    let mut order = incoming(7, NOW, SITE_TILE, &[200, 200]);
    // the menu decides the brand, not the order
    order.items[0].brand_id = BrandId(999);
    handler.admit_orders(&vec![order], &vec![OrderId(1)], &vec![vec![OrderLineId(1), OrderLineId(2)]]).unwrap();
    assert_eq!(handler.order_lines.len(), 2);

    // a kitchen that cooks for another brand only
    let mut other = KitchenHandler::try_new(
        vec![site()],
        vec![kitchen(10, &[101])],
        vec![station(20, 10, KitchenStation::Workstation)],
        vec![
            item(200, 100, &[(KitchenStation::Workstation, 60)]),
            item(300, 101, &[(KitchenStation::Workstation, 60)]),
        ],
    )
    .unwrap();
    // no line finds a kitchen: the order is dropped with them
    let events = other
        .admit_orders(
            &vec![incoming(7, NOW, SITE_TILE, &[200, 200])],
            &vec![OrderId(1)],
            &vec![vec![OrderLineId(1), OrderLineId(2)]],
        )
        .unwrap();
    assert!(events.is_empty());
    assert!(other.orders.is_empty());
    assert!(other.order_lines.is_empty());
    // one line finds a kitchen: the order stays with that line
    let events = other
        .admit_orders(
            &vec![incoming(7, NOW, SITE_TILE, &[200, 300])],
            &vec![OrderId(1)],
            &vec![vec![OrderLineId(1), OrderLineId(2)]],
        )
        .unwrap();
    assert_eq!(events.len(), 1);
    assert_eq!(other.orders.len(), 1);
    assert_eq!(other.order_lines.len(), 1);
    assert_eq!(other.order_lines[0].order_line_id, OrderLineId(2));
    assert_eq!(other.order_lines[0].menu_item_id, MenuItemId(300));
}

#[test]
fn orders_that_cannot_be_taken_in_are_refused() {
    let mut handler = small_kitchen();
    take_in(&mut handler, 1, 1, &[200]);
    let tables = (handler.orders.clone(), handler.order_lines.clone());
    // not on the menu
    let result = handler.admit_orders(
        &vec![incoming(7, NOW, SITE_TILE, &[200]), incoming(7, NOW, SITE_TILE, &[404])],
        &vec![OrderId(2), OrderId(3)],
        &vec![vec![OrderLineId(2)], vec![OrderLineId(3)]],
    );
    assert_eq!(result.unwrap_err().label(), "Invalid data");
    assert_eq!((handler.orders.clone(), handler.order_lines.clone()), tables);
    // placed before the epoch
    let result = handler.prepare_order_lines(NOW, &vec![incoming(7, -1, SITE_TILE, &[200])]);
    assert!(matches!(result, Err(Error::InvalidData(_))));
    // an order identifier in use
    let result = handler.admit_orders(
        &vec![incoming(7, NOW, SITE_TILE, &[200])],
        &vec![OrderId(1)],
        &vec![vec![OrderLineId(2)]],
    );
    assert!(matches!(result, Err(Error::InternalError(_))));
    // a line identifier in use, after another order went through
    let result = handler.admit_orders(
        &vec![incoming(7, NOW, SITE_TILE, &[200]), incoming(7, NOW, SITE_TILE, &[200])],
        &vec![OrderId(2), OrderId(3)],
        &vec![vec![OrderLineId(2)], vec![OrderLineId(1)]],
    );
    assert!(matches!(result, Err(Error::InternalError(_))));
    assert_eq!((handler.orders.clone(), handler.order_lines.clone()), tables);
    // the clock out of range
    assert!(matches!(handler.step(-5, &Vec::new()), Err(Error::InvalidData(_))));
    assert!(matches!(handler.step(i64::MAX, &Vec::new()), Err(Error::InvalidData(_))));
    assert_eq!((handler.orders.clone(), handler.order_lines.clone()), tables);
}

#[test]
fn tables_that_are_not_sound_are_refused() {
    let duplicate = KitchenHandler::try_new(
        vec![site(), site()],
        vec![kitchen(10, &[100])],
        Vec::new(),
        Vec::new(),
    );
    assert_eq!(duplicate.unwrap_err().label(), "Invalid data");
    let no_steps = KitchenHandler::try_new(
        vec![site()],
        vec![kitchen(10, &[100])],
        Vec::new(),
        vec![item(200, 100, &[])],
    );
    assert!(no_steps.is_err());
    assert!(KitchenHandler::try_new(
        vec![site()],
        vec![kitchen(10, &[100]), kitchen(10, &[100])],
        Vec::new(),
        Vec::new()
    )
    .is_err());
    assert!(KitchenHandler::try_new(
        vec![site()],
        Vec::new(),
        vec![station(20, 10, KitchenStation::Oven), station(20, 10, KitchenStation::Oven)],
        Vec::new()
    )
    .is_err());
    assert!(KitchenHandler::try_new(
        Vec::new(),
        Vec::new(),
        Vec::new(),
        vec![
            item(200, 100, &[(KitchenStation::Oven, 1)]),
            item(200, 100, &[(KitchenStation::Oven, 1)])
        ]
    )
    .is_err());

    let mut handler = two_kitchens();
    let held = |id: u128, station: u128| OrderLine {
        assigned_station: Some(StationId(station)),
        step_completion_time: Some(NOW),
        ..line(id, 10, false)
    };
    let refused = |handler: &mut KitchenHandler, orders: Vec<Order>, order_lines: Vec<OrderLine>| {
        let result = handler.restore(KitchenSnapshot { orders, order_lines });
        assert!(matches!(result, Err(Error::InvalidData(_))));
        assert!(handler.orders.is_empty());
    };
    let one = || vec![order(1, OrderStatus::Submitted)];
    // a station held twice
    refused(&mut handler, one(), vec![held(1, 20), held(2, 20)]);
    // a line identifier twice
    refused(&mut handler, one(), vec![line(1, 10, false), line(1, 10, false)]);
    // an order without lines
    refused(&mut handler, one(), Vec::new());
    // a line without its order
    refused(&mut handler, Vec::new(), vec![line(1, 10, false)]);
    // a line in an unknown kitchen
    refused(&mut handler, one(), vec![line(1, 77, false)]);
    // a line past its recipe that is not finished
    refused(&mut handler, one(), vec![OrderLine { current_step: 2, ..line(1, 10, false) }]);
    // a line with more steps than its recipe
    refused(&mut handler, one(), vec![OrderLine { total_steps: 2, ..line(1, 10, false) }]);
    // a station without a completion time
    refused(
        &mut handler,
        one(),
        vec![OrderLine { step_completion_time: None, ..held(1, 20) }],
    );
    // an order twice
    refused(
        &mut handler,
        vec![order(1, OrderStatus::Submitted), order(1, OrderStatus::Ready)],
        vec![line(1, 10, false)],
    );
    // a kitchen on another site than the order
    refused(
        &mut handler,
        vec![Order { site_id: SiteId(2), ..order(1, OrderStatus::Submitted) }],
        vec![line(1, 10, false)],
    );
    // a line at a station that is not in the table
    refused(&mut handler, one(), vec![held(1, 21)]);
    // a line at a station of another kitchen
    refused(
        &mut handler,
        one(),
        vec![OrderLine { kitchen_id: Some(KitchenId(11)), ..held(1, 20) }],
    );
    // sound tables are taken
    assert_eq!(
        handler.restore(KitchenSnapshot {
            orders: one(),
            order_lines: vec![held(1, 20), line(2, 10, false), line(3, 11, true)],
        }),
        Ok(())
    );
}

#[test]
fn snapshot_is_taken_back() {
    let mut handler = small_kitchen();
    take_in(&mut handler, 1, 1, &[200, 201, 202]);
    handler.process_order_lines(NOW);
    let taken = handler.snapshot();
    assert_eq!(taken.orders, handler.orders);
    assert_eq!(taken.order_lines, handler.order_lines);
    let mut other = small_kitchen();
    assert_eq!(other.restore(taken), Ok(()));
    assert_eq!(other.orders, handler.orders);
    assert_eq!(other.order_lines, handler.order_lines);
    assert_eq!(other.get_stats(), handler.get_stats());
    let draws = vec![vec![EVEN, EVEN, EVEN]];
    let a = handler.process_order_lines_with(NOW + 600_000, &draws);
    let b = other.process_order_lines_with(NOW + 600_000, &draws);
    assert_eq!(a.len(), b.len());
    assert_eq!(other.order_lines, handler.order_lines);
}

#[test]
fn order_status_is_set_for_the_orders_named() {
    let mut handler = small_kitchen();
    take_in(&mut handler, 1, 1, &[200]);
    take_in(&mut handler, 2, 2, &[200]);
    handler.set_order_status(&vec![OrderId(2), OrderId(9)], OrderStatus::PickedUp);
    assert_eq!(handler.orders[0].status, OrderStatus::Submitted);
    assert_eq!(handler.orders[1].status, OrderStatus::PickedUp);
    assert!(handler.ready_orders().is_empty());
    handler.set_order_status(&Vec::new(), OrderStatus::Failed);
    assert_eq!(handler.orders[0].status, OrderStatus::Submitted);
}

#[test]
fn step_duration_follows_the_formula() {
    // the factor is (0.7 + draw / 1 000 000) squared
    assert_eq!(step_duration(60, 300_000), 60);
    assert_eq!(step_duration(60, 0), 29);
    assert_eq!(step_duration(60, 999_999), 173);
    assert_eq!(step_duration(100, 0), 49);
    assert_eq!(step_duration(0, 999_999), 0);
    // halves are rounded up: 0.707107 squared is just above a half
    assert_eq!(step_duration(1, 7_107), 1);
    assert_eq!(step_duration(1, 7_106), 0);
    assert_eq!(step_duration(u32::MAX, 999_999), 12_412_440_880);
}

#[test]
fn statuses_are_written_and_read() {
    assert_eq!(OrderStatus::PickedUp.as_str(), "picked_up");
    assert_eq!(OrderStatus::parse("picked_up"), Some(OrderStatus::PickedUp));
    assert_eq!(OrderStatus::parse("submitted"), Some(OrderStatus::Submitted));
    assert_eq!(OrderStatus::parse("processing"), Some(OrderStatus::Processing));
    assert_eq!(OrderStatus::parse("ready"), Some(OrderStatus::Ready));
    assert_eq!(OrderStatus::parse("delivered"), Some(OrderStatus::Delivered));
    assert_eq!(OrderStatus::parse("cancelled"), Some(OrderStatus::Cancelled));
    assert_eq!(OrderStatus::parse("failed"), Some(OrderStatus::Failed));
    assert_eq!(OrderStatus::parse("Ready"), None);
    assert_eq!(OrderStatus::parse(""), None);
    assert_eq!(OrderLineStatus::Waiting.as_str(), "waiting");
    assert_eq!(OrderLineStatus::parse("assigned"), Some(OrderLineStatus::Assigned));
    assert_eq!(OrderLineStatus::parse("picked_up"), None);
    assert_eq!(universe::objects::ObjectLabel::MenuItem.as_str(), "menu_item");
    assert_eq!(universe::objects::ObjectLabel::Site.as_str(), "site");
}

#[test]
fn kitchen_stats_add_up() {
    let a = stats(1, 2, 3, 4);
    let b = stats(10, 20, 30, 40);
    assert_eq!(
        a.add(b),
        KitchenStats {
            queued: 11,
            in_progress: 22,
            completed: 33,
            idle_stations: 44,
            total_stations: 4
        }
    );
}
