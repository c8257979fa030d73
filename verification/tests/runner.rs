use universe::error::Error;
use universe::events::OrderItem;
use universe::idents::{BrandId, KitchenId, MenuItemId, OrderId, OrderLineId, StationId};
use universe::kitchen::runner::{
    release_station, take_station, KitchenRunner, LineItem, LineUpdate, OrderProgress,
    ProcessingStatus, StationRunner, StationStatus,
};
use universe::objects::{Instruction, KitchenStation, MenuItem, Station};
use universe::orders::OrderLineStatus;

const NOW: i64 = 1_761_675_872_000;

fn station(id: u128, kitchen: u128, station_type: KitchenStation) -> Station {
    Station { id: StationId(id), kitchen_id: KitchenId(kitchen), station_type }
}

fn menu() -> Vec<MenuItem> {
    let step = |s: KitchenStation, d: u32| Instruction { required_station: s, expected_duration_s: d };
    vec![
        MenuItem {
            id: MenuItemId(200),
            brand_id: BrandId(100),
            instructions: vec![step(KitchenStation::Workstation, 60)],
        },
        MenuItem {
            id: MenuItemId(201),
            brand_id: BrandId(100),
            instructions: vec![
                step(KitchenStation::Workstation, 60),
                step(KitchenStation::Oven, 120),
            ],
        },
    ]
}

fn line(id: u128, item: u128) -> LineItem {
    LineItem {
        id: OrderLineId(id),
        order_id: OrderId(1000 + id),
        item: OrderItem { brand_id: BrandId(100), menu_item_id: MenuItemId(item) },
    }
}

fn kitchen() -> KitchenRunner {
    KitchenRunner::try_new(
        KitchenId(10),
        vec![BrandId(100)],
        &vec![
            station(20, 10, KitchenStation::Workstation),
            station(30, 11, KitchenStation::Workstation),
            station(21, 10, KitchenStation::Oven),
        ],
    )
}

fn update(line: u128, status: OrderLineStatus) -> LineUpdate {
    LineUpdate { order_line_id: OrderLineId(line), status, kitchen_id: KitchenId(10) }
}

#[test]
fn a_kitchen_has_the_stations_that_stand_in_it() {
    let runner = kitchen();
    assert_eq!(runner.id, KitchenId(10));
    assert_eq!(runner.accepted_brands(), &vec![BrandId(100)]);
    let ids: Vec<u128> = runner.stations.iter().map(|s| s.id.0).collect();
    assert_eq!(ids, vec![20, 21]);
    assert!(runner.stations.iter().all(|s| s.status == StationStatus::Available));
    let stats = runner.stats();
    assert_eq!(stats.queued, 0);
    assert_eq!(stats.in_progress, 0);
    assert_eq!(stats.completed, 0);
    assert_eq!(stats.idle_stations, 2);
    assert_eq!(stats.total_stations, 2);
    let one = StationRunner::new(&station(5, 1, KitchenStation::Stove));
    assert_eq!(one.id, StationId(5));
    assert_eq!(one.station_type, KitchenStation::Stove);
    assert_eq!(one.status, StationStatus::Available);
}

#[test]
fn stations_are_taken_and_given_up_in_their_order() {
    let busy = |id: u128, t: KitchenStation, line: u128| StationRunner {
        id: StationId(id),
        station_type: t,
        status: StationStatus::Busy(OrderLineId(line)),
    };
    let free = |id: u128, t: KitchenStation| StationRunner {
        id: StationId(id),
        station_type: t,
        status: StationStatus::Available,
    };
    let mut stations = vec![
        busy(1, KitchenStation::Oven, 7),
        free(2, KitchenStation::Stove),
        busy(3, KitchenStation::Oven, 8),
        free(4, KitchenStation::Oven),
        busy(5, KitchenStation::Oven, 8),
    ];
    assert_eq!(take_station(&stations, KitchenStation::Oven), Some(3));
    assert_eq!(take_station(&stations, KitchenStation::Stove), Some(1));
    assert_eq!(take_station(&stations, KitchenStation::Workstation), None);
    release_station(&mut stations, KitchenStation::Oven, OrderLineId(8));
    assert_eq!(stations[2], free(3, KitchenStation::Oven));
    assert_eq!(stations[4], busy(5, KitchenStation::Oven, 8));
    assert_eq!(take_station(&stations, KitchenStation::Oven), Some(2));
    // a line that holds no station of that kind gives up nothing
    let before = stations.clone();
    release_station(&mut stations, KitchenStation::Stove, OrderLineId(8));
    release_station(&mut stations, KitchenStation::Oven, OrderLineId(9));
    assert_eq!(stations, before);
}

#[test]
fn lines_walk_through_the_kitchen() {
    let menu = menu();
    let mut runner = kitchen();
    runner.queue_order_line(line(1, 201));
    runner.queue_order_line(line(2, 200));
    assert_eq!(runner.stats().queued, 2);

    // the first line takes the workstation; the second waits in the queue
    let events = runner.step(&menu, NOW, NOW + 60_000).unwrap();
    // work that began at the beginning of the turn has taken its time at
    // the end of it: the line moves on to the oven at once
    assert_eq!(events, vec![update(1, OrderLineStatus::Processing)]);
    assert_eq!(
        runner.in_progress,
        vec![OrderProgress {
            order_line: line(1, 201),
            status: ProcessingStatus::Processing(1, NOW + 60_000),
        }]
    );
    assert_eq!(runner.queue.len(), 1);
    assert_eq!(runner.stations[0].status, StationStatus::Available);
    assert_eq!(runner.stations[1].status, StationStatus::Busy(OrderLineId(1)));

    // the second line is started and done within the turn
    let events = runner.step(&menu, NOW + 60_000, NOW + 120_000).unwrap();
    assert!(events.is_empty());
    assert_eq!(runner.queue.len(), 0);
    assert_eq!(runner.completed, vec![(OrderId(1002), OrderLineId(2))]);
    assert_eq!(runner.in_progress.len(), 1);
    assert_eq!(runner.stations[0].status, StationStatus::Available);
    let stats = runner.stats();
    assert_eq!((stats.queued, stats.in_progress, stats.completed), (0, 1, 1));
    assert_eq!(stats.idle_stations, 1);

    // two minutes in the oven
    let events = runner.step(&menu, NOW + 120_000, NOW + 179_999).unwrap();
    assert!(events.is_empty());
    assert_eq!(runner.in_progress.len(), 1);
    let events = runner.step(&menu, NOW + 120_000, NOW + 180_000).unwrap();
    assert!(events.is_empty());
    assert!(runner.in_progress.is_empty());
    assert_eq!(
        runner.take_completed(),
        vec![(OrderId(1002), OrderLineId(2)), (OrderId(1001), OrderLineId(1))]
    );
    assert!(runner.take_completed().is_empty());
    assert_eq!(runner.stats().idle_stations, 2);
}

#[test]
fn a_line_without_a_free_station_is_blocked() {
    let menu = menu();
    let mut runner = kitchen();
    // the oven is in use by a line that is not of this kitchen's making
    runner.stations[1].status = StationStatus::Busy(OrderLineId(99));
    runner.queue_order_line(line(1, 201));
    let events = runner.step(&menu, NOW, NOW + 60_000).unwrap();
    assert_eq!(events, vec![update(1, OrderLineStatus::Waiting)]);
    assert_eq!(runner.in_progress[0].status, ProcessingStatus::Blocked(1));
    assert_eq!(runner.stations[0].status, StationStatus::Available);
    // still blocked
    assert!(runner.step(&menu, NOW + 60_000, NOW + 120_000).unwrap().is_empty());
    assert_eq!(runner.in_progress[0].status, ProcessingStatus::Blocked(1));
    // the oven is given up: the line takes it
    runner.stations[1].status = StationStatus::Available;
    let events = runner.step(&menu, NOW + 120_000, NOW + 180_000).unwrap();
    assert_eq!(events, vec![update(1, OrderLineStatus::Processing)]);
    assert_eq!(runner.in_progress[0].status, ProcessingStatus::Processing(1, NOW + 180_000));
    assert_eq!(runner.stations[1].status, StationStatus::Busy(OrderLineId(1)));
}

#[test]
fn the_queue_waits_for_the_line_at_its_front() {
    let menu = menu();
    let mut runner = kitchen();
    runner.queue_order_line(line(1, 200));
    runner.queue_order_line(line(2, 200));
    assert_eq!(runner.start_order_line(&menu, NOW), Ok(true));
    assert_eq!(runner.start_order_line(&menu, NOW), Ok(false));
    assert_eq!(runner.queue.len(), 1);
    assert_eq!(runner.in_progress.len(), 1);
    assert_eq!(runner.in_progress[0].status, ProcessingStatus::Processing(0, NOW));
    let mut empty = kitchen();
    assert_eq!(empty.start_order_line(&menu, NOW), Ok(false));
}

#[test]
fn a_line_off_the_menu_is_not_found() {
    let menu = menu();
    let mut runner = kitchen();
    runner.queue_order_line(line(1, 200));
    runner.queue_order_line(line(2, 404));
    assert_eq!(runner.step(&menu, NOW, NOW + 60_000), Err(Error::NotFound));
    assert_eq!(runner.queue.len(), 2);
    assert!(runner.in_progress.is_empty());
    assert_eq!(runner.stats().idle_stations, 2);
    let mut other = kitchen();
    other.queue_order_line(line(2, 404));
    assert_eq!(other.start_order_line(&menu, NOW), Err(Error::NotFound));
    assert_eq!(other.queue.len(), 1);
}
