use universe::error::Error;
use universe::geo::Point;
use universe::idents::{OrderId, PersonId};
use universe::movement::{Journey, JourneyLeg, Transport};
use universe::population::{
    copy_journey, step_person, Person, PersonRole, PersonStatus, PersonStatusFlag,
    PopulationHandler, PopulationStats, EATING_TIME_MS,
};

const NOW: i64 = 1_761_675_872_000;

fn person(id: u128, role: PersonRole) -> Person {
    Person {
        id: PersonId(id),
        role,
        status: PersonStatusFlag::Idle,
        position: Point::new(-1_553_777, 515_453_468),
        tile: 9,
        order_tile: 5,
        order_id: None,
        eating_until: None,
        journey: None,
    }
}

fn journey(legs: &[(i64, i64, u64)]) -> Journey {
    Journey::from_legs(
        legs.iter()
            .map(|(x, y, d)| JourneyLeg { destination: Point::new(*x, *y), distance_m: *d })
            .collect(),
    )
    .unwrap()
}

fn handler() -> PopulationHandler {
    PopulationHandler::try_new(vec![
        person(1, PersonRole::Customer),
        person(2, PersonRole::Courier),
        person(3, PersonRole::Courier),
    ])
    .unwrap()
}

#[test]
fn test_start_journeys() {
    let mut handler = handler();
    let trip = journey(&[(-1_556_396, 515_455_222, 100), (-1_556_897, 515_455_559, 200)]);
    assert!(handler.start_journey(PersonId(2), None, trip));
    let stats = handler.get_stats();
    assert_eq!(stats.active_journeys, 1);
    assert_eq!(stats.completed_journeys, 0);
    // nobody with that identifier
    let trip = journey(&[(0, 0, 1)]);
    assert!(!handler.start_journey(PersonId(99), None, trip));
    assert_eq!(handler.get_stats().active_journeys, 1);
}

#[test]
fn test_empty_journeys() {
    let mut handler = handler();
    for _ in 0..5 {
        assert!(handler.advance_journeys(NOW, 60_000).is_empty());
    }
    let stats = handler.get_stats();
    assert_eq!(stats.active_journeys, 0);
    assert_eq!(stats.completed_journeys, 0);
}

#[test]
fn test_journey_advancement() {
    let mut handler = handler();
    // 15 km/h for a second are about four metres
    let trip = journey(&[(-1_556_396, 515_455_222, 10), (-1_556_897, 515_455_559, 10)]);
    handler.start_journey(PersonId(2), None, trip);
    handler.set_person_status(&vec![PersonId(2)], PersonStatusFlag::Moving);
    assert_eq!(handler.get_stats().active_journeys, 1);
    handler.advance_journeys(NOW, 1_000);
    assert_eq!(handler.get_stats().active_journeys, 1);
    let courier = &handler.population[1];
    assert_eq!(courier.status, PersonStatusFlag::Moving);
    let travel = courier.journey.as_ref().unwrap();
    assert_eq!(travel.progress(), (0, 15_000));
    // no leg was completed on the way: the end of the leg is reported
    assert_eq!(courier.position, Point::new(-1_556_396, 515_455_222));
}

#[test]
fn test_journey_completion() {
    let mut handler = handler();
    let trip = journey(&[(-1_553_778, 515_453_469, 1)]);
    handler.start_journey(PersonId(2), None, trip);
    handler.set_person_status(&vec![PersonId(2)], PersonStatusFlag::Moving);
    for _ in 0..100 {
        handler.advance_journeys(NOW, 60_000);
    }
    let stats = handler.get_stats();
    assert!(stats.completed_journeys > 0, "Expected journey to be completed");
    assert_eq!(handler.population[1].status, PersonStatusFlag::Idle);
    assert_eq!(handler.population[1].position, Point::new(-1_553_778, 515_453_469));
}

#[test]
fn test_get_current_positions() {
    let mut handler = handler();
    let trip = journey(&[(10_000_000, 10_000_000, 100)]);
    handler.start_journey(PersonId(2), None, trip);
    let positions = handler.get_current_positions();
    assert_eq!(positions.len(), 3);
    assert_eq!(positions[1], (PersonId(2), Point::new(-1_553_777, 515_453_468)));
}

#[test]
fn test_get_completed_journeys() {
    let mut handler = handler();
    let trip = journey(&[(-1_553_778, 515_453_469, 1)]);
    handler.start_journey(PersonId(2), None, trip);
    handler.set_person_status(&vec![PersonId(2)], PersonStatusFlag::Moving);
    let far = journey(&[(0, 0, 1_000_000)]);
    handler.start_journey(PersonId(3), None, far);
    handler.set_person_status(&vec![PersonId(3)], PersonStatusFlag::Moving);
    for _ in 0..100 {
        handler.advance_journeys(NOW, 60);
    }
    let completed = handler.get_completed_journeys();
    assert_eq!(completed.len(), 1, "Should have completed journeys");
    assert_eq!(completed[0].0, PersonId(2));
    assert!(completed[0].1.is_done());
    let stats = handler.get_stats();
    assert_eq!(stats.active_journeys, 1);
    assert_eq!(stats.completed_journeys, 0);
    assert!(handler.population[1].journey.is_none());
    assert!(handler.get_completed_journeys().is_empty());
}

#[test]
fn a_delivery_runs_its_course() {
    let mut handler = handler();
    let trip = journey(&[(100, 0, 10), (200, 0, 10)]);
    handler.start_journey(PersonId(2), Some(OrderId(77)), trip);
    handler.set_person_status(&vec![PersonId(2)], PersonStatusFlag::Delivering);
    assert_eq!(handler.population[1].order_id, Some(OrderId(77)));

    // on the way: 15 km/h for 2.4 s are 10 m
    assert!(handler.advance_journeys(NOW, 2_400).is_empty());
    assert_eq!(handler.population[1].status, PersonStatusFlag::Delivering);
    assert_eq!(handler.population[1].position, Point::new(100, 0));

    // arrival: the courier waits, with the journey turned round
    assert!(handler.advance_journeys(NOW, 2_400).is_empty());
    let courier = &handler.population[1];
    assert_eq!(courier.status, PersonStatusFlag::WaitingForCustomer);
    assert_eq!(courier.position, Point::new(200, 0));
    let back = courier.journey.as_ref().unwrap();
    assert_eq!(back.progress(), (0, 0));
    assert_eq!(back.full_journey()[0].destination, Point::new(200, 0));
    assert_eq!(back.full_journey()[1].destination, Point::new(100, 0));

    // the order is handed over, and the courier sets out on the way back
    let delivered = handler.advance_journeys(NOW, 2_400);
    assert_eq!(delivered, vec![OrderId(77)]);
    let courier = &handler.population[1];
    assert_eq!(courier.status, PersonStatusFlag::Moving);
    assert_eq!(courier.order_id, None);
    assert_eq!(courier.position, Point::new(200, 0));

    // the customer eats for half an hour
    handler.feed_customers(&vec![PersonId(1)], NOW);
    assert_eq!(handler.population[0].status, PersonStatusFlag::Eating);
    assert_eq!(handler.population[0].eating_until, Some(NOW + 30 * 60 * 1000));
    assert_eq!(EATING_TIME_MS, 1_800_000);
    assert!(handler.advance_journeys(NOW + EATING_TIME_MS - 1, 2_400).is_empty());
    assert_eq!(handler.population[0].status, PersonStatusFlag::Eating);
    handler.advance_journeys(NOW + EATING_TIME_MS, 2_400);
    assert_eq!(handler.population[0].status, PersonStatusFlag::Idle);
    assert_eq!(handler.population[0].eating_until, None);
    // the courier is back and idle
    assert_eq!(handler.population[1].status, PersonStatusFlag::Idle);
    assert_eq!(handler.population[1].position, Point::new(100, 0));
    // the third person never changed
    assert_eq!(handler.population[2].status, PersonStatusFlag::Idle);
    assert!(handler.population[2].journey.is_none());
}

#[test]
fn a_person_without_a_journey_stays() {
    let mut lost = person(9, PersonRole::Courier);
    lost.status = PersonStatusFlag::Moving;
    let after = step_person(lost, NOW, 60_000);
    assert_eq!(after.status, PersonStatusFlag::Moving);
    assert_eq!(after.position, Point::new(-1_553_777, 515_453_468));
    let mut waiting = person(9, PersonRole::Customer);
    waiting.status = PersonStatusFlag::AwaitingOrder;
    let after = step_person(waiting, NOW, 60_000);
    assert_eq!(after.status, PersonStatusFlag::AwaitingOrder);
}

#[test]
fn unsound_journeys_are_refused() {
    let mut broken = person(1, PersonRole::Courier);
    broken.journey = Some(Journey {
        transport: Transport::Foot,
        legs: Vec::new(),
        current_leg_index: 1,
        current_leg_offset: 0,
    });
    let result = PopulationHandler::try_new(vec![person(2, PersonRole::Customer), broken]);
    assert!(matches!(result, Err(Error::InvalidData(_))));
}

#[test]
fn population_snapshot_is_taken_back() {
    let mut handler = handler();
    handler.start_journey(PersonId(2), Some(OrderId(5)), journey(&[(100, 0, 10), (200, 0, 10)]));
    handler.set_person_status(&vec![PersonId(2)], PersonStatusFlag::Delivering);
    handler.advance_journeys(NOW, 1_000);
    let taken = handler.snapshot();
    let mut other = PopulationHandler::try_new(taken).unwrap();
    assert_eq!(other.get_stats(), handler.get_stats());
    handler.advance_journeys(NOW, 3_000);
    other.advance_journeys(NOW, 3_000);
    for (a, b) in handler.population.iter().zip(other.population.iter()) {
        assert_eq!(a.id, b.id);
        assert_eq!(a.status, b.status);
        assert_eq!(a.position, b.position);
        assert_eq!(a.order_id, b.order_id);
        assert_eq!(
            a.journey.as_ref().map(|j| j.progress()),
            b.journey.as_ref().map(|j| j.progress())
        );
    }
    let copy = copy_journey(handler.population[1].journey.as_ref().unwrap());
    assert_eq!(copy.progress(), handler.population[1].journey.as_ref().unwrap().progress());
    assert_eq!(copy.distance_m(), 20);
}

#[test]
fn flags_and_roles_are_written() {
    assert_eq!(PersonStatusFlag::Idle.as_str(), "idle");
    assert_eq!(PersonStatusFlag::AwaitingOrder.as_str(), "awaiting-order");
    assert_eq!(PersonStatusFlag::Eating.as_str(), "eating");
    assert_eq!(PersonStatusFlag::Moving.as_str(), "moving");
    assert_eq!(PersonStatusFlag::Delivering.as_str(), "delivering");
    assert_eq!(PersonStatusFlag::WaitingForCustomer.as_str(), "waiting-for-customer");
    assert_eq!(PersonStatusFlag::default(), PersonStatusFlag::Idle);
    assert_eq!(PersonRole::Customer.as_str(), "customer");
    assert_eq!(PersonRole::Courier.as_str(), "courier");
    let sum = PopulationStats { active_journeys: 1, completed_journeys: 2 }
        .add(PopulationStats { active_journeys: 3, completed_journeys: 4 });
    assert_eq!(sum, PopulationStats { active_journeys: 4, completed_journeys: 6 });
}

#[test]
fn a_new_person_holds_what_the_status_needs() {
    let here = Point::new(-1_553_777, 515_453_468);
    let trip = journey(&[(-1_556_396, 515_455_222, 100)]);

    let idle = Person::new(PersonId(1), PersonRole::Customer, here, 9, 5, PersonStatus::Idle);
    assert_eq!(idle.status, PersonStatusFlag::Idle);
    assert_eq!((idle.id, idle.role, idle.position), (PersonId(1), PersonRole::Customer, here));
    assert_eq!((idle.tile, idle.order_tile), (9, 5));
    assert!(idle.order_id.is_none() && idle.eating_until.is_none() && idle.journey.is_none());

    let waiting = PersonStatus::AwaitingOrder(OrderId(7));
    assert_eq!(waiting.flag(), PersonStatusFlag::AwaitingOrder);
    let waiting = Person::new(PersonId(2), PersonRole::Customer, here, 9, 5, waiting);
    assert_eq!(waiting.order_id, Some(OrderId(7)));
    assert!(waiting.eating_until.is_none() && waiting.journey.is_none());

    let eating = Person::new(
        PersonId(3),
        PersonRole::Customer,
        here,
        9,
        5,
        PersonStatus::Eating(NOW + EATING_TIME_MS),
    );
    assert_eq!(eating.status, PersonStatusFlag::Eating);
    assert_eq!(eating.eating_until, Some(NOW + EATING_TIME_MS));
    assert!(eating.order_id.is_none() && eating.journey.is_none());

    let moving = PersonStatus::Moving(copy_journey(&trip));
    assert_eq!(moving.flag(), PersonStatusFlag::Moving);
    let moving = Person::new(PersonId(4), PersonRole::Courier, here, 9, 5, moving);
    assert!(moving.order_id.is_none());
    assert_eq!(moving.journey.as_ref().map(|j| j.total_distance_m()), Some(100));

    let delivering = PersonStatus::Delivering(OrderId(8), copy_journey(&trip));
    assert_eq!(delivering.flag(), PersonStatusFlag::Delivering);
    let delivering = Person::new(PersonId(5), PersonRole::Courier, here, 9, 5, delivering);
    assert_eq!(delivering.order_id, Some(OrderId(8)));
    assert!(delivering.journey.is_some() && delivering.eating_until.is_none());

    let handing = PersonStatus::WaitingForCustomer(OrderId(9), copy_journey(&trip));
    assert_eq!(handing.flag(), PersonStatusFlag::WaitingForCustomer);
    let handing = Person::new(PersonId(6), PersonRole::Courier, here, 9, 5, handing);
    assert_eq!(handing.status, PersonStatusFlag::WaitingForCustomer);
    assert_eq!(handing.order_id, Some(OrderId(9)));
    assert!(handing.journey.is_some());

    // such rows make a population
    let handler =
        PopulationHandler::try_new(vec![idle, waiting, eating, moving, delivering, handing]);
    assert!(handler.is_ok());
}

#[test]
fn people_are_told_apart_by_their_identifiers() {
    let twice = vec![person(1, PersonRole::Customer), person(1, PersonRole::Courier)];
    assert!(matches!(PopulationHandler::try_new(twice), Err(Error::InvalidData(_))));
    assert!(PopulationHandler::try_new(Vec::new()).is_ok());
}

#[test]
fn tiles_follow_the_people() {
    let mut handler = handler();
    assert!(!handler.set_tiles(&vec![(1, 2)]));
    assert_eq!(handler.population[0].tile, 9);
    assert!(handler.set_tiles(&vec![(11, 21), (12, 22), (13, 23)]));
    let tiles: Vec<(u64, u64)> =
        handler.population.iter().map(|p| (p.tile, p.order_tile)).collect();
    assert_eq!(tiles, vec![(11, 21), (12, 22), (13, 23)]);
    let ids: Vec<u128> = handler.population.iter().map(|p| p.id.0).collect();
    assert_eq!(ids, vec![1, 2, 3]);
    assert!(handler.population.iter().all(|p| p.status == PersonStatusFlag::Idle));
    assert!(handler.population.iter().all(|p| p.position == Point::new(-1_553_777, 515_453_468)));
}

#[test]
fn a_status_needs_what_belongs_to_it() {
    assert!(handler().statuses_backed());
    let trip = journey(&[(-1_556_396, 515_455_222, 100)]);
    let with = |status: PersonStatusFlag, order: bool, meal: bool, trip: Option<Journey>| {
        let row = Person {
            status,
            order_id: if order { Some(OrderId(5)) } else { None },
            eating_until: if meal { Some(NOW) } else { None },
            journey: trip,
            ..person(1, PersonRole::Courier)
        };
        PopulationHandler::try_new(vec![row]).unwrap().statuses_backed()
    };
    assert!(with(PersonStatusFlag::Idle, false, false, None));
    assert!(with(PersonStatusFlag::Moving, false, false, Some(copy_journey(&trip))));
    assert!(!with(PersonStatusFlag::Moving, false, false, None));
    assert!(with(PersonStatusFlag::Delivering, true, false, Some(copy_journey(&trip))));
    assert!(!with(PersonStatusFlag::Delivering, false, false, Some(copy_journey(&trip))));
    assert!(!with(PersonStatusFlag::Delivering, true, false, None));
    assert!(with(PersonStatusFlag::WaitingForCustomer, true, false, Some(copy_journey(&trip))));
    assert!(!with(PersonStatusFlag::WaitingForCustomer, false, false, Some(copy_journey(&trip))));
    assert!(with(PersonStatusFlag::Eating, false, true, None));
    assert!(!with(PersonStatusFlag::Eating, false, false, None));
}
