use universe::geo::{interpolate, Point};
use universe::movement::{Journey, JourneyLeg, Transport};

fn leg(x: i64, y: i64, distance_m: u64) -> JourneyLeg {
    JourneyLeg { destination: Point::new(x, y), distance_m }
}

fn four_legs(a: u64, b: u64, c: u64, d: u64) -> Journey {
    Journey {
        transport: Transport::default(),
        legs: vec![
            leg(-1_553_777, 515_453_468, a),
            leg(-1_556_396, 515_455_222, b),
            leg(-1_556_897, 515_455_559, c),
            leg(-1_557_318, 515_455_873, d),
        ],
        current_leg_index: 0,
        current_leg_offset: 0,
    }
}

fn share(journey: &Journey) -> f64 {
    let ratio = journey.progress_percentage();
    ratio.numerator as f64 / ratio.denominator as f64
}

#[test]
fn test_journey() {
    // a single time step that completes all legs
    let mut journey1 = four_legs(10, 20, 10, 10);
    journey1.transport = Transport::Car;
    let traversed_points = journey1.advance(60_000);
    assert_eq!(traversed_points.len(), 4);
    assert!(journey1.is_done(), "All legs should be completed");

    // several time steps on foot
    let mut journey2 = four_legs(10, 20, 10, 10);
    journey2.transport = Transport::Foot;
    let traversed_points1 = journey2.advance(5_000);
    assert_eq!(traversed_points1.len(), 1, "Should have one intermediate point");
    assert_eq!(journey2.current_leg_index, 0, "Should still be on the first leg");
    assert!(journey2.current_leg_offset > 0, "Should have made progress on the first leg");

    let traversed_points2 = journey2.advance(5_000);
    assert_eq!(
        traversed_points2.len(),
        2,
        "Should have traversed one point, and started on the second leg"
    );
    assert_eq!(journey2.current_leg_index, 1, "Should be on the second leg");
    assert!(journey2.current_leg_offset > 0, "Should have made progress on the second leg");

    // no time
    let mut journey3 = four_legs(10, 20, 10, 10);
    let traversed_points = journey3.advance(0);
    assert!(traversed_points.is_empty(), "Zero time step should not traverse any points");
    assert_eq!(journey3.current_leg_index, 0, "Should still be on the first leg");
    assert_eq!(journey3.current_leg_offset, 0, "Should not have made any progress");

    // no legs
    let mut empty_journey = Journey::from_legs(Vec::new()).unwrap();
    let traversed_points = empty_journey.advance(5_000);
    assert!(traversed_points.is_empty(), "Empty journey should not traverse any points");
    assert!(empty_journey.is_done(), "Empty journey should be done");
}

#[test]
fn test_journey_progress_tracking() {
    let journey = four_legs(100, 200, 150, 50);
    assert_eq!(journey.total_distance_m(), 500);
    assert_eq!(journey.distance_completed_m(), 0);
    assert_eq!(journey.distance_remaining_m(), 500);
    assert_eq!(share(&journey), 0.0);
    assert!(!journey.is_done());

    // 72 s at 5 km/h are 100 m
    let mut journey = journey;
    journey.transport = Transport::Foot;
    journey.advance(72_000);
    assert_eq!(journey.current_leg_index, 1);
    assert_eq!(journey.current_leg_offset, 0);
    assert_eq!(journey.distance_completed_m(), 100);
    assert_eq!(journey.distance_remaining_m(), 400);
    assert_eq!(share(&journey), 0.2);

    // 36 s at 5 km/h are 50 m
    journey.advance(36_000);
    assert_eq!(journey.current_leg_index, 1);
    assert_eq!(journey.current_leg_offset, 50 * 3600);
    assert_eq!(journey.current_leg_offset as f64 / (200.0 * 3600.0), 0.25);
    assert_eq!(journey.distance_completed_m(), 150);
    assert_eq!(journey.distance_remaining_m(), 350);
    assert_eq!(share(&journey), 0.3);

    // 252 s at 5 km/h are 350 m
    journey.advance(252_000);
    assert!(journey.is_done());
    assert_eq!(journey.distance_completed_m(), 500);
    assert_eq!(journey.distance_remaining_m(), 0);
    assert_eq!(share(&journey), 1.0);

    // 1 km at 15 km/h takes 240 s
    let journey = Journey {
        transport: Transport::Bicycle,
        legs: vec![leg(0, 0, 1000)],
        current_leg_index: 0,
        current_leg_offset: 0,
    };
    assert_eq!(journey.estimated_time_remaining_s(), 240);
}

#[test]
fn test_empty_journey() {
    let journey = Journey::from_legs(Vec::new()).unwrap();
    assert_eq!(journey.total_distance_m(), 0);
    assert_eq!(journey.distance_completed_m(), 0);
    assert_eq!(journey.distance_remaining_m(), 0);
    assert_eq!(share(&journey), 1.0);
    assert!(journey.is_done());
}

#[test]
fn velocities_are_those_of_the_transports() {
    assert_eq!(Transport::Foot.default_velocity_km_h(), 5);
    assert_eq!(Transport::Bicycle.default_velocity_km_h(), 15);
    assert_eq!(Transport::Car.default_velocity_km_h(), 60);
    assert_eq!(Transport::Bus.default_velocity_km_h(), 30);
    assert_eq!(Transport::Train.default_velocity_km_h(), 100);
    assert_eq!(Transport::Plane.default_velocity_km_h(), 800);
    assert_eq!(Transport::Ship.default_velocity_km_h(), 20);
    assert_eq!(Transport::default(), Transport::Bicycle);
    assert_eq!(Transport::Foot.as_str(), "foot");
    assert_eq!(Transport::Bicycle.as_str(), "bicycle");
    assert_eq!(Transport::Ship.as_str(), "ship");
}

#[test]
fn advance_reports_each_leg_end_and_one_point_between() {
    // legs of 10 m east each; on foot for 10.8 s: 15 m
    let mut journey = Journey {
        transport: Transport::Foot,
        legs: vec![leg(1000, 0, 10), leg(2000, 0, 10), leg(3000, 0, 10)],
        current_leg_index: 0,
        current_leg_offset: 0,
    };
    let passed = journey.advance(10_800);
    assert_eq!(passed, vec![Point::new(1000, 0), Point::new(1500, 0)]);
    assert_eq!(journey.progress(), (1, 5 * 3600));
    assert!(journey.has_started());
    // the cursor never moves back
    let passed = journey.advance(3_600);
    assert_eq!(passed, vec![Point::new(2000, 0)]);
    assert_eq!(journey.progress(), (2, 0));
    let passed = journey.advance(1_000_000);
    assert_eq!(passed, vec![Point::new(3000, 0)]);
    assert!(journey.is_done());
    assert_eq!(journey.progress(), (3, 0));
    assert!(journey.advance(1_000_000).is_empty());
}

#[test]
fn legs_without_length_are_passed_too() {
    let mut journey = Journey {
        transport: Transport::Foot,
        legs: vec![leg(1, 1, 0), leg(2, 2, 0)],
        current_leg_index: 0,
        current_leg_offset: 0,
    };
    assert_eq!(journey.total_distance_m(), 0);
    assert_eq!(share(&journey), 1.0);
    assert!(journey.advance(0).is_empty());
    assert!(!journey.is_done());
    let passed = journey.advance(1);
    assert_eq!(passed, vec![Point::new(1, 1), Point::new(2, 2)]);
    assert!(journey.is_done());
}

#[test]
fn reset_reverse_turns_the_legs_round() {
    let mut journey = four_legs(100, 200, 150, 50);
    journey.advance(100_000);
    journey.reset_reverse();
    assert_eq!(journey.progress(), (0, 0));
    assert!(!journey.has_started());
    let distances: Vec<u64> = journey.full_journey().iter().map(|l| l.distance_m).collect();
    assert_eq!(distances, vec![50, 150, 200, 100]);
    assert_eq!(journey.distance_m(), 500);
}

#[test]
fn journeys_off_the_globe_or_too_long_are_refused() {
    assert!(Journey::from_legs(vec![leg(1_800_000_001, 0, 1)]).is_none());
    assert!(Journey::from_legs(vec![leg(0, -900_000_001, 1)]).is_none());
    assert!(Journey::from_legs(vec![leg(0, 0, u64::MAX), leg(0, 0, 1)]).is_none());
    let long = Journey::new(Transport::Plane, vec![leg(0, 0, u64::MAX)]).unwrap();
    assert!(long.is_sound());
    assert_eq!(long.distance_m(), u64::MAX);
    let broken = Journey {
        transport: Transport::Foot,
        legs: vec![leg(0, 0, 1)],
        current_leg_index: 0,
        current_leg_offset: 3600,
    };
    assert!(!broken.is_sound());
}

#[test]
fn interpolation_rounds_towards_the_start() {
    let from = Point::new(0, 0);
    let to = Point::new(10, -10);
    assert_eq!(interpolate(&from, &to, 1, 3), Point::new(3, -3));
    assert_eq!(interpolate(&from, &to, 2, 3), Point::new(6, -6));
    assert_eq!(interpolate(&from, &to, 0, 3), from);
    assert_eq!(interpolate(&from, &to, 3, 3), to);
    assert_eq!(from.distance_squared(&to), 200);
    assert!(from.on_globe());
    assert!(!Point::new(0, 900_000_001).on_globe());
}
