use universe::demand::{
    create_orders, create_orders_fixed, draw_for_customer, minute_of_day, orders_from_draws,
    CustomerDraw, OrderSpec, MAX_ITEMS, RATE_SCALE,
};
use universe::events::OrderItem;
use universe::geo::Point;
use universe::idents::{BrandId, MenuItemId, PersonId};
use universe::population::{Person, PersonRole, PersonStatusFlag};

const NOW: i64 = 1_761_675_872_000;

fn person(id: u128, role: PersonRole, status: PersonStatusFlag) -> Person {
    Person {
        id: PersonId(id),
        role,
        status,
        position: Point::new(id as i64, -(id as i64)),
        tile: 900 + id as u64,
        order_tile: 500 + id as u64,
        order_id: None,
        eating_until: None,
        journey: None,
    }
}

fn menu() -> Vec<OrderItem> {
    (0..4u128)
        .map(|k| OrderItem { brand_id: BrandId(100 + k / 2), menu_item_id: MenuItemId(200 + k) })
        .collect()
}

fn people() -> Vec<Person> {
    vec![
        person(1, PersonRole::Customer, PersonStatusFlag::Idle),
        person(2, PersonRole::Courier, PersonStatusFlag::Idle),
        person(3, PersonRole::Customer, PersonStatusFlag::Eating),
        person(4, PersonRole::Customer, PersonStatusFlag::Idle),
        person(5, PersonRole::Customer, PersonStatusFlag::Idle),
    ]
}

fn draw(orders: bool, delay_ms: u32, picks: &[usize]) -> CustomerDraw {
    CustomerDraw { orders, delay_ms, picks: picks.to_vec() }
}

#[test]
fn orders_are_made_of_the_draws() {
    let draws = vec![
        draw(true, 250, &[3, 0, 3]),
        draw(true, 1, &[1]),
        draw(true, 2, &[2]),
        draw(false, 3, &[0]),
        draw(true, 59_999, &[1, 2]),
    ];
    let orders = orders_from_draws(&people(), &menu(), NOW, &draws);
    // the courier and the eating customer do not order, nor the customer
    // whose draw says no; the rows keep the order of the population
    assert_eq!(orders.len(), 2);
    assert_eq!(orders[0].person_id, PersonId(1));
    assert_eq!(orders[0].submitted_at, NOW + 250);
    assert_eq!(orders[0].destination, Point::new(1, -1));
    assert_eq!(orders[0].destination_tile, 501);
    assert_eq!(orders[0].route_tile, 901);
    let picked: Vec<u128> = orders[0].items.iter().map(|i| i.menu_item_id.0).collect();
    assert_eq!(picked, vec![203, 200, 203]);
    assert_eq!(orders[0].items[0].brand_id, BrandId(101));
    assert_eq!(orders[1].person_id, PersonId(5));
    assert_eq!(orders[1].submitted_at, NOW + 59_999);
    let picked: Vec<u128> = orders[1].items.iter().map(|i| i.menu_item_id.0).collect();
    assert_eq!(picked, vec![201, 202]);
}

#[test]
fn create_order_test_create_order() {
    let people: Vec<Person> =
        (0..10).map(|k| person(k, PersonRole::Customer, PersonStatusFlag::Idle)).collect();
    // at the full rate everybody orders
    let orders = create_orders(&people, &menu(), NOW, 60_000, RATE_SCALE);
    assert_eq!(orders.len(), 10);
    for (order, person) in orders.iter().zip(people.iter()) {
        assert_eq!(order.person_id, person.id);
        assert_eq!(order.destination, person.position);
        assert!(NOW <= order.submitted_at && order.submitted_at <= NOW + 60_000);
        assert!(1 <= order.items.len() && order.items.len() <= MAX_ITEMS);
        assert!(order.items.iter().all(|item| menu().contains(item)));
    }
    // at no rate, and with nothing on the menu, nobody does
    assert!(create_orders(&people, &menu(), NOW, 60_000, 0).is_empty());
    assert!(create_orders(&people, &Vec::new(), NOW, 60_000, RATE_SCALE).is_empty());
    assert!(create_orders(&Vec::new(), &menu(), NOW, 60_000, RATE_SCALE).is_empty());
}

#[test]
fn fixed_test_create_order() {
    let spec = OrderSpec::Once(vec![1]);
    let first: Vec<Option<usize>> = (0..10).map(|row| spec.items_for(0, row)).collect();
    assert_eq!(first.iter().filter(|c| c.is_some()).count(), 1);
    assert_eq!(first[0], Some(1));
    let second: Vec<Option<usize>> = (0..10).map(|row| spec.items_for(1, row)).collect();
    assert_eq!(second.iter().filter(|c| c.is_some()).count(), 0);
    assert_eq!(OrderSpec::Never.items_for(0, 0), None);
    assert_eq!(OrderSpec::Once(vec![3, 10]).items_for(0, 1), Some(10));
    assert_eq!(OrderSpec::Once(vec![3, 10]).items_for(0, 2), None);
}

#[test]
fn draws_stay_within_their_bounds() {
    for _ in 0..200 {
        let draw = draw_for_customer(RATE_SCALE, 7, 3);
        assert!(draw.orders);
        assert!(draw.delay_ms <= 7);
        assert!(1 <= draw.picks.len() && draw.picks.len() <= 5);
        assert!(draw.picks.iter().all(|pick| *pick < 3));
    }
    assert!(draw_for_customer(u32::MAX, 0, 1).orders);
    assert!(!draw_for_customer(0, 7, 3).orders);
    assert!(!draw_for_customer(RATE_SCALE, 7, 0).orders);
    // who does not order picks nothing and waits for nothing
    for rate in [0, 1, RATE_SCALE / 2] {
        for _ in 0..200 {
            let draw = draw_for_customer(rate, 7, 3);
            if !draw.orders {
                assert_eq!(draw.delay_ms, 0);
                assert!(draw.picks.is_empty());
            }
        }
    }
    let quiet = (0..2000).filter(|_| draw_for_customer(1, 7, 3).orders).count();
    assert!(quiet < 5);
}

#[test]
fn the_minute_of_the_day_is_read_off_the_clock() {
    assert_eq!(minute_of_day(0), 0);
    assert_eq!(minute_of_day(59_999), 0);
    assert_eq!(minute_of_day(60_000), 1);
    // 2025-10-28 18:24:32 in universal time
    assert_eq!(minute_of_day(NOW), 18 * 60 + 24);
    assert_eq!(minute_of_day(86_400_000 - 1), 1439);
    assert_eq!(minute_of_day(86_400_000), 0);
}

#[test]
fn a_fixed_plan_is_followed_once() {
    let people = people();
    // the idle customers are the persons 1, 4 and 5, in that order
    let plan = OrderSpec::Once(vec![2, 0, 5]);
    let orders = create_orders_fixed(&people, &menu(), NOW, 60_000, &plan, 0);
    assert_eq!(orders.len(), 3);
    let who: Vec<PersonId> = orders.iter().map(|o| o.person_id).collect();
    assert_eq!(who, vec![PersonId(1), PersonId(4), PersonId(5)]);
    let sizes: Vec<usize> = orders.iter().map(|o| o.items.len()).collect();
    assert_eq!(sizes, vec![2, 0, 5]);
    for (order, person) in orders.iter().zip([&people[0], &people[3], &people[4]]) {
        assert_eq!(order.destination, person.position);
        assert_eq!(order.destination_tile, person.order_tile);
        assert_eq!(order.route_tile, person.tile);
        assert!(NOW <= order.submitted_at && order.submitted_at <= NOW + 60_000);
        assert!(order.items.iter().all(|item| menu().contains(item)));
    }
    // a plan shorter than the queue leaves the rest without an order
    let short = OrderSpec::Once(vec![1]);
    let orders = create_orders_fixed(&people, &menu(), NOW, 60_000, &short, 0);
    assert_eq!(orders.len(), 1);
    assert_eq!(orders[0].person_id, PersonId(1));
    assert_eq!(orders[0].items.len(), 1);
    // on a later call, under the plan of nothing, and with an empty menu nobody orders
    assert!(create_orders_fixed(&people, &menu(), NOW, 60_000, &plan, 1).is_empty());
    assert!(create_orders_fixed(&people, &menu(), NOW, 60_000, &OrderSpec::Never, 0).is_empty());
    assert!(create_orders_fixed(&people, &Vec::new(), NOW, 60_000, &plan, 0).is_empty());
}
