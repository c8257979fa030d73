//! Demand: which idle customers place an order in a tick, and what they
//! order.
//!
//! The rate at which a customer orders is handed in as a whole number of
//! parts in a thousand million; what is drawn by chance is kept apart from
//! what is made of the draws, so that the latter can be said exactly.

use vstd::prelude::*;
use crate::chance::draw_below;
use crate::events::OrderItem;
use crate::kitchen::intake::IncomingOrder;
use crate::orders::spec_time_in_range;
use crate::population::{Person, PersonRole, PersonStatusFlag};

verus! {

/// The whole that a rate is a part of.
pub const RATE_SCALE: u32 = 1_000_000_000;

/// The most items in one order.
pub const MAX_ITEMS: usize = 5;

/// The minutes of a day.
pub const MINUTES_PER_DAY: i64 = 1440;

/// The minute of the day, in universal time, of the instant `now_ms`.
pub open spec fn spec_minute_of_day(now_ms: i64) -> int {
    (now_ms as int / 60_000) % 1440
}

/// The minute of the day, in universal time, of an instant at or after the
/// epoch: the hour times sixty plus the minute.
pub fn minute_of_day(now_ms: i64) -> (minute: u32)
    requires
        now_ms >= 0,
    ensures
        minute == spec_minute_of_day(now_ms),
        minute < 1440,
{
    ((now_ms / 60_000) % MINUTES_PER_DAY) as u32
}

/// What chance decides for one customer in one tick.
#[derive(Debug)]
pub struct CustomerDraw {
    /// Whether the customer orders.
    pub orders: bool,
    /// How long after the beginning of the tick the order is placed, in
    /// milliseconds.
    pub delay_ms: u32,
    /// The places on the menu of the items that are ordered.
    pub picks: Vec<usize>,
}

/// A generator of orders that follows a fixed plan.
#[derive(Debug)]
pub enum OrderSpec {
    /// Nobody ever orders.
    Never,
    /// On the first call the `i`-th idle customer orders as many items as
    /// the `i`-th number says; nobody orders afterwards.
    Once(Vec<usize>),
}

impl OrderSpec {
    /// How many items the `row`-th idle customer orders on the call that
    /// `calls_before` calls came before; `None` if the customer does not
    /// order.
    pub open spec fn spec_items_for(&self, calls_before: u64, row: int) -> Option<usize> {
        match self {
            OrderSpec::Never => None,
            OrderSpec::Once(counts) => if calls_before == 0 && 0 <= row < counts@.len() {
                Some(counts@[row])
            } else {
                None
            },
        }
    }

    /// How many items the `row`-th idle customer orders on the call that
    /// `calls_before` calls came before; `None` if the customer does not
    /// order.
    pub fn items_for(&self, calls_before: u64, row: usize) -> (count: Option<usize>)
        ensures
            count == self.spec_items_for(calls_before, row as int),
    {
        match self {
            OrderSpec::Never => None,
            OrderSpec::Once(counts) => {
                if calls_before == 0 && row < counts.len() {
                    Some(counts[row])
                } else {
                    None
                }
            },
        }
    }
}

/// Whether `person` is a customer with nothing to do.
pub open spec fn is_idle_customer(person: Person) -> bool {
    person.role == PersonRole::Customer && person.status == PersonStatusFlag::Idle
}

/// Whether person `i` places an order: the person is an idle customer, and
/// the draw says so.
pub open spec fn places_order(people: Seq<Person>, draws: Seq<CustomerDraw>, i: int) -> bool {
    is_idle_customer(people[i]) && draws[i].orders
}

/// The places of the people among the first `n` who place an order, in the
/// order of the population table.
pub open spec fn ordering(people: Seq<Person>, draws: Seq<CustomerDraw>, n: int) -> Seq<int>
    decreases n,
{
    if n <= 0 {
        Seq::empty()
    } else if places_order(people, draws, n - 1) {
        ordering(people, draws, n - 1).push(n - 1)
    } else {
        ordering(people, draws, n - 1)
    }
}

/// Whether `order` is the order that `person` places under `draw` in the
/// tick that begins at `now`: it is placed after the delay of the draw, goes
/// to where the person is, and holds the items that the draw picks from the
/// menu, in the order of the picks.
pub open spec fn is_order_of(
    order: IncomingOrder,
    person: Person,
    menu: Seq<OrderItem>,
    now: i64,
    draw: CustomerDraw,
) -> bool {
    &&& order.person_id == person.id
    &&& order.submitted_at == now + draw.delay_ms
    &&& order.destination == person.position
    &&& order.destination_tile == person.order_tile
    &&& order.route_tile == person.tile
    &&& order.items@.len() == draw.picks@.len()
    &&& forall|k: int|
        0 <= k < draw.picks@.len() ==> #[trigger] order.items@[k] == menu[draw.picks@[k] as int]
}

/// Whether the `e`-th order is that of the `e`-th person who orders.
pub open spec fn order_matches(
    orders: Seq<IncomingOrder>,
    people: Seq<Person>,
    menu: Seq<OrderItem>,
    now: i64,
    draws: Seq<CustomerDraw>,
    e: int,
) -> bool {
    is_order_of(
        orders[e],
        people[ordering(people, draws, people.len() as int)[e]],
        menu,
        now,
        draws[ordering(people, draws, people.len() as int)[e]],
    )
}

/// Whether `orders` are the orders that the people place under `draws`:
/// one for each person who orders, in the order of the population table.
pub open spec fn orders_match(
    orders: Seq<IncomingOrder>,
    people: Seq<Person>,
    menu: Seq<OrderItem>,
    now: i64,
    draws: Seq<CustomerDraw>,
) -> bool {
    &&& orders.len() == ordering(people, draws, people.len() as int).len()
    &&& forall|e: int|
        0 <= e < orders.len() ==> #[trigger] order_matches(orders, people, menu, now, draws, e)
}

/// Whether every pick of `draw` is a place on a menu of `menu_len` items.
pub open spec fn draw_fits(draw: CustomerDraw, menu_len: nat) -> bool {
    forall|k: int| 0 <= k < draw.picks@.len() ==> #[trigger] draw.picks@[k] < menu_len
}

/// Whether there is one draw for each person and every draw fits the menu.
pub open spec fn draws_fit(draws: Seq<CustomerDraw>, people_len: nat, menu_len: nat) -> bool {
    &&& draws.len() == people_len
    &&& forall|i: int| 0 <= i < draws.len() ==> #[trigger] draw_fits(draws[i], menu_len)
}

/// The orders that the people place in the tick that begins at `now`, as
/// `draws` decide: see [`orders_match`].
pub fn orders_from_draws(
    people: &Vec<Person>,
    menu: &Vec<OrderItem>,
    now: i64,
    draws: &Vec<CustomerDraw>,
) -> (orders: Vec<IncomingOrder>)
    requires
        spec_time_in_range(now),
        draws_fit(draws@, people@.len(), menu@.len()),
    ensures
        orders_match(orders@, people@, menu@, now, draws@),
{
    let mut orders: Vec<IncomingOrder> = Vec::new();
    let mut i: usize = 0;
    while i < people.len()
        invariant
            i <= people.len(),
            spec_time_in_range(now),
            draws_fit(draws@, people@.len(), menu@.len()),
            orders@.len() == ordering(people@, draws@, i as int).len(),
            forall|e: int|
                0 <= e < orders@.len() ==> is_order_of(
                    #[trigger] orders@[e],
                    people@[ordering(people@, draws@, i as int)[e]],
                    menu@,
                    now,
                    draws@[ordering(people@, draws@, i as int)[e]],
                ),
        decreases people.len() - i,
    {
        let person = &people[i];
        let draw = &draws[i];
        let customer = match person.role {
            PersonRole::Customer => true,
            _ => false,
        };
        let idle = match person.status {
            PersonStatusFlag::Idle => true,
            _ => false,
        };
        if customer && idle && draw.orders {
            assert(draw_fits(draws@[i as int], menu@.len()));
            let mut items: Vec<OrderItem> = Vec::new();
            let mut k: usize = 0;
            while k < draw.picks.len()
                invariant
                    k <= draw.picks.len(),
                    draw_fits(*draw, menu@.len()),
                    items@.len() == k,
                    forall|j: int| 0 <= j < k ==> items@[j] == menu@[draw.picks@[j] as int],
                decreases draw.picks.len() - k,
            {
                items.push(menu[draw.picks[k]]);
                k += 1;
            }
            let ghost before = orders@;
            let ghost listed = ordering(people@, draws@, i as int);
            orders.push(
                IncomingOrder {
                    person_id: person.id,
                    submitted_at: now + draw.delay_ms as i64,
                    destination: person.position,
                    destination_tile: person.order_tile,
                    route_tile: person.tile,
                    items,
                },
            );
            proof {
                let now_listed = ordering(people@, draws@, i + 1);
                assert(now_listed == listed.push(i as int));
                assert forall|e: int| 0 <= e < orders@.len() implies is_order_of(
                    #[trigger] orders@[e],
                    people@[now_listed[e]],
                    menu@,
                    now,
                    draws@[now_listed[e]],
                ) by {
                    if e < before.len() {
                        assert(orders@[e] == before[e]);
                        assert(now_listed[e] == listed[e]);
                    }
                }
            }
        }
        i += 1;
    }
    proof {
        assert forall|e: int| 0 <= e < orders@.len() implies #[trigger] order_matches(
            orders@,
            people@,
            menu@,
            now,
            draws@,
            e,
        ) by {
            assert(is_order_of(
                orders@[e],
                people@[ordering(people@, draws@, people@.len() as int)[e]],
                menu@,
                now,
                draws@[ordering(people@, draws@, people@.len() as int)[e]],
            ));
        }
    }
    orders
}

/// Whether chance can give `draw` to a customer who orders with `rate` parts
/// in [`RATE_SCALE`] from a menu of `menu_len` items in a tick of `step_ms`
/// milliseconds. With an empty menu or at a rate of nothing the customer
/// does not order; at a rate of [`RATE_SCALE`] or more, with something on
/// the menu, the customer does. An order is placed within the tick and holds
/// between one and five items of the menu; a customer who does not order
/// picks nothing and waits for nothing.
pub open spec fn draw_possible(draw: CustomerDraw, rate: u32, step_ms: u32, menu_len: nat) -> bool {
    &&& draw.delay_ms <= step_ms
    &&& draw_fits(draw, menu_len)
    &&& draw.orders ==> 1 <= draw.picks@.len() <= MAX_ITEMS
    &&& menu_len == 0 || rate == 0 ==> !draw.orders
    &&& menu_len > 0 && rate >= RATE_SCALE ==> draw.orders
    &&& !draw.orders ==> draw.delay_ms == 0 && draw.picks@.len() == 0
}

/// Whether there is one possible draw for each person.
pub open spec fn draws_possible(
    draws: Seq<CustomerDraw>,
    people_len: nat,
    rate: u32,
    step_ms: u32,
    menu_len: nat,
) -> bool {
    &&& draws.len() == people_len
    &&& forall|i: int|
        0 <= i < draws.len() ==> #[trigger] draw_possible(draws[i], rate, step_ms, menu_len)
}

/// Whether `orders` are the orders that the people place at the rate `rate`
/// under some draws that chance can give; see [`orders_match`] and
/// [`draw_possible`].
pub open spec fn orders_drawn(
    orders: Seq<IncomingOrder>,
    people: Seq<Person>,
    menu: Seq<OrderItem>,
    now: i64,
    step_ms: u32,
    rate: u32,
) -> bool {
    exists|draws: Seq<CustomerDraw>| #[trigger]
        draws_possible(draws, people.len(), rate, step_ms, menu.len()) && orders_match(
            orders,
            people,
            menu,
            now,
            draws,
        )
}

/// What chance decides for one customer: the customer orders with `rate`
/// parts in [`RATE_SCALE`], at an instant within the tick, between one and
/// five items of the menu.
///
/// Chance decides only where the rate leaves it open: with an empty menu or
/// at a rate of nothing the customer does not order, and at a rate of
/// [`RATE_SCALE`] or more, with something on the menu, the customer does. A
/// customer who does not order picks nothing and waits for nothing.
pub fn draw_for_customer(rate: u32, step_ms: u32, menu_len: usize) -> (draw: CustomerDraw)
    ensures
        draw_possible(draw, rate, step_ms, menu_len as nat),
        menu_len == 0 || rate == 0 ==> !draw.orders,
        menu_len > 0 && rate >= RATE_SCALE ==> draw.orders,
        !draw.orders ==> draw.delay_ms == 0 && draw.picks@.len() == 0,
{
    let mut picks: Vec<usize> = Vec::new();
    if menu_len == 0 {
        return CustomerDraw { orders: false, delay_ms: 0, picks };
    }
    let chance = draw_below(RATE_SCALE as u64);
    let orders = chance < rate as u64;
    if !orders {
        return CustomerDraw { orders: false, delay_ms: 0, picks };
    }
    let count = 1 + draw_below(MAX_ITEMS as u64) as usize;
    let mut k: usize = 0;
    while k < count
        invariant
            k <= count,
            1 <= count <= MAX_ITEMS,
            menu_len > 0,
            picks@.len() == k,
            forall|j: int| 0 <= j < k ==> #[trigger] picks@[j] < menu_len,
        decreases count - k,
    {
        let pick = draw_below(menu_len as u64) as usize;
        picks.push(pick);
        k += 1;
    }
    let delay = draw_below(step_ms as u64 + 1) as u32;
    CustomerDraw { orders: true, delay_ms: delay, picks }
}

/// The orders that the people place in the tick of `step_ms` milliseconds
/// that begins at `now`, where each idle customer orders with `rate` parts
/// in [`RATE_SCALE`].
///
/// Whatever is drawn, the orders are those of [`orders_from_draws`] for some
/// possible draws. With an empty menu or at a rate of nothing, nobody
/// orders; at a rate of [`RATE_SCALE`] or more, with something on the menu,
/// every idle customer does.
pub fn create_orders(
    people: &Vec<Person>,
    menu: &Vec<OrderItem>,
    now: i64,
    step_ms: u32,
    rate: u32,
) -> (orders: Vec<IncomingOrder>)
    requires
        spec_time_in_range(now),
    ensures
        orders_drawn(orders@, people@, menu@, now, step_ms, rate),
        menu@.len() == 0 || rate == 0 ==> orders@.len() == 0,
        menu@.len() > 0 && rate >= RATE_SCALE ==> orders@.len() == idle_customers_before(
            people@,
            people@.len() as int,
        ),
{
    let mut draws: Vec<CustomerDraw> = Vec::new();
    let mut i: usize = 0;
    while i < people.len()
        invariant
            i <= people.len(),
            draws@.len() == i,
            forall|j: int|
                0 <= j < draws@.len() ==> #[trigger] draw_possible(
                    draws@[j],
                    rate,
                    step_ms,
                    menu@.len(),
                ),
        decreases people.len() - i,
    {
        let draw = draw_for_customer(rate, step_ms, menu.len());
        let ghost before = draws@;
        draws.push(draw);
        proof {
            assert forall|j: int| 0 <= j < draws@.len() implies #[trigger] draw_possible(
                draws@[j],
                rate,
                step_ms,
                menu@.len(),
            ) by {
                if j < before.len() {
                    assert(draws@[j] == before[j]);
                }
            }
        }
        i += 1;
    }
    let orders = {
        proof {
            assert forall|j: int| 0 <= j < draws@.len() implies #[trigger] draw_fits(
                draws@[j],
                menu@.len(),
            ) by {
                assert(draw_possible(draws@[j], rate, step_ms, menu@.len()));
            }
        }
        orders_from_draws(people, menu, now, &draws)
    };
    proof {
        if menu@.len() == 0 || rate == 0 {
            assert forall|j: int| 0 <= j < draws@.len() implies !(#[trigger] draws@[j]).orders by {
                assert(draw_possible(draws@[j], rate, step_ms, menu@.len()));
            }
            lemma_nobody_orders(people@, draws@, people@.len() as int);
        }
        if menu@.len() > 0 && rate >= RATE_SCALE {
            assert forall|j: int| 0 <= j < draws@.len() implies (#[trigger] draws@[j]).orders by {
                assert(draw_possible(draws@[j], rate, step_ms, menu@.len()));
            }
            lemma_everybody_orders(people@, draws@, people@.len() as int);
        }
        assert(draws_possible(draws@, people@.len(), rate, step_ms, menu@.len()));
    }
    orders
}

/// Where nobody is an idle customer, nobody orders.
pub proof fn lemma_no_customer_no_order(people: Seq<Person>, draws: Seq<CustomerDraw>, n: int)
    requires
        0 <= n <= people.len(),
        forall|j: int| 0 <= j < people.len() ==> !is_idle_customer(#[trigger] people[j]),
    ensures
        ordering(people, draws, n).len() == 0,
    decreases n,
{
    if n > 0 {
        lemma_no_customer_no_order(people, draws, n - 1);
    }
}

/// Where every draw says so, every idle customer orders.
pub proof fn lemma_everybody_orders(people: Seq<Person>, draws: Seq<CustomerDraw>, n: int)
    requires
        0 <= n <= draws.len(),
        forall|j: int| 0 <= j < draws.len() ==> (#[trigger] draws[j]).orders,
    ensures
        ordering(people, draws, n).len() == idle_customers_before(people, n),
    decreases n,
{
    if n > 0 {
        lemma_everybody_orders(people, draws, n - 1);
    }
}

/// The places in `ordering` are places of people.
pub proof fn lemma_ordering_in_range(people: Seq<Person>, draws: Seq<CustomerDraw>, n: int)
    requires
        0 <= n <= people.len(),
    ensures
        forall|e: int|
            0 <= e < ordering(people, draws, n).len() ==> 0 <= #[trigger] ordering(
                people,
                draws,
                n,
            )[e] < n,
    decreases n,
{
    if n > 0 {
        lemma_ordering_in_range(people, draws, n - 1);
        let before = ordering(people, draws, n - 1);
        let now = ordering(people, draws, n);
        assert forall|e: int| 0 <= e < now.len() implies 0 <= #[trigger] now[e] < n by {
            if e < before.len() {
                assert(now[e] == before[e]);
            }
        }
    }
}

/// Where no draw says so, nobody orders.
pub proof fn lemma_nobody_orders(people: Seq<Person>, draws: Seq<CustomerDraw>, n: int)
    requires
        0 <= n <= draws.len(),
        forall|j: int| 0 <= j < draws.len() ==> !(#[trigger] draws[j]).orders,
    ensures
        ordering(people, draws, n).len() == 0,
    decreases n,
{
    if n > 0 {
        lemma_nobody_orders(people, draws, n - 1);
    }
}

/// How many of the first `n` people are idle customers.
pub open spec fn idle_customers_before(people: Seq<Person>, n: int) -> nat
    decreases n,
{
    if n <= 0 {
        0
    } else {
        idle_customers_before(people, n - 1) + if is_idle_customer(people[n - 1]) {
            1nat
        } else {
            0nat
        }
    }
}

/// Whether the draw of person `i` follows the plan `plan` on the call that
/// `calls_before` calls came before: an idle customer orders as many items
/// as the plan gives the customer's place among the idle customers, and
/// does not order if the plan gives it none.
pub open spec fn draw_follows(
    plan: OrderSpec,
    calls_before: u64,
    people: Seq<Person>,
    draws: Seq<CustomerDraw>,
    i: int,
) -> bool {
    is_idle_customer(people[i]) ==> match plan.spec_items_for(
        calls_before,
        idle_customers_before(people, i) as int,
    ) {
        Some(count) => draws[i].orders && draws[i].picks@.len() == count,
        None => !draws[i].orders,
    }
}

/// Whether the draws of all people follow the plan.
pub open spec fn draws_follow(
    plan: OrderSpec,
    calls_before: u64,
    people: Seq<Person>,
    draws: Seq<CustomerDraw>,
    step_ms: u32,
    menu_len: nat,
) -> bool {
    &&& draws.len() == people.len()
    &&& forall|i: int|
        0 <= i < draws.len() ==> #[trigger] draw_follows(plan, calls_before, people, draws, i)
    &&& forall|i: int| 0 <= i < draws.len() ==> #[trigger] draw_fits(draws[i], menu_len)
    &&& forall|i: int| 0 <= i < draws.len() ==> (#[trigger] draws[i]).delay_ms <= step_ms
}

/// Whether `orders` are the orders that the people place under some draws
/// that follow the plan; see [`orders_match`] and [`draw_follows`].
pub open spec fn orders_planned(
    orders: Seq<IncomingOrder>,
    people: Seq<Person>,
    menu: Seq<OrderItem>,
    now: i64,
    step_ms: u32,
    plan: OrderSpec,
    calls_before: u64,
) -> bool {
    exists|draws: Seq<CustomerDraw>| #[trigger]
        draws_follow(plan, calls_before, people, draws, step_ms, menu.len()) && orders_match(
            orders,
            people,
            menu,
            now,
            draws,
        )
}

/// The orders that the people place in the tick of `step_ms` milliseconds
/// that begins at `now` under the fixed plan `plan`, on the call that
/// `calls_before` calls came before.
///
/// Who orders, and how many items, is as the plan says; which items, and
/// when within the tick, is drawn by chance. With an empty menu nobody
/// orders.
pub fn create_orders_fixed(
    people: &Vec<Person>,
    menu: &Vec<OrderItem>,
    now: i64,
    step_ms: u32,
    plan: &OrderSpec,
    calls_before: u64,
) -> (orders: Vec<IncomingOrder>)
    requires
        spec_time_in_range(now),
    ensures
        menu@.len() == 0 ==> orders@.len() == 0,
        menu@.len() > 0 ==> orders_planned(
            orders@,
            people@,
            menu@,
            now,
            step_ms,
            *plan,
            calls_before,
        ),
{
    if menu.len() == 0 {
        return Vec::new();
    }
    let mut draws: Vec<CustomerDraw> = Vec::new();
    let mut row: usize = 0;
    let mut i: usize = 0;
    while i < people.len()
        invariant
            i <= people.len(),
            menu@.len() > 0,
            draws@.len() == i,
            row == idle_customers_before(people@, i as int),
            row <= i,
            forall|j: int|
                0 <= j < draws@.len() ==> #[trigger] draw_follows(
                    *plan,
                    calls_before,
                    people@,
                    draws@,
                    j,
                ),
            forall|j: int| 0 <= j < draws@.len() ==> #[trigger] draw_fits(draws@[j], menu@.len()),
            forall|j: int| 0 <= j < draws@.len() ==> (#[trigger] draws@[j]).delay_ms <= step_ms,
        decreases people.len() - i,
    {
        let person = &people[i];
        let customer = match person.role {
            PersonRole::Customer => true,
            _ => false,
        };
        let idle = match person.status {
            PersonStatusFlag::Idle => true,
            _ => false,
        };
        let mut picks: Vec<usize> = Vec::new();
        let mut orders = false;
        let mut delay: u32 = 0;
        if customer && idle {
            match plan.items_for(calls_before, row) {
                Some(count) => {
                    orders = true;
                    let mut k: usize = 0;
                    while k < count
                        invariant
                            k <= count,
                            menu@.len() > 0,
                            picks@.len() == k,
                            forall|j: int| 0 <= j < k ==> #[trigger] picks@[j] < menu@.len(),
                        decreases count - k,
                    {
                        picks.push(draw_below(menu.len() as u64) as usize);
                        k += 1;
                    }
                    delay = draw_below(step_ms as u64 + 1) as u32;
                },
                None => {},
            }
            row += 1;
        }
        let ghost before = draws@;
        draws.push(CustomerDraw { orders, delay_ms: delay, picks });
        proof {
            assert forall|j: int| 0 <= j < draws@.len() implies #[trigger] draw_follows(
                *plan,
                calls_before,
                people@,
                draws@,
                j,
            ) by {
                if j < before.len() {
                    assert(draw_follows(*plan, calls_before, people@, before, j));
                    assert(draws@[j] == before[j]);
                }
            }
            assert forall|j: int| 0 <= j < draws@.len() implies #[trigger] draw_fits(
                draws@[j],
                menu@.len(),
            ) by {
                if j < before.len() {
                    assert(draws@[j] == before[j]);
                }
            }
            assert forall|j: int| 0 <= j < draws@.len() implies (#[trigger] draws@[j]).delay_ms
                <= step_ms by {
                if j < before.len() {
                    assert(draws@[j] == before[j]);
                }
            }
        }
        i += 1;
    }
    let orders = orders_from_draws(people, menu, now, &draws);
    proof {
        assert(draws_follow(*plan, calls_before, people@, draws@, step_ms, menu@.len()));
    }
    orders
}

} // verus!
