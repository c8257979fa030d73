//! The tick: one fixed round of the handlers, and the clock.

use vstd::prelude::*;
use crate::courier::{
    assign_couriers, courier_for, has_source, is_idle_courier, law_no_courier_no_pickup,
    law_pickup_goes_to_waiting_courier, law_pickups_differ, picked_up_events, pickup_events,
    pickup_of, pickups_upto, Pickup,
};
use crate::demand::{create_orders, order_matches, orders_drawn, orders_match, CustomerDraw};
use crate::error::Error;
use crate::events::{Event, EventStats, OrderItem};
use crate::idents::{OrderId, PersonId};
use crate::kitchen::laws::law_tick_keeps_other_orders;
use crate::kitchen::tick::kitchens_ticked;
use crate::kitchen::intake::{batch_valid, order_valid, IncomingOrder};
use crate::kitchen::status::{
    lemma_ready_rows_differ, order_is_done, ready_rows, restatus_orders, ReadyOrder,
};
use crate::kitchen::{has_order, KitchenHandler};
use crate::objects::{is_menu_index, spec_menu_index, MenuItem};
use crate::orders::{spec_time_in_range, time_in_range, Order, OrderLine, OrderStatus, MAX_TIME_MS};
use crate::population::{
    handed_over_upto, is_person_index, people_backed, people_distinct, person_fed, person_stepped,
    same_person, status_backed, PersonRole,
    same_row, same_trip, Person, PersonStatusFlag, PopulationHandler,
};
use crate::routing::{begins_along, JourneyPlanner};

verus! {

/// How a simulation runs.
#[derive(Debug, Clone, Copy, PartialEq, Eq, PartialOrd, Ord, Structural)]
pub enum SimulationMode {
    /// Run the simulation for the specified time horizon.
    Backfill,
    /// Align time passed in simulation with time passed in real time.
    Realtime,
    /// Continue from the last snapshot up to the present, then switch to
    /// real time.
    Catchup,
}

/// How often the metrics are flushed, in ticks.
pub const FLUSH_EVERY: usize = 8192;

/// The length of a tick unless it is said otherwise, in milliseconds.
pub const DEFAULT_TIME_STEP_MS: u32 = 60_000;

/// The settings of a run.
#[derive(Debug, Clone, Copy, PartialEq, Eq, Structural)]
pub struct SimulationConfig {
    /// The instant the simulation begins at, in milliseconds since the
    /// epoch.
    pub simulation_start: i64,
    /// The length of a tick, in milliseconds.
    pub time_increment_ms: u32,
    /// Whether nothing is to be written at the end of the run.
    pub dry_run: bool,
    /// Whether events are to be written.
    pub write_events: bool,
}

impl SimulationConfig {
    /// The settings of a run that begins at `simulation_start`, with ticks
    /// of a minute, that writes its snapshot but not its events.
    pub fn new(simulation_start: i64) -> (config: SimulationConfig)
        ensures
            config.simulation_start == simulation_start,
            config.time_increment_ms == DEFAULT_TIME_STEP_MS,
            !config.dry_run,
            !config.write_events,
    {
        SimulationConfig {
            simulation_start,
            time_increment_ms: DEFAULT_TIME_STEP_MS,
            dry_run: false,
            write_events: false,
        }
    }
}

/// Whether the metrics are flushed after the tick with the number `tick`,
/// counted from nothing: after every [`FLUSH_EVERY`] ticks, and not after
/// the first.
pub fn flush_due(tick: usize) -> (due: bool)
    ensures
        due == (tick != 0 && tick % FLUSH_EVERY == 0),
{
    tick != 0 && tick % FLUSH_EVERY == 0
}

/// The counts of the first `n` events.
pub open spec fn tally_upto(events: Seq<Event>, n: int) -> EventStats
    decreases n,
{
    if n <= 0 {
        EventStats {
            num_orders_created: 0,
            num_orders_updated: 0,
            num_order_lines_updated: 0,
            num_people_updated: 0,
        }
    } else {
        tally_upto(events, n - 1).spec_after(events[n - 1].spec_kind())
    }
}

/// No count of the first `n` events is greater than `n`.
pub proof fn lemma_tally_bounded(events: Seq<Event>, n: int)
    requires
        0 <= n <= u32::MAX,
    ensures
        tally_upto(events, n).num_orders_created <= n,
        tally_upto(events, n).num_orders_updated <= n,
        tally_upto(events, n).num_order_lines_updated <= n,
        tally_upto(events, n).num_people_updated <= n,
    decreases n,
{
    if n > 0 {
        lemma_tally_bounded(events, n - 1);
    }
}

/// The counts of `events`, if there are no more of them than a count can
/// hold.
pub fn tally(events: &Vec<Event>) -> (stats: Option<EventStats>)
    ensures
        stats is Some <==> events@.len() <= u32::MAX,
        stats matches Some(s) ==> s == tally_upto(events@, events@.len() as int),
{
    if events.len() > u32::MAX as usize {
        return None;
    }
    let mut stats = EventStats::new();
    let mut i: usize = 0;
    while i < events.len()
        invariant
            i <= events.len(),
            events@.len() <= u32::MAX,
            stats == tally_upto(events@, i as int),
        decreases events.len() - i,
    {
        proof {
            lemma_tally_bounded(events@, i as int);
        }
        stats.handle_event(&events[i]);
        i += 1;
    }
    Some(stats)
}

/// The events that tell of the first `n` orders delivered at the instant
/// `now`.
pub open spec fn delivered_events(delivered: Seq<OrderId>, now: i64, n: int) -> Seq<Event>
    decreases n,
{
    if n <= 0 {
        Seq::empty()
    } else {
        delivered_events(delivered, now, n - 1).push(
            Event::OrderDelivered { order_id: delivered[n - 1], timestamp: now },
        )
    }
}

/// The customers of those of the first `n` orders in `delivered` that are
/// in the orders table, in the order of `delivered`.
pub open spec fn customers_of(orders: Seq<Order>, delivered: Seq<OrderId>, n: int) -> Seq<PersonId>
    decreases n,
{
    if n <= 0 {
        Seq::empty()
    } else if has_order(orders, delivered[n - 1]) {
        customers_of(orders, delivered, n - 1).push(
            orders[choose|o: int|
                0 <= o < orders.len() && orders[o].order_id == delivered[n - 1]].person_id,
        )
    } else {
        customers_of(orders, delivered, n - 1)
    }
}

/// The identifiers of the orders of the first `n` pickups.
pub open spec fn picked_orders(pickups: Seq<Pickup>, n: int) -> Seq<OrderId>
    decreases n,
{
    if n <= 0 {
        Seq::empty()
    } else {
        picked_orders(pickups, n - 1).push(pickups[n - 1].order_id)
    }
}

/// The identifiers of the couriers of the first `n` pickups.
pub open spec fn picking_couriers(pickups: Seq<Pickup>, n: int) -> Seq<PersonId>
    decreases n,
{
    if n <= 0 {
        Seq::empty()
    } else {
        picking_couriers(pickups, n - 1).push(pickups[n - 1].courier_id)
    }
}

/// The orders and couriers of the first pickups depend on those pickups
/// only.
pub proof fn lemma_pickups_of_prefix(a: Seq<Pickup>, b: Seq<Pickup>, n: int)
    requires
        0 <= n <= a.len(),
        n <= b.len(),
        forall|i: int| 0 <= i < n ==> a[i] == b[i],
    ensures
        picked_orders(a, n) == picked_orders(b, n),
        picking_couriers(a, n) == picking_couriers(b, n),
    decreases n,
{
    if n > 0 {
        lemma_pickups_of_prefix(a, b, n - 1);
    }
}

/// Whether item `k` of the choices is item `k` of the menu.
pub open spec fn choices_mirror_menu(choices: Seq<OrderItem>, menu: Seq<MenuItem>) -> bool {
    &&& choices.len() == menu.len()
    &&& forall|k: int|
        0 <= k < choices.len() ==> (#[trigger] choices[k]).menu_item_id == menu[k].id
            && choices[k].brand_id == menu[k].brand_id
}

/// The world of the simulation and its clock.
pub struct SimulationRunner {
    /// The instant the next tick begins at, in milliseconds since the epoch.
    pub now: i64,
    /// The length of a tick, in milliseconds.
    pub time_step_ms: u32,
    /// The people.
    pub population: PopulationHandler,
    /// The kitchens.
    pub kitchens: KitchenHandler,
    /// The street network.
    pub movement: JourneyPlanner,
    /// What can be ordered: the items of the menu, in the order of the
    /// menu.
    pub choices: Vec<OrderItem>,
}

impl SimulationRunner {
    /// What holds of the world between any two ticks: the tables of each
    /// handler are sound, every person holds what the status of the person
    /// needs, and the choices are the items of the menu.
    pub open spec fn wf(&self) -> bool {
        &&& self.population.wf()
        &&& people_backed(self.population.population@)
        &&& self.kitchens.wf()
        &&& self.movement.wf()
        &&& choices_mirror_menu(self.choices@, self.kitchens.menu_items@)
    }

    /// A runner over the given world, with the clock at the beginning that
    /// `config` gives.
    pub fn new(
        config: &SimulationConfig,
        population: PopulationHandler,
        kitchens: KitchenHandler,
        movement: JourneyPlanner,
    ) -> (runner: SimulationRunner)
        requires
            population.wf(),
            people_backed(population.population@),
            kitchens.wf(),
            movement.wf(),
        ensures
            runner.wf(),
            runner.now == config.simulation_start,
            runner.time_step_ms == config.time_increment_ms,
            runner.population == population,
            runner.kitchens == kitchens,
            runner.movement == movement,
    {
        let mut choices: Vec<OrderItem> = Vec::new();
        let mut k: usize = 0;
        while k < kitchens.menu_items.len()
            invariant
                k <= kitchens.menu_items.len(),
                choices@.len() == k,
                forall|j: int|
                    0 <= j < k ==> (#[trigger] choices@[j]).menu_item_id
                        == kitchens.menu_items@[j].id && choices@[j].brand_id
                        == kitchens.menu_items@[j].brand_id,
            decreases kitchens.menu_items.len() - k,
        {
            let item = &kitchens.menu_items[k];
            choices.push(OrderItem { brand_id: item.brand_id, menu_item_id: item.id });
            k += 1;
        }
        SimulationRunner {
            now: config.simulation_start,
            time_step_ms: config.time_increment_ms,
            population,
            kitchens,
            movement,
            choices,
        }
    }

    /// The customer of the order `id`, if the order is in the orders table.
    fn customer_of(&self, id: &OrderId) -> (customer: Option<PersonId>)
        requires
            self.kitchens.wf(),
        ensures
            customer is Some <==> has_order(self.kitchens.orders@, *id),
            customer matches Some(c) ==> c == self.kitchens.orders@[choose|o: int|
                0 <= o < self.kitchens.orders@.len() && self.kitchens.orders@[o].order_id
                    == *id].person_id,
    {
        let mut o: usize = 0;
        while o < self.kitchens.orders.len()
            invariant
                self.kitchens.wf(),
                o <= self.kitchens.orders.len(),
                forall|j: int| 0 <= j < o ==> self.kitchens.orders@[j].order_id != *id,
            decreases self.kitchens.orders.len() - o,
        {
            if self.kitchens.orders[o].order_id.0 == id.0 {
                proof {
                    let orders = self.kitchens.orders@;
                    let c = choose|c: int| 0 <= c < orders.len() && orders[c].order_id == *id;
                    if c < o {
                        assert(orders[c].order_id != *id);
                    } else if o < c {
                        assert(orders[o as int].order_id != orders[c].order_id);
                    }
                }
                return Some(self.kitchens.orders[o].person_id);
            }
            o += 1;
        }
        None
    }

    /// Moves everybody on by one tick and hands over the orders that have
    /// arrived.
    ///
    /// Each person changes as [`person_stepped`] says. The orders that
    /// couriers hand over are delivered from now on, their customers eat
    /// from now on, and each is told of by an event.
    pub fn deliver(&mut self) -> (events: Vec<Event>)
        requires
            old(self).wf(),
            spec_time_in_range(old(self).now),
        ensures
            final(self).wf(),
            delivered(old(self), final(self), events@),
    {
        let now = self.now;
        let delivered = self.population.advance_journeys(now, self.time_step_ms as u64);
        assert(delivered@ == handed_over(old(self)));
        let ghost moved = self.population.population@;
        let mut customers: Vec<PersonId> = Vec::new();
        let mut events: Vec<Event> = Vec::new();
        let mut i: usize = 0;
        while i < delivered.len()
            invariant
                self.kitchens.wf(),
                self.kitchens == old(self).kitchens,
                i <= delivered.len(),
                customers@ == customers_of(self.kitchens.orders@, delivered@, i as int),
                events@ == delivered_events(delivered@, now, i as int),
            decreases delivered.len() - i,
        {
            match self.customer_of(&delivered[i]) {
                Some(customer) => {
                    customers.push(customer);
                },
                None => {},
            }
            events.push(Event::OrderDelivered { order_id: delivered[i], timestamp: now });
            i += 1;
        }
        self.kitchens.set_order_status(&delivered, OrderStatus::Delivered);
        self.population.feed_customers(&customers, now);
        proof {
            assert(delivered@ == handed_over(old(self)));
            assert(moved_then_fed(
                old(self).population.population@,
                moved,
                self.population.population@,
                now,
                self.time_step_ms as u64,
                customers@,
            ));
        }
        events
    }

    /// Matches the ready orders with the idle couriers and sends the
    /// couriers off.
    ///
    /// The pickups are those that [`assign_couriers`] offers and that can be
    /// made good, in the order of the offers: a journey leads from the site
    /// to the destination of the order, and the courier is in the table and
    /// was not sent off for an earlier offer. Each courier sent delivers from
    /// now on, carries the order, and is at the beginning of the journey;
    /// the orders are picked up; nobody and nothing else changes.
    pub fn dispatch(&mut self) -> (pickups: Vec<Pickup>)
        requires
            old(self).wf(),
        ensures
            final(self).wf(),
            dispatched(old(self), final(self), pickups@),
    {
        let ready = self.kitchens.ready_orders();
        let offers = assign_couriers(&ready, &self.population.population);
        assert(offers@ == offers_now(old(self)));
        let ghost before = self.population.population@;
        proof {
            if forall|c: int|
                0 <= c < before.len() ==> !is_idle_courier(#[trigger] before[c]) {
                law_no_courier_no_pickup(ready@, before, ready@.len() as int);
            }
            lemma_ready_rows_differ(
                self.kitchens.sites@,
                self.kitchens.orders@,
                self.kitchens.orders@.len() as int,
            );
            law_pickups_differ(ready@, before, ready@.len() as int);
        }
        let mut pickups: Vec<Pickup> = Vec::new();
        let mut orders: Vec<OrderId> = Vec::new();
        let mut couriers: Vec<PersonId> = Vec::new();
        let mut p: usize = 0;
        while p < offers.len()
            invariant
                self.population.wf(),
                self.movement.wf(),
                self.kitchens == old(self).kitchens,
                self.movement == old(self).movement,
                self.choices == old(self).choices,
                self.now == old(self).now,
                self.time_step_ms == old(self).time_step_ms,
                people_distinct(before),
                offers@ == pickups_upto(ready@, before, ready@.len() as int),
                forall|q: int|
                    0 <= q < offers@.len() ==> has_source(
                        ready@,
                        before,
                        ready@.len() as int,
                        #[trigger] offers@[q],
                    ),
                forall|a: int, b: int|
                    0 <= a < b < offers@.len() ==> offers@[a].courier_id != offers@[b].courier_id,
                p <= offers.len(),
                pickups@ == pickups_made(&self.movement, offers@, p as int),
                orders@ == picked_orders(pickups@, pickups@.len() as int),
                couriers@ == picking_couriers(pickups@, pickups@.len() as int),
                forall|q: int|
                    0 <= q < pickups@.len() ==> is_earlier_offer(
                        offers@,
                        p as int,
                        #[trigger] pickups@[q],
                    ),
                self.population.population@.len() == before.len(),
                forall|i: int|
                    0 <= i < before.len() ==> courier_loaded(
                        before,
                        i,
                        #[trigger] self.population.population@[i],
                        couriers@,
                    ),
                forall|q: int, i: int|
                    0 <= q < pickups@.len() && 0 <= i < before.len() ==> #[trigger] pickup_carried(
                        &self.movement,
                        before,
                        self.population.population@,
                        pickups@,
                        q,
                        i,
                    ),
            decreases offers.len() - p,
        {
            let offer = offers[p];
            let ghost held = self.population.population@;
            let ghost sent = couriers@;
            let ghost taken = pickups@;
            proof {
                lemma_same_ids_same_index(before, held, offer.courier_id);
                // the courier of an offer is a person of the table
                assert(has_source(ready@, before, ready@.len() as int, offers@[p as int]));
                let r = choose|r: int|
                    0 <= r < ready@.len() && #[trigger] pickup_of(ready@, before, r) == Some(
                        offers@[p as int],
                    );
                law_pickup_goes_to_waiting_courier(ready@, before, r);
                let c = courier_for(ready@, before, r)->Some_0;
                assert(is_person_index(before, offer.courier_id, c));
                assert(has_person(held, offer.courier_id));
            }
            let mut made = false;
            match self.movement.route(
                &offer.origin,
                offer.origin_tile,
                &offer.destination,
                offer.destination_tile,
            ) {
                Some(journey) => {
                    made = self.population.start_journey(
                        offer.courier_id,
                        Some(offer.order_id),
                        journey,
                    );
                    proof {
                        assert forall|i: int| 0 <= i < before.len() implies (if is_person_index(
                            before,
                            offer.courier_id,
                            i,
                        ) {
                            carries(&self.movement, self.population.population@[i], offer)
                                && same_person(held[i], self.population.population@[i])
                                && self.population.population@[i].status == held[i].status
                                && self.population.population@[i].position == held[i].position
                                && self.population.population@[i].tile == held[i].tile
                                && self.population.population@[i].order_tile == held[i].order_tile
                                && self.population.population@[i].eating_until
                                == held[i].eating_until
                        } else {
                            same_row(held[i], #[trigger] self.population.population@[i])
                        }) by {
                            assert(crate::population::person_set_out(
                                held,
                                i,
                                self.population.population@[i],
                                offer.courier_id,
                                Some(offer.order_id),
                                journey,
                            ));
                        }
                    }
                },
                None => {},
            }
            assert(made == can_pick_up(&self.movement, offer));
            if made {
                pickups.push(offer);
                orders.push(offer.order_id);
                couriers.push(offer.courier_id);
                proof {
                    lemma_pickups_of_prefix(taken, pickups@, taken.len() as int);
                    assert(couriers@ == sent.push(offer.courier_id));
                }
            }
            proof {
                let now_people = self.population.population@;
                assert forall|i: int| 0 <= i < before.len() implies courier_loaded(
                    before,
                    i,
                    #[trigger] now_people[i],
                    couriers@,
                ) by {
                    assert(courier_loaded(before, i, held[i], sent));
                    if made {
                        assert(couriers@[sent.len() as int] == offer.courier_id);
                        if sent.contains(before[i].id) {
                            let w = choose|w: int| 0 <= w < sent.len() && sent[w] == before[i].id;
                            assert(couriers@[w] == before[i].id);
                        }
                    }
                }
                assert forall|q: int| 0 <= q < pickups@.len() implies is_earlier_offer(
                    offers@,
                    p + 1,
                    #[trigger] pickups@[q],
                ) by {
                    if q < taken.len() {
                        assert(pickups@[q] == taken[q]);
                        assert(is_earlier_offer(offers@, p as int, taken[q]));
                        let e = choose|e: int| 0 <= e < p && #[trigger] offers@[e] == taken[q];
                        assert(offers@[e] == pickups@[q]);
                    } else {
                        assert(offers@[p as int] == pickups@[q]);
                    }
                }
                assert forall|q: int, i: int|
                    0 <= q < pickups@.len() && 0 <= i < before.len() implies #[trigger] pickup_carried(
                    &self.movement,
                    before,
                    now_people,
                    pickups@,
                    q,
                    i,
                ) by {
                    if q < taken.len() {
                        assert(pickups@[q] == taken[q]);
                        assert(pickup_carried(&self.movement, before, held, taken, q, i));
                        assert(is_earlier_offer(offers@, p as int, taken[q]));
                        let e = choose|e: int| 0 <= e < p && #[trigger] offers@[e] == taken[q];
                        assert(offers@[e].courier_id != offers@[p as int].courier_id);
                    } else {
                        assert(pickups@[q] == offer);
                    }
                }
            }
            p += 1;
        }
        proof {
            assert forall|q: int| 0 <= q < pickups@.len() implies offers@.contains(
                #[trigger] pickups@[q],
            ) by {
                assert(is_earlier_offer(offers@, offers@.len() as int, pickups@[q]));
                let e = choose|e: int|
                    0 <= e < offers@.len() && #[trigger] offers@[e] == pickups@[q];
                assert(offers@[e] == pickups@[q]);
            }
        }
        let ghost loaded = self.population.population@;
        self.population.set_person_status(&couriers, PersonStatusFlag::Delivering);
        self.kitchens.set_order_status(&orders, OrderStatus::PickedUp);
        proof {
            assert forall|i: int| 0 <= i < before.len() implies courier_sent(
                before,
                i,
                #[trigger] self.population.population@[i],
                couriers@,
            ) by {
                assert(courier_loaded(before, i, loaded[i], couriers@));
                assert(crate::population::person_restatused(
                    loaded[i],
                    self.population.population@[i],
                    couriers@,
                    PersonStatusFlag::Delivering,
                ));
            }
            assert forall|q: int, i: int|
                0 <= q < pickups@.len() && 0 <= i < before.len() implies #[trigger] pickup_carried(
                &self.movement,
                before,
                self.population.population@,
                pickups@,
                q,
                i,
            ) by {
                assert(pickup_carried(&self.movement, before, loaded, pickups@, q, i));
                assert(crate::population::person_restatused(
                    loaded[i],
                    self.population.population@[i],
                    couriers@,
                    PersonStatusFlag::Delivering,
                ));
            }
            assert forall|i: int| 0 <= i < before.len() implies status_backed(
                #[trigger] self.population.population@[i],
            ) by {
                let after = self.population.population@[i];
                assert(status_backed(before[i]));
                assert(courier_sent(before, i, after, couriers@));
                if couriers@.contains(before[i].id) {
                    let w = choose|w: int| 0 <= w < couriers@.len() && couriers@[w] == before[i].id;
                    lemma_couriers_upto(pickups@, pickups@.len() as int);
                    assert(pickups@[w].courier_id == before[i].id);
                    assert(is_person_index(before, pickups@[w].courier_id, i));
                    assert(pickup_carried(
                        &self.movement,
                        before,
                        self.population.population@,
                        pickups@,
                        w,
                        i,
                    ));
                }
            }
            assert(same_setting(old(self), self));
            assert(pickups@ == pickups_made(
                &old(self).movement,
                offers_now(old(self)),
                offers_now(old(self)).len() as int,
            ));
            assert(self.kitchens.orders@ == restatus_orders(
                old(self).kitchens.orders@,
                picked_orders(pickups@, pickups@.len() as int),
                OrderStatus::PickedUp,
            ));
            assert(forall|p: int|
                0 <= p < pickups@.len() ==> offers_now(old(self)).contains(#[trigger] pickups@[p]));
            assert((forall|c: int|
                0 <= c < before.len() ==> !is_idle_courier(#[trigger] before[c])) ==> pickups@.len()
                == 0);
        }
        pickups
    }

    /// One tick: the people move and orders that have arrived are handed
    /// over, ready orders are matched with idle couriers and the couriers
    /// are sent off, idle customers place orders at the rate `rate`, the
    /// kitchens take the orders in and work, and the clock moves on by the
    /// length of the tick.
    ///
    /// The tick is refused if the clock would leave the instants that the
    /// tables can hold. Else the handlers are called in this order, and the
    /// tick ends as [`tick_told`] says: it succeeds unless the kitchens find
    /// a freshly minted identifier in use, which they cannot in a tick in
    /// which nobody orders. A tick that fails leaves the world as it was.
    ///
    /// The tick leaves the tiles of the people as they were; who runs the
    /// ticks gives everybody the tiles of the new places in between, with
    /// [`PopulationHandler::set_tiles`].
    pub fn step(&mut self, rate: u32) -> (result: Result<Vec<Event>, Error>)
        requires
            old(self).wf(),
        ensures
            final(self).wf(),
            final(self).time_step_ms == old(self).time_step_ms,
            final(self).movement == old(self).movement,
            final(self).choices == old(self).choices,
            final(self).kitchens.same_catalog(&old(self).kitchens),
            final(self).population.population@.len() == old(self).population.population@.len(),
            !clock_in_range(old(self)) <==> (result matches Err(e) && e is InvalidData),
            result matches Err(e) ==> (e is InvalidData || e is InternalError),
            !clock_in_range(old(self)) ==> final(self).population == old(self).population,
            !clock_in_range(old(self)) ==> final(self).kitchens == old(self).kitchens,
            result is Err ==> rows_unchanged(
                old(self).population.population@,
                final(self).population.population@,
            ),
            result is Err ==> final(self).kitchens.orders@ == old(self).kitchens.orders@,
            result is Err ==> final(self).kitchens.order_lines@ == old(self).kitchens.order_lines@,
            clock_in_range(old(self)) ==> tick_told(
                old(self),
                rate,
                final(self).population.population@,
                final(self).kitchens.orders@,
                final(self).kitchens.order_lines@,
                result,
            ),
            clock_in_range(old(self)) && (rate == 0 || old(self).choices@.len() == 0
                || no_customers(old(self).population.population@)) ==> result is Ok,
            result is Ok ==> final(self).now == old(self).now + old(self).time_step_ms,
            result is Err ==> final(self).now == old(self).now,
            result is Ok ==> no_order_overdue(
                final(self).kitchens.orders@,
                final(self).kitchens.order_lines@,
            ),
    {
        if !time_in_range(self.now) || self.now > MAX_TIME_MS - self.time_step_ms as i64 {
            return Err(Error::invalid_data("clock out of range"));
        }
        let now = self.now;
        let people_before = self.population.snapshot();
        let tables_before = self.kitchens.snapshot();
        let mut events = self.deliver();
        let ghost moved = *self;
        let ghost told = events@;
        let pickups = self.dispatch();
        let ghost sent = *self;
        let mut picked = picked_up_events(&pickups, now);
        let ghost told_picked = picked@;
        events.append(&mut picked);
        let incoming = create_orders(
            &self.population.population,
            &self.choices,
            now,
            self.time_step_ms,
            rate,
        );
        let ghost customer_draws = choose|draws: Seq<CustomerDraw>| #[trigger]
            crate::demand::draws_possible(
                draws,
                self.population.population@.len(),
                rate,
                self.time_step_ms,
                self.choices@.len(),
            ) && orders_match(incoming@, self.population.population@, self.choices@, now, draws);
        proof {
            let draws = customer_draws;
            assert forall|n: int| 0 <= n < incoming@.len() implies #[trigger] order_valid(
                self.kitchens.menu_items@,
                incoming@[n],
            ) by {
                assert(order_matches(
                    incoming@,
                    self.population.population@,
                    self.choices@,
                    now,
                    draws,
                    n,
                ));
                let who = crate::demand::ordering(
                    self.population.population@,
                    draws,
                    self.population.population@.len() as int,
                )[n];
                assert(crate::demand::draw_possible(
                    draws[who],
                    rate,
                    self.time_step_ms,
                    self.choices@.len(),
                )) by {
                    crate::demand::lemma_ordering_in_range(
                        self.population.population@,
                        draws,
                        self.population.population@.len() as int,
                    );
                }
                assert forall|k: int| 0 <= k < incoming@[n].items@.len() implies spec_menu_index(
                    self.kitchens.menu_items@,
                    #[trigger] incoming@[n].items@[k].menu_item_id,
                ) is Some by {
                    let pick = draws[who].picks@[k];
                    assert(pick < self.choices@.len());
                    assert(incoming@[n].items@[k] == self.choices@[pick as int]);
                    assert(is_menu_index(
                        self.kitchens.menu_items@,
                        incoming@[n].items@[k].menu_item_id,
                        pick as int,
                    ));
                }
            }
        }
        proof {
            if no_customers(old(self).population.population@) {
                let people = self.population.population@;
                assert forall|j: int| 0 <= j < people.len() implies !crate::demand::is_idle_customer(
                    #[trigger] people[j],
                ) by {
                    lemma_roles_kept(old(self), &moved, &sent, told, pickups@, j);
                }
                crate::demand::lemma_no_customer_no_order(
                    people,
                    customer_draws,
                    people.len() as int,
                );
            }
        }
        assert(batch_valid(self.kitchens.menu_items@, incoming@));
        assert(self.kitchens == sent.kitchens);
        let outcome = self.kitchens.step(now, &incoming);
        let ghost people_after = self.population.population@;
        let mut cooked = match outcome {
            Ok(cooked) => cooked,
            Err(e) => {
                // the tick is undone
                self.population = PopulationHandler { population: people_before };
                self.kitchens.orders = tables_before.orders;
                proof {
                    assert(e is InternalError);
                    assert(self.kitchens.order_lines@ == old(self).kitchens.order_lines@);
                    assert(ticked(
                        old(self),
                        rate,
                        moved,
                        sent,
                        self.population.population@,
                        self.kitchens.orders@,
                        self.kitchens.order_lines@,
                        told,
                        pickups@,
                        incoming@,
                        outcome,
                        Err::<Vec<Event>, Error>(e),
                    ));
                }
                return Err(e);
            },
        };
        let ghost told_cooked = cooked;
        events.append(&mut cooked);
        self.now = now + self.time_step_ms as i64;
        proof {
            assert(events@ =~= told + pickup_events(pickups@, now, pickups@.len() as int)
                + told_cooked@);
            assert(ticked(
                old(self),
                rate,
                moved,
                sent,
                people_after,
                self.kitchens.orders@,
                self.kitchens.order_lines@,
                told,
                pickups@,
                incoming@,
                outcome,
                Ok(events),
            ));
        }
        Ok(events)
    }
}

impl SimulationRunner {
    /// One tick for each of `rates`, where `rates[t]` is the rate at which
    /// idle customers order in the `t`-th tick; the events of all ticks, in
    /// the order of the ticks.
    ///
    /// The run ends with the first tick that fails, and with what that tick
    /// failed with; the ticks before it stand. A run in which nobody orders
    /// and whose clock stays within the instants that the tables can hold
    /// succeeds.
    pub fn run(&mut self, rates: &Vec<u32>) -> (result: Result<Vec<Event>, Error>)
        requires
            old(self).wf(),
        ensures
            final(self).wf(),
            final(self).time_step_ms == old(self).time_step_ms,
            final(self).movement == old(self).movement,
            final(self).choices == old(self).choices,
            final(self).kitchens.same_catalog(&old(self).kitchens),
            final(self).population.population@.len() == old(self).population.population@.len(),
            result matches Ok(events) ==> ran(
                old(self),
                rates@,
                rates@.len() as int,
                final(self),
                events@,
            ),
            result is Ok ==> final(self).now == old(self).now + rates@.len()
                * old(self).time_step_ms,
            result is Err ==> run_failed(old(self), rates@, final(self), result),
            result matches Err(e) ==> (e is InvalidData || e is InternalError),
            nobody_orders(rates@) && spec_time_in_range(old(self).now) && old(self).now
                + rates@.len() * old(self).time_step_ms <= MAX_TIME_MS ==> result is Ok,
    {
        let mut events: Vec<Event> = Vec::new();
        let mut t: usize = 0;
        while t < rates.len()
            invariant
                self.wf(),
                self.time_step_ms == old(self).time_step_ms,
                self.movement == old(self).movement,
                self.choices == old(self).choices,
                self.kitchens.same_catalog(&old(self).kitchens),
                self.population.population@.len() == old(self).population.population@.len(),
                t <= rates.len(),
                self.now == old(self).now + t * old(self).time_step_ms,
                ran(old(self), rates@, t as int, self, events@),
            decreases rates.len() - t,
        {
            let ghost mid = *self;
            let ghost earlier = events@;
            let ghost length = old(self).time_step_ms as int;
            proof {
                assert((t + 1) * length == t * length + length) by (nonlinear_arith);
                if spec_time_in_range(old(self).now) && old(self).now + rates@.len() * length
                    <= MAX_TIME_MS {
                    assert((t + 1) * length <= rates@.len() * length) by (nonlinear_arith)
                        requires
                            t + 1 <= rates@.len(),
                            0 <= length,
                    ;
                    assert(0 <= t * length) by (nonlinear_arith)
                        requires
                            0 <= t,
                            0 <= length,
                    ;
                    assert(clock_in_range(&mid));
                }
                if nobody_orders(rates@) {
                    assert(rates@[t as int] == 0);
                }
            }
            let outcome = self.step(rates[t]);
            let mut told = match outcome {
                Ok(told) => told,
                Err(e) => {
                    proof {
                        assert(run_stopped(
                            old(self),
                            rates@,
                            t as int,
                            mid,
                            earlier,
                            self,
                            Err::<Vec<Event>, Error>(e),
                        ));
                    }
                    return Err(e);
                },
            };
            let ghost tick_events = told;
            events.append(&mut told);
            proof {
                assert(events@ =~= earlier + tick_events@);
                assert(events@.subrange(0, events@.len() - tick_events@.len()) =~= earlier);
                assert(events@.subrange(
                    events@.len() - tick_events@.len(),
                    events@.len() as int,
                ) =~= tick_events@);
                assert(tick_made(&mid, rates@[t as int], self, Ok(tick_events)));
                assert(ran(old(self), rates@, t as int, &mid, earlier));
                assert(ran(
                    old(self),
                    rates@,
                    t + 1 - 1,
                    &mid,
                    events@.subrange(0, events@.len() - tick_events@.len()),
                ));
                assert(tick_made(&mid, rates@[t + 1 - 1], self, Ok(tick_events)));
                assert(ran(old(self), rates@, t + 1, self, events@));
            }
            t += 1;
        }
        Ok(events)
    }
}

/// Whether nobody orders at any of `rates`.
pub open spec fn nobody_orders(rates: Seq<u32>) -> bool {
    forall|t: int| 0 <= t < rates.len() ==> rates[t] == 0
}

/// Whether the tick at the rate `rate` makes `after` of `mid` and ends with
/// `result`: the clock of `mid` can take the tick, the tick ends as
/// [`tick_told`] says, the clock moves on if the tick succeeds, and the
/// street network, the choices and the catalogue stay.
pub open spec fn tick_made(
    mid: &SimulationRunner,
    rate: u32,
    after: &SimulationRunner,
    result: Result<Vec<Event>, Error>,
) -> bool {
    &&& mid.wf()
    &&& clock_in_range(mid)
    &&& after.time_step_ms == mid.time_step_ms
    &&& after.movement == mid.movement
    &&& after.choices == mid.choices
    &&& after.kitchens.same_catalog(&mid.kitchens)
    &&& result is Ok ==> after.now == mid.now + mid.time_step_ms
    &&& result is Err ==> after.now == mid.now
    &&& tick_told(
        mid,
        rate,
        after.population.population@,
        after.kitchens.orders@,
        after.kitchens.order_lines@,
        result,
    )
}

/// Whether the first `k` ticks of a run at `rates` make `after` of `before`
/// and tell `events`: every tick succeeds, each begins with what the tick
/// before it made, and the events are those of the ticks one after the
/// other. No tick makes no change and tells nothing.
pub open spec fn ran(
    before: &SimulationRunner,
    rates: Seq<u32>,
    k: int,
    after: &SimulationRunner,
    events: Seq<Event>,
) -> bool
    decreases k,
{
    if k <= 0 {
        *after == *before && events.len() == 0
    } else {
        exists|mid: SimulationRunner, told: Vec<Event>|
            k <= rates.len() && told@.len() <= events.len() && ran(
                before,
                rates,
                k - 1,
                &mid,
                events.subrange(0, events.len() - told@.len()),
            ) && #[trigger] tick_made(&mid, rates[k - 1], after, Ok(told)) && events.subrange(
                events.len() - told@.len(),
                events.len() as int,
            ) == told@
    }
}

/// Whether a run at `rates` stopped at tick `k` with `result`: the ticks
/// before it made `mid` of `before` and told `earlier`, and tick `k` failed
/// and left `after`.
pub open spec fn run_stopped(
    before: &SimulationRunner,
    rates: Seq<u32>,
    k: int,
    mid: SimulationRunner,
    earlier: Seq<Event>,
    after: &SimulationRunner,
    result: Result<Vec<Event>, Error>,
) -> bool {
    &&& 0 <= k < rates.len()
    &&& result is Err
    &&& ran(before, rates, k, &mid, earlier)
    &&& mid.wf()
    &&& if clock_in_range(&mid) {
        tick_made(&mid, rates[k], after, result)
    } else {
        (result matches Err(e) && e is InvalidData) && after.now == mid.now && after.population
            == mid.population && after.kitchens == mid.kitchens
    }
}

/// Whether a run at `rates` failed with `result` and left `after`: some tick
/// failed after the ticks before it had succeeded; see [`run_stopped`].
pub open spec fn run_failed(
    before: &SimulationRunner,
    rates: Seq<u32>,
    after: &SimulationRunner,
    result: Result<Vec<Event>, Error>,
) -> bool {
    exists|k: int, mid: SimulationRunner, earlier: Seq<Event>| #[trigger]
        run_stopped(before, rates, k, mid, earlier, after, result)
}

/// The orders that the couriers of `runner` hand over in the next tick.
pub open spec fn handed_over(runner: &SimulationRunner) -> Seq<OrderId> {
    handed_over_upto(runner.population.population@, runner.population.population@.len() as int)
}

/// The ready orders of `runner`, each with the place of its pickup.
pub open spec fn ready_now(runner: &SimulationRunner) -> Seq<ReadyOrder> {
    ready_rows(runner.kitchens.sites@, runner.kitchens.orders@, runner.kitchens.orders@.len() as int)
}

/// Whether `after` is `before` with everything but the people and the
/// orders as it was.
pub open spec fn same_setting(before: &SimulationRunner, after: &SimulationRunner) -> bool {
    &&& after.now == before.now
    &&& after.time_step_ms == before.time_step_ms
    &&& after.movement == before.movement
    &&& after.choices == before.choices
    &&& after.kitchens.same_catalog(&before.kitchens)
    &&& after.kitchens.order_lines == before.kitchens.order_lines
    &&& after.population.population@.len() == before.population.population@.len()
}

/// Whether `after` is what [`SimulationRunner::deliver`] makes of `before`,
/// and `events` what it tells.
///
/// Everybody moved on by one tick; the orders that couriers handed over are
/// delivered, each told of by an event, and their customers eat.
pub open spec fn delivered(
    before: &SimulationRunner,
    after: &SimulationRunner,
    events: Seq<Event>,
) -> bool {
    &&& same_setting(before, after)
    &&& after.kitchens.orders@ == restatus_orders(
        before.kitchens.orders@,
        handed_over(before),
        OrderStatus::Delivered,
    )
    &&& events == delivered_events(handed_over(before), before.now, handed_over(before).len() as int)
    &&& exists|moved: Seq<Person>| #[trigger]
        moved_then_fed(
            before.population.population@,
            moved,
            after.population.population@,
            before.now,
            before.time_step_ms as u64,
            customers_of(
                before.kitchens.orders@,
                handed_over(before),
                handed_over(before).len() as int,
            ),
        )
}

/// The pickups that [`assign_couriers`] offers for the ready orders and the
/// people of `runner`.
pub open spec fn offers_now(runner: &SimulationRunner) -> Seq<Pickup> {
    pickups_upto(
        ready_now(runner),
        runner.population.population@,
        ready_now(runner).len() as int,
    )
}

/// Whether somebody in `people` has the identifier `id`.
pub open spec fn has_person(people: Seq<Person>, id: PersonId) -> bool {
    exists|i: int| is_person_index(people, id, i)
}

/// Whether the offer `offer` can be made good: a journey leads from where
/// the order is picked up to where it goes.
pub open spec fn can_pick_up(planner: &JourneyPlanner, offer: Pickup) -> bool {
    planner.spec_route(
        offer.origin,
        offer.origin_tile,
        offer.destination,
        offer.destination_tile,
    ) is Some
}

/// Those of the first `n` offers that can be made good, in the order of the
/// offers.
pub open spec fn pickups_made(planner: &JourneyPlanner, offers: Seq<Pickup>, n: int) -> Seq<Pickup>
    decreases n,
{
    if n <= 0 {
        Seq::empty()
    } else if can_pick_up(planner, offers[n - 1]) {
        pickups_made(planner, offers, n - 1).push(offers[n - 1])
    } else {
        pickups_made(planner, offers, n - 1)
    }
}

/// Whether `pickup` is one of the first `n` offers.
pub open spec fn is_earlier_offer(offers: Seq<Pickup>, n: int, pickup: Pickup) -> bool {
    exists|p: int| 0 <= p < n && #[trigger] offers[p] == pickup
}

/// Whether the row `person` carries the order of `pickup` and is at the
/// beginning of the journey planned for it.
pub open spec fn carries(planner: &JourneyPlanner, person: Person, pickup: Pickup) -> bool {
    &&& person.order_id == Some(pickup.order_id)
    &&& person.journey matches Some(journey)
    &&& planner.spec_route(
        pickup.origin,
        pickup.origin_tile,
        pickup.destination,
        pickup.destination_tile,
    ) matches Some(legs)
    &&& begins_along(journey, legs)
}

/// Whether, if row `i` is the row of the courier of pickup `q`, that row
/// carries the order of the pickup afterwards.
pub open spec fn pickup_carried(
    planner: &JourneyPlanner,
    before: Seq<Person>,
    after: Seq<Person>,
    pickups: Seq<Pickup>,
    q: int,
    i: int,
) -> bool {
    is_person_index(before, pickups[q].courier_id, i) ==> carries(planner, after[i], pickups[q])
}

/// Whether `after` is what [`SimulationRunner::dispatch`] makes of
/// `before`, and `pickups` what it returns.
///
/// The pickups are the offers of [`assign_couriers`] that can be made good;
/// the orders picked up are picked up from now on; each courier sent
/// delivers, carries the order and is at the beginning of the journey
/// planned for it; nobody and nothing else changes. With no idle courier
/// nothing is picked up.
pub open spec fn dispatched(
    before: &SimulationRunner,
    after: &SimulationRunner,
    pickups: Seq<Pickup>,
) -> bool {
    &&& same_setting(before, after)
    &&& pickups == pickups_made(
        &before.movement,
        offers_now(before),
        offers_now(before).len() as int,
    )
    &&& after.kitchens.orders@ == restatus_orders(
        before.kitchens.orders@,
        picked_orders(pickups, pickups.len() as int),
        OrderStatus::PickedUp,
    )
    &&& forall|p: int|
        0 <= p < pickups.len() ==> offers_now(before).contains(#[trigger] pickups[p])
    &&& (forall|c: int|
        0 <= c < before.population.population@.len() ==> !is_idle_courier(
            #[trigger] before.population.population@[c],
        )) ==> pickups.len() == 0
    &&& forall|i: int|
        0 <= i < before.population.population@.len() ==> courier_sent(
            before.population.population@,
            i,
            #[trigger] after.population.population@[i],
            picking_couriers(pickups, pickups.len() as int),
        )
    &&& forall|q: int, i: int|
        0 <= q < pickups.len() && 0 <= i < before.population.population@.len()
            ==> #[trigger] pickup_carried(
            &before.movement,
            before.population.population@,
            after.population.population@,
            pickups,
            q,
            i,
        )
}

/// An offer that can be made good is among the pickups made.
pub proof fn lemma_offer_is_made(planner: &JourneyPlanner, offers: Seq<Pickup>, n: int, q: int)
    requires
        0 <= q < n <= offers.len(),
        can_pick_up(planner, offers[q]),
    ensures
        pickups_made(planner, offers, n).contains(offers[q]),
    decreases n,
{
    let made = pickups_made(planner, offers, n);
    if q == n - 1 {
        assert(made[made.len() - 1] == offers[q]);
    } else {
        lemma_offer_is_made(planner, offers, n - 1, q);
        let earlier = pickups_made(planner, offers, n - 1);
        let w = choose|w: int| 0 <= w < earlier.len() && earlier[w] == offers[q];
        assert(made[w] == offers[q]);
    }
}

/// A ready order that is offered a courier and has a route is picked up:
/// the pickup is made, the courier delivers, carries the order and is at
/// the beginning of the journey planned for it, and the order is picked up
/// from now on.
pub proof fn law_offer_with_route_is_picked_up(
    before: &SimulationRunner,
    after: &SimulationRunner,
    pickups: Seq<Pickup>,
    q: int,
    i: int,
    o: int,
)
    requires
        dispatched(before, after, pickups),
        0 <= q < offers_now(before).len(),
        can_pick_up(&before.movement, offers_now(before)[q]),
        is_person_index(before.population.population@, offers_now(before)[q].courier_id, i),
        0 <= o < before.kitchens.orders@.len(),
        before.kitchens.orders@[o].order_id == offers_now(before)[q].order_id,
    ensures
        pickups.contains(offers_now(before)[q]),
        after.population.population@[i].status == PersonStatusFlag::Delivering,
        carries(&before.movement, after.population.population@[i], offers_now(before)[q]),
        after.kitchens.orders@[o] == (Order {
            status: OrderStatus::PickedUp,
            ..before.kitchens.orders@[o]
        }),
{
    let offers = offers_now(before);
    let people = before.population.population@;
    lemma_offer_is_made(&before.movement, offers, offers.len() as int, q);
    let w = choose|w: int| 0 <= w < pickups.len() && pickups[w] == offers[q];
    lemma_courier_of(pickups, w);
    lemma_order_of(pickups, w);
    assert(pickup_carried(&before.movement, people, after.population.population@, pickups, w, i));
    assert(courier_sent(
        people,
        i,
        after.population.population@[i],
        picking_couriers(pickups, pickups.len() as int),
    ));
    assert(after.kitchens.orders@[o] == crate::kitchen::status::restatus_order(
        before.kitchens.orders@[o],
        picked_orders(pickups, pickups.len() as int),
        OrderStatus::PickedUp,
    ));
}

/// The events of the first `n` pickups, one by one.
pub proof fn lemma_pickup_events_upto(pickups: Seq<Pickup>, now: i64, n: int)
    requires
        0 <= n <= pickups.len(),
    ensures
        pickup_events(pickups, now, n).len() == n,
        forall|q: int|
            0 <= q < n ==> pickup_events(pickups, now, n)[q] == (Event::OrderPickedUp {
                site_id: pickups[q].site_id,
                courier_id: pickups[q].courier_id,
                order_id: pickups[q].order_id,
                timestamp: now,
            }),
    decreases n,
{
    if n > 0 {
        lemma_pickup_events_upto(pickups, now, n - 1);
    }
}

/// In a tick that succeeds, a ready order that is offered a courier and has
/// a route is picked up: once the people have moved, the offer is made
/// good; after the tick the courier delivers, carries the order and is at
/// the beginning of the journey planned for it, the order is picked up, and
/// the tick tells of the pickup at the instant it began.
pub proof fn law_tick_picks_up(
    before: &SimulationRunner,
    rate: u32,
    moved: SimulationRunner,
    sent: SimulationRunner,
    people_after: Seq<Person>,
    orders_after: Seq<Order>,
    lines_after: Seq<OrderLine>,
    told: Seq<Event>,
    pickups: Seq<Pickup>,
    incoming: Seq<IncomingOrder>,
    outcome: Result<Vec<Event>, Error>,
    result: Result<Vec<Event>, Error>,
    q: int,
    i: int,
    o: int,
)
    requires
        ticked(
            before,
            rate,
            moved,
            sent,
            people_after,
            orders_after,
            lines_after,
            told,
            pickups,
            incoming,
            outcome,
            result,
        ),
        result is Ok,
        0 <= q < offers_now(&moved).len(),
        can_pick_up(&moved.movement, offers_now(&moved)[q]),
        is_person_index(moved.population.population@, offers_now(&moved)[q].courier_id, i),
        0 <= o < moved.kitchens.orders@.len(),
        moved.kitchens.orders@[o].order_id == offers_now(&moved)[q].order_id,
    ensures
        pickups.contains(offers_now(&moved)[q]),
        people_after[i].status == PersonStatusFlag::Delivering,
        carries(&before.movement, people_after[i], offers_now(&moved)[q]),
        o < orders_after.len(),
        orders_after[o] == (Order { status: OrderStatus::PickedUp, ..moved.kitchens.orders@[o] }),
        result matches Ok(events) ==> events@.contains(
            Event::OrderPickedUp {
                site_id: offers_now(&moved)[q].site_id,
                courier_id: offers_now(&moved)[q].courier_id,
                order_id: offers_now(&moved)[q].order_id,
                timestamp: before.now,
            },
        ),
{
    let offer = offers_now(&moved)[q];
    law_offer_with_route_is_picked_up(&moved, &sent, pickups, q, i, o);
    assert(sent.kitchens.orders@.len() == moved.kitchens.orders@.len());
    law_tick_keeps_other_orders(
        sent.kitchens.sites@,
        sent.kitchens.kitchens@,
        sent.kitchens.stations@,
        sent.kitchens.menu_items@,
        sent.kitchens.orders@,
        sent.kitchens.order_lines@,
        before.now,
        incoming,
        orders_after,
        lines_after,
        outcome,
        o,
    );
    let w = choose|w: int| 0 <= w < pickups.len() && pickups[w] == offer;
    lemma_pickup_events_upto(pickups, before.now, pickups.len() as int);
    match result {
        Ok(events) => {
            let picked = pickup_events(pickups, before.now, pickups.len() as int);
            assert(events@[told.len() + w] == picked[w]);
        },
        Err(_) => {},
    }
}

/// The order of a pickup is among the orders of the pickups.
pub proof fn lemma_order_of(pickups: Seq<Pickup>, q: int)
    requires
        0 <= q < pickups.len(),
    ensures
        picked_orders(pickups, pickups.len() as int).contains(pickups[q].order_id),
{
    lemma_orders_upto(pickups, pickups.len() as int);
    assert(picked_orders(pickups, pickups.len() as int)[q] == pickups[q].order_id);
}

/// The orders of the first `n` pickups, one by one.
pub proof fn lemma_orders_upto(pickups: Seq<Pickup>, n: int)
    requires
        0 <= n <= pickups.len(),
    ensures
        picked_orders(pickups, n).len() == n,
        forall|q: int| 0 <= q < n ==> picked_orders(pickups, n)[q] == pickups[q].order_id,
    decreases n,
{
    if n > 0 {
        lemma_orders_upto(pickups, n - 1);
    }
}

/// Two tables with the same identifiers row by row have a person in the
/// same place.
pub proof fn lemma_same_ids_same_index(a: Seq<Person>, b: Seq<Person>, id: PersonId)
    requires
        a.len() == b.len(),
        forall|i: int| 0 <= i < a.len() ==> (#[trigger] a[i]).id == b[i].id,
    ensures
        forall|i: int| is_person_index(a, id, i) == is_person_index(b, id, i),
        has_person(a, id) == has_person(b, id),
{
    assert forall|i: int| is_person_index(a, id, i) == is_person_index(b, id, i) by {
        if 0 <= i < a.len() {
            assert(a[i].id == b[i].id);
            assert forall|j: int| 0 <= j < i implies (a[j].id != id) == (b[j].id != id) by {
                assert(a[j].id == b[j].id);
            }
        }
    }
    if has_person(a, id) {
        let i = choose|i: int| is_person_index(a, id, i);
        assert(is_person_index(b, id, i));
    }
    if has_person(b, id) {
        let i = choose|i: int| is_person_index(b, id, i);
        assert(is_person_index(a, id, i));
    }
}

/// The courier of a pickup is among the couriers of the pickups.
pub proof fn lemma_courier_of(pickups: Seq<Pickup>, q: int)
    requires
        0 <= q < pickups.len(),
    ensures
        picking_couriers(pickups, pickups.len() as int).contains(pickups[q].courier_id),
{
    lemma_couriers_upto(pickups, pickups.len() as int);
    assert(picking_couriers(pickups, pickups.len() as int)[q] == pickups[q].courier_id);
}

/// The couriers of the first `n` pickups, one by one.
pub proof fn lemma_couriers_upto(pickups: Seq<Pickup>, n: int)
    requires
        0 <= n <= pickups.len(),
    ensures
        picking_couriers(pickups, n).len() == n,
        forall|q: int| 0 <= q < n ==> picking_couriers(pickups, n)[q] == pickups[q].courier_id,
    decreases n,
{
    if n > 0 {
        lemma_couriers_upto(pickups, n - 1);
    }
}

/// Whether `after` holds the rows of `before`, row by row.
pub open spec fn rows_unchanged(before: Seq<Person>, after: Seq<Person>) -> bool {
    &&& after.len() == before.len()
    &&& forall|i: int| 0 <= i < before.len() ==> same_row(before[i], #[trigger] after[i])
}

/// Whether one tick at the rate `rate` makes of `before` the people, orders
/// and lines given and ends with `result`, given what happened in between:
/// the people moved and orders were handed over, which gave `moved` and told
/// `told`; couriers were sent off for `pickups`, which gave `sent`; the
/// customers placed `incoming`; and the kitchens took those in and worked,
/// which ended with `outcome`.
///
/// The tick succeeds exactly when the kitchens do; it then leaves what the
/// handlers made and tells what they told, in the order in which they were
/// called. Where the kitchens find a minted identifier in use, the tick
/// fails with an internal error and leaves the people, the orders and the
/// lines as they were before the tick.
pub open spec fn ticked(
    before: &SimulationRunner,
    rate: u32,
    moved: SimulationRunner,
    sent: SimulationRunner,
    people_after: Seq<Person>,
    orders_after: Seq<Order>,
    lines_after: Seq<OrderLine>,
    told: Seq<Event>,
    pickups: Seq<Pickup>,
    incoming: Seq<IncomingOrder>,
    outcome: Result<Vec<Event>, Error>,
    result: Result<Vec<Event>, Error>,
) -> bool {
    &&& delivered(before, &moved, told)
    &&& dispatched(&moved, &sent, pickups)
    &&& orders_drawn(
        incoming,
        sent.population.population@,
        before.choices@,
        before.now,
        before.time_step_ms,
        rate,
    )
    &&& (rate == 0 || before.choices@.len() == 0) ==> incoming.len() == 0
    &&& incoming.len() == 0 ==> outcome is Ok
    &&& match outcome {
        Ok(cooked) => {
            &&& kitchens_ticked(
                sent.kitchens.sites@,
                sent.kitchens.kitchens@,
                sent.kitchens.stations@,
                sent.kitchens.menu_items@,
                sent.kitchens.orders@,
                sent.kitchens.order_lines@,
                before.now,
                incoming,
                orders_after,
                lines_after,
                outcome,
            )
            &&& people_after == sent.population.population@
            &&& result matches Ok(events)
            &&& events@ == told + pickup_events(pickups, before.now, pickups.len() as int)
                + cooked@
        },
        Err(_) => {
            &&& kitchens_ticked(
                sent.kitchens.sites@,
                sent.kitchens.kitchens@,
                sent.kitchens.stations@,
                sent.kitchens.menu_items@,
                sent.kitchens.orders@,
                sent.kitchens.order_lines@,
                before.now,
                incoming,
                sent.kitchens.orders@,
                sent.kitchens.order_lines@,
                outcome,
            )
            &&& rows_unchanged(before.population.population@, people_after)
            &&& orders_after == before.kitchens.orders@
            &&& lines_after == before.kitchens.order_lines@
            &&& result matches Err(e)
            &&& e is InternalError
        },
    }
}

/// Whether one tick at the rate `rate` makes of `before` the people, orders
/// and lines given and ends with `result`: the handlers are called one
/// after the other as [`ticked`] says, with some outcome of each in between.
pub open spec fn tick_told(
    before: &SimulationRunner,
    rate: u32,
    people_after: Seq<Person>,
    orders_after: Seq<Order>,
    lines_after: Seq<OrderLine>,
    result: Result<Vec<Event>, Error>,
) -> bool {
    exists|
        moved: SimulationRunner,
        sent: SimulationRunner,
        told: Seq<Event>,
        pickups: Seq<Pickup>,
        incoming: Seq<IncomingOrder>,
        outcome: Result<Vec<Event>, Error>,
    | #[trigger]
        ticked(
            before,
            rate,
            moved,
            sent,
            people_after,
            orders_after,
            lines_after,
            told,
            pickups,
            incoming,
            outcome,
            result,
        )
}

/// Whether nobody in `people` is a customer.
pub open spec fn no_customers(people: Seq<Person>) -> bool {
    forall|i: int| 0 <= i < people.len() ==> (#[trigger] people[i]).role != PersonRole::Customer
}

/// Moving, handing over and sending off leave everybody the part they play.
pub proof fn lemma_roles_kept(
    before: &SimulationRunner,
    moved: &SimulationRunner,
    sent: &SimulationRunner,
    told: Seq<Event>,
    pickups: Seq<Pickup>,
    i: int,
)
    requires
        delivered(before, moved, told),
        dispatched(moved, sent, pickups),
        0 <= i < before.population.population@.len(),
    ensures
        sent.population.population@.len() == before.population.population@.len(),
        sent.population.population@[i].role == before.population.population@[i].role,
        sent.population.population@[i].id == before.population.population@[i].id,
{
    let people = before.population.population@;
    let customers = customers_of(
        before.kitchens.orders@,
        handed_over(before),
        handed_over(before).len() as int,
    );
    let stepped = choose|stepped: Seq<Person>| #[trigger]
        moved_then_fed(
            people,
            stepped,
            moved.population.population@,
            before.now,
            before.time_step_ms as u64,
            customers,
        );
    assert(person_stepped(people[i], stepped[i], before.now, before.time_step_ms as u64));
    assert(person_fed(stepped[i], moved.population.population@[i], customers, before.now));
    assert(courier_sent(
        moved.population.population@,
        i,
        sent.population.population@[i],
        picking_couriers(pickups, pickups.len() as int),
    ));
}

/// Whether the clock of `runner` can take one more tick: the instant the
/// tick begins at and the instant it ends at are instants that the tables
/// can hold.
pub open spec fn clock_in_range(runner: &SimulationRunner) -> bool {
    spec_time_in_range(runner.now) && runner.now + runner.time_step_ms <= MAX_TIME_MS
}

/// Whether `after` is the population `before` after everybody moved on by
/// one tick, which gave `moved`, and the customers among `customers` then
/// began to eat.
pub open spec fn moved_then_fed(
    before: Seq<Person>,
    moved: Seq<Person>,
    after: Seq<Person>,
    now: i64,
    time_step_ms: u64,
    customers: Seq<PersonId>,
) -> bool {
    &&& moved.len() == before.len()
    &&& after.len() == before.len()
    &&& forall|i: int|
        0 <= i < before.len() ==> person_stepped(before[i], #[trigger] moved[i], now, time_step_ms)
    &&& forall|i: int|
        0 <= i < before.len() ==> person_fed(moved[i], #[trigger] after[i], customers, now)
}

/// Whether no order is left submitted with all its lines finished.
pub open spec fn no_order_overdue(orders: Seq<Order>, lines: Seq<OrderLine>) -> bool {
    forall|o: int|
        0 <= o < orders.len() && (#[trigger] orders[o]).status == OrderStatus::Submitted
            ==> !order_is_done(lines, orders[o].order_id)
}

/// Whether row `i` of `people` is the row of one of `couriers`: the first
/// row with that courier's identifier.
pub open spec fn is_sent(people: Seq<Person>, i: int, couriers: Seq<PersonId>) -> bool {
    couriers.contains(people[i].id) && is_person_index(people, people[i].id, i)
}

/// Whether `after` is row `i` of `people` after the couriers among
/// `couriers` were given their orders and journeys: nobody changed what
/// they do or where they are, and who is not one of the couriers changed
/// nothing.
pub open spec fn courier_loaded(
    people: Seq<Person>,
    i: int,
    after: Person,
    couriers: Seq<PersonId>,
) -> bool {
    &&& same_person(people[i], after)
    &&& after.status == people[i].status
    &&& after.position == people[i].position
    &&& after.tile == people[i].tile
    &&& after.order_tile == people[i].order_tile
    &&& after.eating_until == people[i].eating_until
    &&& !is_sent(people, i, couriers) ==> after.order_id == people[i].order_id && same_trip(
        people[i].journey,
        after.journey,
    )
}

/// Whether `after` is row `i` of `people` after the couriers among
/// `couriers` were sent off: they deliver, and nobody else changed
/// anything.
pub open spec fn courier_sent(
    people: Seq<Person>,
    i: int,
    after: Person,
    couriers: Seq<PersonId>,
) -> bool {
    &&& same_person(people[i], after)
    &&& after.position == people[i].position
    &&& after.tile == people[i].tile
    &&& after.order_tile == people[i].order_tile
    &&& after.eating_until == people[i].eating_until
    &&& after.status == if couriers.contains(people[i].id) {
        PersonStatusFlag::Delivering
    } else {
        people[i].status
    }
    &&& !is_sent(people, i, couriers) ==> after.order_id == people[i].order_id && same_trip(
        people[i].journey,
        after.journey,
    )
}

} // verus!
