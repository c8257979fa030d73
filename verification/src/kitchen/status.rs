//! The status of orders, and the counts a tick is judged by.

use vstd::prelude::*;
use crate::events::Event;
use crate::geo::{Point, TileCode};
use crate::idents::{OrderId, PersonId, SiteId};
use crate::kitchen::stations::station_is_free;
use crate::kitchen::{has_line, KitchenHandler, KitchenStats};
use crate::objects::{site_index, spec_site_index, Site, Station};
use crate::orders::{Order, OrderLine, OrderStatus};

verus! {

/// How many of the first `n` lines are unfinished and held by no station.
pub open spec fn count_queued(lines: Seq<OrderLine>, n: int) -> nat
    decreases n,
{
    if n <= 0 {
        0
    } else {
        count_queued(lines, n - 1) + if !lines[n - 1].is_complete && lines[n
            - 1].assigned_station is None {
            1nat
        } else {
            0nat
        }
    }
}

/// How many of the first `n` lines are unfinished and held by a station.
pub open spec fn count_in_progress(lines: Seq<OrderLine>, n: int) -> nat
    decreases n,
{
    if n <= 0 {
        0
    } else {
        count_in_progress(lines, n - 1) + if !lines[n - 1].is_complete && lines[n
            - 1].assigned_station is Some {
            1nat
        } else {
            0nat
        }
    }
}

/// How many of the first `n` lines are finished.
pub open spec fn count_completed(lines: Seq<OrderLine>, n: int) -> nat
    decreases n,
{
    if n <= 0 {
        0
    } else {
        count_completed(lines, n - 1) + if lines[n - 1].is_complete {
            1nat
        } else {
            0nat
        }
    }
}

/// How many of the first `n` stations are held by no unfinished line.
pub open spec fn count_idle(lines: Seq<OrderLine>, stations: Seq<Station>, n: int) -> nat
    decreases n,
{
    if n <= 0 {
        0
    } else {
        count_idle(lines, stations, n - 1) + if station_is_free(lines, stations[n - 1].id) {
            1nat
        } else {
            0nat
        }
    }
}

/// The counts over `lines` and `stations`.
pub open spec fn stats_of(lines: Seq<OrderLine>, stations: Seq<Station>) -> KitchenStats {
    KitchenStats {
        queued: count_queued(lines, lines.len() as int) as usize,
        in_progress: count_in_progress(lines, lines.len() as int) as usize,
        completed: count_completed(lines, lines.len() as int) as usize,
        idle_stations: count_idle(lines, stations, stations.len() as int) as usize,
        total_stations: stations.len() as usize,
    }
}

/// Every line is counted once: queued, in progress or completed.
pub proof fn lemma_counts_partition(lines: Seq<OrderLine>, n: int)
    requires
        0 <= n,
    ensures
        count_queued(lines, n) + count_in_progress(lines, n) + count_completed(lines, n) == n,
    decreases n,
{
    if n > 0 {
        lemma_counts_partition(lines, n - 1);
    }
}

/// No more stations are idle than there are stations.
pub proof fn lemma_idle_bounded(lines: Seq<OrderLine>, stations: Seq<Station>, n: int)
    requires
        0 <= n,
    ensures
        count_idle(lines, stations, n) <= n,
    decreases n,
{
    if n > 0 {
        lemma_idle_bounded(lines, stations, n - 1);
    }
}

/// Whether every line of the order `id` is finished.
pub open spec fn all_lines_complete(lines: Seq<OrderLine>, id: OrderId) -> bool {
    forall|i: int| 0 <= i < lines.len() && #[trigger] lines[i].order_id == id ==> lines[i].is_complete
}

/// Whether the order `id` has lines and all of them are finished.
pub open spec fn order_is_done(lines: Seq<OrderLine>, id: OrderId) -> bool {
    has_line(lines, id) && all_lines_complete(lines, id)
}

/// The order as the status update leaves it: a submitted order whose lines
/// are all finished becomes ready.
pub open spec fn settle_order(lines: Seq<OrderLine>, order: Order) -> Order {
    if order.status == OrderStatus::Submitted && order_is_done(lines, order.order_id) {
        Order { status: OrderStatus::Ready, ..order }
    } else {
        order
    }
}

/// The orders as the status update leaves them.
pub open spec fn settle_orders(lines: Seq<OrderLine>, orders: Seq<Order>) -> Seq<Order> {
    Seq::new(orders.len(), |o: int| settle_order(lines, orders[o]))
}

/// The events that tell of the first `n` orders becoming ready at `now`.
pub open spec fn ready_events(lines: Seq<OrderLine>, orders: Seq<Order>, now: i64, n: int) -> Seq<
    Event,
>
    decreases n,
{
    if n <= 0 {
        Seq::empty()
    } else if orders[n - 1].status == OrderStatus::Submitted && order_is_done(
        lines,
        orders[n - 1].order_id,
    ) {
        ready_events(lines, orders, now, n - 1).push(
            Event::OrderReady {
                site_id: orders[n - 1].site_id,
                order_id: orders[n - 1].order_id,
                timestamp: now,
            },
        )
    } else {
        ready_events(lines, orders, now, n - 1)
    }
}

/// An order that waits for a courier, with where it is and where it goes.
#[derive(Debug, Clone, Copy, PartialEq, Eq, Structural)]
pub struct ReadyOrder {
    pub person_id: PersonId,
    pub site_id: SiteId,
    pub order_id: OrderId,
    pub submitted_at: i64,
    /// Where the order is picked up: the position of its site.
    pub origin: Point,
    /// The tile of `origin` at the resolution at which couriers are matched.
    pub origin_tile: TileCode,
    pub destination: Point,
    /// The tile of `destination` at the resolution at which street nodes
    /// are looked up.
    pub destination_tile: TileCode,
}

/// The row of a ready order, if the order is ready and its site is known.
pub open spec fn ready_row(sites: Seq<Site>, order: Order) -> Option<ReadyOrder> {
    if order.status == OrderStatus::Ready {
        match spec_site_index(sites, order.site_id) {
            Some(s) => Some(
                ReadyOrder {
                    person_id: order.person_id,
                    site_id: order.site_id,
                    order_id: order.order_id,
                    submitted_at: order.submitted_at,
                    origin: sites[s].position,
                    origin_tile: sites[s].courier_tile,
                    destination: order.destination,
                    destination_tile: order.destination_tile,
                },
            ),
            None => None,
        }
    } else {
        None
    }
}

/// The rows of the ready orders among the first `n` orders.
pub open spec fn ready_rows(sites: Seq<Site>, orders: Seq<Order>, n: int) -> Seq<ReadyOrder>
    decreases n,
{
    if n <= 0 {
        Seq::empty()
    } else {
        match ready_row(sites, orders[n - 1]) {
            Some(row) => ready_rows(sites, orders, n - 1).push(row),
            None => ready_rows(sites, orders, n - 1),
        }
    }
}

/// Whether `row` is the row of one of the first `n` orders.
pub open spec fn is_row_of(sites: Seq<Site>, orders: Seq<Order>, n: int, row: ReadyOrder) -> bool {
    exists|o: int| 0 <= o < n && #[trigger] ready_row(sites, orders[o]) == Some(row)
}

/// The rows of the ready orders are rows of orders, and no two of them have
/// the same identifier where no two orders have.
pub proof fn lemma_ready_rows_differ(sites: Seq<Site>, orders: Seq<Order>, n: int)
    requires
        0 <= n <= orders.len(),
        forall|i: int, j: int| 0 <= i < j < orders.len() ==> orders[i].order_id != orders[j].order_id,
    ensures
        forall|q: int|
            0 <= q < ready_rows(sites, orders, n).len() ==> is_row_of(
                sites,
                orders,
                n,
                #[trigger] ready_rows(sites, orders, n)[q],
            ),
        forall|a: int, b: int|
            0 <= a < b < ready_rows(sites, orders, n).len() ==> ready_rows(
                sites,
                orders,
                n,
            )[a].order_id != ready_rows(sites, orders, n)[b].order_id,
    decreases n,
{
    if n > 0 {
        lemma_ready_rows_differ(sites, orders, n - 1);
        let earlier = ready_rows(sites, orders, n - 1);
        let all = ready_rows(sites, orders, n);
        assert forall|q: int| 0 <= q < all.len() implies is_row_of(
            sites,
            orders,
            n,
            #[trigger] all[q],
        ) by {
            if q < earlier.len() {
                assert(all[q] == earlier[q]);
                assert(is_row_of(sites, orders, n - 1, earlier[q]));
                let o = choose|o: int|
                    0 <= o < n - 1 && #[trigger] ready_row(sites, orders[o]) == Some(earlier[q]);
                assert(ready_row(sites, orders[o]) == Some(all[q]));
            } else {
                assert(ready_row(sites, orders[n - 1]) == Some(all[q]));
            }
        }
        match ready_row(sites, orders[n - 1]) {
            Some(row) => {
                assert forall|a: int| 0 <= a < earlier.len() implies earlier[a].order_id
                    != row.order_id by {
                    assert(is_row_of(sites, orders, n - 1, earlier[a]));
                    let o = choose|o: int|
                        0 <= o < n - 1 && #[trigger] ready_row(sites, orders[o]) == Some(
                            earlier[a],
                        );
                    assert(orders[o].order_id != orders[n - 1].order_id);
                }
                assert forall|a: int, b: int| 0 <= a < b < all.len() implies all[a].order_id
                    != all[b].order_id by {
                    assert(all[a] == earlier[a]);
                    if b < earlier.len() {
                        assert(all[b] == earlier[b]);
                    } else {
                        assert(all[b] == row);
                    }
                }
            },
            None => {},
        }
    }
}

/// The order with the status `status` if its identifier is among `ids`.
pub open spec fn restatus_order(order: Order, ids: Seq<OrderId>, status: OrderStatus) -> Order {
    if ids.contains(order.order_id) {
        Order { status, ..order }
    } else {
        order
    }
}

/// The orders after those among `ids` got the status `status`.
pub open spec fn restatus_orders(orders: Seq<Order>, ids: Seq<OrderId>, status: OrderStatus) -> Seq<
    Order,
> {
    Seq::new(orders.len(), |o: int| restatus_order(orders[o], ids, status))
}

/// Whether `id` is among `ids`.
pub fn contains_order_id(ids: &Vec<OrderId>, id: &OrderId) -> (found: bool)
    ensures
        found == ids@.contains(*id),
{
    let mut i: usize = 0;
    while i < ids.len()
        invariant
            i <= ids.len(),
            forall|j: int| 0 <= j < i ==> ids@[j] != *id,
        decreases ids.len() - i,
    {
        if ids[i].0 == id.0 {
            return true;
        }
        i += 1;
    }
    false
}

impl KitchenHandler {
    /// The counts over the lines and the stations.
    pub fn get_stats(&self) -> (stats: KitchenStats)
        ensures
            stats == stats_of(self.order_lines@, self.stations@),
    {
        let mut queued: usize = 0;
        let mut in_progress: usize = 0;
        let mut completed: usize = 0;
        let mut i: usize = 0;
        while i < self.order_lines.len()
            invariant
                i <= self.order_lines.len(),
                queued == count_queued(self.order_lines@, i as int),
                in_progress == count_in_progress(self.order_lines@, i as int),
                completed == count_completed(self.order_lines@, i as int),
                queued + in_progress + completed == i,
            decreases self.order_lines.len() - i,
        {
            let line = self.order_lines[i];
            if line.is_complete {
                completed += 1;
            } else if line.assigned_station.is_some() {
                in_progress += 1;
            } else {
                queued += 1;
            }
            i += 1;
        }
        let mut idle: usize = 0;
        let mut s: usize = 0;
        while s < self.stations.len()
            invariant
                s <= self.stations.len(),
                idle == count_idle(self.order_lines@, self.stations@, s as int),
                idle <= s,
            decreases self.stations.len() - s,
        {
            if self.station_free(s) {
                idle += 1;
            }
            s += 1;
        }
        KitchenStats {
            queued,
            in_progress,
            completed,
            idle_stations: idle,
            total_stations: self.stations.len(),
        }
    }

    /// Whether the order `id` has lines and all of them are finished.
    pub fn is_ready(&self, id: &OrderId) -> (ready: bool)
        ensures
            ready == order_is_done(self.order_lines@, *id),
    {
        let mut seen: bool = false;
        let mut i: usize = 0;
        while i < self.order_lines.len()
            invariant
                i <= self.order_lines.len(),
                seen == exists|j: int| 0 <= j < i && self.order_lines@[j].order_id == *id,
                forall|j: int|
                    0 <= j < i && #[trigger] self.order_lines@[j].order_id == *id
                        ==> self.order_lines@[j].is_complete,
            decreases self.order_lines.len() - i,
        {
            let line = self.order_lines[i];
            if line.order_id.0 == id.0 {
                if !line.is_complete {
                    return false;
                }
                seen = true;
            }
            i += 1;
        }
        seen
    }

    /// Marks as ready every submitted order whose lines are all finished.
    ///
    /// An order that is submitted before the call is ready after it if and
    /// only if it has lines and every one of them is finished; no other
    /// order changes. Each order that becomes ready is told of by an event.
    pub fn update_order_status(&mut self, now: i64) -> (events: Vec<Event>)
        requires
            old(self).wf(),
        ensures
            final(self).wf(),
            final(self).same_catalog(old(self)),
            final(self).order_lines == old(self).order_lines,
            final(self).orders@ == settle_orders(old(self).order_lines@, old(self).orders@),
            events@ == ready_events(
                old(self).order_lines@,
                old(self).orders@,
                now,
                old(self).orders@.len() as int,
            ),
    {
        let mut next: Vec<Order> = Vec::new();
        let mut events: Vec<Event> = Vec::new();
        let mut o: usize = 0;
        while o < self.orders.len()
            invariant
                *self == *old(self),
                o <= self.orders.len(),
                next@.len() == o,
                forall|j: int|
                    0 <= j < o ==> next@[j] == settle_order(self.order_lines@, self.orders@[j]),
                events@ == ready_events(self.order_lines@, self.orders@, now, o as int),
            decreases self.orders.len() - o,
        {
            let order = self.orders[o];
            let submitted = match order.status {
                OrderStatus::Submitted => true,
                _ => false,
            };
            if submitted && self.is_ready(&order.order_id) {
                events.push(
                    Event::OrderReady {
                        site_id: order.site_id,
                        order_id: order.order_id,
                        timestamp: now,
                    },
                );
                next.push(
                    Order {
                        order_id: order.order_id,
                        person_id: order.person_id,
                        site_id: order.site_id,
                        submitted_at: order.submitted_at,
                        destination: order.destination,
                        destination_tile: order.destination_tile,
                        status: OrderStatus::Ready,
                    },
                );
            } else {
                next.push(order);
            }
            o += 1;
        }
        proof {
            assert(next@ =~= settle_orders(self.order_lines@, self.orders@));
            lemma_same_orders_keep_tables_sound(self, next@);
        }
        self.orders = next;
        events
    }

    /// Gives the status `status` to the orders whose identifier is among
    /// `order_ids`, and leaves the others as they are.
    pub fn set_order_status(&mut self, order_ids: &Vec<OrderId>, status: OrderStatus)
        requires
            old(self).wf(),
        ensures
            final(self).wf(),
            final(self).same_catalog(old(self)),
            final(self).order_lines == old(self).order_lines,
            final(self).orders@ == restatus_orders(old(self).orders@, order_ids@, status),
    {
        let mut next: Vec<Order> = Vec::new();
        let mut o: usize = 0;
        while o < self.orders.len()
            invariant
                *self == *old(self),
                o <= self.orders.len(),
                next@.len() == o,
                forall|j: int|
                    0 <= j < o ==> next@[j] == restatus_order(self.orders@[j], order_ids@, status),
            decreases self.orders.len() - o,
        {
            let order = self.orders[o];
            if contains_order_id(order_ids, &order.order_id) {
                next.push(
                    Order {
                        order_id: order.order_id,
                        person_id: order.person_id,
                        site_id: order.site_id,
                        submitted_at: order.submitted_at,
                        destination: order.destination,
                        destination_tile: order.destination_tile,
                        status,
                    },
                );
            } else {
                next.push(order);
            }
            o += 1;
        }
        proof {
            assert(next@ =~= restatus_orders(self.orders@, order_ids@, status));
            lemma_same_orders_keep_tables_sound(self, next@);
        }
        self.orders = next;
    }

    /// The orders that wait for a courier, in the order of the orders table,
    /// each with the position of its site as the place of pickup.
    pub fn ready_orders(&self) -> (rows: Vec<ReadyOrder>)
        requires
            self.wf(),
        ensures
            rows@ == ready_rows(self.sites@, self.orders@, self.orders@.len() as int),
    {
        let mut rows: Vec<ReadyOrder> = Vec::new();
        let mut o: usize = 0;
        while o < self.orders.len()
            invariant
                self.wf(),
                o <= self.orders.len(),
                rows@ == ready_rows(self.sites@, self.orders@, o as int),
            decreases self.orders.len() - o,
        {
            let order = self.orders[o];
            let ready = match order.status {
                OrderStatus::Ready => true,
                _ => false,
            };
            if ready {
                match site_index(&self.sites, &order.site_id) {
                    Some(s) => {
                        let site = self.sites[s];
                        rows.push(
                            ReadyOrder {
                                person_id: order.person_id,
                                site_id: order.site_id,
                                order_id: order.order_id,
                                submitted_at: order.submitted_at,
                                origin: site.position,
                                origin_tile: site.courier_tile,
                                destination: order.destination,
                                destination_tile: order.destination_tile,
                            },
                        );
                    },
                    None => {},
                }
            }
            o += 1;
        }
        rows
    }
}

/// Orders that keep their identifier and their site keep the tables sound.
pub proof fn lemma_same_orders_keep_tables_sound(handler: &KitchenHandler, next: Seq<Order>)
    requires
        handler.wf(),
        next.len() == handler.orders@.len(),
        forall|o: int|
            0 <= o < next.len() ==> (#[trigger] next[o]).order_id == handler.orders@[o].order_id
                && next[o].site_id == handler.orders@[o].site_id,
    ensures
        crate::kitchen::tables_sound(
            handler.sites@,
            handler.kitchens@,
            handler.stations@,
            handler.menu_items@,
            next,
            handler.order_lines@,
        ),
{
    let orders = handler.orders@;
    let lines = handler.order_lines@;
    let kitchens = handler.kitchens@;
    assert forall|i: int, j: int| 0 <= i < j < next.len() implies next[i].order_id
        != next[j].order_id by {
        assert(orders[i].order_id != orders[j].order_id);
    }
    assert forall|i: int| 0 <= i < lines.len() implies crate::kitchen::has_order(
        next,
        #[trigger] lines[i].order_id,
    ) by {
        assert(crate::kitchen::has_order(orders, lines[i].order_id));
        let o = choose|o: int| 0 <= o < orders.len() && orders[o].order_id == lines[i].order_id;
        assert(next[o].order_id == lines[i].order_id);
    }
    assert forall|o: int| 0 <= o < next.len() implies has_line(lines, #[trigger] next[o].order_id) by {
        assert(has_line(lines, orders[o].order_id));
    }
    assert forall|i: int, o: int, k: int|
        0 <= i < lines.len() && 0 <= o < next.len() && 0 <= k < kitchens.len()
            && #[trigger] lines[i].order_id == #[trigger] next[o].order_id && Some(
            #[trigger] kitchens[k].id,
        ) == lines[i].kitchen_id implies kitchens[k].site_id == next[o].site_id by {
        assert(lines[i].order_id == orders[o].order_id);
    }
}

} // verus!
