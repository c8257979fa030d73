//! One tick of the kitchens: intake, binding, advance, status.

use vstd::prelude::*;
use crate::error::Error;
use crate::events::Event;
use crate::idents::{minted_at_ms, OrderId, OrderLineId};
use crate::kitchen::intake::{admit_from, batch_valid, events_match, IncomingOrder};
use crate::kitchen::progress::{advance_all, progress_events};
use crate::kitchen::stations::{all_draws_fit, settle_events, settle_passes, MAX_PASSES};
use crate::kitchen::status::{order_is_done, ready_events, settle_order, settle_orders};
use crate::kitchen::KitchenHandler;
use crate::objects::{
    kitchens_distinct, menu_sound, sites_distinct, stations_distinct, Kitchen, MenuItem, Site,
    Station,
};
use crate::orders::{spec_time_in_range, time_in_range, Order, OrderLine, OrderStatus};

verus! {

/// Whether the identifiers were minted for the incoming orders at the
/// instant `now`: one for each order, carrying the instant the order was
/// placed, and one for each item, carrying `now`.
pub open spec fn ids_minted(
    incoming: Seq<IncomingOrder>,
    order_ids: Seq<OrderId>,
    line_ids: Seq<Vec<OrderLineId>>,
    now: i64,
) -> bool {
    &&& order_ids.len() == incoming.len()
    &&& line_ids.len() == incoming.len()
    &&& forall|n: int|
        0 <= n < incoming.len() ==> (#[trigger] line_ids[n])@.len() == incoming[n].items@.len()
    &&& forall|n: int|
        0 <= n < incoming.len() && spec_time_in_range(incoming[n].submitted_at) ==> minted_at_ms(
            (#[trigger] order_ids[n]).0,
        ) == incoming[n].submitted_at
    &&& forall|n: int, k: int|
        0 <= n < incoming.len() && 0 <= k < line_ids[n]@.len() && spec_time_in_range(now)
            ==> minted_at_ms((#[trigger] line_ids[n]@[k]).0) == now
}

/// Whether the call that took in `incoming` under the given identifiers
/// ended as it must: with the tables that [`admit_from`] gives and an event
/// for each admitted order, or, where an identifier was in use already, with
/// an internal error and the tables as they were.
pub open spec fn intake_outcome(
    before: &KitchenHandler,
    incoming: Seq<IncomingOrder>,
    order_ids: Seq<OrderId>,
    line_ids: Seq<Vec<OrderLineId>>,
    orders_after: Seq<Order>,
    lines_after: Seq<OrderLine>,
    result: Result<Vec<Event>, Error>,
) -> bool {
    match admit_from(
        before.sites@,
        before.kitchens@,
        before.menu_items@,
        before.orders@,
        before.order_lines@,
        incoming,
        order_ids,
        line_ids,
        0,
        Seq::empty(),
    ) {
        None => (result matches Err(e) && e is InternalError) && orders_after == before.orders@
            && lines_after == before.order_lines@,
        Some((orders, lines, admitted)) => (result matches Ok(events) && events_match(
            events@,
            incoming,
            order_ids,
            admitted,
        )) && orders_after == orders && lines_after == lines,
    }
}

/// Whether the call that took in `incoming` at the instant `now` ended as
/// it must for some identifiers minted for the orders; see
/// [`intake_outcome`].
pub open spec fn orders_taken_in(
    before: &KitchenHandler,
    incoming: Seq<IncomingOrder>,
    now: i64,
    orders_after: Seq<Order>,
    lines_after: Seq<OrderLine>,
    result: Result<Vec<Event>, Error>,
) -> bool {
    exists|order_ids: Seq<OrderId>, line_ids: Seq<Vec<OrderLineId>>|
        ids_minted(incoming, order_ids, line_ids, now) && #[trigger] intake_outcome(
            before,
            incoming,
            order_ids,
            line_ids,
            orders_after,
            lines_after,
            result,
        )
}

/// Whether `after` and `events` are the lines and events that binding and
/// advancing at the instant `now` give for some draws, one for each line in
/// each of [`MAX_PASSES`] passes.
pub open spec fn lines_processed(
    menu: Seq<MenuItem>,
    lines: Seq<OrderLine>,
    stations: Seq<Station>,
    now: i64,
    after: Seq<OrderLine>,
    events: Seq<Event>,
) -> bool {
    exists|draws: Seq<Vec<u32>>| #[trigger]
        all_draws_fit(draws, lines.len()) && draws.len() == MAX_PASSES && after == advance_all(
            settle_passes(menu, lines, stations, now, draws, 0),
            now,
        ) && events == settle_events(menu, lines, stations, now, draws, 0) + progress_events(
            settle_passes(menu, lines, stations, now, draws, 0),
            now,
            lines.len() as int,
        )
}

/// Whether the tick of the kitchens at the instant `now` ended as it must,
/// given the identifiers that were minted and the durations that were
/// drawn.
///
/// Where an identifier was in use already, the tick ends with an internal
/// error and the tables as they were. Else the incoming orders are taken in,
/// the lines are bound and advanced, and the orders whose lines are all
/// finished become ready; the events tell first of the orders admitted,
/// then of the lines bound, then of the steps done, then of the orders
/// ready.
pub open spec fn tick_outcome(
    sites: Seq<Site>,
    kitchens: Seq<Kitchen>,
    stations: Seq<Station>,
    menu: Seq<MenuItem>,
    orders_before: Seq<Order>,
    lines_before: Seq<OrderLine>,
    now: i64,
    incoming: Seq<IncomingOrder>,
    order_ids: Seq<OrderId>,
    line_ids: Seq<Vec<OrderLineId>>,
    draws: Seq<Vec<u32>>,
    orders_after: Seq<Order>,
    lines_after: Seq<OrderLine>,
    result: Result<Vec<Event>, Error>,
) -> bool {
    match admit_from(
        sites,
        kitchens,
        menu,
        orders_before,
        lines_before,
        incoming,
        order_ids,
        line_ids,
        0,
        Seq::empty(),
    ) {
        None => (result matches Err(e) && e is InternalError) && orders_after == orders_before
            && lines_after == lines_before,
        Some((orders, lines, admitted)) => {
            let bound = settle_passes(menu, lines, stations, now, draws, 0);
            let advanced = advance_all(bound, now);
            let told = settle_events(menu, lines, stations, now, draws, 0)
                + progress_events(bound, now, lines.len() as int) + ready_events(
                advanced,
                orders,
                now,
                orders.len() as int,
            );
            &&& all_draws_fit(draws, lines.len())
            &&& draws.len() == MAX_PASSES
            &&& result matches Ok(events)
            &&& lines_after == advanced
            &&& orders_after == settle_orders(advanced, orders)
            &&& events@.len() == admitted.len() + told.len()
            &&& events_match(
                events@.subrange(0, admitted.len() as int),
                incoming,
                order_ids,
                admitted,
            )
            &&& events@.subrange(admitted.len() as int, events@.len() as int) == told
        },
    }
}

/// Whether the tick of the kitchens at the instant `now` ended as it must
/// for some identifiers minted for the incoming orders and some durations
/// drawn; see [`tick_outcome`].
pub open spec fn kitchens_ticked(
    sites: Seq<Site>,
    kitchens: Seq<Kitchen>,
    stations: Seq<Station>,
    menu: Seq<MenuItem>,
    orders_before: Seq<Order>,
    lines_before: Seq<OrderLine>,
    now: i64,
    incoming: Seq<IncomingOrder>,
    orders_after: Seq<Order>,
    lines_after: Seq<OrderLine>,
    result: Result<Vec<Event>, Error>,
) -> bool {
    exists|order_ids: Seq<OrderId>, line_ids: Seq<Vec<OrderLineId>>, draws: Seq<Vec<u32>>|
        ids_minted(incoming, order_ids, line_ids, now) && #[trigger] tick_outcome(
            sites,
            kitchens,
            stations,
            menu,
            orders_before,
            lines_before,
            now,
            incoming,
            order_ids,
            line_ids,
            draws,
            orders_after,
            lines_after,
            result,
        )
}

/// Whether the tables of `after` are those of `before`.
pub open spec fn tables_unchanged(before: &KitchenHandler, after: &KitchenHandler) -> bool {
    after.orders@ == before.orders@ && after.order_lines@ == before.order_lines@
}

/// The instant `t` as a count of milliseconds that is not negative.
fn clamp_instant(t: i64) -> (ms: u64)
    ensures
        t >= 0 ==> ms == t,
        t < 0 ==> ms == 0,
{
    if t >= 0 {
        t as u64
    } else {
        0
    }
}

impl KitchenHandler {
    /// The kitchens of the given sites, with no orders yet.
    ///
    /// The tables are refused unless no two sites, kitchens, stations or
    /// menu items share an identifier and every recipe has at least one
    /// step.
    pub fn try_new(
        sites: Vec<Site>,
        kitchens: Vec<Kitchen>,
        stations: Vec<Station>,
        menu_items: Vec<MenuItem>,
    ) -> (result: Result<KitchenHandler, Error>)
        ensures
            result is Ok <==> sites_distinct(sites@) && kitchens_distinct(kitchens@)
                && stations_distinct(stations@) && menu_sound(menu_items@),
            result matches Ok(handler) ==> handler.wf() && handler.sites == sites
                && handler.kitchens == kitchens && handler.stations == stations
                && handler.menu_items == menu_items && handler.orders@.len() == 0
                && handler.order_lines@.len() == 0,
            result matches Err(e) ==> e is InvalidData,
    {
        if !check_sites(&sites) || !check_kitchens(&kitchens) || !check_stations(&stations)
            || !check_menu(&menu_items) {
            return Err(Error::invalid_data("identifiers are not unique or a recipe is empty"));
        }
        Ok(
            KitchenHandler {
                sites,
                kitchens,
                stations,
                menu_items,
                orders: Vec::new(),
                order_lines: Vec::new(),
            },
        )
    }

    /// Takes in the orders that customers placed, minting an identifier for
    /// each order from the instant it was placed and one for each of its
    /// items from the instant `now`.
    ///
    /// With no incoming orders nothing changes. If an item of any order is
    /// not on the menu, or an order was placed at an instant the tables
    /// cannot hold, the data is refused and nothing changes. Else, whatever
    /// identifiers are minted, the outcome is that of [`Self::admit_orders`]
    /// under them.
    pub fn prepare_order_lines(&mut self, now: i64, incoming: &Vec<IncomingOrder>) -> (result:
        Result<Vec<Event>, Error>)
        requires
            old(self).wf(),
        ensures
            final(self).wf(),
            final(self).same_catalog(old(self)),
            incoming@.len() == 0 ==> (result matches Ok(events) && events@.len() == 0)
                && tables_unchanged(old(self), final(self)),
            !batch_valid(old(self).menu_items@, incoming@) ==> (result matches Err(e) && e
                is InvalidData) && tables_unchanged(old(self), final(self)),
            batch_valid(old(self).menu_items@, incoming@) ==> orders_taken_in(
                old(self),
                incoming@,
                now,
                final(self).orders@,
                final(self).order_lines@,
                result,
            ),
    {
        let mut order_ids: Vec<OrderId> = Vec::new();
        let mut line_ids: Vec<Vec<OrderLineId>> = Vec::new();
        let mut n: usize = 0;
        while n < incoming.len()
            invariant
                n <= incoming.len(),
                order_ids@.len() == n,
                line_ids@.len() == n,
                forall|j: int|
                    0 <= j < n ==> (#[trigger] line_ids@[j])@.len() == incoming@[j].items@.len(),
                forall|j: int|
                    0 <= j < n && spec_time_in_range(incoming@[j].submitted_at) ==> minted_at_ms(
                        (#[trigger] order_ids@[j]).0,
                    ) == incoming@[j].submitted_at,
                forall|j: int, k: int|
                    0 <= j < n && 0 <= k < line_ids@[j]@.len() && spec_time_in_range(now)
                        ==> minted_at_ms((#[trigger] line_ids@[j]@[k]).0) == now,
            decreases incoming.len() - n,
        {
            let order = &incoming[n];
            let order_id = OrderId::mint(clamp_instant(order.submitted_at));
            let mut ids: Vec<OrderLineId> = Vec::new();
            let mut k: usize = 0;
            while k < order.items.len()
                invariant
                    k <= order.items.len(),
                    ids@.len() == k,
                    forall|j: int|
                        0 <= j < k && spec_time_in_range(now) ==> minted_at_ms(
                            (#[trigger] ids@[j]).0,
                        ) == now,
                decreases order.items.len() - k,
            {
                ids.push(OrderLineId::mint(clamp_instant(now)));
                k += 1;
            }
            let ghost minted_orders = order_ids@;
            let ghost minted_lines = line_ids@;
            order_ids.push(order_id);
            line_ids.push(ids);
            proof {
                assert forall|j: int| 0 <= j < n + 1 implies (#[trigger] line_ids@[j])@.len()
                    == incoming@[j].items@.len() by {
                    if j < n {
                        assert(line_ids@[j] == minted_lines[j]);
                    }
                }
                assert forall|j: int|
                    0 <= j < n + 1 && spec_time_in_range(
                        incoming@[j].submitted_at,
                    ) implies minted_at_ms((#[trigger] order_ids@[j]).0)
                    == incoming@[j].submitted_at by {
                    if j < n {
                        assert(order_ids@[j] == minted_orders[j]);
                    }
                }
                assert forall|j: int, k: int|
                    0 <= j < n + 1 && 0 <= k < line_ids@[j]@.len() && spec_time_in_range(
                        now,
                    ) implies minted_at_ms((#[trigger] line_ids@[j]@[k]).0) == now by {
                    if j < n {
                        assert(line_ids@[j] == minted_lines[j]);
                    }
                }
            }
            n += 1;
        }
        let result = self.admit_orders(incoming, &order_ids, &line_ids);
        proof {
            if batch_valid(old(self).menu_items@, incoming@) {
                assert(ids_minted(incoming@, order_ids@, line_ids@, now));
                assert(intake_outcome(
                    old(self),
                    incoming@,
                    order_ids@,
                    line_ids@,
                    self.orders@,
                    self.order_lines@,
                    result,
                ));
            }
        }
        result
    }

    /// Binds waiting lines to free stations and then advances the lines
    /// whose step is done, at the instant `now`, where `draws[p]` decides the
    /// durations in the `p`-th pass of binding.
    pub fn process_order_lines_with(&mut self, now: i64, draws: &Vec<Vec<u32>>) -> (events: Vec<
        Event,
    >)
        requires
            old(self).wf(),
            spec_time_in_range(now),
            all_draws_fit(draws@, old(self).order_lines@.len()),
        ensures
            final(self).wf(),
            final(self).same_catalog(old(self)),
            final(self).orders == old(self).orders,
            final(self).order_lines@ == advance_all(
                settle_passes(
                    old(self).menu_items@,
                    old(self).order_lines@,
                    old(self).stations@,
                    now,
                    draws@,
                    0,
                ),
                now,
            ),
            events@ == settle_events(
                old(self).menu_items@,
                old(self).order_lines@,
                old(self).stations@,
                now,
                draws@,
                0,
            ) + progress_events(
                settle_passes(
                    old(self).menu_items@,
                    old(self).order_lines@,
                    old(self).stations@,
                    now,
                    draws@,
                    0,
                ),
                now,
                old(self).order_lines@.len() as int,
            ),
    {
        let mut events = self.prepare_steps_with(now, draws);
        let mut advanced = self.advance_steps(now);
        events.append(&mut advanced);
        events
    }

    /// Binds waiting lines to free stations and then advances the lines
    /// whose step is done, at the instant `now`, with durations drawn by
    /// chance.
    ///
    /// Whatever is drawn, the outcome is that of
    /// [`Self::process_order_lines_with`] for some draws.
    pub fn process_order_lines(&mut self, now: i64) -> (events: Vec<Event>)
        requires
            old(self).wf(),
            spec_time_in_range(now),
        ensures
            final(self).wf(),
            final(self).same_catalog(old(self)),
            final(self).orders == old(self).orders,
            final(self).order_lines@.len() == old(self).order_lines@.len(),
            lines_processed(
                old(self).menu_items@,
                old(self).order_lines@,
                old(self).stations@,
                now,
                final(self).order_lines@,
                events@,
            ),
    {
        let mut events = self.prepare_steps(now);
        let ghost draws = choose|draws: Seq<Vec<u32>>| #[trigger]
            all_draws_fit(draws, old(self).order_lines@.len()) && draws.len() == MAX_PASSES
                && self.order_lines@ == settle_passes(
                self.menu_items@,
                old(self).order_lines@,
                self.stations@,
                now,
                draws,
                0,
            ) && events@ == settle_events(
                self.menu_items@,
                old(self).order_lines@,
                self.stations@,
                now,
                draws,
                0,
            );
        let mut advanced = self.advance_steps(now);
        events.append(&mut advanced);
        proof {
            assert(all_draws_fit(draws, old(self).order_lines@.len()));
        }
        events
    }

    /// One tick of the kitchens at the instant `now`: the incoming orders
    /// are taken in, waiting lines are bound to free stations, the lines
    /// whose step is done advance, and the orders whose lines are all
    /// finished become ready.
    ///
    /// The tick is refused, and nothing changes, if `now` is an instant the
    /// tables cannot hold or the incoming orders are refused. After a tick
    /// that went through, no order is left submitted with all its lines
    /// finished, and every order that the tick made ready has all its lines
    /// finished.
    pub fn step(&mut self, now: i64, incoming: &Vec<IncomingOrder>) -> (result: Result<
        Vec<Event>,
        Error,
    >)
        requires
            old(self).wf(),
        ensures
            final(self).wf(),
            final(self).same_catalog(old(self)),
            result is Err ==> tables_unchanged(old(self), final(self)),
            result matches Err(e) ==> (e is InvalidData || e is InternalError),
            !spec_time_in_range(now) || !batch_valid(old(self).menu_items@, incoming@) <==> (
            result matches Err(e) && e is InvalidData),
            spec_time_in_range(now) && incoming@.len() == 0 ==> result is Ok,
            result is Ok ==> forall|o: int|
                0 <= o < final(self).orders@.len() && (#[trigger] final(self).orders@[o]).status
                    == OrderStatus::Submitted ==> !order_is_done(
                    final(self).order_lines@,
                    final(self).orders@[o].order_id,
                ),
            spec_time_in_range(now) && batch_valid(old(self).menu_items@, incoming@)
                ==> kitchens_ticked(
                old(self).sites@,
                old(self).kitchens@,
                old(self).stations@,
                old(self).menu_items@,
                old(self).orders@,
                old(self).order_lines@,
                now,
                incoming@,
                final(self).orders@,
                final(self).order_lines@,
                result,
            ),
    {
        if !time_in_range(now) {
            return Err(Error::invalid_data("clock out of range"));
        }
        let taken = self.prepare_order_lines(now, incoming);
        let ghost (order_ids, line_ids) = if batch_valid(old(self).menu_items@, incoming@) {
            choose|order_ids: Seq<OrderId>, line_ids: Seq<Vec<OrderLineId>>|
                ids_minted(incoming@, order_ids, line_ids, now) && #[trigger] intake_outcome(
                    old(self),
                    incoming@,
                    order_ids,
                    line_ids,
                    self.orders@,
                    self.order_lines@,
                    taken,
                )
        } else {
            (Seq::empty(), Seq::empty())
        };
        let mut events = match taken {
            Ok(events) => events,
            Err(e) => {
                proof {
                    if batch_valid(old(self).menu_items@, incoming@) {
                        assert(tick_outcome(
                            old(self).sites@,
                            old(self).kitchens@,
                            old(self).stations@,
                            old(self).menu_items@,
                            old(self).orders@,
                            old(self).order_lines@,
                            now,
                            incoming@,
                            order_ids,
                            line_ids,
                            Seq::empty(),
                            self.orders@,
                            self.order_lines@,
                            Err(e),
                        ));
                    }
                }
                return Err(e);
            },
        };
        let ghost created = events@;
        let ghost lines_in = self.order_lines@;
        let ghost orders_in = self.orders@;
        let mut processed = self.process_order_lines(now);
        let ghost draws = choose|draws: Seq<Vec<u32>>| #[trigger]
            all_draws_fit(draws, lines_in.len()) && draws.len() == MAX_PASSES
                && self.order_lines@ == advance_all(
                settle_passes(self.menu_items@, lines_in, self.stations@, now, draws, 0),
                now,
            ) && processed@ == settle_events(
                self.menu_items@,
                lines_in,
                self.stations@,
                now,
                draws,
                0,
            ) + progress_events(
                settle_passes(self.menu_items@, lines_in, self.stations@, now, draws, 0),
                now,
                lines_in.len() as int,
            );
        let ghost worked = processed@;
        events.append(&mut processed);
        let ghost orders_before = self.orders@;
        let mut ready = self.update_order_status(now);
        let ghost made_ready = ready@;
        events.append(&mut ready);
        proof {
            assert forall|o: int|
                0 <= o < self.orders@.len() && (#[trigger] self.orders@[o]).status
                    == OrderStatus::Submitted implies !order_is_done(
                self.order_lines@,
                self.orders@[o].order_id,
            ) by {
                assert(self.orders@[o] == settle_order(self.order_lines@, orders_before[o]));
            }
            assert(events@ =~= created + worked + made_ready);
            assert(events@.subrange(0, created.len() as int) =~= created);
            assert(events@.subrange(created.len() as int, events@.len() as int) =~= worked
                + made_ready);
            assert(tick_outcome(
                old(self).sites@,
                old(self).kitchens@,
                old(self).stations@,
                old(self).menu_items@,
                old(self).orders@,
                old(self).order_lines@,
                now,
                incoming@,
                order_ids,
                line_ids,
                draws,
                self.orders@,
                self.order_lines@,
                Ok(events),
            ));
        }
        Ok(events)
    }
}

/// Whether no two of `ids` are the same.
fn all_distinct(ids: &Vec<u128>) -> (distinct: bool)
    ensures
        distinct == forall|i: int, j: int| 0 <= i < j < ids@.len() ==> ids@[i] != ids@[j],
{
    let mut j: usize = 0;
    while j < ids.len()
        invariant
            j <= ids.len(),
            forall|a: int, b: int| 0 <= a < b < j ==> ids@[a] != ids@[b],
        decreases ids.len() - j,
    {
        let mut i: usize = 0;
        while i < j
            invariant
                j < ids.len(),
                i <= j,
                forall|a: int| 0 <= a < i ==> ids@[a] != ids@[j as int],
            decreases j - i,
        {
            if ids[i] == ids[j] {
                return false;
            }
            i += 1;
        }
        j += 1;
    }
    true
}

/// Whether no two sites share an identifier.
fn check_sites(sites: &Vec<Site>) -> (ok: bool)
    ensures
        ok == sites_distinct(sites@),
{
    let mut ids: Vec<u128> = Vec::new();
    let mut i: usize = 0;
    while i < sites.len()
        invariant
            i <= sites.len(),
            ids@.len() == i,
            forall|j: int| 0 <= j < i ==> ids@[j] == sites@[j].id.0,
        decreases sites.len() - i,
    {
        ids.push(sites[i].id.0);
        i += 1;
    }
    let ok = all_distinct(&ids);
    proof {
        if ok {
            assert forall|a: int, b: int| 0 <= a < b < sites@.len() implies sites@[a].id
                != sites@[b].id by {
                assert(ids@[a] != ids@[b]);
            }
        } else {
            let (a, b) = choose|a: int, b: int| 0 <= a < b < ids@.len() && ids@[a] == ids@[b];
            assert(sites@[a].id == sites@[b].id);
        }
    }
    ok
}

/// Whether no two kitchens share an identifier.
fn check_kitchens(kitchens: &Vec<Kitchen>) -> (ok: bool)
    ensures
        ok == kitchens_distinct(kitchens@),
{
    let mut ids: Vec<u128> = Vec::new();
    let mut i: usize = 0;
    while i < kitchens.len()
        invariant
            i <= kitchens.len(),
            ids@.len() == i,
            forall|j: int| 0 <= j < i ==> ids@[j] == kitchens@[j].id.0,
        decreases kitchens.len() - i,
    {
        ids.push(kitchens[i].id.0);
        i += 1;
    }
    let ok = all_distinct(&ids);
    proof {
        if ok {
            assert forall|a: int, b: int| 0 <= a < b < kitchens@.len() implies kitchens@[a].id
                != kitchens@[b].id by {
                assert(ids@[a] != ids@[b]);
            }
        } else {
            let (a, b) = choose|a: int, b: int| 0 <= a < b < ids@.len() && ids@[a] == ids@[b];
            assert(kitchens@[a].id == kitchens@[b].id);
        }
    }
    ok
}

/// Whether no two stations share an identifier.
fn check_stations(stations: &Vec<Station>) -> (ok: bool)
    ensures
        ok == stations_distinct(stations@),
{
    let mut ids: Vec<u128> = Vec::new();
    let mut i: usize = 0;
    while i < stations.len()
        invariant
            i <= stations.len(),
            ids@.len() == i,
            forall|j: int| 0 <= j < i ==> ids@[j] == stations@[j].id.0,
        decreases stations.len() - i,
    {
        ids.push(stations[i].id.0);
        i += 1;
    }
    let ok = all_distinct(&ids);
    proof {
        if ok {
            assert forall|a: int, b: int| 0 <= a < b < stations@.len() implies stations@[a].id
                != stations@[b].id by {
                assert(ids@[a] != ids@[b]);
            }
        } else {
            let (a, b) = choose|a: int, b: int| 0 <= a < b < ids@.len() && ids@[a] == ids@[b];
            assert(stations@[a].id == stations@[b].id);
        }
    }
    ok
}

/// Whether no two menu items share an identifier and every recipe has a
/// step.
fn check_menu(menu: &Vec<MenuItem>) -> (ok: bool)
    ensures
        ok == menu_sound(menu@),
{
    let mut ids: Vec<u128> = Vec::new();
    let mut i: usize = 0;
    while i < menu.len()
        invariant
            i <= menu.len(),
            ids@.len() == i,
            forall|j: int| 0 <= j < i ==> ids@[j] == menu@[j].id.0,
            forall|j: int| 0 <= j < i ==> 1 <= #[trigger] menu@[j].instructions@.len() < u64::MAX,
        decreases menu.len() - i,
    {
        let steps = menu[i].instructions.len();
        if steps < 1 || steps as u64 == u64::MAX {
            return false;
        }
        ids.push(menu[i].id.0);
        i += 1;
    }
    let ok = all_distinct(&ids);
    proof {
        if ok {
            assert forall|a: int, b: int| 0 <= a < b < menu@.len() implies menu@[a].id
                != menu@[b].id by {
                assert(ids@[a] != ids@[b]);
            }
        } else {
            let (a, b) = choose|a: int, b: int| 0 <= a < b < ids@.len() && ids@[a] == ids@[b];
            assert(menu@[a].id == menu@[b].id);
        }
    }
    ok
}

} // verus!
