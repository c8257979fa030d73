//! What follows from the contracts of the kitchens, stated once and proved.

use vstd::prelude::*;
use crate::error::Error;
use crate::events::Event;
use crate::idents::{OrderId, OrderLineId};
use crate::kitchen::intake::{admit_from, admit_order, IncomingOrder};
use crate::kitchen::progress::{
    advance_all, advance_line, advanced, is_due, progress_event, progress_events,
};
use crate::kitchen::stations::{
    all_draws_fit, bind_pass, bound_line, completion_time, demand_of, free_fit,
    lemma_bind_pass_keeps_tables_sound, lemma_duration_bounded, lemma_nth_free_is_free_fit,
    nth_free_station, queue_position, settle_passes, station_for, Demand, DRAW_SCALE,
};
use crate::kitchen::status::{
    all_lines_complete, order_is_done, ready_events, settle_orders, stats_of,
};
use crate::kitchen::tick::{kitchens_ticked, tick_outcome};
use crate::kitchen::{
    has_kitchen, has_line, has_order, holds_fit, holds_station, is_held_fit, tables_sound,
    KitchenHandler,
};
use crate::objects::{is_site_for_tile, Kitchen, MenuItem, Site, Station};
use crate::orders::{spec_time_in_range, Order, OrderLine, OrderLineStatus, OrderStatus};

verus! {

/// An unfinished line is at one of the steps of its recipe, and a line is
/// finished exactly when it is past the last step.
pub proof fn law_step_within_recipe(handler: &KitchenHandler, i: int)
    requires
        handler.wf(),
        0 <= i < handler.order_lines@.len(),
    ensures
        !handler.order_lines@[i].is_complete ==> 1 <= handler.order_lines@[i].current_step
            <= handler.order_lines@[i].total_steps,
        handler.order_lines@[i].is_complete == (handler.order_lines@[i].current_step
            > handler.order_lines@[i].total_steps),
{
    assert(handler.order_lines@[i].spec_sound());
}

/// No two unfinished lines hold the same station.
pub proof fn law_station_held_once(handler: &KitchenHandler, i: int, j: int)
    requires
        handler.wf(),
        0 <= i < handler.order_lines@.len(),
        0 <= j < handler.order_lines@.len(),
        i != j,
        !handler.order_lines@[i].is_complete,
        !handler.order_lines@[j].is_complete,
        handler.order_lines@[i].assigned_station is Some,
    ensures
        handler.order_lines@[i].assigned_station != handler.order_lines@[j].assigned_station,
{
    let station = handler.order_lines@[i].assigned_station->Some_0;
    assert(holds_station(handler.order_lines@[i], station));
    assert(!holds_station(handler.order_lines@[j], station));
}

/// Every line has its order and its kitchen in the tables, and the kitchen
/// stands on the site of the order.
pub proof fn law_line_cooked_on_site_of_order(handler: &KitchenHandler, i: int)
    requires
        handler.wf(),
        0 <= i < handler.order_lines@.len(),
    ensures
        has_order(handler.orders@, handler.order_lines@[i].order_id),
        has_kitchen(handler.kitchens@, handler.order_lines@[i].kitchen_id),
        forall|o: int, k: int|
            0 <= o < handler.orders@.len() && 0 <= k < handler.kitchens@.len()
                && #[trigger] handler.orders@[o].order_id == handler.order_lines@[i].order_id
                && Some(#[trigger] handler.kitchens@[k].id) == handler.order_lines@[i].kitchen_id
                ==> handler.kitchens@[k].site_id == handler.orders@[o].site_id,
{
}

/// The status update makes a submitted order ready if and only if every one
/// of its lines is finished.
pub proof fn law_ready_iff_lines_complete(lines: Seq<OrderLine>, orders: Seq<Order>, o: int)
    requires
        0 <= o < orders.len(),
        orders[o].status == OrderStatus::Submitted,
        has_line(lines, orders[o].order_id),
    ensures
        settle_orders(lines, orders)[o].status == OrderStatus::Ready <==> all_lines_complete(
            lines,
            orders[o].order_id,
        ),
{
}

/// Once nothing is left to bind, processing the lines again at the same
/// instant changes nothing, whatever is drawn.
pub proof fn law_processing_again_changes_nothing(
    menu: Seq<MenuItem>,
    lines: Seq<OrderLine>,
    stations: Seq<Station>,
    now: i64,
    first: Seq<Vec<u32>>,
    second: Seq<Vec<u32>>,
)
    requires
        forall|i: int|
            0 <= i < lines.len() ==> #[trigger] station_for(
                menu,
                advance_all(settle_passes(menu, lines, stations, now, first, 0), now),
                stations,
                now,
                i,
            ) is None,
    ensures
        advance_all(
            settle_passes(
                menu,
                advance_all(settle_passes(menu, lines, stations, now, first, 0), now),
                stations,
                now,
                second,
                0,
            ),
            now,
        ) == advance_all(settle_passes(menu, lines, stations, now, first, 0), now),
{
    let settled = settle_passes(menu, lines, stations, now, first, 0);
    lemma_settle_keeps_length(menu, lines, stations, now, first, 0);
    let once = advance_all(settled, now);
    assert(once.len() == lines.len());
    if second.len() > 0 {
        let next = bind_pass(menu, once, stations, now, second[0]@);
        assert(next =~= once);
    }
    let again = settle_passes(menu, once, stations, now, second, 0);
    assert(again == once);
    assert forall|i: int| 0 <= i < once.len() implies !is_due(#[trigger] once[i], now) by {}
    assert(advance_all(once, now) =~= once);
}

/// The passes of binding neither add nor remove a line.
pub proof fn lemma_settle_keeps_length(
    menu: Seq<MenuItem>,
    lines: Seq<OrderLine>,
    stations: Seq<Station>,
    now: i64,
    draws: Seq<Vec<u32>>,
    p: int,
)
    ensures
        settle_passes(menu, lines, stations, now, draws, p).len() == lines.len(),
    decreases draws.len() - p,
{
    if 0 <= p < draws.len() {
        let next = bind_pass(menu, lines, stations, now, draws[p]@);
        if stats_of(next, stations) != stats_of(lines, stations) {
            lemma_settle_keeps_length(menu, next, stations, now, draws, p + 1);
        }
    }
}

/// A line whose recipe has a single step is finished by one binding and one
/// advance: once a pass has bound it, the first advance at or after the
/// instant its step is done finishes it.
pub proof fn law_single_step_line_completes(
    menu: Seq<MenuItem>,
    lines: Seq<OrderLine>,
    stations: Seq<Station>,
    now: i64,
    draws: Seq<u32>,
    i: int,
    later: i64,
)
    requires
        0 <= i < lines.len(),
        lines[i].spec_sound(),
        lines[i].total_steps == 1,
        station_for(menu, lines, stations, now, i) is Some,
        bind_pass(menu, lines, stations, now, draws)[i].step_completion_time matches Some(done)
            && done <= later,
    ensures
        advance_line(bind_pass(menu, lines, stations, now, draws)[i], later).is_complete,
        advance_line(bind_pass(menu, lines, stations, now, draws)[i], later).assigned_station
            is None,
{
    let bound = bind_pass(menu, lines, stations, now, draws)[i];
    assert(bound == bound_line(menu, lines, stations, now, draws, i));
    assert(demand_of(menu, lines[i], now) is Some);
    assert(!lines[i].is_complete);
    assert(is_due(bound, later));
}

/// An order whose destination lies on the tile of no site is dropped: the
/// tables stay as they are.
pub proof fn law_order_off_every_site_is_dropped(
    sites: Seq<Site>,
    kitchens: Seq<Kitchen>,
    menu: Seq<MenuItem>,
    orders: Seq<Order>,
    lines: Seq<OrderLine>,
    incoming: IncomingOrder,
    order_id: OrderId,
    line_ids: Seq<OrderLineId>,
)
    requires
        forall|s: int| 0 <= s < sites.len() ==> sites[s].order_tile != incoming.destination_tile,
    ensures
        admit_order(sites, kitchens, menu, orders, lines, incoming, order_id, line_ids) == Some(
            (orders, lines),
        ),
{
    assert forall|s: int| !is_site_for_tile(sites, incoming.destination_tile, s) by {}
}

/// Taking in no orders changes nothing.
pub proof fn law_taking_in_nothing_changes_nothing(
    sites: Seq<Site>,
    kitchens: Seq<Kitchen>,
    menu: Seq<MenuItem>,
    orders: Seq<Order>,
    lines: Seq<OrderLine>,
)
    ensures
        admit_from(
            sites,
            kitchens,
            menu,
            orders,
            lines,
            Seq::empty(),
            Seq::empty(),
            Seq::empty(),
            0,
            Seq::empty(),
        ) == Some((orders, lines, Seq::<int>::empty())),
{
}

/// Taking orders in leaves the orders that were in the table where and as
/// they were.
pub proof fn lemma_intake_keeps_orders(
    sites: Seq<Site>,
    kitchens: Seq<Kitchen>,
    menu: Seq<MenuItem>,
    orders: Seq<Order>,
    lines: Seq<OrderLine>,
    incoming: Seq<IncomingOrder>,
    order_ids: Seq<OrderId>,
    line_ids: Seq<Vec<OrderLineId>>,
    n: int,
    admitted: Seq<int>,
)
    requires
        0 <= n,
    ensures
        admit_from(
            sites,
            kitchens,
            menu,
            orders,
            lines,
            incoming,
            order_ids,
            line_ids,
            n,
            admitted,
        ) matches Some((after, _, _)) ==> after.len() >= orders.len() && forall|o: int|
            0 <= o < orders.len() ==> after[o] == orders[o],
    decreases incoming.len() - n,
{
    if n < incoming.len() {
        match admit_order(
            sites,
            kitchens,
            menu,
            orders,
            lines,
            incoming[n],
            order_ids[n],
            line_ids[n]@,
        ) {
            None => {},
            Some((next_orders, next_lines)) => {
                lemma_intake_keeps_orders(
                    sites,
                    kitchens,
                    menu,
                    next_orders,
                    next_lines,
                    incoming,
                    order_ids,
                    line_ids,
                    n + 1,
                    if next_orders.len() > orders.len() {
                        admitted.push(n)
                    } else {
                        admitted
                    },
                );
            },
        }
    }
}

/// A tick of the kitchens leaves every order that was in the table and was
/// not waiting for its lines as it was: only submitted orders change, and
/// new orders come behind the others.
pub proof fn law_tick_keeps_other_orders(
    sites: Seq<Site>,
    kitchens: Seq<Kitchen>,
    stations: Seq<Station>,
    menu: Seq<MenuItem>,
    orders_before: Seq<Order>,
    lines_before: Seq<OrderLine>,
    now: i64,
    incoming: Seq<IncomingOrder>,
    orders_after: Seq<Order>,
    lines_after: Seq<OrderLine>,
    result: Result<Vec<Event>, Error>,
    o: int,
)
    requires
        kitchens_ticked(
            sites,
            kitchens,
            stations,
            menu,
            orders_before,
            lines_before,
            now,
            incoming,
            orders_after,
            lines_after,
            result,
        ),
        0 <= o < orders_before.len(),
        orders_before[o].status != OrderStatus::Submitted,
    ensures
        o < orders_after.len(),
        orders_after[o] == orders_before[o],
{
    let (order_ids, line_ids, draws) = choose|
        order_ids: Seq<OrderId>,
        line_ids: Seq<Vec<OrderLineId>>,
        draws: Seq<Vec<u32>>,
    |
        crate::kitchen::tick::ids_minted(incoming, order_ids, line_ids, now)
            && #[trigger] tick_outcome(
            sites,
            kitchens,
            stations,
            menu,
            orders_before,
            lines_before,
            now,
            incoming,
            order_ids,
            line_ids,
            draws,
            orders_after,
            lines_after,
            result,
        );
    lemma_intake_keeps_orders(
        sites,
        kitchens,
        menu,
        orders_before,
        lines_before,
        incoming,
        order_ids,
        line_ids,
        0,
        Seq::empty(),
    );
}

/// Whether no station of the table is free that fits `demand`.
pub open spec fn none_free(lines: Seq<OrderLine>, stations: Seq<Station>, demand: Demand) -> bool {
    forall|s: int| 0 <= s < stations.len() ==> !#[trigger] free_fit(lines, stations, demand, s)
}

/// A line that finds no free station as it asks for is left as it is by a
/// pass of binding.
pub proof fn lemma_unbound_where_none_free(
    menu: Seq<MenuItem>,
    lines: Seq<OrderLine>,
    stations: Seq<Station>,
    now: i64,
    draws: Seq<u32>,
    i: int,
)
    requires
        0 <= i < lines.len(),
        demand_of(menu, lines[i], now) matches Some(d) && none_free(lines, stations, d),
    ensures
        bind_pass(menu, lines, stations, now, draws)[i] == lines[i],
{
    let d = demand_of(menu, lines[i], now)->Some_0;
    lemma_nth_free_is_free_fit(
        lines,
        stations,
        d,
        queue_position(menu, lines, now, i, lines.len() as int),
        0,
    );
}

/// A pass of binding frees no station of a kind and kitchen in which none
/// was free: a line gives up its station only for another of the same kind
/// in the same kitchen.
pub proof fn lemma_pass_frees_nothing(
    sites: Seq<Site>,
    kitchens: Seq<Kitchen>,
    stations: Seq<Station>,
    menu: Seq<MenuItem>,
    orders: Seq<Order>,
    lines: Seq<OrderLine>,
    now: i64,
    draws: Seq<u32>,
    demand: Demand,
)
    requires
        tables_sound(sites, kitchens, stations, menu, orders, lines),
        none_free(lines, stations, demand),
    ensures
        none_free(bind_pass(menu, lines, stations, now, draws), stations, demand),
{
    let next = bind_pass(menu, lines, stations, now, draws);
    assert forall|s: int| 0 <= s < stations.len() implies !#[trigger] free_fit(
        next,
        stations,
        demand,
        s,
    ) by {
        if free_fit(next, stations, demand, s) {
            assert(!free_fit(lines, stations, demand, s));
            let j = choose|j: int|
                0 <= j < lines.len() && holds_station(#[trigger] lines[j], stations[s].id);
            assert(!holds_station(next[j], stations[s].id));
            assert(next[j] == bound_line(menu, lines, stations, now, draws, j));
            let t = station_for(menu, lines, stations, now, j)->Some_0;
            let dj = demand_of(menu, lines[j], now)->Some_0;
            lemma_nth_free_is_free_fit(
                lines,
                stations,
                dj,
                queue_position(menu, lines, now, j, lines.len() as int),
                0,
            );
            assert(holds_fit(menu, stations, lines[j]));
            let h = choose|h: int| is_held_fit(menu, stations, lines[j], h);
            if h < s {
                assert(stations[h].id != stations[s].id);
            } else if s < h {
                assert(stations[s].id != stations[h].id);
            }
            assert(free_fit(lines, stations, demand, t));
        }
    }
}

/// The passes of binding leave a line as it is that finds no free station
/// as it asks for.
pub proof fn lemma_passes_leave_line(
    sites: Seq<Site>,
    kitchens: Seq<Kitchen>,
    stations: Seq<Station>,
    menu: Seq<MenuItem>,
    orders: Seq<Order>,
    lines: Seq<OrderLine>,
    now: i64,
    draws: Seq<Vec<u32>>,
    p: int,
    i: int,
)
    requires
        tables_sound(sites, kitchens, stations, menu, orders, lines),
        spec_time_in_range(now),
        all_draws_fit(draws, lines.len()),
        0 <= p,
        0 <= i < lines.len(),
        demand_of(menu, lines[i], now) matches Some(d) && none_free(lines, stations, d),
    ensures
        settle_passes(menu, lines, stations, now, draws, p).len() == lines.len(),
        settle_passes(menu, lines, stations, now, draws, p)[i] == lines[i],
    decreases draws.len() - p,
{
    if p < draws.len() {
        let d = demand_of(menu, lines[i], now)->Some_0;
        let next = bind_pass(menu, lines, stations, now, draws[p]@);
        assert(crate::kitchen::stations::draws_fit(draws[p]@, lines.len()));
        lemma_bind_pass_keeps_tables_sound(
            sites,
            kitchens,
            stations,
            menu,
            orders,
            lines,
            now,
            draws[p]@,
        );
        lemma_unbound_where_none_free(menu, lines, stations, now, draws[p]@, i);
        lemma_pass_frees_nothing(
            sites,
            kitchens,
            stations,
            menu,
            orders,
            lines,
            now,
            draws[p]@,
            d,
        );
        lemma_passes_leave_line(
            sites,
            kitchens,
            stations,
            menu,
            orders,
            next,
            now,
            draws,
            p + 1,
            i,
        );
    }
}

/// The event of a line is among the events of the lines.
pub proof fn lemma_progress_event_told(lines: Seq<OrderLine>, now: i64, n: int, i: int)
    requires
        0 <= i < n <= lines.len(),
        progress_event(lines[i], now) is Some,
    ensures
        progress_events(lines, now, n).contains(progress_event(lines[i], now)->Some_0),
    decreases n,
{
    let all = progress_events(lines, now, n);
    if i == n - 1 {
        assert(all[all.len() - 1] == progress_event(lines[i], now)->Some_0);
    } else {
        lemma_progress_event_told(lines, now, n - 1, i);
        let earlier = progress_events(lines, now, n - 1);
        let w = choose|w: int|
            0 <= w < earlier.len() && earlier[w] == progress_event(lines[i], now)->Some_0;
        assert(all[w] == earlier[w]);
    }
}

/// A line whose step is done, and for which no other station of the kind
/// and kitchen of its step is free, moves on when the lines are processed,
/// whatever is drawn: it gives up its station and is at the next step, and
/// if the step was its last it is finished and the line is told of as ready
/// at the instant its step was done.
pub proof fn law_due_line_moves_on(
    sites: Seq<Site>,
    kitchens: Seq<Kitchen>,
    stations: Seq<Station>,
    menu: Seq<MenuItem>,
    orders: Seq<Order>,
    lines: Seq<OrderLine>,
    now: i64,
    draws: Seq<Vec<u32>>,
    i: int,
)
    requires
        tables_sound(sites, kitchens, stations, menu, orders, lines),
        spec_time_in_range(now),
        all_draws_fit(draws, lines.len()),
        0 <= i < lines.len(),
        is_due(lines[i], now),
        demand_of(menu, lines[i], now) matches Some(d) && none_free(lines, stations, d),
    ensures
        advance_all(settle_passes(menu, lines, stations, now, draws, 0), now)[i] == advanced(
            lines[i],
        ),
        advanced(lines[i]).assigned_station is None,
        advanced(lines[i]).step_completion_time is None,
        advanced(lines[i]).current_step == lines[i].current_step + 1,
        lines[i].current_step == lines[i].total_steps ==> advanced(lines[i]).is_complete
            && progress_events(
            settle_passes(menu, lines, stations, now, draws, 0),
            now,
            lines.len() as int,
        ).contains(
            Event::OrderLineUpdated {
                timestamp: lines[i].step_completion_time->Some_0,
                order_line_id: lines[i].order_line_id,
                kitchen_id: lines[i].kitchen_id->Some_0,
                status: OrderLineStatus::Ready,
            },
        ),
{
    lemma_passes_leave_line(sites, kitchens, stations, menu, orders, lines, now, draws, 0, i);
    let bound = settle_passes(menu, lines, stations, now, draws, 0);
    assert(lines[i].spec_sound());
    if lines[i].current_step == lines[i].total_steps {
        assert(progress_event(bound[i], now) is Some);
        lemma_progress_event_told(bound, now, bound.len() as int, i);
    }
}

/// The passes of binding leave a finished line as it is.
pub proof fn lemma_passes_leave_finished_line(
    menu: Seq<MenuItem>,
    lines: Seq<OrderLine>,
    stations: Seq<Station>,
    now: i64,
    draws: Seq<Vec<u32>>,
    p: int,
    i: int,
)
    requires
        0 <= p,
        0 <= i < lines.len(),
        lines[i].is_complete,
    ensures
        settle_passes(menu, lines, stations, now, draws, p).len() == lines.len(),
        settle_passes(menu, lines, stations, now, draws, p)[i] == lines[i],
    decreases draws.len() - p,
{
    if p < draws.len() {
        let next = bind_pass(menu, lines, stations, now, draws[p]@);
        assert(demand_of(menu, lines[i], now) is None);
        assert(next[i] == lines[i]);
        lemma_passes_leave_finished_line(menu, next, stations, now, draws, p + 1, i);
    }
}

/// The event of an order that becomes ready is among the events of the
/// orders.
pub proof fn lemma_ready_event_told(
    lines: Seq<OrderLine>,
    orders: Seq<Order>,
    now: i64,
    n: int,
    o: int,
)
    requires
        0 <= o < n <= orders.len(),
        orders[o].status == OrderStatus::Submitted,
        order_is_done(lines, orders[o].order_id),
    ensures
        ready_events(lines, orders, now, n).contains(
            Event::OrderReady {
                site_id: orders[o].site_id,
                order_id: orders[o].order_id,
                timestamp: now,
            },
        ),
    decreases n,
{
    let all = ready_events(lines, orders, now, n);
    let event = Event::OrderReady {
        site_id: orders[o].site_id,
        order_id: orders[o].order_id,
        timestamp: now,
    };
    if o == n - 1 {
        assert(all[all.len() - 1] == event);
    } else {
        lemma_ready_event_told(lines, orders, now, n - 1, o);
        let earlier = ready_events(lines, orders, now, n - 1);
        let w = choose|w: int| 0 <= w < earlier.len() && earlier[w] == event;
        assert(all[w] == earlier[w]);
    }
}

/// Whether line `i` is finished, or will be once the lines are processed at
/// the instant `now`: its last step is done, and no other station of the
/// kind and kitchen of that step is free.
pub open spec fn finishes_now(
    menu: Seq<MenuItem>,
    lines: Seq<OrderLine>,
    stations: Seq<Station>,
    now: i64,
    i: int,
) -> bool {
    lines[i].is_complete || (is_due(lines[i], now) && lines[i].current_step
        == lines[i].total_steps && (demand_of(menu, lines[i], now) matches Some(d) && none_free(
        lines,
        stations,
        d,
    )))
}

/// A submitted order whose lines are all finished, or at their last step
/// with that step done, is ready after the lines are processed and the
/// status is updated, in the same tick and whatever is drawn; the tick tells
/// of it.
pub proof fn law_order_becomes_ready(
    sites: Seq<Site>,
    kitchens: Seq<Kitchen>,
    stations: Seq<Station>,
    menu: Seq<MenuItem>,
    orders: Seq<Order>,
    lines: Seq<OrderLine>,
    now: i64,
    draws: Seq<Vec<u32>>,
    o: int,
)
    requires
        tables_sound(sites, kitchens, stations, menu, orders, lines),
        spec_time_in_range(now),
        all_draws_fit(draws, lines.len()),
        0 <= o < orders.len(),
        orders[o].status == OrderStatus::Submitted,
        forall|i: int|
            0 <= i < lines.len() && (#[trigger] lines[i]).order_id == orders[o].order_id
                ==> finishes_now(menu, lines, stations, now, i),
    ensures
        settle_orders(
            advance_all(settle_passes(menu, lines, stations, now, draws, 0), now),
            orders,
        )[o] == (Order { status: OrderStatus::Ready, ..orders[o] }),
        ready_events(
            advance_all(settle_passes(menu, lines, stations, now, draws, 0), now),
            orders,
            now,
            orders.len() as int,
        ).contains(
            Event::OrderReady {
                site_id: orders[o].site_id,
                order_id: orders[o].order_id,
                timestamp: now,
            },
        ),
{
    let bound = settle_passes(menu, lines, stations, now, draws, 0);
    let after = advance_all(bound, now);
    let id = orders[o].order_id;
    lemma_settle_keeps_length(menu, lines, stations, now, draws, 0);
    assert forall|i: int| 0 <= i < lines.len() implies (#[trigger] after[i]).order_id
        == lines[i].order_id && (lines[i].order_id == id ==> after[i].is_complete) by {
        if lines[i].is_complete {
            lemma_passes_leave_finished_line(menu, lines, stations, now, draws, 0, i);
        } else if lines[i].order_id == id {
            assert(finishes_now(menu, lines, stations, now, i));
            law_due_line_moves_on(sites, kitchens, stations, menu, orders, lines, now, draws, i);
        } else {
            lemma_line_keeps_order(
                sites,
                kitchens,
                stations,
                menu,
                orders,
                lines,
                now,
                draws,
                0,
                i,
            );
        }
    }
    assert(has_line(lines, id));
    let w = choose|w: int| 0 <= w < lines.len() && lines[w].order_id == id;
    assert(after[w].order_id == id);
    assert(has_line(after, id));
    assert(all_lines_complete(after, id));
    lemma_ready_event_told(after, orders, now, orders.len() as int, o);
}

/// The passes of binding leave every line with its order.
pub proof fn lemma_line_keeps_order(
    sites: Seq<Site>,
    kitchens: Seq<Kitchen>,
    stations: Seq<Station>,
    menu: Seq<MenuItem>,
    orders: Seq<Order>,
    lines: Seq<OrderLine>,
    now: i64,
    draws: Seq<Vec<u32>>,
    p: int,
    i: int,
)
    requires
        0 <= p,
        0 <= i < lines.len(),
    ensures
        settle_passes(menu, lines, stations, now, draws, p).len() == lines.len(),
        settle_passes(menu, lines, stations, now, draws, p)[i].order_id == lines[i].order_id,
    decreases draws.len() - p,
{
    if p < draws.len() {
        let next = bind_pass(menu, lines, stations, now, draws[p]@);
        assert(next[i] == bound_line(menu, lines, stations, now, draws[p]@, i));
        lemma_line_keeps_order(sites, kitchens, stations, menu, orders, next, now, draws, p + 1, i);
    }
}

/// The first free station that fits a demand is the one found for the
/// first in the queue.
pub proof fn lemma_first_free_station(
    lines: Seq<OrderLine>,
    stations: Seq<Station>,
    demand: Demand,
    from: int,
    s: int,
)
    requires
        0 <= from <= s < stations.len(),
        free_fit(lines, stations, demand, s),
        forall|t: int| from <= t < s ==> !#[trigger] free_fit(lines, stations, demand, t),
    ensures
        nth_free_station(lines, stations, demand, 0, from) == Some(s),
    decreases s - from,
{
    if from < s {
        assert(!free_fit(lines, stations, demand, from));
        lemma_first_free_station(lines, stations, demand, from + 1, s);
    }
}

/// A waiting line that is first in its queue is bound to the first free
/// station that fits it: it holds that station from then on, its step is
/// done no earlier than now, and nothing else of the line changes.
pub proof fn law_first_in_queue_is_bound(
    menu: Seq<MenuItem>,
    lines: Seq<OrderLine>,
    stations: Seq<Station>,
    now: i64,
    draws: Seq<u32>,
    i: int,
    s: int,
)
    requires
        0 <= i < lines.len(),
        lines[i].spec_sound(),
        spec_time_in_range(now),
        draws.len() == lines.len(),
        draws[i] < DRAW_SCALE,
        demand_of(menu, lines[i], now) matches Some(d) && free_fit(lines, stations, d, s)
            && forall|t: int| 0 <= t < s ==> !#[trigger] free_fit(lines, stations, d, t),
        queue_position(menu, lines, now, i, lines.len() as int) == 0,
        0 <= s < stations.len(),
    ensures
        bind_pass(menu, lines, stations, now, draws)[i] == (OrderLine {
            assigned_station: Some(stations[s].id),
            step_completion_time: bind_pass(menu, lines, stations, now, draws)[i].step_completion_time,
            ..lines[i]
        }),
        bind_pass(menu, lines, stations, now, draws)[i].step_completion_time matches Some(t) && t
            >= now && t == completion_time(
            now,
            lines[i].submitted_at,
            demand_of(menu, lines[i], now)->Some_0.expected_duration_s,
            draws[i],
        ),
{
    let d = demand_of(menu, lines[i], now)->Some_0;
    lemma_first_free_station(lines, stations, d, 0, s);
    lemma_duration_bounded(d.expected_duration_s, draws[i]);
    assert(station_for(menu, lines, stations, now, i) == Some(s));
    assert(bind_pass(menu, lines, stations, now, draws)[i] == bound_line(
        menu,
        lines,
        stations,
        now,
        draws,
        i,
    ));
}

/// In a batch, an order whose destination lies on the tile of no site is
/// passed over: the orders behind it are taken in as if it had not come,
/// whatever identifiers were minted for it.
pub proof fn law_order_off_every_site_is_passed_over(
    sites: Seq<Site>,
    kitchens: Seq<Kitchen>,
    menu: Seq<MenuItem>,
    orders: Seq<Order>,
    lines: Seq<OrderLine>,
    incoming: Seq<IncomingOrder>,
    order_ids: Seq<OrderId>,
    line_ids: Seq<Vec<OrderLineId>>,
    n: int,
    admitted: Seq<int>,
)
    requires
        0 <= n < incoming.len(),
        forall|s: int| 0 <= s < sites.len() ==> sites[s].order_tile != incoming[n].destination_tile,
    ensures
        admit_from(
            sites,
            kitchens,
            menu,
            orders,
            lines,
            incoming,
            order_ids,
            line_ids,
            n,
            admitted,
        ) == admit_from(
            sites,
            kitchens,
            menu,
            orders,
            lines,
            incoming,
            order_ids,
            line_ids,
            n + 1,
            admitted,
        ),
{
    law_order_off_every_site_is_dropped(
        sites,
        kitchens,
        menu,
        orders,
        lines,
        incoming[n],
        order_ids[n],
        line_ids[n]@,
    );
}

} // verus!
