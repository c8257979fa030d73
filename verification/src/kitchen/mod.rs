//! The kitchens of all sites: the tables they share and what must hold of
//! them between any two calls.
//!
//! A tick calls [`KitchenHandler::step`], which takes in the new orders,
//! binds waiting lines to free stations, advances the lines whose step is
//! done, and marks the orders whose lines are all done as ready.

use vstd::prelude::*;
use crate::idents::{KitchenId, OrderId, StationId};
use crate::objects::{
    kitchens_distinct, menu_sound, sites_distinct, stations_distinct, is_menu_index, Kitchen,
    MenuItem, Site, Station,
};
use crate::orders::{Order, OrderLine};

pub mod intake;
pub mod stations;
pub mod progress;
pub mod runner;
pub mod snapshot;
pub mod status;
pub mod laws;
pub mod tick;

verus! {

/// Counts over the order lines and the stations of all kitchens.
#[derive(Clone, Copy, Debug, PartialEq, Eq, Structural)]
pub struct KitchenStats {
    /// Unfinished lines that no station works on.
    pub queued: usize,
    /// Unfinished lines that a station works on.
    pub in_progress: usize,
    /// Finished lines.
    pub completed: usize,
    /// Stations that no unfinished line holds.
    pub idle_stations: usize,
    /// All stations.
    pub total_stations: usize,
}

impl KitchenStats {
    /// Whether the counts of `other` can be added without leaving `usize`.
    pub open spec fn spec_can_add(self, other: KitchenStats) -> bool {
        &&& self.queued + other.queued <= usize::MAX
        &&& self.in_progress + other.in_progress <= usize::MAX
        &&& self.completed + other.completed <= usize::MAX
        &&& self.idle_stations + other.idle_stations <= usize::MAX
        &&& self.total_stations + other.total_stations <= usize::MAX
    }

    /// The sums of the counts, field by field.
    pub fn add(self, other: KitchenStats) -> (sum: KitchenStats)
        requires
            self.spec_can_add(other),
        ensures
            sum.queued == self.queued + other.queued,
            sum.in_progress == self.in_progress + other.in_progress,
            sum.completed == self.completed + other.completed,
            sum.idle_stations == self.idle_stations + other.idle_stations,
            sum.total_stations == self.total_stations + other.total_stations,
    {
        KitchenStats {
            queued: self.queued + other.queued,
            in_progress: self.in_progress + other.in_progress,
            completed: self.completed + other.completed,
            idle_stations: self.idle_stations + other.idle_stations,
            total_stations: self.total_stations + other.total_stations,
        }
    }
}

/// Whether no two lines share an identifier.
pub open spec fn lines_distinct(lines: Seq<OrderLine>) -> bool {
    forall|i: int, j: int|
        0 <= i < j < lines.len() ==> lines[i].order_line_id != lines[j].order_line_id
}

/// Whether no two orders share an identifier.
pub open spec fn orders_distinct(orders: Seq<Order>) -> bool {
    forall|i: int, j: int| 0 <= i < j < orders.len() ==> orders[i].order_id != orders[j].order_id
}

/// Whether every line is sound by itself.
pub open spec fn lines_sound(lines: Seq<OrderLine>) -> bool {
    forall|i: int| 0 <= i < lines.len() ==> #[trigger] lines[i].spec_sound()
}

/// Whether the recipe of `line` is on the menu and has as many steps as the
/// line says.
pub open spec fn recipe_matches(menu: Seq<MenuItem>, line: OrderLine) -> bool {
    exists|m: int|
        is_menu_index(menu, line.menu_item_id, m) && menu[m].instructions@.len()
            == line.total_steps
}

/// Whether every line has its recipe on the menu.
pub open spec fn recipes_match(menu: Seq<MenuItem>, lines: Seq<OrderLine>) -> bool {
    forall|i: int| 0 <= i < lines.len() ==> #[trigger] recipe_matches(menu, lines[i])
}

/// Whether `line` holds the station `station` while it is unfinished.
pub open spec fn holds_station(line: OrderLine, station: StationId) -> bool {
    !line.is_complete && line.assigned_station == Some(station)
}

/// Whether no station is held by two unfinished lines at once.
pub open spec fn stations_exclusive(lines: Seq<OrderLine>) -> bool {
    forall|i: int, j: int, station: StationId|
        0 <= i < lines.len() && 0 <= j < lines.len() && i != j && #[trigger] holds_station(
            lines[i],
            station,
        ) ==> !#[trigger] holds_station(lines[j], station)
}

/// Whether station `s` is the station that `line` holds: it stands in the
/// kitchen of the line and is of the kind that the step the line is at asks
/// for.
pub open spec fn is_held_fit(
    menu: Seq<MenuItem>,
    stations: Seq<Station>,
    line: OrderLine,
    s: int,
) -> bool {
    &&& 0 <= s < stations.len()
    &&& line.assigned_station == Some(stations[s].id)
    &&& line.kitchen_id == Some(stations[s].kitchen_id)
    &&& crate::kitchen::stations::current_instruction(menu, line) matches Some(instruction)
    &&& instruction.required_station == stations[s].station_type
}

/// Whether the station that `line` holds while it is unfinished, if any, is
/// a station of the table that fits the line.
pub open spec fn holds_fit(menu: Seq<MenuItem>, stations: Seq<Station>, line: OrderLine) -> bool {
    !line.is_complete && line.assigned_station is Some ==> exists|s: int|
        is_held_fit(menu, stations, line, s)
}

/// Whether every station that is held is a station of the table, in the
/// kitchen of the line that holds it and of the kind that the step of the
/// line asks for.
pub open spec fn stations_fit(
    menu: Seq<MenuItem>,
    stations: Seq<Station>,
    lines: Seq<OrderLine>,
) -> bool {
    forall|i: int| 0 <= i < lines.len() ==> holds_fit(menu, stations, #[trigger] lines[i])
}

/// Whether the order `id` is in `orders`.
pub open spec fn has_order(orders: Seq<Order>, id: OrderId) -> bool {
    exists|o: int| 0 <= o < orders.len() && orders[o].order_id == id
}

/// Whether some line in `lines` belongs to the order `id`.
pub open spec fn has_line(lines: Seq<OrderLine>, id: OrderId) -> bool {
    exists|i: int| 0 <= i < lines.len() && lines[i].order_id == id
}

/// Whether every line belongs to an order in the table.
pub open spec fn lines_have_orders(lines: Seq<OrderLine>, orders: Seq<Order>) -> bool {
    forall|i: int| 0 <= i < lines.len() ==> has_order(orders, #[trigger] lines[i].order_id)
}

/// Whether every order has at least one line.
pub open spec fn orders_have_lines(orders: Seq<Order>, lines: Seq<OrderLine>) -> bool {
    forall|o: int| 0 <= o < orders.len() ==> has_line(lines, #[trigger] orders[o].order_id)
}

/// Whether the kitchen `id` is in `kitchens`.
pub open spec fn has_kitchen(kitchens: Seq<Kitchen>, id: Option<KitchenId>) -> bool {
    exists|k: int| 0 <= k < kitchens.len() && Some(kitchens[k].id) == id
}

/// Whether every line is routed to a kitchen in the table.
pub open spec fn lines_have_kitchens(lines: Seq<OrderLine>, kitchens: Seq<Kitchen>) -> bool {
    forall|i: int| 0 <= i < lines.len() ==> has_kitchen(kitchens, #[trigger] lines[i].kitchen_id)
}

/// Whether the kitchen of every line stands on the site of the line's order.
pub open spec fn sites_agree(
    lines: Seq<OrderLine>,
    orders: Seq<Order>,
    kitchens: Seq<Kitchen>,
) -> bool {
    forall|i: int, o: int, k: int|
        0 <= i < lines.len() && 0 <= o < orders.len() && 0 <= k < kitchens.len()
            && #[trigger] lines[i].order_id == #[trigger] orders[o].order_id && Some(
            #[trigger] kitchens[k].id,
        ) == lines[i].kitchen_id ==> kitchens[k].site_id == orders[o].site_id
}

/// Whether two rows are the same line of the same order, whatever step it
/// is at.
pub open spec fn same_identity(a: OrderLine, b: OrderLine) -> bool {
    &&& a.order_id == b.order_id
    &&& a.order_line_id == b.order_line_id
    &&& a.menu_item_id == b.menu_item_id
    &&& a.kitchen_id == b.kitchen_id
    &&& a.submitted_at == b.submitted_at
    &&& a.total_steps == b.total_steps
}

/// Whether `next` holds the same lines as `lines`, row by row.
pub open spec fn rows_keep_identity(lines: Seq<OrderLine>, next: Seq<OrderLine>) -> bool {
    &&& next.len() == lines.len()
    &&& forall|i: int| 0 <= i < lines.len() ==> same_identity(lines[i], #[trigger] next[i])
}

/// Tables stay sound when the lines keep their identity, stay sound one by
/// one, and still hold no station twice.
pub proof fn lemma_identity_keeps_tables_sound(
    sites: Seq<Site>,
    kitchens: Seq<Kitchen>,
    stations: Seq<Station>,
    menu: Seq<MenuItem>,
    orders: Seq<Order>,
    lines: Seq<OrderLine>,
    next: Seq<OrderLine>,
)
    requires
        tables_sound(sites, kitchens, stations, menu, orders, lines),
        rows_keep_identity(lines, next),
        lines_sound(next),
        stations_exclusive(next),
        stations_fit(menu, stations, next),
    ensures
        tables_sound(sites, kitchens, stations, menu, orders, next),
{
    assert forall|i: int| 0 <= i < next.len() implies #[trigger] recipe_matches(menu, next[i]) by {
        assert(recipe_matches(menu, lines[i]));
        let m = choose|m: int|
            is_menu_index(menu, lines[i].menu_item_id, m) && menu[m].instructions@.len()
                == lines[i].total_steps;
        assert(same_identity(lines[i], next[i]));
        assert(is_menu_index(menu, next[i].menu_item_id, m) && menu[m].instructions@.len()
            == next[i].total_steps);
    }
    assert forall|i: int| 0 <= i < next.len() implies has_order(
        orders,
        #[trigger] next[i].order_id,
    ) by {
        assert(same_identity(lines[i], next[i]));
        assert(has_order(orders, lines[i].order_id));
    }
    assert forall|o: int| 0 <= o < orders.len() implies has_line(
        next,
        #[trigger] orders[o].order_id,
    ) by {
        assert(has_line(lines, orders[o].order_id));
        let i = choose|i: int| 0 <= i < lines.len() && lines[i].order_id == orders[o].order_id;
        assert(same_identity(lines[i], next[i]));
    }
    assert forall|i: int| 0 <= i < next.len() implies has_kitchen(
        kitchens,
        #[trigger] next[i].kitchen_id,
    ) by {
        assert(same_identity(lines[i], next[i]));
        assert(has_kitchen(kitchens, lines[i].kitchen_id));
    }
    assert forall|i: int, o: int, k: int|
        0 <= i < next.len() && 0 <= o < orders.len() && 0 <= k < kitchens.len()
            && #[trigger] next[i].order_id == #[trigger] orders[o].order_id && Some(
            #[trigger] kitchens[k].id,
        ) == next[i].kitchen_id implies kitchens[k].site_id == orders[o].site_id by {
        assert(same_identity(lines[i], next[i]));
        assert(lines[i].order_id == orders[o].order_id);
    }
    assert forall|i: int, j: int| 0 <= i < j < next.len() implies next[i].order_line_id
        != next[j].order_line_id by {
        assert(same_identity(lines[i], next[i]));
        assert(same_identity(lines[j], next[j]));
        assert(lines[i].order_line_id != lines[j].order_line_id);
    }
}

/// The number of unfinished lines among the first `n` of `lines` that are
/// routed to `kitchen`.
pub open spec fn outstanding_upto(lines: Seq<OrderLine>, kitchen: KitchenId, n: int) -> nat
    decreases n,
{
    if n <= 0 {
        0
    } else {
        outstanding_upto(lines, kitchen, n - 1) + if !lines[n - 1].is_complete && lines[n
            - 1].kitchen_id == Some(kitchen) {
            1nat
        } else {
            0nat
        }
    }
}

/// The number of unfinished lines that are routed to `kitchen`.
pub open spec fn outstanding(lines: Seq<OrderLine>, kitchen: KitchenId) -> nat {
    outstanding_upto(lines, kitchen, lines.len() as int)
}

/// The number of unfinished lines routed to `kitchen` never exceeds `n`.
pub proof fn lemma_outstanding_bounded(lines: Seq<OrderLine>, kitchen: KitchenId, n: int)
    requires
        0 <= n,
    ensures
        outstanding_upto(lines, kitchen, n) <= n,
    decreases n,
{
    if n > 0 {
        lemma_outstanding_bounded(lines, kitchen, n - 1);
    }
}

/// The number of unfinished lines that are routed to `kitchen`.
pub fn count_outstanding(lines: &Vec<OrderLine>, kitchen: &KitchenId) -> (count: usize)
    ensures
        count == outstanding(lines@, *kitchen),
{
    let mut count: usize = 0;
    let mut i: usize = 0;
    while i < lines.len()
        invariant
            i <= lines.len(),
            count == outstanding_upto(lines@, *kitchen, i as int),
            count <= i,
        decreases lines.len() - i,
    {
        let line = &lines[i];
        let routed_here = match line.kitchen_id {
            Some(k) => k.0 == kitchen.0,
            None => false,
        };
        if !line.is_complete && routed_here {
            count += 1;
        }
        i += 1;
    }
    count
}

/// The kitchens of all sites, with the orders they work on.
#[derive(Debug)]
pub struct KitchenHandler {
    /// The sites.
    pub sites: Vec<Site>,
    /// The kitchens installed across sites.
    pub kitchens: Vec<Kitchen>,
    /// The stations installed in kitchens.
    pub stations: Vec<Station>,
    /// The menu items that can be ordered, with their recipes.
    pub menu_items: Vec<MenuItem>,
    /// The orders tracked across sites.
    pub orders: Vec<Order>,
    /// The lines of those orders.
    pub order_lines: Vec<OrderLine>,
}

/// What holds of the tables of the kitchens at every moment, also while an
/// order is being taken in.
pub open spec fn core_sound(
    sites: Seq<Site>,
    kitchens: Seq<Kitchen>,
    stations: Seq<Station>,
    menu: Seq<MenuItem>,
    orders: Seq<Order>,
    lines: Seq<OrderLine>,
) -> bool {
    &&& sites_distinct(sites)
    &&& kitchens_distinct(kitchens)
    &&& stations_distinct(stations)
    &&& menu_sound(menu)
    &&& orders_distinct(orders)
    &&& lines_distinct(lines)
    &&& lines_sound(lines)
    &&& recipes_match(menu, lines)
    &&& stations_exclusive(lines)
    &&& stations_fit(menu, stations, lines)
    &&& lines_have_orders(lines, orders)
    &&& lines_have_kitchens(lines, kitchens)
    &&& sites_agree(lines, orders, kitchens)
}

/// What holds of the tables of the kitchens between any two calls.
pub open spec fn tables_sound(
    sites: Seq<Site>,
    kitchens: Seq<Kitchen>,
    stations: Seq<Station>,
    menu: Seq<MenuItem>,
    orders: Seq<Order>,
    lines: Seq<OrderLine>,
) -> bool {
    &&& core_sound(sites, kitchens, stations, menu, orders, lines)
    &&& orders_have_lines(orders, lines)
}

impl KitchenHandler {
    /// What holds of the tables between any two calls: identifiers are
    /// unique, every unfinished line is at a step of its recipe, no station
    /// is held by two unfinished lines, a station that is held stands in
    /// the kitchen of its line and is of the kind that the step of the line
    /// asks for, every line has its order and every order a line, and a
    /// line is cooked on the site of its order.
    pub open spec fn wf(&self) -> bool {
        tables_sound(
            self.sites@,
            self.kitchens@,
            self.stations@,
            self.menu_items@,
            self.orders@,
            self.order_lines@,
        )
    }

    /// Whether `other` has the same sites, kitchens, stations and menu.
    pub open spec fn same_catalog(&self, other: &KitchenHandler) -> bool {
        &&& self.sites == other.sites
        &&& self.kitchens == other.kitchens
        &&& self.stations == other.stations
        &&& self.menu_items == other.menu_items
    }
}

} // verus!
