//! Taking the tables of the kitchens out, and putting them back in.

use vstd::prelude::*;
use crate::error::Error;
use crate::idents::{KitchenId, OrderId, StationId};
use crate::kitchen::{
    has_kitchen, has_line, has_order, holds_station, lines_distinct, lines_have_kitchens,
    lines_have_orders, lines_sound, orders_distinct, orders_have_lines, recipe_matches,
    recipes_match, sites_agree, stations_exclusive, tables_sound, KitchenHandler,
};
use crate::kitchen::stations::current_instruction;
use crate::kitchen::{holds_fit, is_held_fit, stations_fit};
use crate::objects::{
    is_menu_index, kitchens_distinct, menu_index, menu_sound, Kitchen, MenuItem, Station,
};
use crate::orders::{time_in_range, Order, OrderLine, MAX_STEP_MS, MAX_TIME_MS};

verus! {

/// The orders and the lines of the kitchens at one moment.
#[derive(Debug)]
pub struct KitchenSnapshot {
    pub orders: Vec<Order>,
    pub order_lines: Vec<OrderLine>,
}

/// Whether `line` is sound by itself.
fn check_line(line: &OrderLine) -> (ok: bool)
    ensures
        ok == line.spec_sound(),
{
    let steps_ok = line.total_steps >= 1 && line.total_steps < u64::MAX && (line.is_complete || (1
        <= line.current_step && line.current_step <= line.total_steps)) && (line.is_complete == (
    line.current_step > line.total_steps));
    let pairing_ok = line.assigned_station.is_some() == line.step_completion_time.is_some() && (
    !line.is_complete || line.assigned_station.is_none());
    let time_ok = time_in_range(line.submitted_at) && match line.step_completion_time {
        Some(t) => 0 <= t && t <= MAX_TIME_MS + MAX_STEP_MS,
        None => true,
    };
    steps_ok && pairing_ok && time_ok && line.kitchen_id.is_some()
}

/// Whether the kitchen `id` is in `kitchens`, and where.
fn kitchen_index(kitchens: &Vec<Kitchen>, id: &KitchenId) -> (found: Option<usize>)
    ensures
        found matches Some(k) ==> k < kitchens@.len() && kitchens@[k as int].id == *id,
        found is None ==> forall|k: int| 0 <= k < kitchens@.len() ==> kitchens@[k].id != *id,
{
    let mut k: usize = 0;
    while k < kitchens.len()
        invariant
            k <= kitchens.len(),
            forall|j: int| 0 <= j < k ==> kitchens@[j].id != *id,
        decreases kitchens.len() - k,
    {
        if kitchens[k].id.0 == id.0 {
            return Some(k);
        }
        k += 1;
    }
    None
}

/// Whether the order `id` is in `orders`, and where.
fn order_index(orders: &Vec<Order>, id: &OrderId) -> (found: Option<usize>)
    ensures
        found matches Some(o) ==> o < orders@.len() && orders@[o as int].order_id == *id,
        found is None ==> forall|o: int| 0 <= o < orders@.len() ==> orders@[o].order_id != *id,
{
    let mut o: usize = 0;
    while o < orders.len()
        invariant
            o <= orders.len(),
            forall|j: int| 0 <= j < o ==> orders@[j].order_id != *id,
        decreases orders.len() - o,
    {
        if orders[o].order_id.0 == id.0 {
            return Some(o);
        }
        o += 1;
    }
    None
}

/// Whether no two orders share an identifier.
fn check_orders_distinct(orders: &Vec<Order>) -> (ok: bool)
    ensures
        ok == orders_distinct(orders@),
{
    let mut j: usize = 0;
    while j < orders.len()
        invariant
            j <= orders.len(),
            forall|a: int, b: int| 0 <= a < b < j ==> orders@[a].order_id != orders@[b].order_id,
        decreases orders.len() - j,
    {
        let mut i: usize = 0;
        while i < j
            invariant
                j < orders.len(),
                i <= j,
                forall|a: int| 0 <= a < i ==> orders@[a].order_id != orders@[j as int].order_id,
            decreases j - i,
        {
            if orders[i].order_id.0 == orders[j].order_id.0 {
                return false;
            }
            i += 1;
        }
        j += 1;
    }
    true
}

/// Whether no two lines share an identifier and no station is held by two
/// unfinished lines.
fn check_lines_apart(lines: &Vec<OrderLine>) -> (ok: bool)
    ensures
        ok == (lines_distinct(lines@) && stations_exclusive(lines@)),
{
    let mut j: usize = 0;
    while j < lines.len()
        invariant
            j <= lines.len(),
            forall|a: int, b: int|
                0 <= a < b < j ==> lines@[a].order_line_id != lines@[b].order_line_id,
            forall|a: int, b: int, station: StationId|
                0 <= a < j && 0 <= b < j && a != b && #[trigger] holds_station(lines@[a], station)
                    ==> !#[trigger] holds_station(lines@[b], station),
        decreases lines.len() - j,
    {
        let mut i: usize = 0;
        while i < j
            invariant
                j < lines.len(),
                i <= j,
                forall|a: int|
                    0 <= a < i ==> lines@[a].order_line_id != lines@[j as int].order_line_id,
                forall|a: int, station: StationId|
                    0 <= a < i && #[trigger] holds_station(lines@[a], station) ==> !holds_station(
                        lines@[j as int],
                        station,
                    ),
            decreases j - i,
        {
            let a = lines[i];
            let b = lines[j];
            if a.order_line_id.0 == b.order_line_id.0 {
                return false;
            }
            if !a.is_complete && !b.is_complete {
                match (a.assigned_station, b.assigned_station) {
                    (Some(x), Some(y)) => {
                        if x.0 == y.0 {
                            assert(holds_station(lines@[i as int], x));
                            assert(holds_station(lines@[j as int], x));
                            return false;
                        }
                    },
                    _ => {},
                }
            }
            i += 1;
        }
        proof {
            assert forall|a: int, b: int, station: StationId|
                0 <= a < j + 1 && 0 <= b < j + 1 && a != b && #[trigger] holds_station(
                    lines@[a],
                    station,
                ) implies !#[trigger] holds_station(lines@[b], station) by {
                if a == j && holds_station(lines@[b], station) {
                    assert(holds_station(lines@[b], station));
                }
            }
        }
        j += 1;
    }
    true
}

/// Whether every line is sound by itself, has its recipe on the menu, and
/// has its order and its kitchen in the tables, with the kitchen on the site
/// of the order.
fn check_lines_linked(
    kitchens: &Vec<Kitchen>,
    menu: &Vec<MenuItem>,
    orders: &Vec<Order>,
    lines: &Vec<OrderLine>,
) -> (ok: bool)
    requires
        kitchens_distinct(kitchens@),
        menu_sound(menu@),
        orders_distinct(orders@),
    ensures
        ok == (lines_sound(lines@) && recipes_match(menu@, lines@) && lines_have_orders(
            lines@,
            orders@,
        ) && lines_have_kitchens(lines@, kitchens@) && sites_agree(lines@, orders@, kitchens@)),
{
    let mut i: usize = 0;
    while i < lines.len()
        invariant
            kitchens_distinct(kitchens@),
            menu_sound(menu@),
            orders_distinct(orders@),
            i <= lines.len(),
            forall|j: int| 0 <= j < i ==> #[trigger] lines@[j].spec_sound(),
            forall|j: int| 0 <= j < i ==> #[trigger] recipe_matches(menu@, lines@[j]),
            forall|j: int| 0 <= j < i ==> has_order(orders@, #[trigger] lines@[j].order_id),
            forall|j: int| 0 <= j < i ==> has_kitchen(kitchens@, #[trigger] lines@[j].kitchen_id),
            forall|j: int, o: int, k: int|
                0 <= j < i && 0 <= o < orders@.len() && 0 <= k < kitchens@.len()
                    && #[trigger] lines@[j].order_id == #[trigger] orders@[o].order_id && Some(
                    #[trigger] kitchens@[k].id,
                ) == lines@[j].kitchen_id ==> kitchens@[k].site_id == orders@[o].site_id,
        decreases lines.len() - i,
    {
        let line = lines[i];
        if !check_line(&line) {
            return false;
        }
        let m = match menu_index(menu, &line.menu_item_id) {
            Some(m) => m,
            None => {
                proof {
                    if recipe_matches(menu@, lines@[i as int]) {
                        let w = choose|w: int|
                            is_menu_index(menu@, line.menu_item_id, w)
                                && menu@[w].instructions@.len() == line.total_steps;
                        assert(is_menu_index(menu@, line.menu_item_id, w));
                    }
                }
                return false;
            },
        };
        if menu[m].instructions.len() as u64 != line.total_steps {
            proof {
                if recipe_matches(menu@, lines@[i as int]) {
                    let w = choose|w: int|
                        is_menu_index(menu@, line.menu_item_id, w) && menu@[w].instructions@.len()
                            == line.total_steps;
                    if w < m {
                        assert(menu@[w].id != menu@[m as int].id);
                    } else if m < w {
                        assert(menu@[m as int].id != menu@[w].id);
                    }
                }
            }
            return false;
        }
        assert(is_menu_index(menu@, line.menu_item_id, m as int));
        let o = match order_index(orders, &line.order_id) {
            Some(o) => o,
            None => {
                assert(!has_order(orders@, lines@[i as int].order_id));
                return false;
            },
        };
        let kitchen_id = match line.kitchen_id {
            Some(id) => id,
            None => {
                return false;
            },
        };
        let k = match kitchen_index(kitchens, &kitchen_id) {
            Some(k) => k,
            None => {
                assert(!has_kitchen(kitchens@, lines@[i as int].kitchen_id));
                return false;
            },
        };
        if kitchens[k].site_id.0 != orders[o].site_id.0 {
            return false;
        }
        proof {
            assert forall|j: int, oo: int, kk: int|
                0 <= j < i + 1 && 0 <= oo < orders@.len() && 0 <= kk < kitchens@.len()
                    && #[trigger] lines@[j].order_id == #[trigger] orders@[oo].order_id && Some(
                    #[trigger] kitchens@[kk].id,
                ) == lines@[j].kitchen_id implies kitchens@[kk].site_id
                == orders@[oo].site_id by {
                if j == i {
                    if oo < o {
                        assert(orders@[oo].order_id != orders@[o as int].order_id);
                    } else if o < oo {
                        assert(orders@[o as int].order_id != orders@[oo].order_id);
                    }
                    if kk < k {
                        assert(kitchens@[kk].id != kitchens@[k as int].id);
                    } else if k < kk {
                        assert(kitchens@[k as int].id != kitchens@[kk].id);
                    }
                }
            }
        }
        i += 1;
    }
    true
}

/// Whether every order has at least one line.
fn check_orders_have_lines(orders: &Vec<Order>, lines: &Vec<OrderLine>) -> (ok: bool)
    ensures
        ok == orders_have_lines(orders@, lines@),
{
    let mut o: usize = 0;
    while o < orders.len()
        invariant
            o <= orders.len(),
            forall|j: int| 0 <= j < o ==> has_line(lines@, #[trigger] orders@[j].order_id),
        decreases orders.len() - o,
    {
        let id = orders[o].order_id;
        let mut found = false;
        let mut i: usize = 0;
        while i < lines.len() && !found
            invariant
                i <= lines.len(),
                found ==> has_line(lines@, id),
                !found ==> forall|j: int| 0 <= j < i ==> lines@[j].order_id != id,
            decreases lines.len() - i, if found { 0int } else { 1int },
        {
            if lines[i].order_id.0 == id.0 {
                found = true;
            }
            i += 1;
        }
        if !found {
            assert(!has_line(lines@, orders@[o as int].order_id));
            return false;
        }
        o += 1;
    }
    true
}

/// Whether the station that `line` holds while it is unfinished, if any, is
/// a station of the table that fits the line.
fn check_line_fits(stations: &Vec<Station>, menu: &Vec<MenuItem>, line: &OrderLine) -> (ok: bool)
    requires
        menu_sound(menu@),
    ensures
        ok == holds_fit(menu@, stations@, *line),
{
    if line.is_complete {
        return true;
    }
    let held = match line.assigned_station {
        Some(held) => held,
        None => {
            return true;
        },
    };
    let asked = match menu_index(menu, &line.menu_item_id) {
        Some(m) => {
            if 1 <= line.current_step && line.current_step <= menu[m].instructions.len() as u64 {
                let step: usize = (line.current_step - 1) as usize;
                Some(menu[m].instructions[step].required_station)
            } else {
                None
            }
        },
        None => None,
    };
    assert(match current_instruction(menu@, *line) {
        Some(instruction) => asked == Some(instruction.required_station),
        None => asked is None,
    });
    let wanted = match asked {
        Some(wanted) => wanted,
        None => {
            assert(forall|s: int| !is_held_fit(menu@, stations@, *line, s));
            return false;
        },
    };
    let mut s: usize = 0;
    while s < stations.len()
        invariant
            s <= stations.len(),
            !line.is_complete,
            line.assigned_station == Some(held),
            current_instruction(menu@, *line) matches Some(instruction)
                && instruction.required_station == wanted,
            forall|j: int| 0 <= j < s ==> !is_held_fit(menu@, stations@, *line, j),
        decreases stations.len() - s,
    {
        let station = &stations[s];
        let here = station.id.0 == held.0;
        let kind = station.station_type == wanted;
        let kitchen = match line.kitchen_id {
            Some(k) => k.0 == station.kitchen_id.0,
            None => false,
        };
        if here && kind && kitchen {
            assert(is_held_fit(menu@, stations@, *line, s as int));
            return true;
        }
        s += 1;
    }
    assert(forall|j: int| !is_held_fit(menu@, stations@, *line, j));
    false
}

/// Whether every station that is held fits the line that holds it.
fn check_stations_fit(stations: &Vec<Station>, menu: &Vec<MenuItem>, lines: &Vec<OrderLine>) -> (ok:
    bool)
    requires
        menu_sound(menu@),
    ensures
        ok == stations_fit(menu@, stations@, lines@),
{
    let mut i: usize = 0;
    while i < lines.len()
        invariant
            menu_sound(menu@),
            i <= lines.len(),
            forall|j: int| 0 <= j < i ==> holds_fit(menu@, stations@, #[trigger] lines@[j]),
        decreases lines.len() - i,
    {
        if !check_line_fits(stations, menu, &lines[i]) {
            return false;
        }
        i += 1;
    }
    true
}

impl KitchenHandler {
    /// The orders and the lines as they are now.
    pub fn snapshot(&self) -> (taken: KitchenSnapshot)
        ensures
            taken.orders@ == self.orders@,
            taken.order_lines@ == self.order_lines@,
    {
        let mut orders: Vec<Order> = Vec::new();
        let mut o: usize = 0;
        while o < self.orders.len()
            invariant
                o <= self.orders.len(),
                orders@ == self.orders@.take(o as int),
            decreases self.orders.len() - o,
        {
            orders.push(self.orders[o]);
            assert(self.orders@.take(o + 1) =~= self.orders@.take(o as int).push(
                self.orders@[o as int],
            ));
            o += 1;
        }
        assert(self.orders@.take(self.orders@.len() as int) =~= self.orders@);
        let mut order_lines: Vec<OrderLine> = Vec::new();
        let mut i: usize = 0;
        while i < self.order_lines.len()
            invariant
                i <= self.order_lines.len(),
                order_lines@ == self.order_lines@.take(i as int),
            decreases self.order_lines.len() - i,
        {
            order_lines.push(self.order_lines[i]);
            assert(self.order_lines@.take(i + 1) =~= self.order_lines@.take(i as int).push(
                self.order_lines@[i as int],
            ));
            i += 1;
        }
        assert(self.order_lines@.take(self.order_lines@.len() as int) =~= self.order_lines@);
        KitchenSnapshot { orders, order_lines }
    }

    /// Puts the orders and lines of `snapshot` into this handler, in place
    /// of those it holds.
    ///
    /// The snapshot is taken if and only if the tables are sound with it;
    /// else nothing changes. A snapshot taken from a handler is always
    /// taken back by a handler with the same sites, kitchens, stations and
    /// menu.
    pub fn restore(&mut self, snapshot: KitchenSnapshot) -> (result: Result<(), Error>)
        requires
            old(self).wf(),
        ensures
            final(self).wf(),
            final(self).same_catalog(old(self)),
            result is Ok <==> tables_sound(
                old(self).sites@,
                old(self).kitchens@,
                old(self).stations@,
                old(self).menu_items@,
                snapshot.orders@,
                snapshot.order_lines@,
            ),
            result is Ok ==> final(self).orders == snapshot.orders && final(self).order_lines
                == snapshot.order_lines,
            result matches Err(e) ==> e is InvalidData && *final(self) == *old(self),
    {
        if !check_orders_distinct(&snapshot.orders) {
            return Err(Error::invalid_data("orders share an identifier"));
        }
        if !check_lines_apart(&snapshot.order_lines) {
            return Err(Error::invalid_data("lines share an identifier or a station"));
        }
        if !check_lines_linked(
            &self.kitchens,
            &self.menu_items,
            &snapshot.orders,
            &snapshot.order_lines,
        ) {
            return Err(Error::invalid_data("line without recipe, order or kitchen"));
        }
        if !check_orders_have_lines(&snapshot.orders, &snapshot.order_lines) {
            return Err(Error::invalid_data("order without lines"));
        }
        if !check_stations_fit(&self.stations, &self.menu_items, &snapshot.order_lines) {
            return Err(Error::invalid_data("line at a station that does not fit it"));
        }
        let KitchenSnapshot { orders, order_lines } = snapshot;
        self.orders = orders;
        self.order_lines = order_lines;
        Ok(())
    }
}

/// What a handler gives out as its snapshot it takes back: the tables of a
/// sound handler are sound.
pub proof fn law_snapshot_is_taken_back(handler: &KitchenHandler, snapshot: KitchenSnapshot)
    requires
        handler.wf(),
        snapshot.orders@ == handler.orders@,
        snapshot.order_lines@ == handler.order_lines@,
    ensures
        tables_sound(
            handler.sites@,
            handler.kitchens@,
            handler.stations@,
            handler.menu_items@,
            snapshot.orders@,
            snapshot.order_lines@,
        ),
{
}

} // verus!
