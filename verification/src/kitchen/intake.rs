//! Taking in new orders: each order goes to the site on its tile, and each
//! of its lines to the least loaded kitchen of that site that cooks for the
//! brand of the line.

use vstd::prelude::*;
use crate::error::Error;
use crate::events::{Event, OrderItem};
use crate::geo::{Point, TileCode};
use crate::idents::{BrandId, KitchenId, MenuItemId, OrderId, OrderLineId, PersonId, SiteId};
use crate::kitchen::{
    core_sound, has_kitchen, has_line, has_order, holds_station, outstanding, count_outstanding,
    recipe_matches, tables_sound, KitchenHandler,
};
use crate::objects::{
    is_menu_index, kitchens_distinct, menu_index, menu_sound, site_for_tile, spec_menu_index,
    spec_site_for_tile, Kitchen, MenuItem, Site, Station,
};
use crate::orders::{spec_time_in_range, time_in_range, Order, OrderLine, OrderStatus};

verus! {

/// An order as a customer places it.
#[derive(Debug)]
pub struct IncomingOrder {
    /// The customer.
    pub person_id: PersonId,
    /// When the order is placed, in milliseconds since the epoch.
    pub submitted_at: i64,
    /// Where the order is to be delivered.
    pub destination: Point,
    /// The tile of `destination` at the resolution at which orders are
    /// routed to sites.
    pub destination_tile: TileCode,
    /// The tile of `destination` at the resolution at which street nodes
    /// are looked up.
    pub route_tile: TileCode,
    /// What is ordered.
    pub items: Vec<OrderItem>,
}

/// Whether kitchen `k` stands on `site` and cooks for `brand`.
pub open spec fn eligible(kitchens: Seq<Kitchen>, k: int, site: SiteId, brand: BrandId) -> bool {
    &&& 0 <= k < kitchens.len()
    &&& kitchens[k].site_id == site
    &&& kitchens[k].spec_accepts(brand)
}

/// Whether kitchen `a` is to be preferred to kitchen `b`, or is `b`: it has
/// fewer unfinished lines, or as many and the smaller identifier.
pub open spec fn no_worse(kitchens: Seq<Kitchen>, lines: Seq<OrderLine>, a: int, b: int) -> bool {
    outstanding(lines, kitchens[a].id) < outstanding(lines, kitchens[b].id) || (outstanding(
        lines,
        kitchens[a].id,
    ) == outstanding(lines, kitchens[b].id) && kitchens[a].id.0 <= kitchens[b].id.0)
}

/// Whether kitchen `k` is the one a line of `brand` ordered at `site` goes to.
pub open spec fn is_chosen(
    kitchens: Seq<Kitchen>,
    lines: Seq<OrderLine>,
    site: SiteId,
    brand: BrandId,
    k: int,
) -> bool {
    &&& eligible(kitchens, k, site, brand)
    &&& forall|j: int| eligible(kitchens, j, site, brand) ==> no_worse(kitchens, lines, k, j)
}

/// The kitchen a line of `brand` ordered at `site` goes to, if any kitchen of
/// the site cooks for the brand.
pub open spec fn spec_choose_kitchen(
    kitchens: Seq<Kitchen>,
    lines: Seq<OrderLine>,
    site: SiteId,
    brand: BrandId,
) -> Option<int> {
    if exists|k: int| is_chosen(kitchens, lines, site, brand, k) {
        Some(choose|k: int| is_chosen(kitchens, lines, site, brand, k))
    } else {
        None
    }
}

/// The kitchen a line of `brand` ordered at `site` goes to: among the
/// kitchens of the site that cook for the brand, the one with the fewest
/// unfinished lines, and of several such the one with the smallest
/// identifier. `None` if no kitchen of the site cooks for the brand.
pub fn choose_kitchen(
    kitchens: &Vec<Kitchen>,
    lines: &Vec<OrderLine>,
    site: &SiteId,
    brand: &BrandId,
) -> (chosen: Option<usize>)
    requires
        kitchens_distinct(kitchens@),
    ensures
        chosen matches Some(k) ==> is_chosen(kitchens@, lines@, *site, *brand, k as int)
            && spec_choose_kitchen(kitchens@, lines@, *site, *brand) == Some(k as int),
        chosen is None ==> spec_choose_kitchen(kitchens@, lines@, *site, *brand) is None
            && forall|j: int| !eligible(kitchens@, j, *site, *brand),
{
    let mut best: Option<(usize, usize)> = None;
    let mut k: usize = 0;
    while k < kitchens.len()
        invariant
            kitchens_distinct(kitchens@),
            k <= kitchens.len(),
            best is None ==> forall|j: int| 0 <= j < k ==> !eligible(kitchens@, j, *site, *brand),
            best matches Some((b, load)) ==> b < k && load == outstanding(lines@, kitchens@[b as int].id)
                && eligible(kitchens@, b as int, *site, *brand) && forall|j: int|
                0 <= j < k && eligible(kitchens@, j, *site, *brand) ==> no_worse(
                    kitchens@,
                    lines@,
                    b as int,
                    j,
                ),
        decreases kitchens.len() - k,
    {
        let kitchen = &kitchens[k];
        if kitchen.site_id.0 == site.0 && kitchen.accepts(brand) {
            let load = count_outstanding(lines, &kitchen.id);
            match best {
                None => {
                    best = Some((k, load));
                },
                Some((b, best_load)) => {
                    if load < best_load || (load == best_load && kitchen.id.0 < kitchens[b].id.0) {
                        best = Some((k, load));
                    }
                },
            }
        }
        k += 1;
    }
    match best {
        Some((b, _)) => {
            proof {
                assert(is_chosen(kitchens@, lines@, *site, *brand, b as int));
                let c = choose|c: int| is_chosen(kitchens@, lines@, *site, *brand, c);
                assert(no_worse(kitchens@, lines@, c, b as int));
                assert(no_worse(kitchens@, lines@, b as int, c));
                assert(kitchens@[c].id == kitchens@[b as int].id);
                assert(c == b) by {
                    if c < b {
                        assert(kitchens@[c].id != kitchens@[b as int].id);
                    } else if b < c {
                        assert(kitchens@[b as int].id != kitchens@[c].id);
                    }
                }
            }
            Some(b)
        },
        None => None,
    }
}

/// Whether some line in `lines` has the identifier `id`.
pub open spec fn line_id_taken(lines: Seq<OrderLine>, id: OrderLineId) -> bool {
    exists|i: int| 0 <= i < lines.len() && lines[i].order_line_id == id
}

/// A line as it enters the table: at its first step, with no station.
pub open spec fn fresh_line(
    order_id: OrderId,
    order_line_id: OrderLineId,
    menu_item_id: MenuItemId,
    kitchen_id: KitchenId,
    submitted_at: i64,
    total_steps: u64,
) -> OrderLine {
    OrderLine {
        order_id,
        order_line_id,
        menu_item_id,
        kitchen_id: Some(kitchen_id),
        submitted_at,
        current_step: 1,
        total_steps,
        assigned_station: None,
        step_completion_time: None,
        is_complete: false,
    }
}

/// The lines after one item of an order was routed: the item's line is added
/// if a kitchen of the site cooks for its brand, and dropped otherwise.
/// `None` if the line is added and its identifier is in use already.
pub open spec fn route_item(
    kitchens: Seq<Kitchen>,
    menu: Seq<MenuItem>,
    lines: Seq<OrderLine>,
    site: SiteId,
    order_id: OrderId,
    submitted_at: i64,
    item: OrderItem,
    line_id: OrderLineId,
) -> Option<Seq<OrderLine>> {
    match spec_menu_index(menu, item.menu_item_id) {
        Some(m) => match spec_choose_kitchen(kitchens, lines, site, menu[m].brand_id) {
            Some(k) => if line_id_taken(lines, line_id) {
                None
            } else {
                Some(
                    lines.push(
                        fresh_line(
                            order_id,
                            line_id,
                            item.menu_item_id,
                            kitchens[k].id,
                            submitted_at,
                            menu[m].instructions@.len() as u64,
                        ),
                    ),
                )
            },
            None => Some(lines),
        },
        None => Some(lines),
    }
}

/// The lines after the items of an order from the `k`-th on were routed, one
/// after the other, each seeing the lines that the items before it added.
pub open spec fn route_items(
    kitchens: Seq<Kitchen>,
    menu: Seq<MenuItem>,
    lines: Seq<OrderLine>,
    site: SiteId,
    order_id: OrderId,
    submitted_at: i64,
    items: Seq<OrderItem>,
    line_ids: Seq<OrderLineId>,
    k: int,
) -> Option<Seq<OrderLine>>
    decreases items.len() - k,
{
    if k < 0 || k >= items.len() {
        Some(lines)
    } else {
        match route_item(
            kitchens,
            menu,
            lines,
            site,
            order_id,
            submitted_at,
            items[k],
            line_ids[k],
        ) {
            Some(next) => route_items(
                kitchens,
                menu,
                next,
                site,
                order_id,
                submitted_at,
                items,
                line_ids,
                k + 1,
            ),
            None => None,
        }
    }
}

/// The order row of an incoming order that goes to `site`.
pub open spec fn submitted_order(
    incoming: IncomingOrder,
    order_id: OrderId,
    site: SiteId,
) -> Order {
    Order {
        order_id,
        person_id: incoming.person_id,
        site_id: site,
        submitted_at: incoming.submitted_at,
        destination: incoming.destination,
        destination_tile: incoming.route_tile,
        status: OrderStatus::Submitted,
    }
}

/// The orders and lines after one incoming order was taken in.
///
/// The order goes to the first site on the tile of its destination; with no
/// such site it is dropped. Its items are routed one by one; if none finds a
/// kitchen the order is dropped, and else it enters the orders table as
/// submitted. `None` if an identifier that is needed is in use already.
pub open spec fn admit_order(
    sites: Seq<Site>,
    kitchens: Seq<Kitchen>,
    menu: Seq<MenuItem>,
    orders: Seq<Order>,
    lines: Seq<OrderLine>,
    incoming: IncomingOrder,
    order_id: OrderId,
    line_ids: Seq<OrderLineId>,
) -> Option<(Seq<Order>, Seq<OrderLine>)> {
    match spec_site_for_tile(sites, incoming.destination_tile) {
        None => Some((orders, lines)),
        Some(s) => if has_order(orders, order_id) {
            None
        } else {
            match route_items(
                kitchens,
                menu,
                lines,
                sites[s].id,
                order_id,
                incoming.submitted_at,
                incoming.items@,
                line_ids,
                0,
            ) {
                None => None,
                Some(routed) => if routed.len() > lines.len() {
                    Some((orders.push(submitted_order(incoming, order_id, sites[s].id)), routed))
                } else {
                    Some((orders, lines))
                },
            }
        },
    }
}

/// Whether an incoming order can be taken in at all: every item is on the
/// menu and the instant of the order is one the tables can hold.
pub open spec fn order_valid(menu: Seq<MenuItem>, incoming: IncomingOrder) -> bool {
    &&& spec_time_in_range(incoming.submitted_at)
    &&& forall|k: int|
        0 <= k < incoming.items@.len() ==> spec_menu_index(
            menu,
            #[trigger] incoming.items@[k].menu_item_id,
        ) is Some
}

/// Whether `line` is the last of `lines` and the rest is `before`.
proof fn lemma_push_line_keeps_core(
    sites: Seq<Site>,
    kitchens: Seq<Kitchen>,
    stations: Seq<Station>,
    menu: Seq<MenuItem>,
    orders: Seq<Order>,
    lines: Seq<OrderLine>,
    line: OrderLine,
)
    requires
        core_sound(sites, kitchens, stations, menu, orders, lines),
        line.spec_sound(),
        line.assigned_station is None,
        recipe_matches(menu, line),
        !line_id_taken(lines, line.order_line_id),
        has_order(orders, line.order_id),
        has_kitchen(kitchens, line.kitchen_id),
        forall|o: int, k: int|
            0 <= o < orders.len() && 0 <= k < kitchens.len() && #[trigger] orders[o].order_id
                == line.order_id && Some(#[trigger] kitchens[k].id) == line.kitchen_id
                ==> kitchens[k].site_id == orders[o].site_id,
    ensures
        core_sound(sites, kitchens, stations, menu, orders, lines.push(line)),
{
    let next = lines.push(line);
    assert forall|i: int, j: int| 0 <= i < j < next.len() implies next[i].order_line_id
        != next[j].order_line_id by {
        if j < lines.len() {
            assert(lines[i].order_line_id != lines[j].order_line_id);
        }
    }
    assert forall|i: int| 0 <= i < next.len() implies #[trigger] next[i].spec_sound() by {
        if i < lines.len() {
            assert(lines[i].spec_sound());
        }
    }
    assert forall|i: int| 0 <= i < next.len() implies #[trigger] recipe_matches(menu, next[i]) by {
        if i < lines.len() {
            assert(recipe_matches(menu, lines[i]));
        }
    }
    assert forall|i: int, j: int, station: crate::idents::StationId|
        0 <= i < next.len() && 0 <= j < next.len() && i != j && #[trigger] holds_station(
            next[i],
            station,
        ) implies !#[trigger] holds_station(next[j], station) by {
        if i < lines.len() && j < lines.len() {
            assert(holds_station(lines[i], station));
            if holds_station(next[j], station) {
                assert(holds_station(lines[j], station));
            }
        }
    }
    assert forall|i: int| 0 <= i < next.len() implies has_order(
        orders,
        #[trigger] next[i].order_id,
    ) by {
        if i < lines.len() {
            assert(has_order(orders, lines[i].order_id));
        }
    }
    assert forall|i: int| 0 <= i < next.len() implies has_kitchen(
        kitchens,
        #[trigger] next[i].kitchen_id,
    ) by {
        if i < lines.len() {
            assert(has_kitchen(kitchens, lines[i].kitchen_id));
        }
    }
    assert forall|i: int, o: int, k: int|
        0 <= i < next.len() && 0 <= o < orders.len() && 0 <= k < kitchens.len()
            && #[trigger] next[i].order_id == #[trigger] orders[o].order_id && Some(
            #[trigger] kitchens[k].id,
        ) == next[i].kitchen_id implies kitchens[k].site_id == orders[o].site_id by {
        if i < lines.len() {
            assert(lines[i].order_id == orders[o].order_id);
        }
    }
}

/// A new order with a fresh identifier can join the orders before its lines
/// do.
proof fn lemma_push_order_keeps_core(
    sites: Seq<Site>,
    kitchens: Seq<Kitchen>,
    stations: Seq<Station>,
    menu: Seq<MenuItem>,
    orders: Seq<Order>,
    lines: Seq<OrderLine>,
    order: Order,
)
    requires
        tables_sound(sites, kitchens, stations, menu, orders, lines),
        !has_order(orders, order.order_id),
    ensures
        core_sound(sites, kitchens, stations, menu, orders.push(order), lines),
{
    let next = orders.push(order);
    assert forall|i: int, j: int| 0 <= i < j < next.len() implies next[i].order_id
        != next[j].order_id by {
        if j < orders.len() {
            assert(orders[i].order_id != orders[j].order_id);
        }
    }
    assert forall|i: int| 0 <= i < lines.len() implies has_order(
        next,
        #[trigger] lines[i].order_id,
    ) by {
        assert(has_order(orders, lines[i].order_id));
        let o = choose|o: int| 0 <= o < orders.len() && orders[o].order_id == lines[i].order_id;
        assert(next[o].order_id == lines[i].order_id);
    }
    assert forall|i: int, o: int, k: int|
        0 <= i < lines.len() && 0 <= o < next.len() && 0 <= k < kitchens.len()
            && #[trigger] lines[i].order_id == #[trigger] next[o].order_id && Some(
            #[trigger] kitchens[k].id,
        ) == lines[i].kitchen_id implies kitchens[k].site_id == next[o].site_id by {
        if o < orders.len() {
            assert(lines[i].order_id == orders[o].order_id);
        } else {
            assert(has_order(orders, lines[i].order_id));
        }
    }
}

/// Whether some line in `lines` has the identifier `id`.
pub fn line_id_in_use(lines: &Vec<OrderLine>, id: &OrderLineId) -> (taken: bool)
    ensures
        taken == line_id_taken(lines@, *id),
{
    let mut i: usize = 0;
    while i < lines.len()
        invariant
            i <= lines.len(),
            forall|j: int| 0 <= j < i ==> lines@[j].order_line_id != *id,
        decreases lines.len() - i,
    {
        if lines[i].order_line_id.0 == id.0 {
            return true;
        }
        i += 1;
    }
    false
}

/// Whether some order in `orders` has the identifier `id`.
pub fn order_id_in_use(orders: &Vec<Order>, id: &OrderId) -> (taken: bool)
    ensures
        taken == has_order(orders@, *id),
{
    let mut i: usize = 0;
    while i < orders.len()
        invariant
            i <= orders.len(),
            forall|j: int| 0 <= j < i ==> orders@[j].order_id != *id,
        decreases orders.len() - i,
    {
        if orders[i].order_id.0 == id.0 {
            return true;
        }
        i += 1;
    }
    false
}

/// Takes one incoming order into the working tables `orders` and `lines`.
///
/// Returns whether the order was admitted, or `None` if an identifier that
/// was needed is in use already; the working tables are then to be thrown
/// away.
fn admit_one(
    sites: &Vec<Site>,
    kitchens: &Vec<Kitchen>,
    stations: &Vec<Station>,
    menu: &Vec<MenuItem>,
    orders: &mut Vec<Order>,
    lines: &mut Vec<OrderLine>,
    incoming: &IncomingOrder,
    order_id: OrderId,
    line_ids: &Vec<OrderLineId>,
) -> (admitted: Option<bool>)
    requires
        tables_sound(sites@, kitchens@, stations@, menu@, old(orders)@, old(lines)@),
        order_valid(menu@, *incoming),
        line_ids@.len() == incoming.items@.len(),
    ensures
        admit_order(
            sites@,
            kitchens@,
            menu@,
            old(orders)@,
            old(lines)@,
            *incoming,
            order_id,
            line_ids@,
        ) matches Some((next_orders, next_lines)) ==> admitted == Some(
            next_orders.len() > old(orders)@.len(),
        ) && final(orders)@ == next_orders && final(lines)@ == next_lines && tables_sound(
            sites@,
            kitchens@,
            stations@,
            menu@,
            final(orders)@,
            final(lines)@,
        ),
        admit_order(
            sites@,
            kitchens@,
            menu@,
            old(orders)@,
            old(lines)@,
            *incoming,
            order_id,
            line_ids@,
        ) is None ==> admitted is None,
{
    let s = match site_for_tile(sites, incoming.destination_tile) {
        Some(s) => s,
        None => {
            return Some(false);
        },
    };
    let site = sites[s].id;
    if order_id_in_use(orders, &order_id) {
        return None;
    }
    let order = Order {
        order_id,
        person_id: incoming.person_id,
        site_id: site,
        submitted_at: incoming.submitted_at,
        destination: incoming.destination,
        destination_tile: incoming.route_tile,
        status: OrderStatus::Submitted,
    };
    let ghost start_orders = orders@;
    let ghost start_lines = lines@;
    let ghost pending = start_orders.push(order);
    proof {
        lemma_push_order_keeps_core(
            sites@,
            kitchens@,
            stations@,
            menu@,
            start_orders,
            start_lines,
            order,
        );
    }
    let start_len = lines.len();
    let mut k: usize = 0;
    while k < incoming.items.len()
        invariant
            k <= incoming.items.len(),
            line_ids@.len() == incoming.items@.len(),
            order_valid(menu@, *incoming),
            orders@ == start_orders,
            pending == start_orders.push(order),
            order.order_id == order_id,
            order.site_id == site,
            order.submitted_at == incoming.submitted_at,
            !has_order(start_orders, order_id),
            s < sites@.len(),
            site == sites@[s as int].id,
            spec_site_for_tile(sites@, incoming.destination_tile) == Some(s as int),
            start_orders == old(orders)@,
            start_lines == old(lines)@,
            core_sound(sites@, kitchens@, stations@, menu@, pending, lines@),
            lines@.len() >= start_lines.len(),
            start_len == start_lines.len(),
            forall|i: int| 0 <= i < start_lines.len() ==> lines@[i] == start_lines[i],
            forall|i: int| start_lines.len() <= i < lines@.len() ==> lines@[i].order_id == order_id,
            route_items(
                kitchens@,
                menu@,
                start_lines,
                site,
                order_id,
                incoming.submitted_at,
                incoming.items@,
                line_ids@,
                0,
            ) == route_items(
                kitchens@,
                menu@,
                lines@,
                site,
                order_id,
                incoming.submitted_at,
                incoming.items@,
                line_ids@,
                k as int,
            ),
        decreases incoming.items.len() - k,
    {
        let item = incoming.items[k];
        let line_id = line_ids[k];
        assert(spec_menu_index(menu@, incoming.items@[k as int].menu_item_id) is Some);
        match menu_index(menu, &item.menu_item_id) {
            Some(m) => {
                match choose_kitchen(kitchens, lines, &site, &menu[m].brand_id) {
                    Some(c) => {
                        if line_id_in_use(lines, &line_id) {
                            proof {
                                assert(route_item(
                                    kitchens@,
                                    menu@,
                                    lines@,
                                    site,
                                    order_id,
                                    incoming.submitted_at,
                                    incoming.items@[k as int],
                                    line_ids@[k as int],
                                ) is None);
                                assert(route_items(
                                    kitchens@,
                                    menu@,
                                    lines@,
                                    site,
                                    order_id,
                                    incoming.submitted_at,
                                    incoming.items@,
                                    line_ids@,
                                    k as int,
                                ) is None);
                            }
                            return None;
                        }
                        let line = OrderLine {
                            order_id,
                            order_line_id: line_id,
                            menu_item_id: item.menu_item_id,
                            kitchen_id: Some(kitchens[c].id),
                            submitted_at: incoming.submitted_at,
                            current_step: 1,
                            total_steps: menu[m].instructions.len() as u64,
                            assigned_station: None,
                            step_completion_time: None,
                            is_complete: false,
                        };
                        proof {
                            assert(menu@[m as int].instructions@.len() >= 1);
                            assert(is_menu_index(menu@, line.menu_item_id, m as int));
                            assert(recipe_matches(menu@, line));
                            assert(pending[start_orders.len() as int].order_id == order_id);
                            assert(has_order(pending, line.order_id));
                            assert(Some(kitchens@[c as int].id) == line.kitchen_id);
                            assert(has_kitchen(kitchens@, line.kitchen_id));
                            assert forall|o: int, kk: int|
                                0 <= o < pending.len() && 0 <= kk < kitchens@.len()
                                    && #[trigger] pending[o].order_id == line.order_id && Some(
                                    #[trigger] kitchens@[kk].id,
                                ) == line.kitchen_id implies kitchens@[kk].site_id
                                == pending[o].site_id by {
                                if o < start_orders.len() {
                                    assert(start_orders[o].order_id == order_id);
                                }
                                if kk < c {
                                    assert(kitchens@[kk].id != kitchens@[c as int].id);
                                } else if c < kk {
                                    assert(kitchens@[c as int].id != kitchens@[kk].id);
                                }
                            }
                            lemma_push_line_keeps_core(
                                sites@,
                                kitchens@,
                                stations@,
                                menu@,
                                pending,
                                lines@,
                                line,
                            );
                        }
                        lines.push(line);
                    },
                    None => {},
                }
            },
            None => {},
        }
        k += 1;
    }
    if lines.len() > start_len {
        proof {
            let last = lines@.len() - 1;
            assert(lines@[last].order_id == order_id);
            assert forall|o: int| 0 <= o < pending.len() implies has_line(
                lines@,
                #[trigger] pending[o].order_id,
            ) by {
                if o < start_orders.len() {
                    assert(has_line(start_lines, start_orders[o].order_id));
                    let i = choose|i: int|
                        0 <= i < start_lines.len() && start_lines[i].order_id
                            == start_orders[o].order_id;
                    assert(lines@[i].order_id == pending[o].order_id);
                } else {
                    assert(lines@[last].order_id == pending[o].order_id);
                }
            }
        }
        orders.push(order);
        Some(true)
    } else {
        assert(lines@ =~= start_lines);
        Some(false)
    }
}

/// The orders, the lines and the places of the admitted orders after the
/// incoming orders from the `n`-th on were taken in, one after the other.
/// `None` if an identifier that is needed is in use already.
pub open spec fn admit_from(
    sites: Seq<Site>,
    kitchens: Seq<Kitchen>,
    menu: Seq<MenuItem>,
    orders: Seq<Order>,
    lines: Seq<OrderLine>,
    incoming: Seq<IncomingOrder>,
    order_ids: Seq<OrderId>,
    line_ids: Seq<Vec<OrderLineId>>,
    n: int,
    admitted: Seq<int>,
) -> Option<(Seq<Order>, Seq<OrderLine>, Seq<int>)>
    decreases incoming.len() - n,
{
    if n < 0 || n >= incoming.len() {
        Some((orders, lines, admitted))
    } else {
        match admit_order(
            sites,
            kitchens,
            menu,
            orders,
            lines,
            incoming[n],
            order_ids[n],
            line_ids[n]@,
        ) {
            None => None,
            Some((next_orders, next_lines)) => admit_from(
                sites,
                kitchens,
                menu,
                next_orders,
                next_lines,
                incoming,
                order_ids,
                line_ids,
                n + 1,
                if next_orders.len() > orders.len() {
                    admitted.push(n)
                } else {
                    admitted
                },
            ),
        }
    }
}

/// Whether every incoming order can be taken in.
pub open spec fn batch_valid(menu: Seq<MenuItem>, incoming: Seq<IncomingOrder>) -> bool {
    forall|n: int| 0 <= n < incoming.len() ==> #[trigger] order_valid(menu, incoming[n])
}

/// Whether `event` tells of `incoming` having been admitted under `order_id`.
pub open spec fn is_created_event(
    event: Event,
    incoming: IncomingOrder,
    order_id: OrderId,
) -> bool {
    &&& event matches Event::OrderCreated {
        person_id,
        order_id: told_id,
        submitted_at,
        destination,
        items,
    }
    &&& person_id == incoming.person_id
    &&& told_id == order_id
    &&& submitted_at == incoming.submitted_at
    &&& destination == incoming.destination
    &&& items@ == incoming.items@
}

/// Whether the `e`-th event tells of the `e`-th admitted order.
pub open spec fn event_matches(
    events: Seq<Event>,
    incoming: Seq<IncomingOrder>,
    order_ids: Seq<OrderId>,
    admitted: Seq<int>,
    e: int,
) -> bool {
    &&& 0 <= admitted[e] < incoming.len()
    &&& is_created_event(events[e], incoming[admitted[e]], order_ids[admitted[e]])
}

/// Whether `events` tell of the admitted orders, one event each and in the
/// order in which they were admitted.
pub open spec fn events_match(
    events: Seq<Event>,
    incoming: Seq<IncomingOrder>,
    order_ids: Seq<OrderId>,
    admitted: Seq<int>,
) -> bool {
    &&& events.len() == admitted.len()
    &&& forall|e: int|
        0 <= e < events.len() ==> #[trigger] event_matches(
            events,
            incoming,
            order_ids,
            admitted,
            e,
        )
}

/// Whether an incoming order can be taken in at all.
fn check_order(menu: &Vec<MenuItem>, incoming: &IncomingOrder) -> (valid: bool)
    requires
        menu_sound(menu@),
    ensures
        valid == order_valid(menu@, *incoming),
{
    if !time_in_range(incoming.submitted_at) {
        return false;
    }
    let mut k: usize = 0;
    while k < incoming.items.len()
        invariant
            menu_sound(menu@),
            k <= incoming.items.len(),
            forall|j: int|
                0 <= j < k ==> spec_menu_index(
                    menu@,
                    #[trigger] incoming.items@[j].menu_item_id,
                ) is Some,
        decreases incoming.items.len() - k,
    {
        if menu_index(menu, &incoming.items[k].menu_item_id).is_none() {
            return false;
        }
        k += 1;
    }
    true
}

/// Whether every incoming order can be taken in.
fn check_batch(menu: &Vec<MenuItem>, incoming: &Vec<IncomingOrder>) -> (valid: bool)
    requires
        menu_sound(menu@),
    ensures
        valid == batch_valid(menu@, incoming@),
{
    let mut n: usize = 0;
    while n < incoming.len()
        invariant
            menu_sound(menu@),
            n <= incoming.len(),
            forall|j: int| 0 <= j < n ==> #[trigger] order_valid(menu@, incoming@[j]),
        decreases incoming.len() - n,
    {
        if !check_order(menu, &incoming[n]) {
            return false;
        }
        n += 1;
    }
    true
}

/// A copy of `orders`.
fn copy_orders(orders: &Vec<Order>) -> (copy: Vec<Order>)
    ensures
        copy@ == orders@,
{
    let mut copy: Vec<Order> = Vec::new();
    let mut i: usize = 0;
    while i < orders.len()
        invariant
            i <= orders.len(),
            copy@ == orders@.take(i as int),
        decreases orders.len() - i,
    {
        copy.push(orders[i]);
        assert(orders@.take(i + 1) =~= orders@.take(i as int).push(orders@[i as int]));
        i += 1;
    }
    assert(orders@.take(orders@.len() as int) =~= orders@);
    copy
}

/// A copy of `lines`.
fn copy_lines(lines: &Vec<OrderLine>) -> (copy: Vec<OrderLine>)
    ensures
        copy@ == lines@,
{
    let mut copy: Vec<OrderLine> = Vec::new();
    let mut i: usize = 0;
    while i < lines.len()
        invariant
            i <= lines.len(),
            copy@ == lines@.take(i as int),
        decreases lines.len() - i,
    {
        copy.push(lines[i]);
        assert(lines@.take(i + 1) =~= lines@.take(i as int).push(lines@[i as int]));
        i += 1;
    }
    assert(lines@.take(lines@.len() as int) =~= lines@);
    copy
}

/// A copy of `items`.
pub fn copy_items(items: &Vec<OrderItem>) -> (copy: Vec<OrderItem>)
    ensures
        copy@ == items@,
{
    let mut copy: Vec<OrderItem> = Vec::new();
    let mut i: usize = 0;
    while i < items.len()
        invariant
            i <= items.len(),
            copy@ == items@.take(i as int),
        decreases items.len() - i,
    {
        copy.push(items[i]);
        assert(items@.take(i + 1) =~= items@.take(i as int).push(items@[i as int]));
        i += 1;
    }
    assert(items@.take(items@.len() as int) =~= items@);
    copy
}

impl KitchenHandler {
    /// Takes in `incoming` under the identifiers given: `order_ids[n]` for
    /// the `n`-th order and `line_ids[n][k]` for its `k`-th item.
    ///
    /// If an item of any order is not on the menu, or an order was placed at
    /// an instant the tables cannot hold, nothing is taken in and the data is
    /// refused. If an identifier that is needed is in use already, nothing
    /// is taken in either. Else the orders are taken in one after the other
    /// as [`admit_order`] says, and each admitted order is told of by an
    /// event.
    pub fn admit_orders(
        &mut self,
        incoming: &Vec<IncomingOrder>,
        order_ids: &Vec<OrderId>,
        line_ids: &Vec<Vec<OrderLineId>>,
    ) -> (result: Result<Vec<Event>, Error>)
        requires
            old(self).wf(),
            order_ids@.len() == incoming@.len(),
            line_ids@.len() == incoming@.len(),
            forall|n: int|
                0 <= n < incoming@.len() ==> (#[trigger] line_ids@[n])@.len()
                    == incoming@[n].items@.len(),
        ensures
            final(self).wf(),
            final(self).same_catalog(old(self)),
            !batch_valid(old(self).menu_items@, incoming@) ==> (result matches Err(e) && e
                is InvalidData) && *final(self) == *old(self),
            batch_valid(old(self).menu_items@, incoming@) ==> match admit_from(
                old(self).sites@,
                old(self).kitchens@,
                old(self).menu_items@,
                old(self).orders@,
                old(self).order_lines@,
                incoming@,
                order_ids@,
                line_ids@,
                0,
                Seq::empty(),
            ) {
                None => (result matches Err(e) && e is InternalError) && *final(self) == *old(self),
                Some((orders, lines, admitted)) => (result matches Ok(events) && events_match(
                    events@,
                    incoming@,
                    order_ids@,
                    admitted,
                )) && final(self).orders@ == orders && final(self).order_lines@ == lines,
            },
    {
        if !check_batch(&self.menu_items, incoming) {
            return Err(Error::invalid_data("order cannot be taken in"));
        }
        let mut orders = copy_orders(&self.orders);
        let mut lines = copy_lines(&self.order_lines);
        let mut events: Vec<Event> = Vec::new();
        let ghost mut admitted: Seq<int> = Seq::empty();
        let mut n: usize = 0;
        while n < incoming.len()
            invariant
                *self == *old(self),
                self.wf(),
                n <= incoming.len(),
                batch_valid(self.menu_items@, incoming@),
                order_ids@.len() == incoming@.len(),
                line_ids@.len() == incoming@.len(),
                forall|j: int|
                    0 <= j < incoming@.len() ==> (#[trigger] line_ids@[j])@.len()
                        == incoming@[j].items@.len(),
                tables_sound(
                    self.sites@,
                    self.kitchens@,
                    self.stations@,
                    self.menu_items@,
                    orders@,
                    lines@,
                ),
                events_match(events@, incoming@, order_ids@, admitted),
                admit_from(
                    self.sites@,
                    self.kitchens@,
                    self.menu_items@,
                    self.orders@,
                    self.order_lines@,
                    incoming@,
                    order_ids@,
                    line_ids@,
                    0,
                    Seq::empty(),
                ) == admit_from(
                    self.sites@,
                    self.kitchens@,
                    self.menu_items@,
                    orders@,
                    lines@,
                    incoming@,
                    order_ids@,
                    line_ids@,
                    n as int,
                    admitted,
                ),
            decreases incoming.len() - n,
        {
            let order = &incoming[n];
            assert(order_valid(self.menu_items@, incoming@[n as int]));
            assert(line_ids@[n as int]@.len() == incoming@[n as int].items@.len());
            let ghost before = orders@;
            match admit_one(
                &self.sites,
                &self.kitchens,
                &self.stations,
                &self.menu_items,
                &mut orders,
                &mut lines,
                order,
                order_ids[n],
                &line_ids[n],
            ) {
                None => {
                    return Err(Error::internal("identifier in use"));
                },
                Some(true) => {
                    let ghost told = events@;
                    let ghost listed = admitted;
                    events.push(
                        Event::OrderCreated {
                            person_id: order.person_id,
                            order_id: order_ids[n],
                            submitted_at: order.submitted_at,
                            destination: order.destination,
                            items: copy_items(&order.items),
                        },
                    );
                    proof {
                        admitted = admitted.push(n as int);
                        assert(*order == incoming@[n as int]);
                        assert forall|e: int| 0 <= e < events@.len() implies #[trigger] event_matches(
                            events@,
                            incoming@,
                            order_ids@,
                            admitted,
                            e,
                        ) by {
                            if e < told.len() {
                                assert(event_matches(told, incoming@, order_ids@, listed, e));
                                assert(events@[e] == told[e]);
                                assert(admitted[e] == listed[e]);
                            }
                        }
                    }
                },
                Some(false) => {},
            }
            n += 1;
        }
        self.orders = orders;
        self.order_lines = lines;
        Ok(events)
    }
}

} // verus!
