//! Matching ready orders with idle couriers.
//!
//! The ready orders that are picked up on the same tile form a queue,
//! earliest order first. The idle couriers on that tile take the orders
//! along the queue, in the order of the population table, until either runs
//! out.

use vstd::prelude::*;
use crate::events::Event;
use crate::geo::{Point, TileCode};
use crate::idents::{OrderId, PersonId, SiteId};
use crate::kitchen::status::ReadyOrder;
use crate::population::{people_distinct, Person, PersonRole, PersonStatusFlag};

verus! {

/// A ready order and the courier who takes it.
#[derive(Debug, Clone, Copy, PartialEq, Eq, Structural)]
pub struct Pickup {
    pub site_id: SiteId,
    pub order_id: OrderId,
    pub courier_id: PersonId,
    pub submitted_at: i64,
    /// Where the order is picked up.
    pub origin: Point,
    /// The tile of `origin` at the resolution at which street nodes are
    /// looked up.
    pub origin_tile: TileCode,
    /// Where the order is to be delivered.
    pub destination: Point,
    /// The tile of `destination` at that resolution.
    pub destination_tile: TileCode,
}

/// Whether `person` is a courier with nothing to do.
pub open spec fn is_idle_courier(person: Person) -> bool {
    person.role == PersonRole::Courier && person.status == PersonStatusFlag::Idle
}

/// Whether `a` is picked up before `b`: the earlier order first, and of two
/// orders of the same instant the one with the smaller identifier.
pub open spec fn picked_before(a: ReadyOrder, b: ReadyOrder) -> bool {
    a.submitted_at < b.submitted_at || (a.submitted_at == b.submitted_at && a.order_id.0
        < b.order_id.0)
}

/// Whether order `j` stands before order `r` in the queue of its tile.
pub open spec fn is_ahead(orders: Seq<ReadyOrder>, j: int, r: int) -> bool {
    orders[j].origin_tile == orders[r].origin_tile && picked_before(orders[j], orders[r])
}

/// How many of the first `n` orders stand before order `r` in the queue of
/// its tile.
pub open spec fn orders_ahead(orders: Seq<ReadyOrder>, r: int, n: int) -> nat
    decreases n,
{
    if n <= 0 {
        0
    } else {
        orders_ahead(orders, r, n - 1) + if is_ahead(orders, n - 1, r) {
            1nat
        } else {
            0nat
        }
    }
}

/// The place of order `r` in the queue of its tile, counted from one.
pub open spec fn queue_position(orders: Seq<ReadyOrder>, r: int) -> nat {
    orders_ahead(orders, r, orders.len() as int) + 1
}

/// Whether person `c` is an idle courier on `tile`.
pub open spec fn waits_on(people: Seq<Person>, tile: TileCode, c: int) -> bool {
    is_idle_courier(people[c]) && people[c].tile == tile
}

/// The courier who comes after `n` others among the idle couriers on `tile`,
/// looking from person `from` on.
pub open spec fn nth_idle_courier(people: Seq<Person>, tile: TileCode, n: nat, from: int) -> Option<
    int,
>
    decreases people.len() - from,
{
    if from < 0 || from >= people.len() {
        None
    } else if waits_on(people, tile, from) {
        if n == 0 {
            Some(from)
        } else {
            nth_idle_courier(people, tile, (n - 1) as nat, from + 1)
        }
    } else {
        nth_idle_courier(people, tile, n, from + 1)
    }
}

/// The courier who takes order `r`, if any: the idle courier on the tile of
/// the order whose place among them is the place of the order in its queue.
pub open spec fn courier_for(orders: Seq<ReadyOrder>, people: Seq<Person>, r: int) -> Option<int> {
    nth_idle_courier(
        people,
        orders[r].origin_tile,
        (queue_position(orders, r) - 1) as nat,
        0,
    )
}

/// The pickup of order `r`, if a courier takes it.
pub open spec fn pickup_of(orders: Seq<ReadyOrder>, people: Seq<Person>, r: int) -> Option<Pickup> {
    match courier_for(orders, people, r) {
        Some(c) => Some(
            Pickup {
                site_id: orders[r].site_id,
                order_id: orders[r].order_id,
                courier_id: people[c].id,
                submitted_at: orders[r].submitted_at,
                origin: orders[r].origin,
                origin_tile: orders[r].origin_tile,
                destination: orders[r].destination,
                destination_tile: orders[r].destination_tile,
            },
        ),
        None => None,
    }
}

/// The pickups of the first `n` orders, in the order of the orders.
pub open spec fn pickups_upto(orders: Seq<ReadyOrder>, people: Seq<Person>, n: int) -> Seq<Pickup>
    decreases n,
{
    if n <= 0 {
        Seq::empty()
    } else {
        match pickup_of(orders, people, n - 1) {
            Some(pickup) => pickups_upto(orders, people, n - 1).push(pickup),
            None => pickups_upto(orders, people, n - 1),
        }
    }
}

/// The events that tell of the first `n` pickups at the instant `now`.
pub open spec fn pickup_events(pickups: Seq<Pickup>, now: i64, n: int) -> Seq<Event>
    decreases n,
{
    if n <= 0 {
        Seq::empty()
    } else {
        pickup_events(pickups, now, n - 1).push(
            Event::OrderPickedUp {
                site_id: pickups[n - 1].site_id,
                courier_id: pickups[n - 1].courier_id,
                order_id: pickups[n - 1].order_id,
                timestamp: now,
            },
        )
    }
}

/// How many orders stand before order `r` in the queue of its tile.
fn count_ahead(orders: &Vec<ReadyOrder>, r: usize) -> (ahead: usize)
    requires
        r < orders@.len(),
    ensures
        ahead == orders_ahead(orders@, r as int, orders@.len() as int),
{
    let me = orders[r];
    let mut ahead: usize = 0;
    let mut j: usize = 0;
    while j < orders.len()
        invariant
            j <= orders.len(),
            r < orders@.len(),
            me == orders@[r as int],
            ahead == orders_ahead(orders@, r as int, j as int),
            ahead <= j,
        decreases orders.len() - j,
    {
        let other = orders[j];
        if other.origin_tile == me.origin_tile && (other.submitted_at < me.submitted_at || (
        other.submitted_at == me.submitted_at && other.order_id.0 < me.order_id.0)) {
            ahead += 1;
        }
        j += 1;
    }
    ahead
}

/// The courier who comes after `skip` others among the idle couriers on
/// `tile`.
fn find_courier(people: &Vec<Person>, tile: TileCode, skip: usize) -> (found: Option<usize>)
    ensures
        found matches Some(c) ==> nth_idle_courier(people@, tile, skip as nat, 0) == Some(c as int)
            && c < people@.len(),
        found is None ==> nth_idle_courier(people@, tile, skip as nat, 0) is None,
{
    let mut remaining: usize = skip;
    let mut c: usize = 0;
    while c < people.len()
        invariant
            c <= people.len(),
            nth_idle_courier(people@, tile, skip as nat, 0) == nth_idle_courier(
                people@,
                tile,
                remaining as nat,
                c as int,
            ),
        decreases people.len() - c,
    {
        let person = &people[c];
        let courier = match person.role {
            PersonRole::Courier => true,
            _ => false,
        };
        let idle = match person.status {
            PersonStatusFlag::Idle => true,
            _ => false,
        };
        if courier && idle && person.tile == tile {
            if remaining == 0 {
                return Some(c);
            }
            remaining -= 1;
        }
        c += 1;
    }
    None
}

/// Matches the ready orders with the idle couriers.
///
/// On each tile the orders are served earliest first and take the idle
/// couriers on that tile in the order of the population table; the orders
/// left over stay as they are. The pickups come in the order of `orders`.
pub fn assign_couriers(orders: &Vec<ReadyOrder>, people: &Vec<Person>) -> (pickups: Vec<Pickup>)
    ensures
        pickups@ == pickups_upto(orders@, people@, orders@.len() as int),
{
    let mut pickups: Vec<Pickup> = Vec::new();
    let mut r: usize = 0;
    while r < orders.len()
        invariant
            r <= orders.len(),
            pickups@ == pickups_upto(orders@, people@, r as int),
        decreases orders.len() - r,
    {
        let order = orders[r];
        let ahead = count_ahead(orders, r);
        match find_courier(people, order.origin_tile, ahead) {
            Some(c) => {
                pickups.push(
                    Pickup {
                        site_id: order.site_id,
                        order_id: order.order_id,
                        courier_id: people[c].id,
                        submitted_at: order.submitted_at,
                        origin: order.origin,
                        origin_tile: order.origin_tile,
                        destination: order.destination,
                        destination_tile: order.destination_tile,
                    },
                );
            },
            None => {},
        }
        r += 1;
    }
    pickups
}

/// The events that tell of `pickups` at the instant `now`.
pub fn picked_up_events(pickups: &Vec<Pickup>, now: i64) -> (events: Vec<Event>)
    ensures
        events@ == pickup_events(pickups@, now, pickups@.len() as int),
{
    let mut events: Vec<Event> = Vec::new();
    let mut i: usize = 0;
    while i < pickups.len()
        invariant
            i <= pickups.len(),
            events@ == pickup_events(pickups@, now, i as int),
        decreases pickups.len() - i,
    {
        let pickup = pickups[i];
        events.push(
            Event::OrderPickedUp {
                site_id: pickup.site_id,
                courier_id: pickup.courier_id,
                order_id: pickup.order_id,
                timestamp: now,
            },
        );
        i += 1;
    }
    events
}

/// A courier found for a tile is an idle courier on that tile.
pub proof fn lemma_nth_courier_waits(people: Seq<Person>, tile: TileCode, n: nat, from: int)
    requires
        0 <= from,
    ensures
        nth_idle_courier(people, tile, n, from) matches Some(c) ==> from <= c < people.len()
            && waits_on(people, tile, c),
    decreases people.len() - from,
{
    if from < people.len() {
        if waits_on(people, tile, from) {
            if n > 0 {
                lemma_nth_courier_waits(people, tile, (n - 1) as nat, from + 1);
            }
        } else {
            lemma_nth_courier_waits(people, tile, n, from + 1);
        }
    }
}

/// Two places in the row of idle couriers never yield the same courier.
pub proof fn lemma_nth_courier_injective(
    people: Seq<Person>,
    tile: TileCode,
    n1: nat,
    n2: nat,
    from: int,
)
    requires
        0 <= from,
        nth_idle_courier(people, tile, n1, from) is Some,
        nth_idle_courier(people, tile, n1, from) == nth_idle_courier(people, tile, n2, from),
    ensures
        n1 == n2,
    decreases people.len() - from,
{
    if from < people.len() {
        if waits_on(people, tile, from) {
            if n1 == 0 {
                if n2 > 0 {
                    lemma_nth_courier_waits(people, tile, (n2 - 1) as nat, from + 1);
                }
            } else if n2 == 0 {
                lemma_nth_courier_waits(people, tile, (n1 - 1) as nat, from + 1);
            } else {
                lemma_nth_courier_injective(
                    people,
                    tile,
                    (n1 - 1) as nat,
                    (n2 - 1) as nat,
                    from + 1,
                );
            }
        } else {
            lemma_nth_courier_injective(people, tile, n1, n2, from + 1);
        }
    }
}

/// Of two orders in one queue, the one that goes first has fewer orders
/// before it.
pub proof fn lemma_orders_ahead_ordered(orders: Seq<ReadyOrder>, a: int, b: int, n: int)
    requires
        0 <= a < orders.len(),
        0 <= b < orders.len(),
        0 <= n <= orders.len(),
        is_ahead(orders, a, b),
    ensures
        orders_ahead(orders, b, n) >= orders_ahead(orders, a, n) + if a < n {
            1nat
        } else {
            0nat
        },
    decreases n,
{
    if n > 0 {
        lemma_orders_ahead_ordered(orders, a, b, n - 1);
        if is_ahead(orders, n - 1, a) {
            assert(is_ahead(orders, n - 1, b));
        }
    }
}

/// No courier takes two orders: two different orders that both find a
/// courier find different ones.
pub proof fn law_one_order_per_courier(orders: Seq<ReadyOrder>, people: Seq<Person>, a: int, b: int)
    requires
        0 <= a < orders.len(),
        0 <= b < orders.len(),
        orders[a].order_id != orders[b].order_id,
        courier_for(orders, people, a) is Some,
    ensures
        courier_for(orders, people, a) != courier_for(orders, people, b),
{
    if courier_for(orders, people, a) == courier_for(orders, people, b) {
        let c = courier_for(orders, people, a)->Some_0;
        let pa = (queue_position(orders, a) - 1) as nat;
        let pb = (queue_position(orders, b) - 1) as nat;
        lemma_nth_courier_waits(people, orders[a].origin_tile, pa, 0);
        lemma_nth_courier_waits(people, orders[b].origin_tile, pb, 0);
        assert(orders[a].origin_tile == people[c].tile);
        assert(orders[b].origin_tile == people[c].tile);
        lemma_nth_courier_injective(people, orders[a].origin_tile, pa, pb, 0);
        assert(orders[a].order_id.0 != orders[b].order_id.0);
        if picked_before(orders[a], orders[b]) {
            lemma_orders_ahead_ordered(orders, a, b, orders.len() as int);
        } else {
            assert(picked_before(orders[b], orders[a]));
            lemma_orders_ahead_ordered(orders, b, a, orders.len() as int);
        }
    }
}

/// Whether `pickup` is the pickup of one of the first `n` orders.
pub open spec fn has_source(
    orders: Seq<ReadyOrder>,
    people: Seq<Person>,
    n: int,
    pickup: Pickup,
) -> bool {
    exists|r: int| 0 <= r < n && #[trigger] pickup_of(orders, people, r) == Some(pickup)
}

/// Whether no two of `orders` have the same identifier.
pub open spec fn ready_distinct(orders: Seq<ReadyOrder>) -> bool {
    forall|a: int, b: int| 0 <= a < b < orders.len() ==> orders[a].order_id != orders[b].order_id
}

/// Where orders and people are told apart by their identifiers, no two
/// pickups have the same courier or the same order, every pickup is that of
/// one of the orders, and its courier is a person of the table.
pub proof fn law_pickups_differ(orders: Seq<ReadyOrder>, people: Seq<Person>, n: int)
    requires
        0 <= n <= orders.len(),
        ready_distinct(orders),
        people_distinct(people),
    ensures
        forall|q: int|
            0 <= q < pickups_upto(orders, people, n).len() ==> has_source(
                orders,
                people,
                n,
                #[trigger] pickups_upto(orders, people, n)[q],
            ),
        forall|a: int, b: int|
            0 <= a < b < pickups_upto(orders, people, n).len() ==> pickups_upto(
                orders,
                people,
                n,
            )[a].courier_id != pickups_upto(orders, people, n)[b].courier_id && pickups_upto(
                orders,
                people,
                n,
            )[a].order_id != pickups_upto(orders, people, n)[b].order_id,
    decreases n,
{
    if n > 0 {
        law_pickups_differ(orders, people, n - 1);
        let earlier = pickups_upto(orders, people, n - 1);
        let all = pickups_upto(orders, people, n);
        assert forall|q: int| 0 <= q < all.len() implies has_source(
            orders,
            people,
            n,
            #[trigger] all[q],
        ) by {
            if q < earlier.len() {
                assert(all[q] == earlier[q]);
                assert(has_source(orders, people, n - 1, earlier[q]));
                let r = choose|r: int|
                    0 <= r < n - 1 && #[trigger] pickup_of(orders, people, r) == Some(earlier[q]);
                assert(pickup_of(orders, people, r) == Some(all[q]));
            } else {
                assert(pickup_of(orders, people, n - 1) == Some(all[q]));
            }
        }
        match pickup_of(orders, people, n - 1) {
            Some(pickup) => {
                let c = courier_for(orders, people, n - 1)->Some_0;
                law_pickup_goes_to_waiting_courier(orders, people, n - 1);
                assert forall|a: int| 0 <= a < earlier.len() implies earlier[a].courier_id
                    != pickup.courier_id && earlier[a].order_id != pickup.order_id by {
                    assert(has_source(orders, people, n - 1, earlier[a]));
                    let r = choose|r: int|
                        0 <= r < n - 1 && #[trigger] pickup_of(orders, people, r) == Some(
                            earlier[a],
                        );
                    let d = courier_for(orders, people, r)->Some_0;
                    law_pickup_goes_to_waiting_courier(orders, people, r);
                    assert(orders[r].order_id != orders[n - 1].order_id);
                    law_one_order_per_courier(orders, people, r, n - 1);
                    assert(d != c);
                    if d < c {
                        assert(people[d].id != people[c].id);
                    } else {
                        assert(people[c].id != people[d].id);
                    }
                }
                assert forall|a: int, b: int| 0 <= a < b < all.len() implies all[a].courier_id
                    != all[b].courier_id && all[a].order_id != all[b].order_id by {
                    assert(all[a] == earlier[a]);
                    if b < earlier.len() {
                        assert(all[b] == earlier[b]);
                    } else {
                        assert(all[b] == pickup);
                    }
                }
            },
            None => {},
        }
    }
}

/// With no idle courier nothing is picked up.
pub proof fn law_no_courier_no_pickup(orders: Seq<ReadyOrder>, people: Seq<Person>, n: int)
    requires
        forall|c: int| 0 <= c < people.len() ==> !is_idle_courier(#[trigger] people[c]),
    ensures
        pickups_upto(orders, people, n) == Seq::<Pickup>::empty(),
    decreases n,
{
    if n > 0 {
        law_no_courier_no_pickup(orders, people, n - 1);
        lemma_nth_courier_waits(
            people,
            orders[n - 1].origin_tile,
            (queue_position(orders, n - 1) - 1) as nat,
            0,
        );
    }
}

/// The courier who takes an order is an idle courier on the tile of the
/// order.
pub proof fn law_pickup_goes_to_waiting_courier(
    orders: Seq<ReadyOrder>,
    people: Seq<Person>,
    r: int,
)
    requires
        0 <= r < orders.len(),
    ensures
        courier_for(orders, people, r) matches Some(c) ==> 0 <= c < people.len() && is_idle_courier(
            people[c],
        ) && people[c].tile == orders[r].origin_tile,
{
    lemma_nth_courier_waits(
        people,
        orders[r].origin_tile,
        (queue_position(orders, r) - 1) as nat,
        0,
    );
}

} // verus!
