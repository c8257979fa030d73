//! Binding waiting lines to free stations.
//!
//! The lines that wait for the same kind of station in the same kitchen form
//! a queue, earliest order first. The free stations of that kind in that
//! kitchen are handed out along the queue, in the order of the stations
//! table, until either runs out.

use vstd::prelude::*;
use crate::events::Event;
use crate::idents::{KitchenId, StationId};
use crate::kitchen::{
    holds_fit, holds_station, is_held_fit, lemma_identity_keeps_tables_sound, lines_distinct,
    rows_keep_identity, same_identity, tables_sound, KitchenHandler,
};
use crate::objects::{
    menu_index, spec_menu_index, Instruction, Kitchen, KitchenStation, MenuItem, Site, Station,
};
use crate::orders::{spec_time_in_range, Order, OrderLine, MAX_STEP_MS};
use crate::chance::draws_below;
use crate::kitchen::status::stats_of;

verus! {

/// One more than the largest draw: a draw `d` stands for the fraction
/// `d / DRAW_SCALE` of the unit interval.
pub const DRAW_SCALE: u32 = 1_000_000;

/// What a waiting line asks for: a station of a kind in a kitchen, for a time.
#[derive(Clone, Copy, Debug, PartialEq, Eq, Structural)]
pub struct Demand {
    pub kitchen_id: KitchenId,
    pub station_type: KitchenStation,
    /// How long the step is expected to take, in seconds.
    pub expected_duration_s: u32,
}

/// Whether `line` waits for a station at the instant `now`: it is unfinished,
/// and either no station works on it or the step it was bound for is over.
pub open spec fn is_waiting(line: OrderLine, now: i64) -> bool {
    &&& !line.is_complete
    &&& (line.step_completion_time matches Some(t) ==> t <= now)
}

/// The step of its recipe that `line` is at, if the recipe is on the menu and
/// has such a step.
pub open spec fn current_instruction(menu: Seq<MenuItem>, line: OrderLine) -> Option<Instruction> {
    match spec_menu_index(menu, line.menu_item_id) {
        Some(m) => if 1 <= line.current_step <= menu[m].instructions@.len() {
            Some(menu[m].instructions@[line.current_step - 1])
        } else {
            None
        },
        None => None,
    }
}

/// What `line` asks for at the instant `now`, if it waits for a station.
pub open spec fn demand_of(menu: Seq<MenuItem>, line: OrderLine, now: i64) -> Option<Demand> {
    if is_waiting(line, now) {
        match (line.kitchen_id, current_instruction(menu, line)) {
            (Some(kitchen_id), Some(instruction)) => Some(
                Demand {
                    kitchen_id,
                    station_type: instruction.required_station,
                    expected_duration_s: instruction.expected_duration_s,
                },
            ),
            _ => None,
        }
    } else {
        None
    }
}

/// Whether two demands are for the same kind of station in the same kitchen.
pub open spec fn same_queue(a: Demand, b: Demand) -> bool {
    a.kitchen_id == b.kitchen_id && a.station_type == b.station_type
}

/// Whether `a` is served before `b`: the earlier order first, and of two
/// lines of the same instant the one with the smaller identifier.
pub open spec fn goes_before(a: OrderLine, b: OrderLine) -> bool {
    a.submitted_at < b.submitted_at || (a.submitted_at == b.submitted_at && a.order_line_id.0
        < b.order_line_id.0)
}

/// Whether line `j` stands before line `i` in the same queue.
pub open spec fn is_ahead(
    menu: Seq<MenuItem>,
    lines: Seq<OrderLine>,
    now: i64,
    j: int,
    i: int,
) -> bool {
    &&& demand_of(menu, lines[j], now) matches Some(dj)
    &&& demand_of(menu, lines[i], now) matches Some(di)
    &&& same_queue(dj, di)
    &&& goes_before(lines[j], lines[i])
}

/// How many of the first `n` lines stand before line `i` in its queue.
pub open spec fn queue_position(
    menu: Seq<MenuItem>,
    lines: Seq<OrderLine>,
    now: i64,
    i: int,
    n: int,
) -> nat
    decreases n,
{
    if n <= 0 {
        0
    } else {
        queue_position(menu, lines, now, i, n - 1) + if is_ahead(menu, lines, now, n - 1, i) {
            1nat
        } else {
            0nat
        }
    }
}

/// Whether no unfinished line holds `station`.
pub open spec fn station_is_free(lines: Seq<OrderLine>, station: StationId) -> bool {
    forall|j: int| 0 <= j < lines.len() ==> !holds_station(#[trigger] lines[j], station)
}

/// Whether station `s` is free and of the kind and kitchen that `demand` asks
/// for.
pub open spec fn free_fit(
    lines: Seq<OrderLine>,
    stations: Seq<Station>,
    demand: Demand,
    s: int,
) -> bool {
    &&& stations[s].kitchen_id == demand.kitchen_id
    &&& stations[s].station_type == demand.station_type
    &&& station_is_free(lines, stations[s].id)
}

/// The station that comes after `n` others among the free stations fit for
/// `demand`, looking from station `from` on.
pub open spec fn nth_free_station(
    lines: Seq<OrderLine>,
    stations: Seq<Station>,
    demand: Demand,
    n: nat,
    from: int,
) -> Option<int>
    decreases stations.len() - from,
{
    if from < 0 || from >= stations.len() {
        None
    } else if free_fit(lines, stations, demand, from) {
        if n == 0 {
            Some(from)
        } else {
            nth_free_station(lines, stations, demand, (n - 1) as nat, from + 1)
        }
    } else {
        nth_free_station(lines, stations, demand, n, from + 1)
    }
}

/// The station that line `i` is bound to in this pass, if any: the free
/// station whose place among the free stations is the place of the line in
/// its queue.
pub open spec fn station_for(
    menu: Seq<MenuItem>,
    lines: Seq<OrderLine>,
    stations: Seq<Station>,
    now: i64,
    i: int,
) -> Option<int> {
    match demand_of(menu, lines[i], now) {
        Some(demand) => nth_free_station(
            lines,
            stations,
            demand,
            queue_position(menu, lines, now, i, lines.len() as int),
            0,
        ),
        None => None,
    }
}

/// How long a step takes, in seconds: the expected duration times the square
/// of `0.7 + draw / DRAW_SCALE`, rounded to the nearest whole second with
/// halves rounded up.
pub open spec fn step_duration_s(expected_duration_s: u32, draw: u32) -> int {
    (expected_duration_s as int * (700_000 + draw) * (700_000 + draw) + 500_000_000_000)
        / 1_000_000_000_000
}

/// When a step that starts at `now` is done: the later of `now` and the
/// instant the order was placed, plus the duration of the step.
pub open spec fn completion_time(
    now: i64,
    submitted_at: i64,
    expected_duration_s: u32,
    draw: u32,
) -> int {
    (if now >= submitted_at { now as int } else { submitted_at as int }) + step_duration_s(
        expected_duration_s,
        draw,
    ) * 1000
}

/// How long a step takes, in seconds.
pub fn step_duration(expected_duration_s: u32, draw: u32) -> (seconds: u64)
    requires
        draw < DRAW_SCALE,
    ensures
        seconds == step_duration_s(expected_duration_s, draw),
        seconds * 1000 <= MAX_STEP_MS,
{
    let factor: u128 = 700_000 + draw as u128;
    assert(factor * factor <= 1_699_999 * 1_699_999) by (nonlinear_arith)
        requires
            0 <= factor <= 1_699_999,
    ;
    let square: u128 = factor * factor;
    assert(expected_duration_s as u128 * square <= 4_294_967_295 * 2_889_996_600_001)
        by (nonlinear_arith)
        requires
            0 <= expected_duration_s <= 4_294_967_295,
            0 <= square <= 2_889_996_600_001,
    ;
    let scaled: u128 = expected_duration_s as u128 * square;
    assert(scaled == expected_duration_s as int * (700_000 + draw) * (700_000 + draw))
        by (nonlinear_arith)
        requires
            scaled == expected_duration_s as int * square,
            square == factor * factor,
            factor == 700_000 + draw,
    ;
    let seconds: u128 = (scaled + 500_000_000_000) / 1_000_000_000_000;
    seconds as u64
}

/// Line `i` as this pass leaves it: bound to its station, with the instant
/// its step will be done, or as it was.
pub open spec fn bound_line(
    menu: Seq<MenuItem>,
    lines: Seq<OrderLine>,
    stations: Seq<Station>,
    now: i64,
    draws: Seq<u32>,
    i: int,
) -> OrderLine {
    match station_for(menu, lines, stations, now, i) {
        Some(s) => OrderLine {
            assigned_station: Some(stations[s].id),
            step_completion_time: Some(
                completion_time(
                    now,
                    lines[i].submitted_at,
                    demand_of(menu, lines[i], now)->Some_0.expected_duration_s,
                    draws[i],
                ) as i64,
            ),
            ..lines[i]
        },
        None => lines[i],
    }
}

/// The lines as one pass of binding at the instant `now` leaves them, where
/// `draws[i]` decides how long the step of line `i` takes if it is bound.
pub open spec fn bind_pass(
    menu: Seq<MenuItem>,
    lines: Seq<OrderLine>,
    stations: Seq<Station>,
    now: i64,
    draws: Seq<u32>,
) -> Seq<OrderLine> {
    Seq::new(lines.len(), |i: int| bound_line(menu, lines, stations, now, draws, i))
}

/// The event that tells of line `i` being bound in this pass.
pub open spec fn started_event(
    menu: Seq<MenuItem>,
    lines: Seq<OrderLine>,
    stations: Seq<Station>,
    now: i64,
    i: int,
) -> Option<Event> {
    match station_for(menu, lines, stations, now, i) {
        Some(s) => Some(
            Event::OrderLineStepStarted {
                timestamp: now,
                order_line_id: lines[i].order_line_id,
                step_index: lines[i].current_step,
                station_id: stations[s].id,
            },
        ),
        None => None,
    }
}

/// The events of the first `n` lines in this pass, in the order of the lines.
pub open spec fn started_events(
    menu: Seq<MenuItem>,
    lines: Seq<OrderLine>,
    stations: Seq<Station>,
    now: i64,
    n: int,
) -> Seq<Event>
    decreases n,
{
    if n <= 0 {
        Seq::empty()
    } else {
        match started_event(menu, lines, stations, now, n - 1) {
            Some(event) => started_events(menu, lines, stations, now, n - 1).push(event),
            None => started_events(menu, lines, stations, now, n - 1),
        }
    }
}

/// A station found for a demand lies at or after the place the search began,
/// is free, and fits the demand.
pub proof fn lemma_nth_free_is_free_fit(
    lines: Seq<OrderLine>,
    stations: Seq<Station>,
    demand: Demand,
    n: nat,
    from: int,
)
    requires
        0 <= from,
    ensures
        nth_free_station(lines, stations, demand, n, from) matches Some(s) ==> from <= s
            < stations.len() && free_fit(lines, stations, demand, s),
    decreases stations.len() - from,
{
    if from < stations.len() {
        if free_fit(lines, stations, demand, from) {
            if n > 0 {
                lemma_nth_free_is_free_fit(lines, stations, demand, (n - 1) as nat, from + 1);
            }
        } else {
            lemma_nth_free_is_free_fit(lines, stations, demand, n, from + 1);
        }
    }
}

/// Two places in the row of free stations never yield the same station.
pub proof fn lemma_nth_free_injective(
    lines: Seq<OrderLine>,
    stations: Seq<Station>,
    demand: Demand,
    n1: nat,
    n2: nat,
    from: int,
)
    requires
        0 <= from,
        nth_free_station(lines, stations, demand, n1, from) is Some,
        nth_free_station(lines, stations, demand, n1, from) == nth_free_station(
            lines,
            stations,
            demand,
            n2,
            from,
        ),
    ensures
        n1 == n2,
    decreases stations.len() - from,
{
    if from < stations.len() {
        if free_fit(lines, stations, demand, from) {
            if n1 == 0 {
                if n2 > 0 {
                    lemma_nth_free_is_free_fit(lines, stations, demand, (n2 - 1) as nat, from + 1);
                }
            } else if n2 == 0 {
                lemma_nth_free_is_free_fit(lines, stations, demand, (n1 - 1) as nat, from + 1);
            } else {
                lemma_nth_free_injective(
                    lines,
                    stations,
                    demand,
                    (n1 - 1) as nat,
                    (n2 - 1) as nat,
                    from + 1,
                );
            }
        } else {
            lemma_nth_free_injective(lines, stations, demand, n1, n2, from + 1);
        }
    }
}

/// The search for a free station looks at the demand's kitchen and kind of
/// station only.
pub proof fn lemma_nth_free_same_queue(
    lines: Seq<OrderLine>,
    stations: Seq<Station>,
    a: Demand,
    b: Demand,
    n: nat,
    from: int,
)
    requires
        same_queue(a, b),
    ensures
        nth_free_station(lines, stations, a, n, from) == nth_free_station(
            lines,
            stations,
            b,
            n,
            from,
        ),
    decreases stations.len() - from,
{
    if 0 <= from < stations.len() {
        if free_fit(lines, stations, a, from) {
            if n > 0 {
                lemma_nth_free_same_queue(lines, stations, a, b, (n - 1) as nat, from + 1);
            }
        } else {
            lemma_nth_free_same_queue(lines, stations, a, b, n, from + 1);
        }
    }
}

/// Of two lines in one queue, the one that goes first has fewer lines before
/// it.
pub proof fn lemma_positions_ordered(
    menu: Seq<MenuItem>,
    lines: Seq<OrderLine>,
    now: i64,
    i: int,
    j: int,
    n: int,
)
    requires
        0 <= i < lines.len(),
        0 <= j < lines.len(),
        0 <= n <= lines.len(),
        is_ahead(menu, lines, now, i, j),
    ensures
        queue_position(menu, lines, now, j, n) >= queue_position(menu, lines, now, i, n) + if i
            < n {
            1nat
        } else {
            0nat
        },
    decreases n,
{
    if n > 0 {
        lemma_positions_ordered(menu, lines, now, i, j, n - 1);
        let k = n - 1;
        if is_ahead(menu, lines, now, k, i) {
            assert(is_ahead(menu, lines, now, k, j));
        }
        if k == i {
            assert(!is_ahead(menu, lines, now, i, i));
        }
    }
}

/// Two different lines of one queue stand at different places in it.
pub proof fn lemma_positions_differ(
    menu: Seq<MenuItem>,
    lines: Seq<OrderLine>,
    now: i64,
    i: int,
    j: int,
)
    requires
        lines_distinct(lines),
        0 <= i < lines.len(),
        0 <= j < lines.len(),
        i != j,
        demand_of(menu, lines[i], now) matches Some(di),
        demand_of(menu, lines[j], now) matches Some(dj),
        same_queue(demand_of(menu, lines[i], now)->Some_0, demand_of(menu, lines[j], now)->Some_0),
    ensures
        queue_position(menu, lines, now, i, lines.len() as int) != queue_position(
            menu,
            lines,
            now,
            j,
            lines.len() as int,
        ),
{
    if i < j {
        assert(lines[i].order_line_id != lines[j].order_line_id);
    } else {
        assert(lines[j].order_line_id != lines[i].order_line_id);
    }
    assert(lines[i].order_line_id.0 != lines[j].order_line_id.0);
    if goes_before(lines[i], lines[j]) {
        lemma_positions_ordered(menu, lines, now, i, j, lines.len() as int);
    } else {
        assert(goes_before(lines[j], lines[i]));
        lemma_positions_ordered(menu, lines, now, j, i, lines.len() as int);
    }
}

/// How long a step can take at most keeps every completion time in range.
pub proof fn lemma_duration_bounded(expected_duration_s: u32, draw: u32)
    requires
        draw < DRAW_SCALE,
    ensures
        0 <= step_duration_s(expected_duration_s, draw) * 1000 <= MAX_STEP_MS,
{
    let factor: int = 700_000 + draw;
    assert(0 <= factor * factor <= 1_699_999 * 1_699_999) by (nonlinear_arith)
        requires
            0 <= factor <= 1_699_999,
    ;
    let square = factor * factor;
    assert(0 <= expected_duration_s as int * square <= 4_294_967_295 * 2_889_996_600_001)
        by (nonlinear_arith)
        requires
            0 <= expected_duration_s <= 4_294_967_295,
            0 <= square <= 2_889_996_600_001,
    ;
    assert(expected_duration_s as int * (700_000 + draw) * (700_000 + draw)
        == expected_duration_s as int * square) by (nonlinear_arith)
        requires
            square == (700_000 + draw) * (700_000 + draw),
    ;
}

/// One pass of binding keeps the tables sound.
pub proof fn lemma_bind_pass_keeps_tables_sound(
    sites: Seq<Site>,
    kitchens: Seq<Kitchen>,
    stations: Seq<Station>,
    menu: Seq<MenuItem>,
    orders: Seq<Order>,
    lines: Seq<OrderLine>,
    now: i64,
    draws: Seq<u32>,
)
    requires
        tables_sound(sites, kitchens, stations, menu, orders, lines),
        spec_time_in_range(now),
        draws.len() == lines.len(),
        forall|k: int| 0 <= k < draws.len() ==> draws[k] < DRAW_SCALE,
    ensures
        tables_sound(sites, kitchens, stations, menu, orders, bind_pass(menu, lines, stations, now, draws)),
        rows_keep_identity(lines, bind_pass(menu, lines, stations, now, draws)),
{
    let next = bind_pass(menu, lines, stations, now, draws);
    assert forall|i: int| 0 <= i < next.len() implies #[trigger] next[i].spec_sound() by {
        assert(lines[i].spec_sound());
        if station_for(menu, lines, stations, now, i) is Some {
            let demand = demand_of(menu, lines[i], now)->Some_0;
            lemma_duration_bounded(demand.expected_duration_s, draws[i]);
        }
    }
    assert forall|i: int| 0 <= i < lines.len() implies same_identity(lines[i], #[trigger] next[i]) by {}
    assert forall|i: int, j: int, station: StationId|
        0 <= i < next.len() && 0 <= j < next.len() && i != j && #[trigger] holds_station(
            next[i],
            station,
        ) implies !#[trigger] holds_station(next[j], station) by {
        if holds_station(next[j], station) {
            let si = station_for(menu, lines, stations, now, i);
            let sj = station_for(menu, lines, stations, now, j);
            if si is None && sj is None {
                assert(holds_station(lines[i], station));
                assert(holds_station(lines[j], station));
            } else if si is Some && sj is None {
                let di = demand_of(menu, lines[i], now)->Some_0;
                lemma_nth_free_is_free_fit(
                    lines,
                    stations,
                    di,
                    queue_position(menu, lines, now, i, lines.len() as int),
                    0,
                );
                assert(holds_station(lines[j], station));
            } else if si is None && sj is Some {
                let dj = demand_of(menu, lines[j], now)->Some_0;
                lemma_nth_free_is_free_fit(
                    lines,
                    stations,
                    dj,
                    queue_position(menu, lines, now, j, lines.len() as int),
                    0,
                );
                assert(holds_station(lines[i], station));
            } else {
                let di = demand_of(menu, lines[i], now)->Some_0;
                let dj = demand_of(menu, lines[j], now)->Some_0;
                let pi = queue_position(menu, lines, now, i, lines.len() as int);
                let pj = queue_position(menu, lines, now, j, lines.len() as int);
                lemma_nth_free_is_free_fit(lines, stations, di, pi, 0);
                lemma_nth_free_is_free_fit(lines, stations, dj, pj, 0);
                let a = si->Some_0;
                let b = sj->Some_0;
                assert(stations[a].id == stations[b].id);
                assert(a == b);
                assert(same_queue(di, dj));
                lemma_nth_free_same_queue(lines, stations, di, dj, pi, 0);
                lemma_nth_free_injective(lines, stations, dj, pi, pj, 0);
                lemma_positions_differ(menu, lines, now, i, j);
            }
        }
    }
    assert forall|i: int| 0 <= i < next.len() implies holds_fit(
        menu,
        stations,
        #[trigger] next[i],
    ) by {
        match station_for(menu, lines, stations, now, i) {
            Some(s) => {
                let demand = demand_of(menu, lines[i], now)->Some_0;
                lemma_nth_free_is_free_fit(
                    lines,
                    stations,
                    demand,
                    queue_position(menu, lines, now, i, lines.len() as int),
                    0,
                );
                assert(current_instruction(menu, next[i]) == current_instruction(menu, lines[i]));
                assert(is_held_fit(menu, stations, next[i], s));
            },
            None => {
                assert(next[i] == lines[i]);
                assert(holds_fit(menu, stations, lines[i]));
            },
        }
    }
    lemma_identity_keeps_tables_sound(sites, kitchens, stations, menu, orders, lines, next);
}

/// A line has no more lines before it than there are lines.
pub proof fn lemma_position_bounded(
    menu: Seq<MenuItem>,
    lines: Seq<OrderLine>,
    now: i64,
    i: int,
    n: int,
)
    requires
        0 <= n,
    ensures
        queue_position(menu, lines, now, i, n) <= n,
    decreases n,
{
    if n > 0 {
        lemma_position_bounded(menu, lines, now, i, n - 1);
    }
}

impl KitchenHandler {
    /// What line `i` asks for at the instant `now`, if it waits for a station.
    pub fn demand_at(&self, i: usize, now: i64) -> (demand: Option<Demand>)
        requires
            self.wf(),
            i < self.order_lines@.len(),
        ensures
            demand == demand_of(self.menu_items@, self.order_lines@[i as int], now),
    {
        let line = self.order_lines[i];
        let over = match line.step_completion_time {
            Some(t) => t <= now,
            None => true,
        };
        if line.is_complete || !over {
            return None;
        }
        let kitchen_id = match line.kitchen_id {
            Some(k) => k,
            None => {
                return None;
            },
        };
        match menu_index(&self.menu_items, &line.menu_item_id) {
            Some(m) => {
                let item = &self.menu_items[m];
                if 1 <= line.current_step && line.current_step <= item.instructions.len() as u64 {
                    let instruction = item.instructions[(line.current_step - 1) as usize];
                    Some(
                        Demand {
                            kitchen_id,
                            station_type: instruction.required_station,
                            expected_duration_s: instruction.expected_duration_s,
                        },
                    )
                } else {
                    None
                }
            },
            None => None,
        }
    }

    /// What each line asks for at the instant `now`.
    pub fn demands(&self, now: i64) -> (all: Vec<Option<Demand>>)
        requires
            self.wf(),
        ensures
            all@.len() == self.order_lines@.len(),
            forall|i: int|
                0 <= i < all@.len() ==> all@[i] == demand_of(
                    self.menu_items@,
                    self.order_lines@[i],
                    now,
                ),
    {
        let mut all: Vec<Option<Demand>> = Vec::new();
        let mut i: usize = 0;
        while i < self.order_lines.len()
            invariant
                self.wf(),
                i <= self.order_lines.len(),
                all@.len() == i,
                forall|j: int|
                    0 <= j < i ==> all@[j] == demand_of(
                        self.menu_items@,
                        self.order_lines@[j],
                        now,
                    ),
            decreases self.order_lines.len() - i,
        {
            let demand = self.demand_at(i, now);
            all.push(demand);
            i += 1;
        }
        all
    }

    /// Whether no unfinished line holds station `s`.
    pub fn station_free(&self, s: usize) -> (free: bool)
        requires
            s < self.stations@.len(),
        ensures
            free == station_is_free(self.order_lines@, self.stations@[s as int].id),
    {
        let station_id = self.stations[s].id;
        let mut j: usize = 0;
        while j < self.order_lines.len()
            invariant
                j <= self.order_lines.len(),
                s < self.stations@.len(),
                station_id == self.stations@[s as int].id,
                forall|k: int| 0 <= k < j ==> !holds_station(self.order_lines@[k], station_id),
            decreases self.order_lines.len() - j,
        {
            let line = self.order_lines[j];
            let holds = !line.is_complete && match line.assigned_station {
                Some(held) => held.0 == station_id.0,
                None => false,
            };
            if holds {
                assert(holds_station(self.order_lines@[j as int], station_id));
                return false;
            }
            j += 1;
        }
        true
    }

    /// For each station, whether no unfinished line holds it.
    pub fn free_stations(&self) -> (free: Vec<bool>)
        ensures
            free@.len() == self.stations@.len(),
            forall|s: int|
                0 <= s < free@.len() ==> free@[s] == station_is_free(
                    self.order_lines@,
                    self.stations@[s].id,
                ),
    {
        let mut free: Vec<bool> = Vec::new();
        let mut s: usize = 0;
        while s < self.stations.len()
            invariant
                s <= self.stations.len(),
                free@.len() == s,
                forall|k: int|
                    0 <= k < s ==> free@[k] == station_is_free(
                        self.order_lines@,
                        self.stations@[k].id,
                    ),
            decreases self.stations.len() - s,
        {
            let is_free = self.station_free(s);
            free.push(is_free);
            s += 1;
        }
        free
    }

    /// How many lines stand before line `i` in its queue.
    fn position_in_queue(&self, demands: &Vec<Option<Demand>>, i: usize, now: i64) -> (position:
        usize)
        requires
            i < self.order_lines@.len(),
            demands@.len() == self.order_lines@.len(),
            forall|j: int|
                0 <= j < demands@.len() ==> demands@[j] == demand_of(
                    self.menu_items@,
                    self.order_lines@[j],
                    now,
                ),
        ensures
            position == queue_position(
                self.menu_items@,
                self.order_lines@,
                now,
                i as int,
                self.order_lines@.len() as int,
            ),
    {
        let mine = match demands[i] {
            Some(d) => d,
            None => {
                proof {
                    lemma_no_demand_no_position(
                        self.menu_items@,
                        self.order_lines@,
                        now,
                        i as int,
                        self.order_lines@.len() as int,
                    );
                }
                return 0;
            },
        };
        let me = self.order_lines[i];
        let mut position: usize = 0;
        let mut j: usize = 0;
        while j < self.order_lines.len()
            invariant
                j <= self.order_lines.len(),
                i < self.order_lines@.len(),
                demands@.len() == self.order_lines@.len(),
                forall|k: int|
                    0 <= k < demands@.len() ==> demands@[k] == demand_of(
                        self.menu_items@,
                        self.order_lines@[k],
                        now,
                    ),
                demands@[i as int] == Some(mine),
                me == self.order_lines@[i as int],
                position == queue_position(
                    self.menu_items@,
                    self.order_lines@,
                    now,
                    i as int,
                    j as int,
                ),
                position <= j,
            decreases self.order_lines.len() - j,
        {
            let ahead = match demands[j] {
                Some(theirs) => {
                    let other = self.order_lines[j];
                    theirs.kitchen_id.0 == mine.kitchen_id.0 && theirs.station_type
                        == mine.station_type && (other.submitted_at < me.submitted_at || (
                    other.submitted_at == me.submitted_at && other.order_line_id.0
                        < me.order_line_id.0))
                },
                None => false,
            };
            assert(ahead == is_ahead(self.menu_items@, self.order_lines@, now, j as int, i as int));
            if ahead {
                position += 1;
            }
            j += 1;
        }
        position
    }

    /// The station that comes after `position` others among the free stations
    /// fit for `demand`.
    fn find_station(&self, free: &Vec<bool>, demand: Demand, position: usize) -> (found: Option<
        usize,
    >)
        requires
            free@.len() == self.stations@.len(),
            forall|s: int|
                0 <= s < free@.len() ==> free@[s] == station_is_free(
                    self.order_lines@,
                    self.stations@[s].id,
                ),
        ensures
            found matches Some(s) ==> nth_free_station(
                self.order_lines@,
                self.stations@,
                demand,
                position as nat,
                0,
            ) == Some(s as int) && s < self.stations@.len(),
            found is None ==> nth_free_station(
                self.order_lines@,
                self.stations@,
                demand,
                position as nat,
                0,
            ) is None,
    {
        let mut remaining: usize = position;
        let mut s: usize = 0;
        while s < self.stations.len()
            invariant
                s <= self.stations.len(),
                free@.len() == self.stations@.len(),
                forall|k: int|
                    0 <= k < free@.len() ==> free@[k] == station_is_free(
                        self.order_lines@,
                        self.stations@[k].id,
                    ),
                nth_free_station(self.order_lines@, self.stations@, demand, position as nat, 0)
                    == nth_free_station(
                    self.order_lines@,
                    self.stations@,
                    demand,
                    remaining as nat,
                    s as int,
                ),
            decreases self.stations.len() - s,
        {
            let station = self.stations[s];
            let fits = station.kitchen_id.0 == demand.kitchen_id.0 && station.station_type
                == demand.station_type && free[s];
            assert(fits == free_fit(self.order_lines@, self.stations@, demand, s as int));
            if fits {
                if remaining == 0 {
                    return Some(s);
                }
                remaining -= 1;
            }
            s += 1;
        }
        None
    }

    /// One pass of binding waiting lines to free stations at the instant
    /// `now`.
    ///
    /// In each kitchen and for each kind of station, the waiting lines are
    /// served earliest order first and take the free stations in the order of
    /// the stations table; the lines left over wait on. A line that is bound
    /// will be done with its step at the later of `now` and the instant its
    /// order was placed, plus the duration that `draws` gives it. Each bound
    /// line is told of by an event.
    pub fn assign_steps_to_stations(&mut self, now: i64, draws: &Vec<u32>) -> (events: Vec<Event>)
        requires
            old(self).wf(),
            spec_time_in_range(now),
            draws@.len() == old(self).order_lines@.len(),
            forall|k: int| 0 <= k < draws@.len() ==> draws@[k] < DRAW_SCALE,
        ensures
            final(self).wf(),
            final(self).same_catalog(old(self)),
            final(self).orders == old(self).orders,
            final(self).order_lines@ == bind_pass(
                old(self).menu_items@,
                old(self).order_lines@,
                old(self).stations@,
                now,
                draws@,
            ),
            events@ == started_events(
                old(self).menu_items@,
                old(self).order_lines@,
                old(self).stations@,
                now,
                old(self).order_lines@.len() as int,
            ),
    {
        let demands = self.demands(now);
        let free = self.free_stations();
        let mut next: Vec<OrderLine> = Vec::new();
        let mut events: Vec<Event> = Vec::new();
        let mut i: usize = 0;
        while i < self.order_lines.len()
            invariant
                *self == *old(self),
                self.wf(),
                spec_time_in_range(now),
                draws@.len() == self.order_lines@.len(),
                forall|k: int| 0 <= k < draws@.len() ==> draws@[k] < DRAW_SCALE,
                demands@.len() == self.order_lines@.len(),
                forall|j: int|
                    0 <= j < demands@.len() ==> demands@[j] == demand_of(
                        self.menu_items@,
                        self.order_lines@[j],
                        now,
                    ),
                free@.len() == self.stations@.len(),
                forall|s: int|
                    0 <= s < free@.len() ==> free@[s] == station_is_free(
                        self.order_lines@,
                        self.stations@[s].id,
                    ),
                i <= self.order_lines.len(),
                next@.len() == i,
                forall|j: int|
                    0 <= j < i ==> next@[j] == bound_line(
                        self.menu_items@,
                        self.order_lines@,
                        self.stations@,
                        now,
                        draws@,
                        j,
                    ),
                events@ == started_events(
                    self.menu_items@,
                    self.order_lines@,
                    self.stations@,
                    now,
                    i as int,
                ),
            decreases self.order_lines.len() - i,
        {
            let line = self.order_lines[i];
            let found = match demands[i] {
                Some(demand) => {
                    let position = self.position_in_queue(&demands, i, now);
                    match self.find_station(&free, demand, position) {
                        Some(s) => Some((s, demand)),
                        None => None,
                    }
                },
                None => None,
            };
            match found {
                Some((s, demand)) => {
                    assert(station_for(
                        self.menu_items@,
                        self.order_lines@,
                        self.stations@,
                        now,
                        i as int,
                    ) == Some(s as int));
                    assert(self.order_lines@[i as int].spec_sound());
                    let seconds = step_duration(demand.expected_duration_s, draws[i]);
                    let start: i64 = if now >= line.submitted_at {
                        now
                    } else {
                        line.submitted_at
                    };
                    let done: i64 = start + (seconds * 1000) as i64;
                    let station_id = self.stations[s].id;
                    events.push(
                        Event::OrderLineStepStarted {
                            timestamp: now,
                            order_line_id: line.order_line_id,
                            step_index: line.current_step,
                            station_id,
                        },
                    );
                    next.push(
                        OrderLine {
                            order_id: line.order_id,
                            order_line_id: line.order_line_id,
                            menu_item_id: line.menu_item_id,
                            kitchen_id: line.kitchen_id,
                            submitted_at: line.submitted_at,
                            current_step: line.current_step,
                            total_steps: line.total_steps,
                            assigned_station: Some(station_id),
                            step_completion_time: Some(done),
                            is_complete: line.is_complete,
                        },
                    );
                },
                None => {
                    assert(station_for(
                        self.menu_items@,
                        self.order_lines@,
                        self.stations@,
                        now,
                        i as int,
                    ) is None);
                    next.push(line);
                },
            }
            i += 1;
        }
        proof {
            assert(next@ =~= bind_pass(
                self.menu_items@,
                self.order_lines@,
                self.stations@,
                now,
                draws@,
            ));
            lemma_bind_pass_keeps_tables_sound(
                self.sites@,
                self.kitchens@,
                self.stations@,
                self.menu_items@,
                self.orders@,
                self.order_lines@,
                now,
                draws@,
            );
        }
        self.order_lines = next;
        events
    }
}

/// A line that asks for nothing has no line before it.
pub proof fn lemma_no_demand_no_position(
    menu: Seq<MenuItem>,
    lines: Seq<OrderLine>,
    now: i64,
    i: int,
    n: int,
)
    requires
        demand_of(menu, lines[i], now) is None,
    ensures
        queue_position(menu, lines, now, i, n) == 0,
    decreases n,
{
    if n > 0 {
        lemma_no_demand_no_position(menu, lines, now, i, n - 1);
    }
}

/// The most passes of binding that one tick makes.
pub const MAX_PASSES: usize = 10;

/// Whether `draws` holds one draw below [`DRAW_SCALE`] for each of `n` lines.
pub open spec fn draws_fit(draws: Seq<u32>, n: nat) -> bool {
    &&& draws.len() == n
    &&& forall|k: int| 0 <= k < draws.len() ==> draws[k] < DRAW_SCALE
}

/// Whether `draws` holds, for each pass, one draw for each of `n` lines.
pub open spec fn all_draws_fit(draws: Seq<Vec<u32>>, n: nat) -> bool {
    forall|p: int| 0 <= p < draws.len() ==> draws_fit((#[trigger] draws[p])@, n)
}

/// The lines after the passes of binding from the `p`-th on: pass follows
/// pass until one leaves the counts of the kitchens as they were, or until
/// the draws run out.
pub open spec fn settle_passes(
    menu: Seq<MenuItem>,
    lines: Seq<OrderLine>,
    stations: Seq<Station>,
    now: i64,
    draws: Seq<Vec<u32>>,
    p: int,
) -> Seq<OrderLine>
    decreases draws.len() - p,
{
    if p < 0 || p >= draws.len() {
        lines
    } else {
        let next = bind_pass(menu, lines, stations, now, draws[p]@);
        if stats_of(next, stations) == stats_of(lines, stations) {
            next
        } else {
            settle_passes(menu, next, stations, now, draws, p + 1)
        }
    }
}

/// The events of the passes of binding from the `p`-th on.
pub open spec fn settle_events(
    menu: Seq<MenuItem>,
    lines: Seq<OrderLine>,
    stations: Seq<Station>,
    now: i64,
    draws: Seq<Vec<u32>>,
    p: int,
) -> Seq<Event>
    decreases draws.len() - p,
{
    if p < 0 || p >= draws.len() {
        Seq::empty()
    } else {
        let next = bind_pass(menu, lines, stations, now, draws[p]@);
        let told = started_events(menu, lines, stations, now, lines.len() as int);
        if stats_of(next, stations) == stats_of(lines, stations) {
            told
        } else {
            told + settle_events(menu, next, stations, now, draws, p + 1)
        }
    }
}

/// Whether `after` and `events` are the lines and events that the passes of
/// binding give for some draws, one for each line in each of
/// [`MAX_PASSES`] passes.
pub open spec fn steps_prepared(
    menu: Seq<MenuItem>,
    lines: Seq<OrderLine>,
    stations: Seq<Station>,
    now: i64,
    after: Seq<OrderLine>,
    events: Seq<Event>,
) -> bool {
    exists|draws: Seq<Vec<u32>>| #[trigger]
        all_draws_fit(draws, lines.len()) && draws.len() == MAX_PASSES && after == settle_passes(
            menu,
            lines,
            stations,
            now,
            draws,
            0,
        ) && events == settle_events(menu, lines, stations, now, draws, 0)
}

impl KitchenHandler {
    /// Binds waiting lines to free stations at the instant `now`, pass after
    /// pass, where `draws[p]` decides the durations in the `p`-th pass.
    ///
    /// The passes end with the first that leaves the counts of the kitchens
    /// as they were, and at the latest when the draws run out.
    pub fn prepare_steps_with(&mut self, now: i64, draws: &Vec<Vec<u32>>) -> (events: Vec<Event>)
        requires
            old(self).wf(),
            spec_time_in_range(now),
            all_draws_fit(draws@, old(self).order_lines@.len()),
        ensures
            final(self).wf(),
            final(self).same_catalog(old(self)),
            final(self).orders == old(self).orders,
            rows_keep_identity(old(self).order_lines@, final(self).order_lines@),
            final(self).order_lines@ == settle_passes(
                old(self).menu_items@,
                old(self).order_lines@,
                old(self).stations@,
                now,
                draws@,
                0,
            ),
            events@ == settle_events(
                old(self).menu_items@,
                old(self).order_lines@,
                old(self).stations@,
                now,
                draws@,
                0,
            ),
    {
        let mut events: Vec<Event> = Vec::new();
        let mut p: usize = 0;
        let mut settled: bool = false;
        while p < draws.len() && !settled
            invariant
                self.wf(),
                self.same_catalog(old(self)),
                self.orders == old(self).orders,
                spec_time_in_range(now),
                p <= draws.len(),
                rows_keep_identity(old(self).order_lines@, self.order_lines@),
                all_draws_fit(draws@, self.order_lines@.len()),
                settle_passes(
                    old(self).menu_items@,
                    old(self).order_lines@,
                    old(self).stations@,
                    now,
                    draws@,
                    0,
                ) == if settled {
                    self.order_lines@
                } else {
                    settle_passes(
                        self.menu_items@,
                        self.order_lines@,
                        self.stations@,
                        now,
                        draws@,
                        p as int,
                    )
                },
                settle_events(
                    old(self).menu_items@,
                    old(self).order_lines@,
                    old(self).stations@,
                    now,
                    draws@,
                    0,
                ) == if settled {
                    events@
                } else {
                    events@ + settle_events(
                        self.menu_items@,
                        self.order_lines@,
                        self.stations@,
                        now,
                        draws@,
                        p as int,
                    )
                },
            decreases draws.len() - p, if settled { 0int } else { 1int },
        {
            let before = self.get_stats();
            assert(draws_fit(draws@[p as int]@, self.order_lines@.len()));
            let ghost lines_before = self.order_lines@;
            let ghost told_before = events@;
            let mut told = self.assign_steps_to_stations(now, &draws[p]);
            let after = self.get_stats();
            let ghost told_now = told@;
            events.append(&mut told);
            proof {
                assert forall|i: int| 0 <= i < lines_before.len() implies same_identity(
                    old(self).order_lines@[i],
                    #[trigger] self.order_lines@[i],
                ) by {
                    assert(same_identity(old(self).order_lines@[i], lines_before[i]));
                    assert(same_identity(lines_before[i], self.order_lines@[i]));
                }
                assert(events@ =~= told_before + told_now);
                if after != before {
                    assert((told_before + told_now) + settle_events(
                        self.menu_items@,
                        self.order_lines@,
                        self.stations@,
                        now,
                        draws@,
                        p + 1,
                    ) =~= told_before + (told_now + settle_events(
                        self.menu_items@,
                        self.order_lines@,
                        self.stations@,
                        now,
                        draws@,
                        p + 1,
                    )));
                }
            }
            if after == before {
                settled = true;
            }
            p += 1;
        }
        proof {
            assert(events@ + Seq::<Event>::empty() =~= events@);
        }
        events
    }

    /// Binds waiting lines to free stations at the instant `now`, pass after
    /// pass, with durations drawn by chance.
    ///
    /// Whatever is drawn, the outcome is that of [`Self::prepare_steps_with`]
    /// for some draws.
    pub fn prepare_steps(&mut self, now: i64) -> (events: Vec<Event>)
        requires
            old(self).wf(),
            spec_time_in_range(now),
        ensures
            final(self).wf(),
            final(self).same_catalog(old(self)),
            final(self).orders == old(self).orders,
            rows_keep_identity(old(self).order_lines@, final(self).order_lines@),
            steps_prepared(
                old(self).menu_items@,
                old(self).order_lines@,
                old(self).stations@,
                now,
                final(self).order_lines@,
                events@,
            ),
    {
        let count = self.order_lines.len();
        let mut draws: Vec<Vec<u32>> = Vec::new();
        let mut p: usize = 0;
        while p < MAX_PASSES
            invariant
                p <= MAX_PASSES,
                draws@.len() == p,
                all_draws_fit(draws@, count as nat),
            decreases MAX_PASSES - p,
        {
            let pass = draws_below(count, DRAW_SCALE);
            let ghost before = draws@;
            draws.push(pass);
            assert forall|q: int| 0 <= q < draws@.len() implies draws_fit(
                (#[trigger] draws@[q])@,
                count as nat,
            ) by {
                if q < before.len() {
                    assert(draws@[q] == before[q]);
                }
            }
            p += 1;
        }
        let events = self.prepare_steps_with(now, &draws);
        proof {
            assert(all_draws_fit(draws@, old(self).order_lines@.len()));
        }
        events
    }
}

} // verus!
