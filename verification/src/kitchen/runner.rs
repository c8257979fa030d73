//! One kitchen on its own: a queue of lines, the lines in progress, and the
//! stations they hold.
//!
//! A line leaves the queue when a station for its first step is free. A
//! line in progress gives up its station when its step has taken its
//! expected time, and takes the station of its next step if one is free;
//! else it is blocked until one is.

use vstd::prelude::*;
use std::collections::VecDeque;
use crate::error::Error;
use crate::events::OrderItem;
use crate::idents::{BrandId, KitchenId, OrderId, OrderLineId, StationId};
use crate::kitchen::KitchenStats;
use crate::objects::{
    menu_index, menu_sound, spec_menu_index, Instruction, KitchenStation, MenuItem, Station,
};
use crate::orders::{spec_time_in_range, OrderLineStatus};

verus! {

/// Whether a station is in use, and by which line.
#[derive(Debug, Clone, Copy, PartialEq, Eq, Structural)]
pub enum StationStatus {
    /// The station is available for use.
    Available,
    /// The line that uses the station.
    Busy(OrderLineId),
}

/// A station of the kitchen, where certain steps can be done: a workstation
/// with its tools, a stove, an oven.
#[derive(Debug, Clone, Copy, PartialEq, Eq, Structural)]
pub struct StationRunner {
    pub id: StationId,
    pub station_type: KitchenStation,
    pub status: StationStatus,
}

impl StationRunner {
    /// The station `station`, available.
    pub fn new(station: &Station) -> (runner: StationRunner)
        ensures
            runner.id == station.id,
            runner.station_type == station.station_type,
            runner.status == StationStatus::Available,
    {
        StationRunner {
            id: station.id,
            station_type: station.station_type,
            status: StationStatus::Available,
        }
    }
}

/// A line as it is queued in a kitchen.
#[derive(Debug, Clone, Copy, PartialEq, Eq, Structural)]
pub struct LineItem {
    pub id: OrderLineId,
    pub order_id: OrderId,
    pub item: OrderItem,
}

/// Where a line in progress stands.
#[derive(Debug, Clone, Copy, PartialEq, Eq, Structural)]
pub enum ProcessingStatus {
    /// The step that is worked on, counted from nothing, and the instant
    /// the work began.
    Processing(usize, i64),
    /// The step that waits for a station.
    Blocked(usize),
}

/// A line in progress.
#[derive(Debug, Clone, Copy, PartialEq, Eq, Structural)]
pub struct OrderProgress {
    pub order_line: LineItem,
    pub status: ProcessingStatus,
}

/// What is told of a line that changed its status.
#[derive(Debug, Clone, Copy, PartialEq, Eq, Structural)]
pub struct LineUpdate {
    pub order_line_id: OrderLineId,
    pub status: OrderLineStatus,
    pub kitchen_id: KitchenId,
}

/// What a turn makes of a line in progress.
#[derive(Debug, Clone, Copy, PartialEq, Eq, Structural)]
pub enum Outcome {
    /// The line stays as it is.
    Waits,
    /// The line begins the step with this number.
    Starts(usize),
    /// The line is blocked before the step with this number.
    Blocks(usize),
    /// The line is done.
    Completes,
}

/// Whether station `i` is available and of the kind `station_type`.
pub open spec fn is_free(
    stations: Seq<StationRunner>,
    station_type: KitchenStation,
    i: int,
) -> bool {
    stations[i].status == StationStatus::Available && stations[i].station_type == station_type
}

/// The first station from `from` on that is available and of the kind
/// `station_type`.
pub open spec fn first_free(stations: Seq<StationRunner>, station_type: KitchenStation, from: int) -> Option<
    int,
>
    decreases stations.len() - from,
{
    if from < 0 || from >= stations.len() {
        None
    } else if is_free(stations, station_type, from) {
        Some(from)
    } else {
        first_free(stations, station_type, from + 1)
    }
}

/// Whether station `i` is of the kind `station_type` and used by `line`.
pub open spec fn is_held(
    stations: Seq<StationRunner>,
    station_type: KitchenStation,
    line: OrderLineId,
    i: int,
) -> bool {
    stations[i].status == StationStatus::Busy(line) && stations[i].station_type == station_type
}

/// The first station from `from` on that is of the kind `station_type` and
/// used by `line`.
pub open spec fn first_held(
    stations: Seq<StationRunner>,
    station_type: KitchenStation,
    line: OrderLineId,
    from: int,
) -> Option<int>
    decreases stations.len() - from,
{
    if from < 0 || from >= stations.len() {
        None
    } else if is_held(stations, station_type, line, from) {
        Some(from)
    } else {
        first_held(stations, station_type, line, from + 1)
    }
}

/// The stations with station `i` used by `line`.
pub open spec fn occupied(stations: Seq<StationRunner>, i: int, line: OrderLineId) -> Seq<
    StationRunner,
> {
    stations.update(i, StationRunner { status: StationStatus::Busy(line), ..stations[i] })
}

/// The stations after `line` gave up the first station of the kind
/// `station_type` that it used.
pub open spec fn released(
    stations: Seq<StationRunner>,
    station_type: KitchenStation,
    line: OrderLineId,
) -> Seq<StationRunner> {
    match first_held(stations, station_type, line, 0) {
        Some(i) => stations.update(
            i,
            StationRunner { status: StationStatus::Available, ..stations[i] },
        ),
        None => stations,
    }
}

/// A station found is one of the stations.
pub proof fn lemma_first_free_in_range(
    stations: Seq<StationRunner>,
    station_type: KitchenStation,
    from: int,
)
    requires
        0 <= from,
    ensures
        first_free(stations, station_type, from) matches Some(i) ==> from <= i < stations.len()
            && is_free(stations, station_type, i),
    decreases stations.len() - from,
{
    if from < stations.len() && !is_free(stations, station_type, from) {
        lemma_first_free_in_range(stations, station_type, from + 1);
    }
}

/// The first available station of the kind `station_type`.
pub fn take_station(stations: &Vec<StationRunner>, station_type: KitchenStation) -> (found: Option<
    usize,
>)
    ensures
        found matches Some(i) ==> first_free(stations@, station_type, 0) == Some(i as int) && i
            < stations@.len(),
        found is None ==> first_free(stations@, station_type, 0) is None,
{
    let mut i: usize = 0;
    while i < stations.len()
        invariant
            i <= stations.len(),
            first_free(stations@, station_type, 0) == first_free(stations@, station_type, i as int),
        decreases stations.len() - i,
    {
        let station = stations[i];
        let available = match station.status {
            StationStatus::Available => true,
            StationStatus::Busy(_) => false,
        };
        if available && station.station_type == station_type {
            return Some(i);
        }
        i += 1;
    }
    None
}

/// Makes available the first station of the kind `station_type` that
/// `line` uses.
pub fn release_station(stations: &mut Vec<StationRunner>, station_type: KitchenStation, line: OrderLineId)
    ensures
        final(stations)@ == released(old(stations)@, station_type, line),
{
    let mut i: usize = 0;
    while i < stations.len()
        invariant
            *stations == *old(stations),
            i <= stations.len(),
            first_held(stations@, station_type, line, 0) == first_held(
                stations@,
                station_type,
                line,
                i as int,
            ),
        decreases stations.len() - i,
    {
        let station = stations[i];
        let held = match station.status {
            StationStatus::Busy(user) => user.0 == line.0,
            StationStatus::Available => false,
        };
        if held && station.station_type == station_type {
            stations.set(
                i,
                StationRunner {
                    id: station.id,
                    station_type: station.station_type,
                    status: StationStatus::Available,
                },
            );
            return ;
        }
        i += 1;
    }
}

/// The recipe of the item of `line`, if the item is on the menu.
pub open spec fn recipe_of(menu: Seq<MenuItem>, line: LineItem) -> Option<Seq<Instruction>> {
    match spec_menu_index(menu, line.item.menu_item_id) {
        Some(m) => Some(menu[m].instructions@),
        None => None,
    }
}

/// The whole seconds in `ms` milliseconds, rounded towards nothing.
pub open spec fn whole_seconds(ms: int) -> int {
    if ms >= 0 {
        ms / 1000
    } else {
        -((-ms) / 1000)
    }
}

/// What a turn that ends at `next_time` makes of the line `progress` and of
/// the stations.
///
/// A line whose step has not taken its expected time stays as it is. Else
/// it gives up its station; after its last step it is done, and else it
/// takes the first free station for its next step, or is blocked if there is
/// none. A blocked line takes the first free station for its step, or stays
/// blocked.
pub open spec fn line_turn(
    recipe: Seq<Instruction>,
    stations: Seq<StationRunner>,
    progress: OrderProgress,
    next_time: i64,
) -> (Seq<StationRunner>, Outcome) {
    let line = progress.order_line.id;
    match progress.status {
        ProcessingStatus::Processing(step, started) => {
            if step >= recipe.len() || whole_seconds(next_time - started)
                < recipe[step as int].expected_duration_s {
                (stations, Outcome::Waits)
            } else {
                let freed = released(stations, recipe[step as int].required_station, line);
                if step + 1 >= recipe.len() {
                    (freed, Outcome::Completes)
                } else {
                    match first_free(freed, recipe[step + 1].required_station, 0) {
                        Some(s) => (occupied(freed, s, line), Outcome::Starts((step + 1) as usize)),
                        None => (freed, Outcome::Blocks((step + 1) as usize)),
                    }
                }
            }
        },
        ProcessingStatus::Blocked(step) => {
            if step >= recipe.len() {
                (stations, Outcome::Waits)
            } else {
                match first_free(stations, recipe[step as int].required_station, 0) {
                    Some(s) => (occupied(stations, s, line), Outcome::Starts(step)),
                    None => (stations, Outcome::Waits),
                }
            }
        },
    }
}

/// What a turn makes of the first `n` lines in progress, one after the
/// other, each seeing the stations as the lines before it left them.
pub open spec fn turns_upto(
    menu: Seq<MenuItem>,
    stations: Seq<StationRunner>,
    lines: Seq<OrderProgress>,
    next_time: i64,
    n: int,
) -> (Seq<StationRunner>, Seq<Outcome>)
    decreases n,
{
    if n <= 0 {
        (stations, Seq::empty())
    } else {
        let before = turns_upto(menu, stations, lines, next_time, n - 1);
        match recipe_of(menu, lines[n - 1].order_line) {
            Some(recipe) => {
                let turned = line_turn(recipe, before.0, lines[n - 1], next_time);
                (turned.0, before.1.push(turned.1))
            },
            None => (before.0, before.1.push(Outcome::Waits)),
        }
    }
}

/// The lines in progress after the turn: those of the first `n` lines that
/// are not done, with the step they are at now.
pub open spec fn progress_after(
    lines: Seq<OrderProgress>,
    outcomes: Seq<Outcome>,
    next_time: i64,
    n: int,
) -> Seq<OrderProgress>
    decreases n,
{
    if n <= 0 {
        Seq::empty()
    } else {
        let before = progress_after(lines, outcomes, next_time, n - 1);
        match outcomes[n - 1] {
            Outcome::Waits => before.push(lines[n - 1]),
            Outcome::Starts(step) => before.push(
                OrderProgress {
                    order_line: lines[n - 1].order_line,
                    status: ProcessingStatus::Processing(step, next_time),
                },
            ),
            Outcome::Blocks(step) => before.push(
                OrderProgress {
                    order_line: lines[n - 1].order_line,
                    status: ProcessingStatus::Blocked(step),
                },
            ),
            Outcome::Completes => before,
        }
    }
}

/// The lines among the first `n` that the turn finished, each with its
/// order.
pub open spec fn completed_in(lines: Seq<OrderProgress>, outcomes: Seq<Outcome>, n: int) -> Seq<
    (OrderId, OrderLineId),
>
    decreases n,
{
    if n <= 0 {
        Seq::empty()
    } else {
        let before = completed_in(lines, outcomes, n - 1);
        match outcomes[n - 1] {
            Outcome::Completes => before.push(
                (lines[n - 1].order_line.order_id, lines[n - 1].order_line.id),
            ),
            _ => before,
        }
    }
}

/// What is told of the first `n` lines: a line that begins a step is
/// processing, a line that is blocked is waiting.
pub open spec fn updates_told(
    kitchen_id: KitchenId,
    lines: Seq<OrderProgress>,
    outcomes: Seq<Outcome>,
    n: int,
) -> Seq<LineUpdate>
    decreases n,
{
    if n <= 0 {
        Seq::empty()
    } else {
        let before = updates_told(kitchen_id, lines, outcomes, n - 1);
        match outcomes[n - 1] {
            Outcome::Starts(_) => before.push(
                LineUpdate {
                    order_line_id: lines[n - 1].order_line.id,
                    status: OrderLineStatus::Processing,
                    kitchen_id,
                },
            ),
            Outcome::Blocks(_) => before.push(
                LineUpdate {
                    order_line_id: lines[n - 1].order_line.id,
                    status: OrderLineStatus::Waiting,
                    kitchen_id,
                },
            ),
            _ => before,
        }
    }
}

/// The kitchen after lines were started from the front of the queue for as
/// long as the line at the front found a free station for its first step:
/// the stations, what is left of the queue, and the lines in progress.
pub open spec fn started_all(
    menu: Seq<MenuItem>,
    stations: Seq<StationRunner>,
    queue: Seq<LineItem>,
    in_progress: Seq<OrderProgress>,
    now: i64,
) -> (Seq<StationRunner>, Seq<LineItem>, Seq<OrderProgress>)
    decreases queue.len(),
{
    if queue.len() == 0 {
        (stations, queue, in_progress)
    } else {
        match recipe_of(menu, queue[0]) {
            Some(recipe) => if recipe.len() == 0 {
                (stations, queue, in_progress)
            } else {
                match first_free(stations, recipe[0].required_station, 0) {
                    Some(s) => started_all(
                        menu,
                        occupied(stations, s, queue[0].id),
                        queue.subrange(1, queue.len() as int),
                        in_progress.push(
                            OrderProgress {
                                order_line: queue[0],
                                status: ProcessingStatus::Processing(0, now),
                            },
                        ),
                        now,
                    ),
                    None => (stations, queue, in_progress),
                }
            },
            None => (stations, queue, in_progress),
        }
    }
}

/// Whether every line of the kitchen has its item on the menu.
pub open spec fn lines_known(
    menu: Seq<MenuItem>,
    queue: Seq<LineItem>,
    in_progress: Seq<OrderProgress>,
) -> bool {
    &&& forall|i: int| 0 <= i < queue.len() ==> recipe_of(menu, #[trigger] queue[i]) is Some
    &&& forall|i: int|
        0 <= i < in_progress.len() ==> recipe_of(menu, (#[trigger] in_progress[i]).order_line)
            is Some
}

/// Whether the work on every line in progress began at an instant the
/// tables can hold.
pub open spec fn starts_in_range(in_progress: Seq<OrderProgress>) -> bool {
    forall|i: int|
        0 <= i < in_progress.len() ==> ((#[trigger] in_progress[i]).status
            matches ProcessingStatus::Processing(_, started) ==> spec_time_in_range(started))
}

/// How many of the first `n` stations are available.
pub open spec fn count_available(stations: Seq<StationRunner>, n: int) -> nat
    decreases n,
{
    if n <= 0 {
        0
    } else {
        count_available(stations, n - 1) + if stations[n - 1].status == StationStatus::Available {
            1nat
        } else {
            0nat
        }
    }
}

/// A kitchen that works through its queue on its own.
pub struct KitchenRunner {
    pub id: KitchenId,
    /// The stations of the kitchen.
    pub stations: Vec<StationRunner>,
    /// The lines that wait to be started, first come first.
    pub queue: VecDeque<LineItem>,
    /// The lines that are started and not done.
    pub in_progress: Vec<OrderProgress>,
    /// The lines that are done and not yet taken away.
    pub completed: Vec<(OrderId, OrderLineId)>,
    /// The brands the kitchen cooks for.
    pub accepted_brands: Vec<BrandId>,
}

impl KitchenRunner {
    /// What holds of the kitchen between any two calls: the work on every
    /// line in progress began at an instant the tables can hold.
    pub open spec fn wf(&self) -> bool {
        starts_in_range(self.in_progress@)
    }

    /// The kitchen `id` with those of `stations` that stand in it, all
    /// available, and nothing to do.
    pub fn try_new(id: KitchenId, brands: Vec<BrandId>, stations: &Vec<Station>) -> (runner:
        KitchenRunner)
        ensures
            runner.wf(),
            runner.id == id,
            runner.accepted_brands == brands,
            runner.queue@.len() == 0,
            runner.in_progress@.len() == 0,
            runner.completed@.len() == 0,
            runner.stations@ == stations_of(stations@, id, stations@.len() as int),
    {
        let mut own: Vec<StationRunner> = Vec::new();
        let mut i: usize = 0;
        while i < stations.len()
            invariant
                i <= stations.len(),
                own@ == stations_of(stations@, id, i as int),
            decreases stations.len() - i,
        {
            if stations[i].kitchen_id.0 == id.0 {
                own.push(StationRunner::new(&stations[i]));
            }
            i += 1;
        }
        KitchenRunner {
            id,
            stations: own,
            queue: VecDeque::new(),
            in_progress: Vec::new(),
            completed: Vec::new(),
            accepted_brands: brands,
        }
    }

    /// The brands the kitchen cooks for.
    pub fn accepted_brands(&self) -> (brands: &Vec<BrandId>)
        ensures
            brands == &self.accepted_brands,
    {
        &self.accepted_brands
    }

    /// Puts `item` at the end of the queue.
    pub fn queue_order_line(&mut self, item: LineItem)
        requires
            old(self).wf(),
        ensures
            final(self).wf(),
            final(self).queue@ == old(self).queue@.push(item),
            final(self).id == old(self).id,
            final(self).stations == old(self).stations,
            final(self).in_progress == old(self).in_progress,
            final(self).completed == old(self).completed,
            final(self).accepted_brands == old(self).accepted_brands,
    {
        self.queue.push_back(item);
    }

    /// The counts of the kitchen.
    pub fn stats(&self) -> (stats: KitchenStats)
        ensures
            stats.queued == self.queue@.len(),
            stats.in_progress == self.in_progress@.len(),
            stats.completed == self.completed@.len(),
            stats.idle_stations == count_available(self.stations@, self.stations@.len() as int),
            stats.total_stations == self.stations@.len(),
    {
        let mut idle: usize = 0;
        let mut i: usize = 0;
        while i < self.stations.len()
            invariant
                i <= self.stations.len(),
                idle == count_available(self.stations@, i as int),
                idle <= i,
            decreases self.stations.len() - i,
        {
            match self.stations[i].status {
                StationStatus::Available => {
                    idle += 1;
                },
                StationStatus::Busy(_) => {},
            }
            i += 1;
        }
        KitchenStats {
            queued: self.queue.len(),
            in_progress: self.in_progress.len(),
            completed: self.completed.len(),
            idle_stations: idle,
            total_stations: self.stations.len(),
        }
    }

    /// Takes away the lines that are done.
    pub fn take_completed(&mut self) -> (done: Vec<(OrderId, OrderLineId)>)
        requires
            old(self).wf(),
        ensures
            final(self).wf(),
            done == old(self).completed,
            final(self).completed@.len() == 0,
            final(self).id == old(self).id,
            final(self).stations == old(self).stations,
            final(self).queue == old(self).queue,
            final(self).in_progress == old(self).in_progress,
            final(self).accepted_brands == old(self).accepted_brands,
    {
        let mut done: Vec<(OrderId, OrderLineId)> = Vec::new();
        std::mem::swap(&mut done, &mut self.completed);
        done
    }

    /// Whether every line of the kitchen has its item on `menu`.
    fn knows_lines(&self, menu: &Vec<MenuItem>) -> (known: bool)
        requires
            menu_sound(menu@),
        ensures
            known == lines_known(menu@, self.queue@, self.in_progress@),
    {
        let mut i: usize = 0;
        while i < self.queue.len()
            invariant
                menu_sound(menu@),
                i <= self.queue.len(),
                forall|j: int| 0 <= j < i ==> recipe_of(menu@, #[trigger] self.queue@[j]) is Some,
            decreases self.queue.len() - i,
        {
            if menu_index(menu, &self.queue[i].item.menu_item_id).is_none() {
                return false;
            }
            i += 1;
        }
        let mut k: usize = 0;
        while k < self.in_progress.len()
            invariant
                menu_sound(menu@),
                k <= self.in_progress.len(),
                forall|j: int|
                    0 <= j < self.queue@.len() ==> recipe_of(menu@, #[trigger] self.queue@[j])
                        is Some,
                forall|j: int|
                    0 <= j < k ==> recipe_of(menu@, (#[trigger] self.in_progress@[j]).order_line)
                        is Some,
            decreases self.in_progress.len() - k,
        {
            if menu_index(menu, &self.in_progress[k].order_line.item.menu_item_id).is_none() {
                return false;
            }
            k += 1;
        }
        true
    }
}

/// The stations among the first `n` of `stations` that stand in the kitchen
/// `id`, all available.
pub open spec fn stations_of(stations: Seq<Station>, id: KitchenId, n: int) -> Seq<StationRunner>
    decreases n,
{
    if n <= 0 {
        Seq::empty()
    } else if stations[n - 1].kitchen_id == id {
        stations_of(stations, id, n - 1).push(
            StationRunner {
                id: stations[n - 1].id,
                station_type: stations[n - 1].station_type,
                status: StationStatus::Available,
            },
        )
    } else {
        stations_of(stations, id, n - 1)
    }
}

/// Whether the line at the front of the queue can be started: it has a
/// recipe, and a station for the first step of it is free.
pub open spec fn can_start(
    menu: Seq<MenuItem>,
    stations: Seq<StationRunner>,
    queue: Seq<LineItem>,
) -> bool {
    &&& queue.len() > 0
    &&& recipe_of(menu, queue[0]) matches Some(recipe)
    &&& recipe.len() > 0
    &&& first_free(stations, recipe[0].required_station, 0) is Some
}

/// The whole seconds from `started` to `next_time`.
fn seconds_between(started: i64, next_time: i64) -> (seconds: i64)
    requires
        spec_time_in_range(started),
        spec_time_in_range(next_time),
    ensures
        seconds == whole_seconds(next_time - started),
{
    if next_time >= started {
        (((next_time - started) as u64) / 1000) as i64
    } else {
        -((((started - next_time) as u64) / 1000) as i64)
    }
}

impl KitchenRunner {
    /// Starts the line at the front of the queue if a station for its first
    /// step is free, and tells whether it did. A line whose item is not on
    /// the menu is not found, and nothing changes.
    pub fn start_order_line(&mut self, menu: &Vec<MenuItem>, now: i64) -> (result: Result<
        bool,
        Error,
    >)
        requires
            old(self).wf(),
            menu_sound(menu@),
            spec_time_in_range(now),
        ensures
            final(self).wf(),
            final(self).id == old(self).id,
            final(self).completed == old(self).completed,
            final(self).accepted_brands == old(self).accepted_brands,
            result matches Err(e) ==> e is NotFound,
            result is Err <==> old(self).queue@.len() > 0 && recipe_of(menu@, old(self).queue@[0])
                is None,
            result is Err ==> final(self).stations == old(self).stations,
            result is Err ==> final(self).queue == old(self).queue,
            result is Err ==> final(self).in_progress == old(self).in_progress,
            result matches Ok(started) ==> started == can_start(
                menu@,
                old(self).stations@,
                old(self).queue@,
            ),
            result is Ok ==> started_all(
                menu@,
                old(self).stations@,
                old(self).queue@,
                old(self).in_progress@,
                now,
            ) == started_all(
                menu@,
                final(self).stations@,
                final(self).queue@,
                final(self).in_progress@,
                now,
            ),
            result matches Ok(false) ==> final(self).stations == old(self).stations,
            result matches Ok(false) ==> final(self).queue == old(self).queue,
            result matches Ok(false) ==> final(self).in_progress == old(self).in_progress,
            result matches Ok(true) ==> final(self).queue@ == old(self).queue@.subrange(
                1,
                old(self).queue@.len() as int,
            ),
            result matches Ok(true) ==> final(self).in_progress@ == old(self).in_progress@.push(
                OrderProgress {
                    order_line: old(self).queue@[0],
                    status: ProcessingStatus::Processing(0, now),
                },
            ),
    {
        if self.queue.len() == 0 {
            return Ok(false);
        }
        let line = self.queue[0];
        let m = match menu_index(menu, &line.item.menu_item_id) {
            Some(m) => m,
            None => {
                return Err(Error::NotFound);
            },
        };
        assert(menu@[m as int].instructions@.len() >= 1);
        let step = menu[m].instructions[0];
        match take_station(&self.stations, step.required_station) {
            Some(s) => {
                let station = self.stations[s];
                self.stations.set(
                    s,
                    StationRunner {
                        id: station.id,
                        station_type: station.station_type,
                        status: StationStatus::Busy(line.id),
                    },
                );
                let ghost held = self.in_progress@;
                self.in_progress.push(
                    OrderProgress { order_line: line, status: ProcessingStatus::Processing(0, now) },
                );
                let popped = self.queue.pop_front();
                proof {
                    assert forall|i: int| 0 <= i < self.in_progress@.len() implies ((
                    #[trigger] self.in_progress@[i]).status matches ProcessingStatus::Processing(
                        _,
                        started,
                    ) ==> spec_time_in_range(started)) by {
                        if i < held.len() {
                            assert(self.in_progress@[i] == held[i]);
                        }
                    }
                }
                Ok(true)
            },
            None => Ok(false),
        }
    }

    /// One turn of the kitchen: lines are started from the queue for as
    /// long as the line at the front finds a free station, and then every
    /// line in progress takes its turn, in the order in which the lines
    /// were started; see [`line_turn`].
    ///
    /// The turn begins at `now` and ends at `next_time`: work that is
    /// started from the queue begins at `now`, a step is judged by the time
    /// it has taken at `next_time`, and the work on a next step begins at
    /// `next_time`. If the item of a line is not on the menu, the line is
    /// not found and nothing changes.
    pub fn step(&mut self, menu: &Vec<MenuItem>, now: i64, next_time: i64) -> (result: Result<
        Vec<LineUpdate>,
        Error,
    >)
        requires
            old(self).wf(),
            menu_sound(menu@),
            spec_time_in_range(now),
            spec_time_in_range(next_time),
        ensures
            final(self).wf(),
            final(self).id == old(self).id,
            final(self).accepted_brands == old(self).accepted_brands,
            result is Ok <==> lines_known(menu@, old(self).queue@, old(self).in_progress@),
            result matches Err(e) ==> e is NotFound,
            result is Err ==> final(self).stations == old(self).stations,
            result is Err ==> final(self).queue == old(self).queue,
            result is Err ==> final(self).in_progress == old(self).in_progress,
            result is Err ==> final(self).completed == old(self).completed,
            result matches Ok(events) ==> turned(
                menu@,
                old(self).id,
                old(self).stations@,
                old(self).queue@,
                old(self).in_progress@,
                old(self).completed@,
                now,
                next_time,
                final(self).stations@,
                final(self).queue@,
                final(self).in_progress@,
                final(self).completed@,
                events@,
            ),
    {
        if !self.knows_lines(menu) {
            return Err(Error::NotFound);
        }
        let ghost queue_before = self.queue@;
        loop
            invariant
                self.wf(),
                menu_sound(menu@),
                spec_time_in_range(now),
                self.id == old(self).id,
                self.completed == old(self).completed,
                self.accepted_brands == old(self).accepted_brands,
                lines_known(menu@, self.queue@, self.in_progress@),
                started_all(
                    menu@,
                    old(self).stations@,
                    old(self).queue@,
                    old(self).in_progress@,
                    now,
                ) == started_all(menu@, self.stations@, self.queue@, self.in_progress@, now),
            ensures
                self.wf(),
                self.id == old(self).id,
                self.completed == old(self).completed,
                self.accepted_brands == old(self).accepted_brands,
                lines_known(menu@, self.queue@, self.in_progress@),
                started_all(
                    menu@,
                    old(self).stations@,
                    old(self).queue@,
                    old(self).in_progress@,
                    now,
                ) == (self.stations@, self.queue@, self.in_progress@),
            decreases self.queue@.len(),
        {
            let ghost queue_now = self.queue@;
            let ghost held = self.in_progress@;
            assert(queue_now.len() > 0 ==> recipe_of(menu@, queue_now[0]) is Some);
            match self.start_order_line(menu, now) {
                Ok(true) => {
                    proof {
                        assert forall|i: int| 0 <= i < self.queue@.len() implies recipe_of(
                            menu@,
                            #[trigger] self.queue@[i],
                        ) is Some by {
                            assert(self.queue@[i] == queue_now[i + 1]);
                        }
                        assert forall|i: int| 0 <= i < self.in_progress@.len() implies recipe_of(
                            menu@,
                            (#[trigger] self.in_progress@[i]).order_line,
                        ) is Some by {
                            if i < held.len() {
                                assert(self.in_progress@[i] == held[i]);
                            }
                        }
                    }
                },
                _ => {
                    break ;
                },
            }
        }
        let ghost begun = self.in_progress@;
        let ghost free_at_start = self.stations@;
        let ghost mut outcomes: Seq<Outcome> = Seq::empty();
        let mut kept: Vec<OrderProgress> = Vec::new();
        let mut events: Vec<LineUpdate> = Vec::new();
        let mut n: usize = 0;
        while n < self.in_progress.len()
            invariant
                menu_sound(menu@),
                spec_time_in_range(next_time),
                self.id == old(self).id,
                self.accepted_brands == old(self).accepted_brands,
                self.in_progress@ == begun,
                starts_in_range(begun),
                lines_known(menu@, self.queue@, begun),
                started_all(
                    menu@,
                    old(self).stations@,
                    old(self).queue@,
                    old(self).in_progress@,
                    now,
                ) == (free_at_start, self.queue@, begun),
                n <= begun.len(),
                outcomes.len() == n,
                turns_upto(menu@, free_at_start, begun, next_time, n as int) == (
                    self.stations@,
                    outcomes,
                ),
                kept@ == progress_after(begun, outcomes, next_time, n as int),
                starts_in_range(kept@),
                self.completed@ == old(self).completed@ + completed_in(begun, outcomes, n as int),
                events@ == updates_told(self.id, begun, outcomes, n as int),
            decreases begun.len() - n,
        {
            let progress = self.in_progress[n];
            let line = progress.order_line;
            assert(recipe_of(menu@, begun[n as int].order_line) is Some);
            let ghost done_before = self.completed@;
            let ghost kept_before = kept@;
            let ghost told_before = events@;
            let ghost outcomes_before = outcomes;
            let outcome = match menu_index(menu, &line.item.menu_item_id) {
                Some(m) => {
                    let recipe = &menu[m].instructions;
                    match progress.status {
                        ProcessingStatus::Processing(step, started) => {
                            assert(spec_time_in_range(started));
                            if step >= recipe.len() || seconds_between(started, next_time)
                                < recipe[step].expected_duration_s as i64 {
                                Outcome::Waits
                            } else {
                                release_station(
                                    &mut self.stations,
                                    recipe[step].required_station,
                                    line.id,
                                );
                                if step + 1 >= recipe.len() {
                                    Outcome::Completes
                                } else {
                                    match take_station(
                                        &self.stations,
                                        recipe[step + 1].required_station,
                                    ) {
                                        Some(s) => {
                                            let station = self.stations[s];
                                            self.stations.set(
                                                s,
                                                StationRunner {
                                                    id: station.id,
                                                    station_type: station.station_type,
                                                    status: StationStatus::Busy(line.id),
                                                },
                                            );
                                            Outcome::Starts(step + 1)
                                        },
                                        None => Outcome::Blocks(step + 1),
                                    }
                                }
                            }
                        },
                        ProcessingStatus::Blocked(step) => {
                            if step >= recipe.len() {
                                Outcome::Waits
                            } else {
                                match take_station(&self.stations, recipe[step].required_station) {
                                    Some(s) => {
                                        let station = self.stations[s];
                                        self.stations.set(
                                            s,
                                            StationRunner {
                                                id: station.id,
                                                station_type: station.station_type,
                                                status: StationStatus::Busy(line.id),
                                            },
                                        );
                                        Outcome::Starts(step)
                                    },
                                    None => Outcome::Waits,
                                }
                            }
                        },
                    }
                },
                None => Outcome::Waits,
            };
            match outcome {
                Outcome::Waits => {
                    kept.push(progress);
                },
                Outcome::Starts(step) => {
                    kept.push(
                        OrderProgress {
                            order_line: line,
                            status: ProcessingStatus::Processing(step, next_time),
                        },
                    );
                    events.push(
                        LineUpdate {
                            order_line_id: line.id,
                            status: OrderLineStatus::Processing,
                            kitchen_id: self.id,
                        },
                    );
                },
                Outcome::Blocks(step) => {
                    kept.push(
                        OrderProgress { order_line: line, status: ProcessingStatus::Blocked(step) },
                    );
                    events.push(
                        LineUpdate {
                            order_line_id: line.id,
                            status: OrderLineStatus::Waiting,
                            kitchen_id: self.id,
                        },
                    );
                },
                Outcome::Completes => {
                    self.completed.push((line.order_id, line.id));
                },
            }
            proof {
                outcomes = outcomes.push(outcome);
                lemma_outcomes_of_prefix(begun, outcomes_before, outcomes, self.id, next_time, n as int);
                assert(self.completed@ =~= old(self).completed@ + completed_in(
                    begun,
                    outcomes,
                    n + 1,
                ));
                assert forall|i: int| 0 <= i < kept@.len() implies ((#[trigger] kept@[i]).status
                    matches ProcessingStatus::Processing(_, started) ==> spec_time_in_range(
                    started,
                )) by {
                    if i < kept_before.len() {
                        assert(kept@[i] == kept_before[i]);
                    } else {
                        assert(begun[n as int].status matches ProcessingStatus::Processing(
                            _,
                            started,
                        ) ==> spec_time_in_range(started));
                    }
                }
            }
            n += 1;
        }
        self.in_progress = kept;
        Ok(events)
    }
}

/// Whether the turn made of the kitchen what it must; see
/// [`KitchenRunner::step`].
pub open spec fn turned(
    menu: Seq<MenuItem>,
    kitchen_id: KitchenId,
    stations: Seq<StationRunner>,
    queue: Seq<LineItem>,
    in_progress: Seq<OrderProgress>,
    completed: Seq<(OrderId, OrderLineId)>,
    now: i64,
    next_time: i64,
    stations_after: Seq<StationRunner>,
    queue_after: Seq<LineItem>,
    in_progress_after: Seq<OrderProgress>,
    completed_after: Seq<(OrderId, OrderLineId)>,
    events: Seq<LineUpdate>,
) -> bool {
    let begun = started_all(menu, stations, queue, in_progress, now);
    let turns = turns_upto(menu, begun.0, begun.2, next_time, begun.2.len() as int);
    &&& stations_after == turns.0
    &&& queue_after == begun.1
    &&& in_progress_after == progress_after(begun.2, turns.1, next_time, begun.2.len() as int)
    &&& completed_after == completed + completed_in(begun.2, turns.1, begun.2.len() as int)
    &&& events == updates_told(kitchen_id, begun.2, turns.1, begun.2.len() as int)
}

/// What is made of the first lines depends on the outcomes of those lines
/// only.
pub proof fn lemma_outcomes_of_prefix(
    lines: Seq<OrderProgress>,
    a: Seq<Outcome>,
    b: Seq<Outcome>,
    kitchen_id: KitchenId,
    next_time: i64,
    n: int,
)
    requires
        0 <= n <= a.len(),
        n <= b.len(),
        forall|i: int| 0 <= i < n ==> a[i] == b[i],
    ensures
        progress_after(lines, a, next_time, n) == progress_after(lines, b, next_time, n),
        completed_in(lines, a, n) == completed_in(lines, b, n),
        updates_told(kitchen_id, lines, a, n) == updates_told(kitchen_id, lines, b, n),
    decreases n,
{
    if n > 0 {
        lemma_outcomes_of_prefix(lines, a, b, kitchen_id, next_time, n - 1);
    }
}

} // verus!
