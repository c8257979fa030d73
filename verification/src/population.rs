//! The people of the simulation: customers who order and eat, couriers who
//! deliver.

use vstd::prelude::*;
use crate::error::Error;
use crate::geo::{Point, TileCode};
use crate::idents::{OrderId, PersonId};
use crate::movement::{advance_from, positions_from, Journey, JourneyLeg};

verus! {

/// What a person does.
#[derive(Debug, Clone, Copy, PartialEq, Eq, Hash, Structural)]
pub enum PersonStatusFlag {
    Idle,
    AwaitingOrder,
    Eating,
    Moving,
    Delivering,
    WaitingForCustomer,
}

impl Default for PersonStatusFlag {
    fn default() -> (flag: PersonStatusFlag)
        ensures
            flag == PersonStatusFlag::Idle,
    {
        PersonStatusFlag::Idle
    }
}

impl PersonStatusFlag {
    /// The status as it is written in the population table.
    pub open spec fn spec_text(self) -> Seq<char> {
        match self {
            PersonStatusFlag::Idle => "idle"@,
            PersonStatusFlag::AwaitingOrder => "awaiting-order"@,
            PersonStatusFlag::Eating => "eating"@,
            PersonStatusFlag::Moving => "moving"@,
            PersonStatusFlag::Delivering => "delivering"@,
            PersonStatusFlag::WaitingForCustomer => "waiting-for-customer"@,
        }
    }

    /// The status as it is written in the population table.
    pub fn as_str(&self) -> (s: &'static str)
        ensures
            s@ == self.spec_text(),
    {
        match self {
            PersonStatusFlag::Idle => "idle",
            PersonStatusFlag::AwaitingOrder => "awaiting-order",
            PersonStatusFlag::Eating => "eating",
            PersonStatusFlag::Moving => "moving",
            PersonStatusFlag::Delivering => "delivering",
            PersonStatusFlag::WaitingForCustomer => "waiting-for-customer",
        }
    }
}

/// The part a person plays.
#[derive(Debug, Clone, Copy, PartialEq, Eq, Hash, Structural)]
pub enum PersonRole {
    Customer,
    Courier,
}

impl PersonRole {
    /// The role as it is written in the population table.
    pub open spec fn spec_text(self) -> Seq<char> {
        match self {
            PersonRole::Customer => "customer"@,
            PersonRole::Courier => "courier"@,
        }
    }

    /// The role as it is written in the population table.
    pub fn as_str(&self) -> (s: &'static str)
        ensures
            s@ == self.spec_text(),
    {
        match self {
            PersonRole::Customer => "customer",
            PersonRole::Courier => "courier",
        }
    }
}

/// How long a customer eats, in milliseconds.
pub const EATING_TIME_MS: i64 = 1_800_000;

/// A row of the population table.
#[derive(Debug)]
pub struct Person {
    pub id: PersonId,
    pub role: PersonRole,
    pub status: PersonStatusFlag,
    /// Where the person is.
    pub position: Point,
    /// The tile of `position` at the resolution at which couriers are
    /// matched with orders.
    pub tile: TileCode,
    /// The tile of `position` at the resolution at which orders are routed
    /// to sites.
    pub order_tile: TileCode,
    /// The order a courier carries.
    pub order_id: Option<OrderId>,
    /// Until when a customer eats, in milliseconds since the epoch.
    pub eating_until: Option<i64>,
    /// The journey the person is on.
    pub journey: Option<Journey>,
}

/// Counts over the journeys of the population.
#[derive(Clone, Copy, Debug, PartialEq, Eq, Structural)]
pub struct PopulationStats {
    /// Journeys that are under way.
    pub active_journeys: usize,
    /// Journeys that are done.
    pub completed_journeys: usize,
}

impl PopulationStats {
    /// The sums of the counts, field by field.
    pub fn add(self, other: PopulationStats) -> (sum: PopulationStats)
        requires
            self.active_journeys + other.active_journeys <= usize::MAX,
            self.completed_journeys + other.completed_journeys <= usize::MAX,
        ensures
            sum.active_journeys == self.active_journeys + other.active_journeys,
            sum.completed_journeys == self.completed_journeys + other.completed_journeys,
    {
        PopulationStats {
            active_journeys: self.active_journeys + other.active_journeys,
            completed_journeys: self.completed_journeys + other.completed_journeys,
        }
    }
}

/// Whether two journeys are the same: the same legs travelled the same way,
/// and the traveller at the same place.
pub open spec fn same_journey(a: Journey, b: Journey) -> bool {
    &&& a.transport == b.transport
    &&& a.legs@ == b.legs@
    &&& a.current_leg_index == b.current_leg_index
    &&& a.current_leg_offset == b.current_leg_offset
}

/// Whether two optional journeys are the same.
pub open spec fn same_trip(a: Option<Journey>, b: Option<Journey>) -> bool {
    match (a, b) {
        (Some(x), Some(y)) => same_journey(x, y),
        (None, None) => true,
        _ => false,
    }
}

/// Whether two rows tell the same of what a person is, apart from what the
/// person does and where.
pub open spec fn same_person(a: Person, b: Person) -> bool {
    a.id == b.id && a.role == b.role
}

/// Whether two rows are the same in everything.
pub open spec fn same_row(a: Person, b: Person) -> bool {
    &&& same_person(a, b)
    &&& a.status == b.status
    &&& a.position == b.position
    &&& a.tile == b.tile
    &&& a.order_tile == b.order_tile
    &&& a.order_id == b.order_id
    &&& a.eating_until == b.eating_until
    &&& same_trip(a.journey, b.journey)
}

/// Whether no two rows of the population have the same identifier.
pub open spec fn people_distinct(people: Seq<Person>) -> bool {
    forall|i: int, j: int| 0 <= i < j < people.len() ==> people[i].id != people[j].id
}

/// A table that keeps its identifiers row by row keeps them apart.
pub proof fn lemma_ids_kept(before: Seq<Person>, after: Seq<Person>)
    requires
        people_distinct(before),
        after.len() == before.len(),
        forall|i: int| 0 <= i < before.len() ==> before[i].id == (#[trigger] after[i]).id,
    ensures
        people_distinct(after),
{
    assert forall|i: int, j: int| 0 <= i < j < after.len() implies after[i].id != after[j].id by {
        assert(before[i].id == after[i].id);
        assert(before[j].id == after[j].id);
    }
}

/// Whether the row holds what the status of the person needs: a journey if
/// the person moves, delivers or waits for the customer, an order if the
/// person delivers or waits for the customer, and the end of the meal if the
/// person eats.
pub open spec fn status_backed(person: Person) -> bool {
    &&& (person.status == PersonStatusFlag::Moving || person.status
        == PersonStatusFlag::Delivering || person.status == PersonStatusFlag::WaitingForCustomer)
        ==> person.journey is Some
    &&& (person.status == PersonStatusFlag::Delivering || person.status
        == PersonStatusFlag::WaitingForCustomer) ==> person.order_id is Some
    &&& person.status == PersonStatusFlag::Eating ==> person.eating_until is Some
}

/// Whether every row holds what the status of its person needs.
pub open spec fn people_backed(people: Seq<Person>) -> bool {
    forall|i: int| 0 <= i < people.len() ==> status_backed(#[trigger] people[i])
}

/// Whether every journey of the population is sound.
pub open spec fn journeys_sound(people: Seq<Person>) -> bool {
    forall|i: int|
        0 <= i < people.len() ==> ((#[trigger] people[i]).journey matches Some(j) ==> j.wf())
}

/// The position a person is at after travelling: the last position passed,
/// or the position before if none was passed.
pub open spec fn position_after(before: Point, passed: Seq<Point>) -> Point {
    if passed.len() > 0 {
        passed.last()
    } else {
        before
    }
}

/// Whether `after` is the journey `before` after an advance of `budget`
/// steps of distance.
pub open spec fn journey_advanced(before: Journey, after: Journey, budget: int) -> bool {
    &&& after.transport == before.transport
    &&& after.legs@ == before.legs@
    &&& after.place() == advance_from(
        before.legs@,
        before.current_leg_index as int,
        before.current_leg_offset as int,
        budget,
    )
}

/// Whether `after` is the journey `before` turned round, with the traveller
/// at its beginning.
pub open spec fn journey_turned(before: Journey, after: Journey) -> bool {
    &&& after.transport == before.transport
    &&& after.legs@ == before.legs@.reverse()
    &&& after.current_leg_index == 0
    &&& after.current_leg_offset == 0
}

/// Whether a traveller who is at `before` is past the last leg after
/// `budget` more steps of distance.
pub open spec fn arrives(before: Journey, budget: int) -> bool {
    advance_from(
        before.legs@,
        before.current_leg_index as int,
        before.current_leg_offset as int,
        budget,
    ).cursor >= before.legs@.len()
}

/// The positions that the traveller passes in `budget` steps of distance.
pub open spec fn passed_positions(before: Journey, budget: int) -> Seq<Point> {
    positions_from(
        before.legs@,
        before.current_leg_index as int,
        before.current_leg_offset as int,
        budget,
        None,
    )
}

/// Whether `after` is what the tick of `time_step_ms` milliseconds at the
/// instant `now` makes of the person `before`.
///
/// A person who moves travels on, and is idle on arrival. A courier who
/// delivers travels on, and on arrival waits for the customer with the
/// journey turned round for the way back. A courier who waits for the
/// customer hands the order over and sets out on the way back. A customer
/// who has eaten long enough is idle again. Nobody else changes.
///
/// The tiles of a person stay those of the row as it was: they are given
/// anew, for the place where the person has come to, by
/// [`PopulationHandler::set_tiles`].
pub open spec fn person_stepped(
    before: Person,
    after: Person,
    now: i64,
    time_step_ms: u64,
) -> bool {
    &&& same_person(before, after)
    &&& after.tile == before.tile
    &&& after.order_tile == before.order_tile
    &&& match (before.status, before.journey) {
        (PersonStatusFlag::Moving, Some(journey)) => {
            let budget = journey.transport.spec_velocity_km_h() * time_step_ms;
            &&& after.journey matches Some(next)
            &&& journey_advanced(journey, next, budget)
            &&& after.position == position_after(before.position, passed_positions(journey, budget))
            &&& after.status == if arrives(journey, budget) {
                PersonStatusFlag::Idle
            } else {
                PersonStatusFlag::Moving
            }
            &&& after.order_id == before.order_id
            &&& after.eating_until == before.eating_until
        },
        (PersonStatusFlag::Delivering, Some(journey)) => {
            let budget = journey.transport.spec_velocity_km_h() * time_step_ms;
            &&& after.journey matches Some(next)
            &&& after.position == position_after(before.position, passed_positions(journey, budget))
            &&& after.order_id == before.order_id
            &&& after.eating_until == before.eating_until
            &&& if arrives(journey, budget) {
                after.status == PersonStatusFlag::WaitingForCustomer && journey_turned(journey, next)
            } else {
                after.status == PersonStatusFlag::Delivering && journey_advanced(
                    journey,
                    next,
                    budget,
                )
            }
        },
        (PersonStatusFlag::WaitingForCustomer, _) => {
            &&& after.status == PersonStatusFlag::Moving
            &&& after.order_id is None
            &&& after.position == before.position
            &&& after.eating_until == before.eating_until
            &&& same_trip(before.journey, after.journey)
        },
        (PersonStatusFlag::Eating, _) => {
            &&& after.position == before.position
            &&& after.order_id == before.order_id
            &&& same_trip(before.journey, after.journey)
            &&& if before.eating_until matches Some(until) && until > now {
                after.status == PersonStatusFlag::Eating && after.eating_until
                    == before.eating_until
            } else {
                after.status == PersonStatusFlag::Idle && after.eating_until is None
            }
        },
        _ => same_row(before, after),
    }
}

/// The order that the courier `before` hands over in this tick, if any.
pub open spec fn handed_over(before: Person) -> Option<OrderId> {
    if before.status == PersonStatusFlag::WaitingForCustomer {
        before.order_id
    } else {
        None
    }
}

/// The orders handed over by the first `n` people, in the order of the
/// population table.
pub open spec fn handed_over_upto(people: Seq<Person>, n: int) -> Seq<OrderId>
    decreases n,
{
    if n <= 0 {
        Seq::empty()
    } else {
        match handed_over(people[n - 1]) {
            Some(order_id) => handed_over_upto(people, n - 1).push(order_id),
            None => handed_over_upto(people, n - 1),
        }
    }
}

/// What the tick makes of one person; see [`person_stepped`].
pub fn step_person(person: Person, now: i64, time_step_ms: u64) -> (after: Person)
    requires
        person.journey matches Some(j) ==> j.wf(),
    ensures
        person_stepped(person, after, now, time_step_ms),
        after.journey matches Some(j) ==> j.wf(),
{
    let Person { id, role, status, position, tile, order_tile, order_id, eating_until, journey } =
        person;
    match status {
        PersonStatusFlag::Moving => match journey {
            Some(mut travel) => {
                let passed = travel.advance(time_step_ms);
                let arrived = travel.is_done();
                let at = if passed.len() > 0 {
                    passed[passed.len() - 1]
                } else {
                    position
                };
                Person {
                    id,
                    role,
                    status: if arrived {
                        PersonStatusFlag::Idle
                    } else {
                        PersonStatusFlag::Moving
                    },
                    position: at,
                    tile,
                    order_tile,
                    order_id,
                    eating_until,
                    journey: Some(travel),
                }
            },
            None => Person {
                id,
                role,
                status,
                position,
                tile,
                order_tile,
                order_id,
                eating_until,
                journey: None,
            },
        },
        PersonStatusFlag::Delivering => match journey {
            Some(mut travel) => {
                let passed = travel.advance(time_step_ms);
                let arrived = travel.is_done();
                let at = if passed.len() > 0 {
                    passed[passed.len() - 1]
                } else {
                    position
                };
                if arrived {
                    travel.reset_reverse();
                }
                Person {
                    id,
                    role,
                    status: if arrived {
                        PersonStatusFlag::WaitingForCustomer
                    } else {
                        PersonStatusFlag::Delivering
                    },
                    position: at,
                    tile,
                    order_tile,
                    order_id,
                    eating_until,
                    journey: Some(travel),
                }
            },
            None => Person {
                id,
                role,
                status,
                position,
                tile,
                order_tile,
                order_id,
                eating_until,
                journey: None,
            },
        },
        PersonStatusFlag::WaitingForCustomer => Person {
            id,
            role,
            status: PersonStatusFlag::Moving,
            position,
            tile,
            order_tile,
            order_id: None,
            eating_until,
            journey,
        },
        PersonStatusFlag::Eating => {
            let still = match eating_until {
                Some(until) => until > now,
                None => false,
            };
            if still {
                Person { id, role, status, position, tile, order_tile, order_id, eating_until, journey }
            } else {
                Person {
                    id,
                    role,
                    status: PersonStatusFlag::Idle,
                    position,
                    tile,
                    order_tile,
                    order_id,
                    eating_until: None,
                    journey,
                }
            }
        },
        _ => Person { id, role, status, position, tile, order_tile, order_id, eating_until, journey },
    }
}

/// The rows of `people` in the opposite order.
fn turned_round(people: Vec<Person>) -> (turned: Vec<Person>)
    ensures
        turned@ == people@.reverse(),
{
    let ghost all = people@;
    let mut rest = people;
    let mut turned: Vec<Person> = Vec::new();
    while rest.len() > 0
        invariant
            rest@.len() + turned@.len() == all.len(),
            forall|j: int| 0 <= j < rest@.len() ==> rest@[j] == all[j],
            forall|j: int| 0 <= j < turned@.len() ==> turned@[j] == all[all.len() - 1 - j],
        decreases rest@.len(),
    {
        let last = rest.pop();
        match last {
            Some(person) => {
                turned.push(person);
            },
            None => {},
        }
    }
    assert(turned@ =~= all.reverse());
    turned
}

/// Whether `id` is among `ids`.
pub fn contains_person_id(ids: &Vec<PersonId>, id: &PersonId) -> (found: bool)
    ensures
        found == ids@.contains(*id),
{
    let mut i: usize = 0;
    while i < ids.len()
        invariant
            i <= ids.len(),
            forall|j: int| 0 <= j < i ==> ids@[j] != *id,
        decreases ids.len() - i,
    {
        if ids[i].0 == id.0 {
            return true;
        }
        i += 1;
    }
    false
}

/// Whether `after` is the row `before` with the status `status` if the
/// person is among `ids`, and the row `before` itself otherwise.
pub open spec fn person_restatused(
    before: Person,
    after: Person,
    ids: Seq<PersonId>,
    status: PersonStatusFlag,
) -> bool {
    &&& same_person(before, after)
    &&& after.position == before.position
    &&& after.tile == before.tile
    &&& after.order_tile == before.order_tile
    &&& after.order_id == before.order_id
    &&& after.eating_until == before.eating_until
    &&& same_trip(before.journey, after.journey)
    &&& after.status == if ids.contains(before.id) {
        status
    } else {
        before.status
    }
}

/// Whether `after` is the row `before` of a customer who was handed an
/// order at the instant `now` and eats from then on, if the person is among
/// `ids`, and the row `before` itself otherwise.
pub open spec fn person_fed(before: Person, after: Person, ids: Seq<PersonId>, now: i64) -> bool {
    if ids.contains(before.id) {
        &&& same_person(before, after)
        &&& after.position == before.position
        &&& after.tile == before.tile
        &&& after.order_tile == before.order_tile
        &&& after.order_id == before.order_id
        &&& same_trip(before.journey, after.journey)
        &&& after.status == PersonStatusFlag::Eating
        &&& after.eating_until == Some((now + EATING_TIME_MS) as i64)
    } else {
        same_row(before, after)
    }
}

/// Whether `after` is the row `before` with the tiles `tiles`, the first
/// for matching couriers with orders and the second for routing orders to
/// sites, and everything else as it was.
pub open spec fn person_retiled(before: Person, after: Person, tiles: (TileCode, TileCode)) -> bool {
    &&& same_person(before, after)
    &&& after.status == before.status
    &&& after.position == before.position
    &&& after.order_id == before.order_id
    &&& after.eating_until == before.eating_until
    &&& same_trip(before.journey, after.journey)
    &&& after.tile == tiles.0
    &&& after.order_tile == tiles.1
}

/// Whether person `i` is the first of `people` with the identifier `id`.
pub open spec fn is_person_index(people: Seq<Person>, id: PersonId, i: int) -> bool {
    &&& 0 <= i < people.len()
    &&& people[i].id == id
    &&& forall|j: int| 0 <= j < i ==> people[j].id != id
}

/// Whether `after` is the row `before` of person `i` once the person `id`
/// has set out on `journey` with the order `order_id`.
pub open spec fn person_set_out(
    people: Seq<Person>,
    i: int,
    after: Person,
    id: PersonId,
    order_id: Option<OrderId>,
    journey: Journey,
) -> bool {
    if is_person_index(people, id, i) {
        &&& same_person(people[i], after)
        &&& after.status == people[i].status
        &&& after.position == people[i].position
        &&& after.tile == people[i].tile
        &&& after.order_tile == people[i].order_tile
        &&& after.eating_until == people[i].eating_until
        &&& after.order_id == order_id
        &&& after.journey matches Some(j)
        &&& same_journey(j, journey)
    } else {
        same_row(people[i], after)
    }
}

/// How many of the first `n` people are on a journey that is under way.
pub open spec fn count_active(people: Seq<Person>, n: int) -> nat
    decreases n,
{
    if n <= 0 {
        0
    } else {
        count_active(people, n - 1) + if people[n - 1].journey matches Some(j)
            && !j.spec_is_done() {
            1nat
        } else {
            0nat
        }
    }
}

/// How many of the first `n` people are on a journey that is done.
pub open spec fn count_done(people: Seq<Person>, n: int) -> nat
    decreases n,
{
    if n <= 0 {
        0
    } else {
        count_done(people, n - 1) + if people[n - 1].journey matches Some(j) && j.spec_is_done() {
            1nat
        } else {
            0nat
        }
    }
}

/// Whether no two rows of `people` have the same identifier.
pub fn ids_apart(people: &Vec<Person>) -> (apart: bool)
    ensures
        apart == people_distinct(people@),
{
    let mut j: usize = 0;
    while j < people.len()
        invariant
            j <= people.len(),
            forall|a: int, b: int| 0 <= a < b < j ==> people@[a].id != people@[b].id,
        decreases people.len() - j,
    {
        let mut i: usize = 0;
        while i < j
            invariant
                j < people.len(),
                i <= j,
                forall|a: int| 0 <= a < i ==> people@[a].id != people@[j as int].id,
            decreases j - i,
        {
            if people[i].id.0 == people[j].id.0 {
                return false;
            }
            i += 1;
        }
        j += 1;
    }
    true
}

/// The people of the simulation.
#[derive(Debug)]
pub struct PopulationHandler {
    /// The population table.
    pub population: Vec<Person>,
}

impl PopulationHandler {
    /// What holds of the population between any two calls: every journey
    /// is sound, and no two people have the same identifier.
    pub open spec fn wf(&self) -> bool {
        journeys_sound(self.population@) && people_distinct(self.population@)
    }

    /// A handler for `population`, which is refused if a journey in it is
    /// not sound or two people in it have the same identifier.
    pub fn try_new(population: Vec<Person>) -> (result: Result<PopulationHandler, Error>)
        ensures
            result is Ok <==> journeys_sound(population@) && people_distinct(population@),
            result matches Ok(handler) ==> handler.wf() && handler.population == population,
            result matches Err(e) ==> e is InvalidData,
    {
        if !ids_apart(&population) {
            return Err(Error::invalid_data("two people with one identifier"));
        }
        let mut i: usize = 0;
        while i < population.len()
            invariant
                i <= population.len(),
                forall|j: int|
                    0 <= j < i ==> ((#[trigger] population@[j]).journey matches Some(t)
                        ==> t.wf()),
            decreases population.len() - i,
        {
            let sound = match &population[i].journey {
                Some(travel) => travel.is_sound(),
                None => true,
            };
            if !sound {
                return Err(Error::invalid_data("journey is not sound"));
            }
            i += 1;
        }
        Ok(PopulationHandler { population })
    }

    /// Whether every row holds what the status of its person needs; see
    /// [`status_backed`].
    pub fn statuses_backed(&self) -> (backed: bool)
        ensures
            backed == people_backed(self.population@),
    {
        let mut i: usize = 0;
        while i < self.population.len()
            invariant
                i <= self.population.len(),
                forall|j: int| 0 <= j < i ==> status_backed(#[trigger] self.population@[j]),
            decreases self.population.len() - i,
        {
            let person = &self.population[i];
            let travels = match person.status {
                PersonStatusFlag::Moving => true,
                PersonStatusFlag::Delivering => true,
                PersonStatusFlag::WaitingForCustomer => true,
                _ => false,
            };
            let carries = match person.status {
                PersonStatusFlag::Delivering => true,
                PersonStatusFlag::WaitingForCustomer => true,
                _ => false,
            };
            let eats = match person.status {
                PersonStatusFlag::Eating => true,
                _ => false,
            };
            if (travels && person.journey.is_none()) || (carries && person.order_id.is_none()) || (
            eats && person.eating_until.is_none()) {
                return false;
            }
            i += 1;
        }
        true
    }

    /// Counts the journeys that are under way and those that are done.
    pub fn get_stats(&self) -> (stats: PopulationStats)
        ensures
            stats.active_journeys == count_active(self.population@, self.population@.len() as int),
            stats.completed_journeys == count_done(self.population@, self.population@.len() as int),
    {
        let mut active: usize = 0;
        let mut done: usize = 0;
        let mut i: usize = 0;
        while i < self.population.len()
            invariant
                i <= self.population.len(),
                active == count_active(self.population@, i as int),
                done == count_done(self.population@, i as int),
                active + done <= i,
            decreases self.population.len() - i,
        {
            match &self.population[i].journey {
                Some(travel) => {
                    if travel.is_done() {
                        done += 1;
                    } else {
                        active += 1;
                    }
                },
                None => {},
            }
            i += 1;
        }
        PopulationStats { active_journeys: active, completed_journeys: done }
    }

    /// Gives the status `status` to the people whose identifier is among
    /// `person_ids`, and leaves everything else as it is.
    pub fn set_person_status(&mut self, person_ids: &Vec<PersonId>, status: PersonStatusFlag)
        requires
            old(self).wf(),
        ensures
            final(self).wf(),
            final(self).population@.len() == old(self).population@.len(),
            forall|i: int|
                0 <= i < old(self).population@.len() ==> person_restatused(
                    old(self).population@[i],
                    #[trigger] final(self).population@[i],
                    person_ids@,
                    status,
                ),
    {
        let ghost before = self.population@;
        let mut taken: Vec<Person> = Vec::new();
        std::mem::swap(&mut taken, &mut self.population);
        let mut stack = turned_round(taken);
        let mut next: Vec<Person> = Vec::new();
        while stack.len() > 0
            invariant
                journeys_sound(before),
                stack@.len() + next@.len() == before.len(),
                forall|j: int|
                    0 <= j < stack@.len() ==> stack@[j] == before[before.len() - 1 - j],
                forall|j: int|
                    0 <= j < next@.len() ==> person_restatused(
                        before[j],
                        #[trigger] next@[j],
                        person_ids@,
                        status,
                    ),
                journeys_sound(next@),
            decreases stack@.len(),
        {
            let ghost k = next@.len() as int;
            let ghost done = next@;
            match stack.pop() {
                Some(person) => {
                    assert(person == before[k]);
                    assert(before[k].journey matches Some(t) ==> t.wf());
                    let Person { id, role, status: was, position, tile, order_tile, order_id, eating_until, journey } =
                        person;
                    let now_status = if contains_person_id(person_ids, &id) {
                        status
                    } else {
                        was
                    };
                    next.push(
                        Person {
                            id,
                            role,
                            status: now_status,
                            position,
                            tile,
                            order_tile,
                            order_id,
                            eating_until,
                            journey,
                        },
                    );
                    proof {
                        assert forall|j: int| 0 <= j < next@.len() implies person_restatused(
                            before[j],
                            #[trigger] next@[j],
                            person_ids@,
                            status,
                        ) by {
                            if j < k {
                                assert(next@[j] == done[j]);
                            }
                        }
                        assert forall|j: int| 0 <= j < next@.len() implies ((#[trigger] next@[j]).journey matches Some(
                            t,
                        ) ==> t.wf()) by {
                            if j < k {
                                assert(next@[j] == done[j]);
                            }
                        }
                    }
                },
                None => {},
            }
        }
        self.population = next;
    }

    /// Gives every person the tiles of the place where the person is now:
    /// `tiles[i]` holds, for person `i`, the tile at which couriers are
    /// matched with orders and the tile at which orders are routed to
    /// sites. Everything else stays as it is. With another number of tiles
    /// than people nothing changes, and the call says so.
    pub fn set_tiles(&mut self, tiles: &Vec<(TileCode, TileCode)>) -> (done: bool)
        requires
            old(self).wf(),
        ensures
            final(self).wf(),
            final(self).population@.len() == old(self).population@.len(),
            done == (tiles@.len() == old(self).population@.len()),
            done ==> forall|i: int|
                0 <= i < old(self).population@.len() ==> person_retiled(
                    old(self).population@[i],
                    #[trigger] final(self).population@[i],
                    tiles@[i],
                ),
            !done ==> final(self).population == old(self).population,
    {
        if tiles.len() != self.population.len() {
            return false;
        }
        let ghost before = self.population@;
        let mut taken: Vec<Person> = Vec::new();
        std::mem::swap(&mut taken, &mut self.population);
        let mut stack = turned_round(taken);
        let mut next: Vec<Person> = Vec::new();
        while stack.len() > 0
            invariant
                journeys_sound(before),
                tiles@.len() == before.len(),
                stack@.len() + next@.len() == before.len(),
                forall|j: int|
                    0 <= j < stack@.len() ==> stack@[j] == before[before.len() - 1 - j],
                forall|j: int|
                    0 <= j < next@.len() ==> person_retiled(
                        before[j],
                        #[trigger] next@[j],
                        tiles@[j],
                    ),
                journeys_sound(next@),
            decreases stack@.len(),
        {
            let ghost k = next@.len() as int;
            let ghost done_rows = next@;
            match stack.pop() {
                Some(person) => {
                    assert(person == before[k]);
                    assert(before[k].journey matches Some(t) ==> t.wf());
                    let Person {
                        id,
                        role,
                        status,
                        position,
                        tile: _,
                        order_tile: _,
                        order_id,
                        eating_until,
                        journey,
                    } = person;
                    let here = tiles[next.len()];
                    next.push(
                        Person {
                            id,
                            role,
                            status,
                            position,
                            tile: here.0,
                            order_tile: here.1,
                            order_id,
                            eating_until,
                            journey,
                        },
                    );
                    proof {
                        assert forall|j: int| 0 <= j < next@.len() implies person_retiled(
                            before[j],
                            #[trigger] next@[j],
                            tiles@[j],
                        ) by {
                            if j < k {
                                assert(next@[j] == done_rows[j]);
                            }
                        }
                        assert forall|j: int| 0 <= j < next@.len() implies ((
                        #[trigger] next@[j]).journey matches Some(t) ==> t.wf()) by {
                            if j < k {
                                assert(next@[j] == done_rows[j]);
                            }
                        }
                    }
                },
                None => {},
            }
        }
        self.population = next;
        true
    }

    /// Moves everybody on by one tick of `time_step_ms` milliseconds at the
    /// instant `now`, and returns the orders that couriers handed over.
    ///
    /// Each person changes as [`person_stepped`] says.
    pub fn advance_journeys(&mut self, now: i64, time_step_ms: u64) -> (delivered: Vec<OrderId>)
        requires
            old(self).wf(),
        ensures
            final(self).wf(),
            final(self).population@.len() == old(self).population@.len(),
            forall|i: int|
                0 <= i < old(self).population@.len() ==> person_stepped(
                    old(self).population@[i],
                    #[trigger] final(self).population@[i],
                    now,
                    time_step_ms,
                ),
            delivered@ == handed_over_upto(
                old(self).population@,
                old(self).population@.len() as int,
            ),
    {
        let ghost before = self.population@;
        let mut taken: Vec<Person> = Vec::new();
        std::mem::swap(&mut taken, &mut self.population);
        let mut stack = turned_round(taken);
        let mut next: Vec<Person> = Vec::new();
        let mut delivered: Vec<OrderId> = Vec::new();
        while stack.len() > 0
            invariant
                journeys_sound(before),
                stack@.len() + next@.len() == before.len(),
                forall|j: int|
                    0 <= j < stack@.len() ==> stack@[j] == before[before.len() - 1 - j],
                forall|j: int|
                    0 <= j < next@.len() ==> person_stepped(
                        before[j],
                        #[trigger] next@[j],
                        now,
                        time_step_ms,
                    ),
                journeys_sound(next@),
                delivered@ == handed_over_upto(before, next@.len() as int),
            decreases stack@.len(),
        {
            let ghost k = next@.len() as int;
            let ghost done = next@;
            match stack.pop() {
                Some(person) => {
                    assert(person == before[k]);
                    assert(before[k].journey matches Some(t) ==> t.wf());
                    match (person.status, person.order_id) {
                        (PersonStatusFlag::WaitingForCustomer, Some(order_id)) => {
                            delivered.push(order_id);
                        },
                        _ => {},
                    }
                    let after = step_person(person, now, time_step_ms);
                    next.push(after);
                    proof {
                        assert forall|j: int| 0 <= j < next@.len() implies person_stepped(
                            before[j],
                            #[trigger] next@[j],
                            now,
                            time_step_ms,
                        ) by {
                            if j < k {
                                assert(next@[j] == done[j]);
                            }
                        }
                        assert forall|j: int| 0 <= j < next@.len() implies ((#[trigger] next@[j]).journey matches Some(
                            t,
                        ) ==> t.wf()) by {
                            if j < k {
                                assert(next@[j] == done[j]);
                            }
                        }
                    }
                },
                None => {},
            }
        }
        self.population = next;
        delivered
    }

    /// Lets the customers among `customers` eat from the instant `now` on,
    /// for as long as a meal takes.
    pub fn feed_customers(&mut self, customers: &Vec<PersonId>, now: i64)
        requires
            old(self).wf(),
            now <= i64::MAX - EATING_TIME_MS,
        ensures
            final(self).wf(),
            final(self).population@.len() == old(self).population@.len(),
            forall|i: int|
                0 <= i < old(self).population@.len() ==> person_fed(
                    old(self).population@[i],
                    #[trigger] final(self).population@[i],
                    customers@,
                    now,
                ),
    {
        let ghost before = self.population@;
        let mut taken: Vec<Person> = Vec::new();
        std::mem::swap(&mut taken, &mut self.population);
        let mut stack = turned_round(taken);
        let mut next: Vec<Person> = Vec::new();
        while stack.len() > 0
            invariant
                journeys_sound(before),
                now <= i64::MAX - EATING_TIME_MS,
                stack@.len() + next@.len() == before.len(),
                forall|j: int|
                    0 <= j < stack@.len() ==> stack@[j] == before[before.len() - 1 - j],
                forall|j: int|
                    0 <= j < next@.len() ==> person_fed(
                        before[j],
                        #[trigger] next@[j],
                        customers@,
                        now,
                    ),
                journeys_sound(next@),
            decreases stack@.len(),
        {
            let ghost k = next@.len() as int;
            let ghost done = next@;
            match stack.pop() {
                Some(person) => {
                    assert(person == before[k]);
                    assert(before[k].journey matches Some(t) ==> t.wf());
                    let Person { id, role, status, position, tile, order_tile, order_id, eating_until, journey } =
                        person;
                    let fed = contains_person_id(customers, &id);
                    next.push(
                        Person {
                            id,
                            role,
                            status: if fed {
                                PersonStatusFlag::Eating
                            } else {
                                status
                            },
                            position,
                            tile,
                            order_tile,
                            order_id,
                            eating_until: if fed {
                                Some(now + EATING_TIME_MS)
                            } else {
                                eating_until
                            },
                            journey,
                        },
                    );
                    proof {
                        assert forall|j: int| 0 <= j < next@.len() implies person_fed(
                            before[j],
                            #[trigger] next@[j],
                            customers@,
                            now,
                        ) by {
                            if j < k {
                                assert(next@[j] == done[j]);
                            }
                        }
                        assert forall|j: int| 0 <= j < next@.len() implies ((#[trigger] next@[j]).journey matches Some(
                            t,
                        ) ==> t.wf()) by {
                            if j < k {
                                assert(next@[j] == done[j]);
                            }
                        }
                    }
                },
                None => {},
            }
        }
        self.population = next;
    }

    /// Sends the first person with the identifier `person_id` on `journey`,
    /// carrying the order `order_id`, and tells whether there is such a
    /// person. What the person does is left as it is.
    pub fn start_journey(
        &mut self,
        person_id: PersonId,
        order_id: Option<OrderId>,
        journey: Journey,
    ) -> (found: bool)
        requires
            old(self).wf(),
            journey.wf(),
        ensures
            final(self).wf(),
            final(self).population@.len() == old(self).population@.len(),
            found == exists|i: int| is_person_index(old(self).population@, person_id, i),
            forall|i: int|
                0 <= i < old(self).population@.len() ==> person_set_out(
                    old(self).population@,
                    i,
                    #[trigger] final(self).population@[i],
                    person_id,
                    order_id,
                    journey,
                ),
    {
        let ghost before = self.population@;
        let mut taken: Vec<Person> = Vec::new();
        std::mem::swap(&mut taken, &mut self.population);
        let mut stack = turned_round(taken);
        let mut next: Vec<Person> = Vec::new();
        let mut pending: Option<Journey> = Some(journey);
        while stack.len() > 0
            invariant
                journeys_sound(before),
                journey.wf(),
                stack@.len() + next@.len() == before.len(),
                forall|j: int|
                    0 <= j < stack@.len() ==> stack@[j] == before[before.len() - 1 - j],
                forall|j: int|
                    0 <= j < next@.len() ==> person_set_out(
                        before,
                        j,
                        #[trigger] next@[j],
                        person_id,
                        order_id,
                        journey,
                    ),
                journeys_sound(next@),
                pending is Some <==> forall|j: int| 0 <= j < next@.len() ==> before[j].id != person_id,
                pending matches Some(p) ==> p == journey,
            decreases stack@.len(),
        {
            let ghost k = next@.len() as int;
            let ghost done = next@;
            match stack.pop() {
                Some(person) => {
                    assert(person == before[k]);
                    assert(before[k].journey matches Some(t) ==> t.wf());
                    if person.id.0 == person_id.0 && pending.is_some() {
                        let Person { id, role, status, position, tile, order_tile, order_id: _, eating_until, journey: _ } =
                            person;
                        let mut travel: Option<Journey> = None;
                        std::mem::swap(&mut travel, &mut pending);
                        assert(is_person_index(before, person_id, k));
                        next.push(
                            Person {
                                id,
                                role,
                                status,
                                position,
                                tile,
                                order_tile,
                                order_id,
                                eating_until,
                                journey: travel,
                            },
                        );
                    } else {
                        assert(!is_person_index(before, person_id, k));
                        next.push(person);
                    }
                    proof {
                        assert forall|j: int| 0 <= j < next@.len() implies person_set_out(
                            before,
                            j,
                            #[trigger] next@[j],
                            person_id,
                            order_id,
                            journey,
                        ) by {
                            if j < k {
                                assert(next@[j] == done[j]);
                            }
                        }
                        assert forall|j: int| 0 <= j < next@.len() implies ((#[trigger] next@[j]).journey matches Some(
                            t,
                        ) ==> t.wf()) by {
                            if j < k {
                                assert(next@[j] == done[j]);
                            }
                        }
                    }
                },
                None => {},
            }
        }
        self.population = next;
        proof {
            if pending is None {
                let j = choose|j: int| 0 <= j < before.len() && before[j].id == person_id;
                lemma_first_person(before, person_id, j);
            }
        }
        pending.is_none()
    }
}

/// If some person has the identifier `id`, one of them is the first.
pub proof fn lemma_first_person(people: Seq<Person>, id: PersonId, j: int)
    requires
        0 <= j < people.len(),
        people[j].id == id,
    ensures
        exists|i: int| is_person_index(people, id, i),
    decreases j,
{
    if exists|k: int| 0 <= k < j && people[k].id == id {
        let k = choose|k: int| 0 <= k < j && people[k].id == id;
        lemma_first_person(people, id, k);
    } else {
        assert(is_person_index(people, id, j));
    }
}

/// A copy of `journey`.
pub fn copy_journey(journey: &Journey) -> (copy: Journey)
    ensures
        same_journey(*journey, copy),
        journey.wf() ==> copy.wf(),
{
    let mut legs: Vec<JourneyLeg> = Vec::new();
    let mut i: usize = 0;
    while i < journey.legs.len()
        invariant
            i <= journey.legs.len(),
            legs@ == journey.legs@.take(i as int),
        decreases journey.legs.len() - i,
    {
        legs.push(journey.legs[i]);
        assert(journey.legs@.take(i + 1) =~= journey.legs@.take(i as int).push(
            journey.legs@[i as int],
        ));
        i += 1;
    }
    assert(journey.legs@.take(journey.legs@.len() as int) =~= journey.legs@);
    Journey {
        transport: journey.transport,
        legs,
        current_leg_index: journey.current_leg_index,
        current_leg_offset: journey.current_leg_offset,
    }
}

impl PopulationHandler {
    /// The population table as it is now, row by row.
    pub fn snapshot(&self) -> (taken: Vec<Person>)
        requires
            self.wf(),
        ensures
            taken@.len() == self.population@.len(),
            forall|i: int|
                0 <= i < taken@.len() ==> same_row(self.population@[i], #[trigger] taken@[i]),
            journeys_sound(taken@),
            people_distinct(taken@),
    {
        let mut taken: Vec<Person> = Vec::new();
        let mut i: usize = 0;
        while i < self.population.len()
            invariant
                self.wf(),
                i <= self.population.len(),
                taken@.len() == i,
                forall|j: int| 0 <= j < i ==> same_row(self.population@[j], #[trigger] taken@[j]),
                journeys_sound(taken@),
            decreases self.population.len() - i,
        {
            let person = &self.population[i];
            assert(person.journey matches Some(t) ==> t.wf());
            let journey = match &person.journey {
                Some(travel) => Some(copy_journey(travel)),
                None => None,
            };
            let ghost before = taken@;
            taken.push(
                Person {
                    id: person.id,
                    role: person.role,
                    status: person.status,
                    position: person.position,
                    tile: person.tile,
                    order_tile: person.order_tile,
                    order_id: person.order_id,
                    eating_until: person.eating_until,
                    journey,
                },
            );
            proof {
                assert forall|j: int| 0 <= j < taken@.len() implies same_row(
                    self.population@[j],
                    #[trigger] taken@[j],
                ) by {
                    if j < before.len() {
                        assert(taken@[j] == before[j]);
                    }
                }
                assert forall|j: int| 0 <= j < taken@.len() implies ((#[trigger] taken@[j]).journey matches Some(
                    t,
                ) ==> t.wf()) by {
                    if j < before.len() {
                        assert(taken@[j] == before[j]);
                    }
                }
            }
            i += 1;
        }
        taken
    }

    /// The place of every idle person and of every traveller, row by row:
    /// where each person is.
    pub fn get_current_positions(&self) -> (positions: Vec<(PersonId, Point)>)
        ensures
            positions@.len() == self.population@.len(),
            forall|i: int|
                0 <= i < positions@.len() ==> (#[trigger] positions@[i]).0
                    == self.population@[i].id && positions@[i].1 == self.population@[i].position,
    {
        let mut positions: Vec<(PersonId, Point)> = Vec::new();
        let mut i: usize = 0;
        while i < self.population.len()
            invariant
                i <= self.population.len(),
                positions@.len() == i,
                forall|j: int|
                    0 <= j < i ==> (#[trigger] positions@[j]).0 == self.population@[j].id
                        && positions@[j].1 == self.population@[j].position,
            decreases self.population.len() - i,
        {
            positions.push((self.population[i].id, self.population[i].position));
            i += 1;
        }
        positions
    }
}

/// The rows that a handler gives out as its snapshot make a handler again:
/// their journeys are sound and their identifiers differ.
pub proof fn law_population_snapshot_is_taken_back(handler: &PopulationHandler, taken: Seq<Person>)
    requires
        handler.wf(),
        taken.len() == handler.population@.len(),
        forall|i: int| 0 <= i < taken.len() ==> same_row(handler.population@[i], #[trigger] taken[i]),
    ensures
        journeys_sound(taken),
        people_distinct(taken),
{
    assert forall|i: int| 0 <= i < taken.len() implies handler.population@[i].id == (
    #[trigger] taken[i]).id by {
        assert(same_row(handler.population@[i], taken[i]));
    }
    lemma_ids_kept(handler.population@, taken);
    assert forall|i: int| 0 <= i < taken.len() implies ((#[trigger] taken[i]).journey matches Some(
        j,
    ) ==> j.wf()) by {
        assert(same_row(handler.population@[i], taken[i]));
        assert(handler.population@[i].journey matches Some(t) ==> t.wf());
    }
}

/// Whether `after` is the row `before` without its journey if that journey
/// is done, and the row `before` itself otherwise.
pub open spec fn journey_collected(before: Person, after: Person) -> bool {
    if before.journey matches Some(j) && j.spec_is_done() {
        &&& same_person(before, after)
        &&& after.status == before.status
        &&& after.position == before.position
        &&& after.tile == before.tile
        &&& after.order_tile == before.order_tile
        &&& after.order_id == before.order_id
        &&& after.eating_until == before.eating_until
        &&& after.journey is None
    } else {
        same_row(before, after)
    }
}

/// The places of the people among the first `n` whose journey is done.
pub open spec fn arrived_upto(people: Seq<Person>, n: int) -> Seq<int>
    decreases n,
{
    if n <= 0 {
        Seq::empty()
    } else if people[n - 1].journey matches Some(j) && j.spec_is_done() {
        arrived_upto(people, n - 1).push(n - 1)
    } else {
        arrived_upto(people, n - 1)
    }
}

/// Whether the `e`-th journey collected is that of the `e`-th person whose
/// journey is done.
pub open spec fn collected_matches(
    collected: Seq<(PersonId, Journey)>,
    people: Seq<Person>,
    e: int,
) -> bool {
    let who = arrived_upto(people, people.len() as int)[e];
    &&& collected[e].0 == people[who].id
    &&& people[who].journey matches Some(j)
    &&& same_journey(j, collected[e].1)
}

impl PopulationHandler {
    /// Takes the journeys that are done away from the people and returns
    /// them, each with the one who made it, in the order of the population
    /// table.
    pub fn get_completed_journeys(&mut self) -> (collected: Vec<(PersonId, Journey)>)
        requires
            old(self).wf(),
        ensures
            final(self).wf(),
            final(self).population@.len() == old(self).population@.len(),
            forall|i: int|
                0 <= i < old(self).population@.len() ==> journey_collected(
                    old(self).population@[i],
                    #[trigger] final(self).population@[i],
                ),
            collected@.len() == arrived_upto(
                old(self).population@,
                old(self).population@.len() as int,
            ).len(),
            forall|e: int|
                0 <= e < collected@.len() ==> #[trigger] collected_matches(
                    collected@,
                    old(self).population@,
                    e,
                ),
    {
        let ghost before = self.population@;
        let mut taken: Vec<Person> = Vec::new();
        std::mem::swap(&mut taken, &mut self.population);
        let mut stack = turned_round(taken);
        let mut next: Vec<Person> = Vec::new();
        let mut collected: Vec<(PersonId, Journey)> = Vec::new();
        while stack.len() > 0
            invariant
                journeys_sound(before),
                stack@.len() + next@.len() == before.len(),
                forall|j: int|
                    0 <= j < stack@.len() ==> stack@[j] == before[before.len() - 1 - j],
                forall|j: int|
                    0 <= j < next@.len() ==> journey_collected(before[j], #[trigger] next@[j]),
                journeys_sound(next@),
                collected@.len() == arrived_upto(before, next@.len() as int).len(),
                forall|e: int|
                    0 <= e < collected@.len() ==> {
                        let who = #[trigger] arrived_upto(before, next@.len() as int)[e];
                        &&& collected@[e].0 == before[who].id
                        &&& before[who].journey matches Some(j)
                        &&& same_journey(j, collected@[e].1)
                    },
            decreases stack@.len(),
        {
            let ghost k = next@.len() as int;
            let ghost done = next@;
            let ghost had = collected@;
            let ghost listed = arrived_upto(before, k);
            match stack.pop() {
                Some(person) => {
                    assert(person == before[k]);
                    assert(before[k].journey matches Some(t) ==> t.wf());
                    let Person { id, role, status, position, tile, order_tile, order_id, eating_until, journey } =
                        person;
                    let kept = match journey {
                        Some(travel) => {
                            if travel.is_done() {
                                collected.push((id, travel));
                                None
                            } else {
                                Some(travel)
                            }
                        },
                        None => None,
                    };
                    next.push(
                        Person {
                            id,
                            role,
                            status,
                            position,
                            tile,
                            order_tile,
                            order_id,
                            eating_until,
                            journey: kept,
                        },
                    );
                    proof {
                        assert forall|j: int| 0 <= j < next@.len() implies journey_collected(
                            before[j],
                            #[trigger] next@[j],
                        ) by {
                            if j < k {
                                assert(next@[j] == done[j]);
                            }
                        }
                        assert forall|j: int| 0 <= j < next@.len() implies ((#[trigger] next@[j]).journey matches Some(
                            t,
                        ) ==> t.wf()) by {
                            if j < k {
                                assert(next@[j] == done[j]);
                            }
                        }
                        let now_listed = arrived_upto(before, k + 1);
                        assert forall|e: int| 0 <= e < collected@.len() implies {
                            let who = #[trigger] now_listed[e];
                            &&& collected@[e].0 == before[who].id
                            &&& before[who].journey matches Some(j)
                            &&& same_journey(j, collected@[e].1)
                        } by {
                            if e < had.len() {
                                assert(collected@[e] == had[e]);
                                assert(now_listed[e] == listed[e]);
                            }
                        }
                    }
                },
                None => {},
            }
        }
        self.population = next;
        collected
    }
}

/// What a person does, with what belongs to it: the order that is awaited
/// or carried, the instant until which a customer eats, the journey that is
/// travelled.
#[derive(Debug)]
pub enum PersonStatus {
    Idle,
    AwaitingOrder(OrderId),
    Eating(i64),
    Moving(Journey),
    Delivering(OrderId, Journey),
    WaitingForCustomer(OrderId, Journey),
}

impl PersonStatus {
    /// What the person does, without what belongs to it.
    pub open spec fn spec_flag(self) -> PersonStatusFlag {
        match self {
            PersonStatus::Idle => PersonStatusFlag::Idle,
            PersonStatus::AwaitingOrder(_) => PersonStatusFlag::AwaitingOrder,
            PersonStatus::Eating(_) => PersonStatusFlag::Eating,
            PersonStatus::Moving(_) => PersonStatusFlag::Moving,
            PersonStatus::Delivering(_, _) => PersonStatusFlag::Delivering,
            PersonStatus::WaitingForCustomer(_, _) => PersonStatusFlag::WaitingForCustomer,
        }
    }

    /// What the person does, without what belongs to it.
    pub fn flag(&self) -> (flag: PersonStatusFlag)
        ensures
            flag == self.spec_flag(),
    {
        match self {
            PersonStatus::Idle => PersonStatusFlag::Idle,
            PersonStatus::AwaitingOrder(_) => PersonStatusFlag::AwaitingOrder,
            PersonStatus::Eating(_) => PersonStatusFlag::Eating,
            PersonStatus::Moving(_) => PersonStatusFlag::Moving,
            PersonStatus::Delivering(_, _) => PersonStatusFlag::Delivering,
            PersonStatus::WaitingForCustomer(_, _) => PersonStatusFlag::WaitingForCustomer,
        }
    }
}

/// Whether what the row holds is what its status needs: a journey exactly
/// when the person moves, delivers or waits for the customer, an order
/// exactly when the person awaits, delivers or hands over one, and an end of
/// the meal exactly when the person eats.
pub open spec fn status_consistent(person: Person) -> bool {
    &&& person.journey is Some <==> (person.status == PersonStatusFlag::Moving || person.status
        == PersonStatusFlag::Delivering || person.status == PersonStatusFlag::WaitingForCustomer)
    &&& person.order_id is Some <==> (person.status == PersonStatusFlag::AwaitingOrder
        || person.status == PersonStatusFlag::Delivering || person.status
        == PersonStatusFlag::WaitingForCustomer)
    &&& person.eating_until is Some <==> person.status == PersonStatusFlag::Eating
}

impl Person {
    /// The row of the person `id` who does `state` at `position`.
    pub fn new(
        id: PersonId,
        role: PersonRole,
        position: Point,
        tile: TileCode,
        order_tile: TileCode,
        state: PersonStatus,
    ) -> (person: Person)
        ensures
            person.id == id,
            person.role == role,
            person.position == position,
            person.tile == tile,
            person.order_tile == order_tile,
            person.status == state.spec_flag(),
            status_consistent(person),
            match state {
                PersonStatus::Idle => true,
                PersonStatus::AwaitingOrder(order) => person.order_id == Some(order),
                PersonStatus::Eating(until) => person.eating_until == Some(until),
                PersonStatus::Moving(journey) => person.journey == Some(journey),
                PersonStatus::Delivering(order, journey) => person.order_id == Some(order)
                    && person.journey == Some(journey),
                PersonStatus::WaitingForCustomer(order, journey) => person.order_id == Some(order)
                    && person.journey == Some(journey),
            },
    {
        let status = state.flag();
        let (order_id, eating_until, journey) = match state {
            PersonStatus::Idle => (None, None, None),
            PersonStatus::AwaitingOrder(order) => (Some(order), None, None),
            PersonStatus::Eating(until) => (None, Some(until), None),
            PersonStatus::Moving(journey) => (None, None, Some(journey)),
            PersonStatus::Delivering(order, journey) => (Some(order), None, Some(journey)),
            PersonStatus::WaitingForCustomer(order, journey) => (Some(order), None, Some(journey)),
        };
        Person { id, role, status, position, tile, order_tile, order_id, eating_until, journey }
    }
}

} // verus!
