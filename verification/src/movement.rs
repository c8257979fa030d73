//! Journeys: a row of legs, and how far along them a traveller is.
//!
//! Distances along a journey are counted in steps of 1/3600 of a metre. At
//! one kilometre per hour a traveller covers exactly one such step each
//! millisecond, so that a velocity in whole kilometres per hour and a time in
//! whole milliseconds give a whole number of steps.

use vstd::prelude::*;
use crate::geo::{interpolate, spec_interpolate, Point};

verus! {

/// How many steps of distance make one metre.
pub const STEPS_PER_METRE: u64 = 3600;

/// How a traveller moves.
#[derive(Debug, Clone, Copy, PartialEq, Eq, Hash, Structural)]
pub enum Transport {
    Foot,
    Bicycle,
    Car,
    Bus,
    Train,
    Plane,
    Ship,
}

impl Default for Transport {
    fn default() -> (t: Transport)
        ensures
            t == Transport::Bicycle,
    {
        Transport::Bicycle
    }
}

impl Transport {
    /// The velocity of the transport, in kilometres per hour.
    pub open spec fn spec_velocity_km_h(self) -> u64 {
        match self {
            Transport::Foot => 5,
            Transport::Bicycle => 15,
            Transport::Car => 60,
            Transport::Bus => 30,
            Transport::Train => 100,
            Transport::Plane => 800,
            Transport::Ship => 20,
        }
    }

    /// The velocity of the transport, in kilometres per hour; it is also the
    /// number of steps of distance covered per millisecond.
    pub fn default_velocity_km_h(&self) -> (v: u64)
        ensures
            v == self.spec_velocity_km_h(),
            5 <= v <= 800,
    {
        match self {
            Transport::Foot => 5,
            Transport::Bicycle => 15,
            Transport::Car => 60,
            Transport::Bus => 30,
            Transport::Train => 100,
            Transport::Plane => 800,
            Transport::Ship => 20,
        }
    }

    /// The name of the transport as it is written in tables.
    pub open spec fn spec_text(self) -> Seq<char> {
        match self {
            Transport::Foot => "foot"@,
            Transport::Bicycle => "bicycle"@,
            Transport::Car => "car"@,
            Transport::Bus => "bus"@,
            Transport::Train => "train"@,
            Transport::Plane => "plane"@,
            Transport::Ship => "ship"@,
        }
    }

    /// The name of the transport as it is written in tables.
    pub fn as_str(&self) -> (s: &'static str)
        ensures
            s@ == self.spec_text(),
    {
        match self {
            Transport::Foot => "foot",
            Transport::Bicycle => "bicycle",
            Transport::Car => "car",
            Transport::Bus => "bus",
            Transport::Train => "train",
            Transport::Plane => "plane",
            Transport::Ship => "ship",
        }
    }
}

/// One leg of a journey: a straight line to `destination`.
#[derive(Debug, Clone, Copy, PartialEq, Eq, Structural)]
pub struct JourneyLeg {
    /// Where the leg ends.
    pub destination: Point,
    /// The length of the leg, in metres.
    pub distance_m: u64,
}

/// The length of leg `i`, in steps of distance.
pub open spec fn leg_steps(legs: Seq<JourneyLeg>, i: int) -> int {
    legs[i].distance_m * STEPS_PER_METRE
}

/// The length of the first `n` legs together, in metres.
pub open spec fn legs_distance_m(legs: Seq<JourneyLeg>, n: int) -> int
    decreases n,
{
    if n <= 0 {
        0
    } else {
        legs_distance_m(legs, n - 1) + legs[n - 1].distance_m
    }
}

/// Where a traveller is on a journey: on leg `cursor`, `offset` steps of
/// distance into it.
pub struct Place {
    pub cursor: int,
    pub offset: int,
}

/// Where a traveller who stands at `cursor` and `offset` is after `budget`
/// more steps of distance: legs are completed while the budget lasts, and
/// what is left of it is spent on the leg after them.
pub open spec fn advance_from(legs: Seq<JourneyLeg>, cursor: int, offset: int, budget: int) -> Place
    decreases legs.len() - cursor,
{
    if cursor < 0 || cursor >= legs.len() || budget <= 0 {
        Place { cursor, offset }
    } else if leg_steps(legs, cursor) - offset <= budget {
        advance_from(legs, cursor + 1, 0, budget - (leg_steps(legs, cursor) - offset))
    } else {
        Place { cursor, offset: offset + budget }
    }
}

/// The positions a traveller who stands at `cursor` and `offset` passes in
/// `budget` more steps of distance: the end of each leg completed, and then,
/// if the budget ends within a leg, one more position. That position lies
/// on the line from the end of the leg before to the end of the leg the
/// traveller is on, as far along it as the traveller is; if no leg was
/// completed on the way, it is the end of the leg the traveller is on.
pub open spec fn positions_from(
    legs: Seq<JourneyLeg>,
    cursor: int,
    offset: int,
    budget: int,
    previous: Option<Point>,
) -> Seq<Point>
    decreases legs.len() - cursor,
{
    if cursor < 0 || cursor >= legs.len() || budget <= 0 {
        Seq::empty()
    } else if leg_steps(legs, cursor) - offset <= budget {
        seq![legs[cursor].destination] + positions_from(
            legs,
            cursor + 1,
            0,
            budget - (leg_steps(legs, cursor) - offset),
            Some(legs[cursor].destination),
        )
    } else {
        match previous {
            Some(from) => seq![
                spec_interpolate(from, legs[cursor].destination, budget, leg_steps(legs, cursor)),
            ],
            None => seq![legs[cursor].destination],
        }
    }
}

/// A share of a whole, as a fraction.
#[derive(Debug, Clone, Copy, PartialEq, Eq, Structural)]
pub struct Ratio {
    pub numerator: u128,
    pub denominator: u128,
}

/// A journey and how far along it the traveller is.
#[derive(Debug)]
pub struct Journey {
    /// How the traveller moves.
    pub transport: Transport,
    /// The legs of the journey, in the order in which they are travelled.
    pub legs: Vec<JourneyLeg>,
    /// The leg the traveller is on; the number of legs when the journey is
    /// done.
    pub current_leg_index: usize,
    /// How far into the current leg the traveller is, in steps of distance.
    pub current_leg_offset: u128,
}

impl Journey {
    /// What holds of every journey: the traveller is on one of the legs and
    /// short of its end, or past the last leg; every leg ends on the globe;
    /// and the legs together are no longer than a `u64` counts metres.
    pub open spec fn wf(&self) -> bool {
        &&& self.current_leg_index <= self.legs@.len()
        &&& self.current_leg_index == self.legs@.len() ==> self.current_leg_offset == 0
        &&& self.current_leg_index < self.legs@.len() ==> self.current_leg_offset == 0
            || self.current_leg_offset < leg_steps(self.legs@, self.current_leg_index as int)
        &&& forall|i: int| 0 <= i < self.legs@.len() ==> (#[trigger] self.legs@[i]).destination.spec_on_globe()
        &&& legs_distance_m(self.legs@, self.legs@.len() as int) <= u64::MAX
    }

    /// Where the traveller is.
    pub open spec fn place(&self) -> Place {
        Place { cursor: self.current_leg_index as int, offset: self.current_leg_offset as int }
    }

    /// Whether the journey is done: the traveller is past the last leg.
    pub open spec fn spec_is_done(&self) -> bool {
        self.current_leg_index >= self.legs@.len()
    }

    /// The distance completed so far, in steps of distance.
    pub open spec fn spec_completed_steps(&self) -> int {
        legs_distance_m(self.legs@, self.current_leg_index as int) * STEPS_PER_METRE
            + self.current_leg_offset
    }

    /// The length of the whole journey, in steps of distance.
    pub open spec fn spec_total_steps(&self) -> int {
        legs_distance_m(self.legs@, self.legs@.len() as int) * STEPS_PER_METRE
    }

    /// A journey along `legs` that has not begun, or `None` if a leg ends
    /// off the globe or the legs together are longer than a `u64` counts
    /// metres.
    pub fn new(transport: Transport, legs: Vec<JourneyLeg>) -> (journey: Option<Journey>)
        ensures
            journey is Some <==> (forall|i: int|
                0 <= i < legs@.len() ==> (#[trigger] legs@[i]).destination.spec_on_globe())
                && legs_distance_m(legs@, legs@.len() as int) <= u64::MAX,
            journey matches Some(j) ==> j.wf() && j.transport == transport && j.legs == legs
                && j.current_leg_index == 0 && j.current_leg_offset == 0,
    {
        let mut total: u64 = 0;
        let mut i: usize = 0;
        while i < legs.len()
            invariant
                i <= legs.len(),
                total == legs_distance_m(legs@, i as int),
                forall|j: int|
                    0 <= j < i ==> (#[trigger] legs@[j]).destination.spec_on_globe(),
            decreases legs.len() - i,
        {
            let leg = legs[i];
            if !leg.destination.on_globe() {
                return None;
            }
            if leg.distance_m > u64::MAX - total {
                proof {
                    lemma_distance_grows(legs@, i + 1, legs@.len() as int);
                }
                return None;
            }
            total = total + leg.distance_m;
            i += 1;
        }
        Some(Journey { transport, legs, current_leg_index: 0, current_leg_offset: 0 })
    }

    /// Whether the journey is sound; see [`Journey::wf`].
    pub fn is_sound(&self) -> (sound: bool)
        ensures
            sound == self.wf(),
    {
        let n = self.legs.len();
        if self.current_leg_index > n {
            return false;
        }
        if self.current_leg_index == n {
            if self.current_leg_offset != 0 {
                return false;
            }
        } else {
            let metres: u128 = self.legs[self.current_leg_index].distance_m as u128;
            let per_metre: u128 = STEPS_PER_METRE as u128;
            assert(per_metre == 3600);
            let length: u128 = metres * per_metre;
            if self.current_leg_offset != 0 && self.current_leg_offset >= length {
                return false;
            }
        }
        let mut total: u64 = 0;
        let mut i: usize = 0;
        while i < n
            invariant
                n == self.legs@.len(),
                i <= n,
                total == legs_distance_m(self.legs@, i as int),
                forall|j: int|
                    0 <= j < i ==> (#[trigger] self.legs@[j]).destination.spec_on_globe(),
            decreases n - i,
        {
            let leg = self.legs[i];
            if !leg.destination.on_globe() {
                return false;
            }
            if leg.distance_m > u64::MAX - total {
                proof {
                    lemma_distance_grows(self.legs@, i + 1, n as int);
                }
                return false;
            }
            total = total + leg.distance_m;
            i += 1;
        }
        true
    }

    /// A journey by bicycle along `legs` that has not begun; see
    /// [`Journey::new`].
    pub fn from_legs(legs: Vec<JourneyLeg>) -> (journey: Option<Journey>)
        ensures
            journey is Some <==> (forall|i: int|
                0 <= i < legs@.len() ==> (#[trigger] legs@[i]).destination.spec_on_globe())
                && legs_distance_m(legs@, legs@.len() as int) <= u64::MAX,
            journey matches Some(j) ==> j.wf() && j.transport == Transport::Bicycle && j.legs
                == legs && j.current_leg_index == 0 && j.current_leg_offset == 0,
    {
        Journey::new(Transport::Bicycle, legs)
    }

    /// The length of the whole journey, in metres.
    pub fn distance_m(&self) -> (d: u64)
        requires
            self.wf(),
        ensures
            d == legs_distance_m(self.legs@, self.legs@.len() as int),
    {
        self.distance_upto(self.legs.len())
    }

    /// The length of the whole journey, in metres.
    pub fn total_distance_m(&self) -> (d: u64)
        requires
            self.wf(),
        ensures
            d == legs_distance_m(self.legs@, self.legs@.len() as int),
    {
        self.distance_upto(self.legs.len())
    }

    /// The length of the first `n` legs together, in metres.
    fn distance_upto(&self, n: usize) -> (d: u64)
        requires
            self.wf(),
            n <= self.legs@.len(),
        ensures
            d == legs_distance_m(self.legs@, n as int),
    {
        let mut total: u64 = 0;
        let mut i: usize = 0;
        while i < n
            invariant
                self.wf(),
                i <= n,
                n <= self.legs@.len(),
                total == legs_distance_m(self.legs@, i as int),
            decreases n - i,
        {
            proof {
                lemma_distance_grows(self.legs@, i + 1, self.legs@.len() as int);
            }
            total = total + self.legs[i].distance_m;
            i += 1;
        }
        total
    }

    /// Whether the journey is done.
    pub fn is_done(&self) -> (done: bool)
        ensures
            done == self.spec_is_done(),
    {
        self.current_leg_index >= self.legs.len()
    }

    /// Whether the traveller has set out.
    pub fn has_started(&self) -> (started: bool)
        ensures
            started == (self.current_leg_offset > 0 || self.current_leg_index > 0),
    {
        self.current_leg_offset > 0 || self.current_leg_index > 0
    }

    /// The legs of the journey.
    pub fn full_journey(&self) -> (legs: &Vec<JourneyLeg>)
        ensures
            legs == &self.legs,
    {
        &self.legs
    }

    /// The leg the traveller is on and how far into it, in steps of
    /// distance.
    pub fn progress(&self) -> (at: (usize, u128))
        ensures
            at.0 == self.current_leg_index,
            at.1 == self.current_leg_offset,
    {
        (self.current_leg_index, self.current_leg_offset)
    }

    /// The distance completed so far, in steps of distance.
    pub fn distance_completed_steps(&self) -> (steps: u128)
        requires
            self.wf(),
        ensures
            steps == self.spec_completed_steps(),
            steps <= self.spec_total_steps(),
    {
        let whole = self.distance_upto(self.current_leg_index);
        proof {
            lemma_distance_grows(
                self.legs@,
                self.current_leg_index as int,
                self.legs@.len() as int,
            );
            if self.current_leg_index < self.legs@.len() {
                lemma_distance_grows(
                    self.legs@,
                    self.current_leg_index + 1,
                    self.legs@.len() as int,
                );
            }
        }
        (whole as u128) * (STEPS_PER_METRE as u128) + self.current_leg_offset
    }

    /// The distance completed so far, in whole metres.
    pub fn distance_completed_m(&self) -> (d: u64)
        requires
            self.wf(),
        ensures
            d == self.spec_completed_steps() / (STEPS_PER_METRE as int),
    {
        let steps = self.distance_completed_steps();
        (steps / (STEPS_PER_METRE as u128)) as u64
    }

    /// The distance still to go, in steps of distance.
    pub fn distance_remaining_steps(&self) -> (steps: u128)
        requires
            self.wf(),
        ensures
            steps == self.spec_total_steps() - self.spec_completed_steps(),
            steps <= u64::MAX * STEPS_PER_METRE,
    {
        let total = self.total_distance_m();
        let done = self.distance_completed_steps();
        (total as u128) * (STEPS_PER_METRE as u128) - done
    }

    /// The distance still to go, in whole metres.
    pub fn distance_remaining_m(&self) -> (d: u64)
        requires
            self.wf(),
        ensures
            d == (self.spec_total_steps() - self.spec_completed_steps()) / (STEPS_PER_METRE as int),
    {
        let steps = self.distance_remaining_steps();
        (steps / (STEPS_PER_METRE as u128)) as u64
    }

    /// The share of the journey that is completed: the distance completed
    /// over the whole distance, and one whole for a journey of no length.
    pub fn progress_percentage(&self) -> (share: Ratio)
        requires
            self.wf(),
        ensures
            share.denominator > 0,
            share.numerator <= share.denominator,
            self.spec_total_steps() == 0 ==> share.numerator == 1 && share.denominator == 1,
            self.spec_total_steps() > 0 ==> share.numerator == self.spec_completed_steps()
                && share.denominator == self.spec_total_steps(),
    {
        let total = self.total_distance_m();
        if total == 0 {
            return Ratio { numerator: 1, denominator: 1 };
        }
        let done = self.distance_completed_steps();
        Ratio { numerator: done, denominator: (total as u128) * (STEPS_PER_METRE as u128) }
    }

    /// The time the rest of the journey takes at the velocity of the
    /// transport, in whole seconds.
    pub fn estimated_time_remaining_s(&self) -> (seconds: u64)
        requires
            self.wf(),
        ensures
            seconds == (self.spec_total_steps() - self.spec_completed_steps()) / (1000
                * self.transport.spec_velocity_km_h()),
    {
        let steps = self.distance_remaining_steps();
        let v = self.transport.default_velocity_km_h();
        let per_second: u128 = 1000 * (v as u128);
        assert(steps / per_second <= u64::MAX) by (nonlinear_arith)
            requires
                0 <= steps <= u64::MAX * 3600,
                5000 <= per_second,
        ;
        (steps / per_second) as u64
    }

    /// Turns the journey round: the legs are travelled in the opposite
    /// order, and the traveller stands at the beginning.
    pub fn reset_reverse(&mut self)
        requires
            old(self).wf(),
        ensures
            final(self).wf(),
            final(self).transport == old(self).transport,
            final(self).legs@ == old(self).legs@.reverse(),
            final(self).current_leg_index == 0,
            final(self).current_leg_offset == 0,
    {
        let n = self.legs.len();
        let mut turned: Vec<JourneyLeg> = Vec::new();
        let mut i: usize = 0;
        while i < n
            invariant
                *self == *old(self),
                n == self.legs@.len(),
                i <= n,
                turned@.len() == i,
                forall|j: int| 0 <= j < i ==> turned@[j] == self.legs@[n - 1 - j],
            decreases n - i,
        {
            turned.push(self.legs[n - 1 - i]);
            i += 1;
        }
        proof {
            assert(turned@ =~= self.legs@.reverse());
            lemma_distance_of_reverse(self.legs@, n as int);
        }
        self.legs = turned;
        self.current_leg_index = 0;
        self.current_leg_offset = 0;
    }

    /// Moves the traveller on for `time_step_ms` milliseconds at the
    /// velocity of the transport, and returns the positions passed.
    ///
    /// The traveller never moves backwards, and does not move at all in no
    /// time or when the journey is done.
    pub fn advance(&mut self, time_step_ms: u64) -> (positions: Vec<Point>)
        requires
            old(self).wf(),
        ensures
            final(self).wf(),
            final(self).transport == old(self).transport,
            final(self).legs == old(self).legs,
            final(self).place() == advance_from(
                old(self).legs@,
                old(self).current_leg_index as int,
                old(self).current_leg_offset as int,
                old(self).transport.spec_velocity_km_h() * time_step_ms,
            ),
            positions@ == positions_from(
                old(self).legs@,
                old(self).current_leg_index as int,
                old(self).current_leg_offset as int,
                old(self).transport.spec_velocity_km_h() * time_step_ms,
                None,
            ),
            final(self).current_leg_index > old(self).current_leg_index || (final(self).current_leg_index
                == old(self).current_leg_index && final(self).current_leg_offset
                >= old(self).current_leg_offset),
    {
        let v = self.transport.default_velocity_km_h();
        assert(v * time_step_ms <= 800 * 0xffff_ffff_ffff_ffff) by (nonlinear_arith)
            requires
                5 <= v <= 800,
                0 <= time_step_ms <= 0xffff_ffff_ffff_ffff,
        ;
        let mut budget: u128 = (v as u128) * (time_step_ms as u128);
        let mut positions: Vec<Point> = Vec::new();
        let mut previous: Option<Point> = None;
        let ghost start_budget = budget as int;
        while budget > 0 && self.current_leg_index < self.legs.len()
            invariant
                self.wf(),
                self.transport == old(self).transport,
                self.legs == old(self).legs,
                self.current_leg_index >= old(self).current_leg_index,
                self.current_leg_index == old(self).current_leg_index
                    ==> self.current_leg_offset >= old(self).current_leg_offset,
                previous matches Some(p) ==> p.spec_on_globe() && (budget > 0
                    ==> self.current_leg_offset == 0),
                advance_from(
                    old(self).legs@,
                    old(self).current_leg_index as int,
                    old(self).current_leg_offset as int,
                    start_budget,
                ) == advance_from(
                    self.legs@,
                    self.current_leg_index as int,
                    self.current_leg_offset as int,
                    budget as int,
                ),
                positions_from(
                    old(self).legs@,
                    old(self).current_leg_index as int,
                    old(self).current_leg_offset as int,
                    start_budget,
                    None,
                ) == positions@ + positions_from(
                    self.legs@,
                    self.current_leg_index as int,
                    self.current_leg_offset as int,
                    budget as int,
                    previous,
                ),
            decreases self.legs@.len() - self.current_leg_index, budget,
        {
            let leg = self.legs[self.current_leg_index];
            let length: u128 = (leg.distance_m as u128) * (STEPS_PER_METRE as u128);
            let rest: u128 = length - self.current_leg_offset;
            let ghost told = positions@;
            let ghost tail = positions_from(
                self.legs@,
                self.current_leg_index as int,
                self.current_leg_offset as int,
                budget as int,
                previous,
            );
            if rest <= budget {
                positions.push(leg.destination);
                budget = budget - rest;
                self.current_leg_index = self.current_leg_index + 1;
                self.current_leg_offset = 0;
                previous = Some(leg.destination);
                proof {
                    let rest_tail = positions_from(
                        self.legs@,
                        self.current_leg_index as int,
                        0,
                        budget as int,
                        previous,
                    );
                    assert(tail == seq![leg.destination] + rest_tail);
                    assert(told + tail =~= told.push(leg.destination) + rest_tail);
                }
            } else {
                let at = match previous {
                    Some(from) => interpolate(&from, &leg.destination, budget, length),
                    None => leg.destination,
                };
                positions.push(at);
                self.current_leg_offset = self.current_leg_offset + budget;
                proof {
                    assert(tail == seq![at]);
                    assert(told + tail =~= told.push(at));
                    assert(positions_from(
                        self.legs@,
                        self.current_leg_index as int,
                        self.current_leg_offset as int,
                        0,
                        previous,
                    ) =~= Seq::<Point>::empty());
                    assert(told.push(at) + Seq::<Point>::empty() =~= told.push(at));
                }
                budget = 0;
            }
        }
        proof {
            assert(positions@ + Seq::<Point>::empty() =~= positions@);
        }
        positions
    }
}

/// The first legs of a journey together are no longer than more of them.
pub proof fn lemma_distance_grows(legs: Seq<JourneyLeg>, n: int, m: int)
    requires
        0 <= n <= m,
    ensures
        0 <= legs_distance_m(legs, n) <= legs_distance_m(legs, m),
    decreases m,
{
    if n < m {
        lemma_distance_grows(legs, n, m - 1);
    } else if n > 0 {
        lemma_distance_grows(legs, n - 1, m - 1);
    }
}

/// The legs travelled in the opposite order are as long together.
pub proof fn lemma_distance_of_reverse(legs: Seq<JourneyLeg>, n: int)
    requires
        n == legs.len(),
    ensures
        legs_distance_m(legs.reverse(), n) == legs_distance_m(legs, n),
    decreases n,
{
    if n > 0 {
        let turned = legs.reverse();
        // the first leg of the journey is the last of the journey turned round
        let rest = legs.subrange(1, n);
        assert(rest.reverse() =~= turned.subrange(0, n - 1));
        lemma_distance_of_reverse(rest, n - 1);
        lemma_distance_of_prefix(turned, turned.subrange(0, n - 1), n - 1);
        lemma_distance_of_suffix(legs, n);
        assert(turned[n - 1] == legs[0]);
    }
}

/// The length of the first legs depends on those legs only.
pub proof fn lemma_distance_of_prefix(a: Seq<JourneyLeg>, b: Seq<JourneyLeg>, n: int)
    requires
        0 <= n <= a.len(),
        n <= b.len(),
        forall|i: int| 0 <= i < n ==> a[i] == b[i],
    ensures
        legs_distance_m(a, n) == legs_distance_m(b, n),
    decreases n,
{
    if n > 0 {
        lemma_distance_of_prefix(a, b, n - 1);
    }
}

/// A journey is as long as its first leg and the rest together.
pub proof fn lemma_distance_of_suffix(legs: Seq<JourneyLeg>, n: int)
    requires
        1 <= n <= legs.len(),
    ensures
        legs_distance_m(legs, n) == legs[0].distance_m + legs_distance_m(
            legs.subrange(1, legs.len() as int),
            n - 1,
        ),
    decreases n,
{
    let rest = legs.subrange(1, legs.len() as int);
    if n > 1 {
        lemma_distance_of_suffix(legs, n - 1);
        assert(rest[n - 2] == legs[n - 1]);
    } else {
        assert(legs_distance_m(legs, 0) == 0);
        assert(legs_distance_m(rest, 0) == 0);
    }
}

/// A traveller never moves backwards: after any advance the traveller is on
/// a later leg, or on the same leg and no less far into it.
pub proof fn law_never_backwards(legs: Seq<JourneyLeg>, cursor: int, offset: int, budget: int)
    requires
        0 <= cursor <= legs.len(),
        0 <= offset,
        cursor < legs.len() ==> offset <= leg_steps(legs, cursor),
        cursor == legs.len() ==> offset == 0,
    ensures
        ({
            let place = advance_from(legs, cursor, offset, budget);
            &&& cursor <= place.cursor <= legs.len()
            &&& place.cursor == cursor ==> place.offset >= offset
            &&& place.cursor == legs.len() ==> place.offset == 0
            &&& place.cursor < legs.len() ==> 0 <= place.offset <= leg_steps(legs, place.cursor)
        }),
    decreases legs.len() - cursor,
{
    if cursor < legs.len() && budget > 0 && leg_steps(legs, cursor) - offset <= budget {
        law_never_backwards(
            legs,
            cursor + 1,
            0,
            budget - (leg_steps(legs, cursor) - offset),
        );
    }
}

/// In no time nobody moves and no position is passed.
pub proof fn law_no_time_no_move(legs: Seq<JourneyLeg>, cursor: int, offset: int)
    ensures
        advance_from(legs, cursor, offset, 0) == (Place { cursor, offset }),
        positions_from(legs, cursor, offset, 0, None) == Seq::<Point>::empty(),
{
}

/// A journey without legs is done from the start, and stays so: however
/// long the traveller moves, no position is passed.
pub proof fn law_journey_without_legs_is_done(legs: Seq<JourneyLeg>, budget: int)
    requires
        legs.len() == 0,
    ensures
        advance_from(legs, 0, 0, budget) == (Place { cursor: 0, offset: 0 }),
        positions_from(legs, 0, 0, budget, None) == Seq::<Point>::empty(),
{
}

/// The end of every leg that an advance completes is passed once, in the
/// order of the legs, and at most one more position follows.
pub proof fn law_leg_ends_passed_once(
    legs: Seq<JourneyLeg>,
    cursor: int,
    offset: int,
    budget: int,
    previous: Option<Point>,
)
    requires
        0 <= cursor <= legs.len(),
    ensures
        ({
            let place = advance_from(legs, cursor, offset, budget);
            let passed = positions_from(legs, cursor, offset, budget, previous);
            &&& place.cursor - cursor <= passed.len() <= place.cursor - cursor + 1
            &&& forall|k: int|
                0 <= k < place.cursor - cursor ==> passed[k] == legs[cursor + k].destination
        }),
    decreases legs.len() - cursor,
{
    if cursor < legs.len() && budget > 0 && leg_steps(legs, cursor) - offset <= budget {
        let rest = budget - (leg_steps(legs, cursor) - offset);
        law_leg_ends_passed_once(legs, cursor + 1, 0, rest, Some(legs[cursor].destination));
        let place = advance_from(legs, cursor, offset, budget);
        let passed = positions_from(legs, cursor, offset, budget, previous);
        let tail = positions_from(legs, cursor + 1, 0, rest, Some(legs[cursor].destination));
        assert(passed == seq![legs[cursor].destination] + tail);
        assert forall|k: int| 0 <= k < place.cursor - cursor implies passed[k] == legs[cursor
            + k].destination by {
            if k > 0 {
                assert(passed[k] == tail[k - 1]);
            }
        }
    }
}

} // verus!
