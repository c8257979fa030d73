//! What the handlers report of a tick.

use vstd::prelude::*;
use vstd::string::StringExecFns;
use crate::chance::draws_below;
use crate::geo::Point;
use crate::idents::{
    hyphenated, mint_time_ordered, minted_at_ms, BrandId, KitchenId, MenuItemId, OrderId,
    OrderLineId, PersonId, SiteId, StationId, TypedId,
};
use crate::kitchen::stations::DRAW_SCALE;
use crate::orders::{spec_time_in_range, OrderLineStatus};

verus! {

/// The kinds of event the simulation knows.
#[derive(Debug, Clone, Copy, PartialEq, Eq, Hash, Structural)]
pub enum SimulationEvent {
    OrderCreated,
    OrderReady,
    OrderPickedUp,
    OrderDelivered,
    OrderLineStepStarted,
    OrderLineStepFinished,
    OrderLineUpdated,
    SiteCheckIn,
    SiteCheckOut,
}

impl SimulationEvent {
    /// The type under which events of this kind are published.
    pub open spec fn spec_event_type(self) -> Seq<char> {
        match self {
            SimulationEvent::OrderCreated => "caspers.universe.order_created"@,
            SimulationEvent::OrderReady => "caspers.universe.order_ready"@,
            SimulationEvent::OrderPickedUp => "caspers.universe.order_picked_up"@,
            SimulationEvent::OrderDelivered => "caspers.universe.order_delivered"@,
            SimulationEvent::OrderLineStepStarted => "caspers.universe.order_line_step_started"@,
            SimulationEvent::OrderLineStepFinished => "caspers.universe.order_line_step_finished"@,
            SimulationEvent::OrderLineUpdated => "caspers.universe.order_line_updated"@,
            SimulationEvent::SiteCheckIn => "caspers.universe.site_check_in"@,
            SimulationEvent::SiteCheckOut => "caspers.universe.site_check_out"@,
        }
    }

    /// The type under which events of this kind are published.
    pub fn event_type(&self) -> (s: &'static str)
        ensures
            s@ == self.spec_event_type(),
    {
        match self {
            SimulationEvent::OrderCreated => "caspers.universe.order_created",
            SimulationEvent::OrderReady => "caspers.universe.order_ready",
            SimulationEvent::OrderPickedUp => "caspers.universe.order_picked_up",
            SimulationEvent::OrderDelivered => "caspers.universe.order_delivered",
            SimulationEvent::OrderLineStepStarted => "caspers.universe.order_line_step_started",
            SimulationEvent::OrderLineStepFinished => "caspers.universe.order_line_step_finished",
            SimulationEvent::OrderLineUpdated => "caspers.universe.order_line_updated",
            SimulationEvent::SiteCheckIn => "caspers.universe.site_check_in",
            SimulationEvent::SiteCheckOut => "caspers.universe.site_check_out",
        }
    }
}

/// One item of an order: a menu item and the brand that sells it.
#[derive(Debug, Clone, Copy, PartialEq, Eq, Hash, Structural)]
pub struct OrderItem {
    pub brand_id: BrandId,
    pub menu_item_id: MenuItemId,
}

/// An event with its data.
#[derive(Debug)]
pub enum Event {
    /// A customer placed an order.
    OrderCreated {
        person_id: PersonId,
        order_id: OrderId,
        submitted_at: i64,
        destination: Point,
        items: Vec<OrderItem>,
    },
    /// Every line of an order is done.
    OrderReady { site_id: SiteId, order_id: OrderId, timestamp: i64 },
    /// A courier took an order along.
    OrderPickedUp { site_id: SiteId, courier_id: PersonId, order_id: OrderId, timestamp: i64 },
    /// An order reached its customer.
    OrderDelivered { order_id: OrderId, timestamp: i64 },
    /// A station began to work on a step of a line.
    OrderLineStepStarted {
        timestamp: i64,
        order_line_id: OrderLineId,
        step_index: u64,
        station_id: StationId,
    },
    /// A step of a line other than the last is done.
    OrderLineStepFinished {
        timestamp: i64,
        order_line_id: OrderLineId,
        station_id: StationId,
        step_index: u64,
    },
    /// A line changed its status.
    OrderLineUpdated {
        timestamp: i64,
        order_line_id: OrderLineId,
        kitchen_id: KitchenId,
        status: OrderLineStatus,
    },
}

impl Event {
    /// The kind of the event.
    pub open spec fn spec_kind(self) -> SimulationEvent {
        match self {
            Event::OrderCreated { .. } => SimulationEvent::OrderCreated,
            Event::OrderReady { .. } => SimulationEvent::OrderReady,
            Event::OrderPickedUp { .. } => SimulationEvent::OrderPickedUp,
            Event::OrderDelivered { .. } => SimulationEvent::OrderDelivered,
            Event::OrderLineStepStarted { .. } => SimulationEvent::OrderLineStepStarted,
            Event::OrderLineStepFinished { .. } => SimulationEvent::OrderLineStepFinished,
            Event::OrderLineUpdated { .. } => SimulationEvent::OrderLineUpdated,
        }
    }

    /// The kind of the event.
    pub fn kind(&self) -> (k: SimulationEvent)
        ensures
            k == self.spec_kind(),
    {
        match self {
            Event::OrderCreated { .. } => SimulationEvent::OrderCreated,
            Event::OrderReady { .. } => SimulationEvent::OrderReady,
            Event::OrderPickedUp { .. } => SimulationEvent::OrderPickedUp,
            Event::OrderDelivered { .. } => SimulationEvent::OrderDelivered,
            Event::OrderLineStepStarted { .. } => SimulationEvent::OrderLineStepStarted,
            Event::OrderLineStepFinished { .. } => SimulationEvent::OrderLineStepFinished,
            Event::OrderLineUpdated { .. } => SimulationEvent::OrderLineUpdated,
        }
    }

    /// The instant the event is about.
    pub open spec fn spec_timestamp(self) -> i64 {
        match self {
            Event::OrderCreated { submitted_at, .. } => submitted_at,
            Event::OrderReady { timestamp, .. } => timestamp,
            Event::OrderPickedUp { timestamp, .. } => timestamp,
            Event::OrderDelivered { timestamp, .. } => timestamp,
            Event::OrderLineStepStarted { timestamp, .. } => timestamp,
            Event::OrderLineStepFinished { timestamp, .. } => timestamp,
            Event::OrderLineUpdated { timestamp, .. } => timestamp,
        }
    }

    /// The instant the event is about.
    pub fn timestamp(&self) -> (t: i64)
        ensures
            t == self.spec_timestamp(),
    {
        match self {
            Event::OrderCreated { submitted_at, .. } => *submitted_at,
            Event::OrderReady { timestamp, .. } => *timestamp,
            Event::OrderPickedUp { timestamp, .. } => *timestamp,
            Event::OrderDelivered { timestamp, .. } => *timestamp,
            Event::OrderLineStepStarted { timestamp, .. } => *timestamp,
            Event::OrderLineStepFinished { timestamp, .. } => *timestamp,
            Event::OrderLineUpdated { timestamp, .. } => *timestamp,
        }
    }

    /// The source of the event: the kind of thing it comes from, then the
    /// identifier of that thing.
    pub open spec fn spec_source(self) -> Seq<char> {
        match self {
            Event::OrderCreated { person_id, .. } => "/population/"@ + hyphenated(person_id.0),
            Event::OrderReady { site_id, .. } => "/sites/"@ + hyphenated(site_id.0),
            Event::OrderPickedUp { site_id, .. } => "/sites/"@ + hyphenated(site_id.0),
            Event::OrderDelivered { order_id, .. } => "/orders/"@ + hyphenated(order_id.0),
            Event::OrderLineStepStarted { station_id, .. } => "/stations/"@ + hyphenated(station_id.0),
            Event::OrderLineStepFinished { station_id, .. } => "/stations/"@ + hyphenated(station_id.0),
            Event::OrderLineUpdated { kitchen_id, .. } => "/kitchen/"@ + hyphenated(kitchen_id.0),
        }
    }

    /// The source of the event: the kind of thing it comes from, then the
    /// identifier of that thing.
    pub fn source(&self) -> (s: String)
        ensures
            s@ == self.spec_source(),
    {
        match self {
            Event::OrderCreated { person_id, .. } => {
                String::from_str("/population/").concat(person_id.to_text().as_str())
            },
            Event::OrderReady { site_id, .. } => {
                String::from_str("/sites/").concat(site_id.to_text().as_str())
            },
            Event::OrderPickedUp { site_id, .. } => {
                String::from_str("/sites/").concat(site_id.to_text().as_str())
            },
            Event::OrderDelivered { order_id, .. } => {
                String::from_str("/orders/").concat(order_id.to_text().as_str())
            },
            Event::OrderLineStepStarted { station_id, .. } => {
                String::from_str("/stations/").concat(station_id.to_text().as_str())
            },
            Event::OrderLineStepFinished { station_id, .. } => {
                String::from_str("/stations/").concat(station_id.to_text().as_str())
            },
            Event::OrderLineUpdated { kitchen_id, .. } => {
                String::from_str("/kitchen/").concat(kitchen_id.to_text().as_str())
            },
        }
    }
}

/// How many events of each family a tick, or a run, produced.
#[derive(Debug, Clone, Copy, PartialEq, Eq, Structural)]
pub struct EventStats {
    pub num_orders_created: u32,
    pub num_orders_updated: u32,
    pub num_order_lines_updated: u32,
    pub num_people_updated: u32,
}

impl EventStats {
    /// No events.
    pub fn new() -> (stats: EventStats)
        ensures
            stats.num_orders_created == 0,
            stats.num_orders_updated == 0,
            stats.num_order_lines_updated == 0,
            stats.num_people_updated == 0,
    {
        EventStats {
            num_orders_created: 0,
            num_orders_updated: 0,
            num_order_lines_updated: 0,
            num_people_updated: 0,
        }
    }

    /// Whether the counts of `other` can be added without leaving `u32`.
    pub open spec fn spec_can_add(self, other: EventStats) -> bool {
        &&& self.num_orders_created + other.num_orders_created <= u32::MAX
        &&& self.num_orders_updated + other.num_orders_updated <= u32::MAX
        &&& self.num_order_lines_updated + other.num_order_lines_updated <= u32::MAX
        &&& self.num_people_updated + other.num_people_updated <= u32::MAX
    }

    /// Adds the counts of `other` to these.
    pub fn add(&mut self, other: &EventStats)
        requires
            old(self).spec_can_add(*other),
        ensures
            final(self).num_orders_created == old(self).num_orders_created + other.num_orders_created,
            final(self).num_orders_updated == old(self).num_orders_updated + other.num_orders_updated,
            final(self).num_order_lines_updated == old(self).num_order_lines_updated
                + other.num_order_lines_updated,
            final(self).num_people_updated == old(self).num_people_updated + other.num_people_updated,
    {
        self.num_orders_created = self.num_orders_created + other.num_orders_created;
        self.num_orders_updated = self.num_orders_updated + other.num_orders_updated;
        self.num_order_lines_updated = self.num_order_lines_updated + other.num_order_lines_updated;
        self.num_people_updated = self.num_people_updated + other.num_people_updated;
    }

    /// The counts after one more event of the kind `kind`: an order that is
    /// created counts as created, one that becomes ready, is picked up or is
    /// delivered as updated, and whatever happens to a line as a line update.
    pub open spec fn spec_after(self, kind: SimulationEvent) -> EventStats {
        match kind {
            SimulationEvent::OrderCreated => EventStats {
                num_orders_created: (self.num_orders_created + 1) as u32,
                ..self
            },
            SimulationEvent::OrderReady
            | SimulationEvent::OrderPickedUp
            | SimulationEvent::OrderDelivered => EventStats {
                num_orders_updated: (self.num_orders_updated + 1) as u32,
                ..self
            },
            SimulationEvent::OrderLineStepStarted
            | SimulationEvent::OrderLineStepFinished
            | SimulationEvent::OrderLineUpdated => EventStats {
                num_order_lines_updated: (self.num_order_lines_updated + 1) as u32,
                ..self
            },
            SimulationEvent::SiteCheckIn | SimulationEvent::SiteCheckOut => EventStats {
                num_people_updated: (self.num_people_updated + 1) as u32,
                ..self
            },
        }
    }

    /// Counts one more event.
    pub fn handle_event(&mut self, event: &Event)
        requires
            old(self).num_orders_created < u32::MAX,
            old(self).num_orders_updated < u32::MAX,
            old(self).num_order_lines_updated < u32::MAX,
        ensures
            *final(self) == old(self).spec_after(event.spec_kind()),
    {
        match event.kind() {
            SimulationEvent::OrderCreated => {
                self.num_orders_created = self.num_orders_created + 1;
            },
            SimulationEvent::OrderReady
            | SimulationEvent::OrderPickedUp
            | SimulationEvent::OrderDelivered => {
                self.num_orders_updated = self.num_orders_updated + 1;
            },
            SimulationEvent::OrderLineStepStarted
            | SimulationEvent::OrderLineStepFinished
            | SimulationEvent::OrderLineUpdated => {
                self.num_order_lines_updated = self.num_order_lines_updated + 1;
            },
            SimulationEvent::SiteCheckIn | SimulationEvent::SiteCheckOut => {},
        }
    }
}

/// The version of the envelope that events are published in.
pub const ENVELOPE_VERSION: &'static str = "1.0";

/// What is published around the data of an event.
#[derive(Debug)]
pub struct Envelope {
    /// The identifier of the event, minted from the instant it is about.
    pub id: u128,
    /// Where the event comes from.
    pub source: String,
    /// The version of the envelope.
    pub specversion: &'static str,
    /// The type under which the event is published.
    pub event_type: &'static str,
    /// The instant the event is about, in milliseconds since the epoch.
    pub time: i64,
}

/// Whether `envelope` is the envelope of `event` published under the instant
/// `time`: it names the source and the type of the event, and its identifier
/// carries `time` wherever `time` is not before the epoch and fits in
/// forty-eight bits.
pub open spec fn is_envelope_of(envelope: Envelope, event: Event, time: int) -> bool {
    &&& envelope.source@ == event.spec_source()
    &&& envelope.specversion@ == ENVELOPE_VERSION@
    &&& envelope.event_type@ == event.spec_kind().spec_event_type()
    &&& envelope.time == time
    &&& 0 <= time < 0x1_0000_0000_0000 ==> minted_at_ms(envelope.id) == time
}

impl Event {
    /// The envelope of the event under the instant `time`.
    pub fn envelope_at(&self, time: i64) -> (envelope: Envelope)
        ensures
            is_envelope_of(envelope, *self, time as int),
    {
        let at: u64 = if time >= 0 {
            time as u64
        } else {
            0
        };
        Envelope {
            id: mint_time_ordered(at),
            source: self.source(),
            specversion: ENVELOPE_VERSION,
            event_type: self.kind().event_type(),
            time,
        }
    }

    /// The envelope of the event under the instant the event is about.
    pub fn envelope(&self) -> (envelope: Envelope)
        ensures
            is_envelope_of(envelope, *self, self.spec_timestamp() as int),
    {
        self.envelope_at(self.timestamp())
    }
}

/// The instant under which an event of the tick of `step_ms` milliseconds
/// that begins at `now` is published, for the draw `draw`: `now` and the
/// part `draw` in [`DRAW_SCALE`] of the step, rounded down.
pub open spec fn spec_publication_time(now: i64, step_ms: u32, draw: u32) -> int {
    now + (step_ms as int * draw as int) / (DRAW_SCALE as int)
}

/// The part `draw` in [`DRAW_SCALE`] of a step is less than the step.
proof fn lemma_part_of_step(step_ms: u32, draw: u32)
    requires
        draw < DRAW_SCALE,
    ensures
        0 <= step_ms as int * draw as int <= 0xffff_ffff * 999_999,
        0 <= (step_ms as int * draw as int) / (DRAW_SCALE as int) <= step_ms,
        step_ms > 0 ==> (step_ms as int * draw as int) / (DRAW_SCALE as int) < step_ms,
{
    let s = step_ms as int;
    let d = draw as int;
    assert(0 <= s * d <= 0xffff_ffff * 999_999) by (nonlinear_arith)
        requires
            0 <= s <= 0xffff_ffff,
            0 <= d <= 999_999,
    ;
    assert(s * d <= s * 1_000_000 - s) by (nonlinear_arith)
        requires
            0 <= s,
            0 <= d <= 999_999,
    ;
    assert(s > 0 ==> (s * d) / 1_000_000 < s) by {
        if s > 0 {
            vstd::arithmetic::div_mod::lemma_div_is_ordered(s * d, s * 1_000_000 - 1, 1_000_000);
            assert((s * 1_000_000 - 1) / 1_000_000 < s) by (nonlinear_arith)
                requires
                    s > 0,
            ;
        }
    }
}

/// The instant under which an event of the tick of `step_ms` milliseconds
/// that begins at `now` is published, for the draw `draw`. It lies within
/// the tick: not before `now`, and before the next tick begins.
pub fn publication_time(now: i64, step_ms: u32, draw: u32) -> (time: i64)
    requires
        spec_time_in_range(now),
        draw < DRAW_SCALE,
    ensures
        time == spec_publication_time(now, step_ms, draw),
        now <= time,
        step_ms > 0 ==> time < now + step_ms,
        step_ms == 0 ==> time == now,
{
    proof {
        lemma_part_of_step(step_ms, draw);
    }
    let product: u64 = step_ms as u64 * draw as u64;
    let offset: u64 = product / (DRAW_SCALE as u64);
    now + offset as i64
}

/// Whether the envelopes `envelopes` publish the events `events` of the tick
/// of `step_ms` milliseconds that begins at `now` under the instants that
/// the draws `draws` give, each event with its own draw.
pub open spec fn published_with(
    envelopes: Seq<Envelope>,
    events: Seq<Event>,
    now: i64,
    step_ms: u32,
    draws: Seq<u32>,
) -> bool {
    &&& envelopes.len() == events.len()
    &&& draws.len() == events.len()
    &&& forall|i: int|
        0 <= i < events.len() ==> (#[trigger] draws[i]) < DRAW_SCALE && is_envelope_of(
            envelopes[i],
            events[i],
            spec_publication_time(now, step_ms, draws[i]),
        )
}

/// Whether the envelopes `envelopes` publish the events `events` of the tick
/// of `step_ms` milliseconds that begins at `now`, each under an instant of
/// the tick.
pub open spec fn published(
    envelopes: Seq<Envelope>,
    events: Seq<Event>,
    now: i64,
    step_ms: u32,
) -> bool {
    exists|draws: Seq<u32>| published_with(envelopes, events, now, step_ms, draws)
}

/// The envelopes of the events `events` of the tick of `step_ms`
/// milliseconds that begins at `now`, in the order of the events, each under
/// the instant that its draw gives.
pub fn publish_with(events: &Vec<Event>, now: i64, step_ms: u32, draws: &Vec<u32>) -> (envelopes:
    Vec<Envelope>)
    requires
        spec_time_in_range(now),
        draws@.len() == events@.len(),
        forall|i: int| 0 <= i < draws@.len() ==> draws@[i] < DRAW_SCALE,
    ensures
        published_with(envelopes@, events@, now, step_ms, draws@),
{
    let mut envelopes: Vec<Envelope> = Vec::new();
    let mut k: usize = 0;
    while k < events.len()
        invariant
            spec_time_in_range(now),
            draws@.len() == events@.len(),
            forall|i: int| 0 <= i < draws@.len() ==> draws@[i] < DRAW_SCALE,
            k <= events.len(),
            envelopes@.len() == k,
            forall|i: int|
                0 <= i < k ==> is_envelope_of(
                    #[trigger] envelopes@[i],
                    events@[i],
                    spec_publication_time(now, step_ms, draws@[i]),
                ),
        decreases events.len() - k,
    {
        let time = publication_time(now, step_ms, draws[k]);
        envelopes.push(events[k].envelope_at(time));
        k += 1;
    }
    envelopes
}

/// The envelopes of the events `events` of the tick of `step_ms`
/// milliseconds that begins at `now`, in the order of the events. Each is
/// published under an instant of the tick that is drawn by chance.
pub fn publish(events: &Vec<Event>, now: i64, step_ms: u32) -> (envelopes: Vec<Envelope>)
    requires
        spec_time_in_range(now),
    ensures
        published(envelopes@, events@, now, step_ms),
{
    let draws = draws_below(events.len(), DRAW_SCALE);
    publish_with(events, now, step_ms, &draws)
}

/// An event is published within its tick: not before the tick begins, and,
/// if the tick has a length, before the next begins.
pub proof fn law_published_within_tick(
    envelopes: Seq<Envelope>,
    events: Seq<Event>,
    now: i64,
    step_ms: u32,
    i: int,
)
    requires
        published(envelopes, events, now, step_ms),
        0 <= i < events.len(),
    ensures
        envelopes.len() == events.len(),
        now <= envelopes[i].time,
        step_ms > 0 ==> envelopes[i].time < now + step_ms,
        step_ms == 0 ==> envelopes[i].time == now,
{
    let draws = choose|draws: Seq<u32>| published_with(envelopes, events, now, step_ms, draws);
    lemma_part_of_step(step_ms, draws[i]);
}

/// What a metric counts.
#[derive(Debug, Clone, Copy, PartialEq, Eq, Hash, Structural)]
pub enum MetricLabel {
    OrdersCreated,
    OrdersUpdated,
    OrderLinesUpdated,
}

impl MetricLabel {
    /// The label as it is written in the metrics table.
    pub open spec fn spec_text(self) -> Seq<char> {
        match self {
            MetricLabel::OrdersCreated => "orders_created"@,
            MetricLabel::OrdersUpdated => "orders_updated"@,
            MetricLabel::OrderLinesUpdated => "order_lines_updated"@,
        }
    }

    /// The label as it is written in the metrics table.
    pub fn as_str(&self) -> (s: &'static str)
        ensures
            s@ == self.spec_text(),
    {
        match self {
            MetricLabel::OrdersCreated => "orders_created",
            MetricLabel::OrdersUpdated => "orders_updated",
            MetricLabel::OrderLinesUpdated => "order_lines_updated",
        }
    }
}

/// A row of the metrics table.
#[derive(Debug, Clone, Copy, PartialEq, Eq, Structural)]
pub struct Metric {
    /// The instant the count was taken at, in milliseconds since the epoch.
    pub timestamp: i64,
    pub label: MetricLabel,
    pub value: i64,
}

/// The rows that the counts `stats` taken at `timestamp` add to the metrics
/// table: the orders created, the orders updated and the lines updated, in
/// this order.
pub open spec fn spec_metric_rows(timestamp: i64, stats: EventStats) -> Seq<Metric> {
    seq![
        Metric {
            timestamp,
            label: MetricLabel::OrdersCreated,
            value: stats.num_orders_created as i64,
        },
        Metric {
            timestamp,
            label: MetricLabel::OrdersUpdated,
            value: stats.num_orders_updated as i64,
        },
        Metric {
            timestamp,
            label: MetricLabel::OrderLinesUpdated,
            value: stats.num_order_lines_updated as i64,
        },
    ]
}

/// The rows that the counts `stats` taken at `timestamp` add to the metrics
/// table.
pub fn metric_rows(timestamp: i64, stats: &EventStats) -> (rows: Vec<Metric>)
    ensures
        rows@ == spec_metric_rows(timestamp, *stats),
{
    let mut rows: Vec<Metric> = Vec::new();
    rows.push(
        Metric {
            timestamp,
            label: MetricLabel::OrdersCreated,
            value: stats.num_orders_created as i64,
        },
    );
    rows.push(
        Metric {
            timestamp,
            label: MetricLabel::OrdersUpdated,
            value: stats.num_orders_updated as i64,
        },
    );
    rows.push(
        Metric {
            timestamp,
            label: MetricLabel::OrderLinesUpdated,
            value: stats.num_order_lines_updated as i64,
        },
    );
    assert(rows@ =~= spec_metric_rows(timestamp, *stats));
    rows
}

} // verus!
