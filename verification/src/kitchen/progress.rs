//! Advancing the lines whose current step is done.

use vstd::prelude::*;
use crate::events::Event;
use crate::idents::StationId;
use crate::kitchen::{
    holds_station, lemma_identity_keeps_tables_sound, tables_sound, KitchenHandler,
};
use crate::objects::{Kitchen, MenuItem, Site, Station};
use crate::orders::{Order, OrderLine, OrderLineStatus};

verus! {

/// Whether the current step of `line` is done at the instant `now`.
pub open spec fn is_due(line: OrderLine, now: i64) -> bool {
    &&& !line.is_complete
    &&& line.step_completion_time matches Some(t)
    &&& t <= now
}

/// The line after its step is done: it moves on to the next step and gives
/// up its station, and it is finished once it is past its last step.
pub open spec fn advanced(line: OrderLine) -> OrderLine {
    OrderLine {
        current_step: (line.current_step + 1) as u64,
        assigned_station: None,
        step_completion_time: None,
        is_complete: line.current_step + 1 > line.total_steps,
        ..line
    }
}

/// The line as the advance at the instant `now` leaves it.
pub open spec fn advance_line(line: OrderLine, now: i64) -> OrderLine {
    if is_due(line, now) {
        advanced(line)
    } else {
        line
    }
}

/// The lines as the advance at the instant `now` leaves them.
pub open spec fn advance_all(lines: Seq<OrderLine>, now: i64) -> Seq<OrderLine> {
    Seq::new(lines.len(), |i: int| advance_line(lines[i], now))
}

/// The event that tells of the step of `line` that is done at `now`: the end
/// of a step that is not the last, or the line being ready.
pub open spec fn progress_event(line: OrderLine, now: i64) -> Option<Event> {
    if is_due(line, now) {
        if line.current_step < line.total_steps {
            match line.assigned_station {
                Some(station_id) => Some(
                    Event::OrderLineStepFinished {
                        timestamp: line.step_completion_time->Some_0,
                        order_line_id: line.order_line_id,
                        station_id,
                        step_index: line.current_step,
                    },
                ),
                None => None,
            }
        } else {
            match line.kitchen_id {
                Some(kitchen_id) => Some(
                    Event::OrderLineUpdated {
                        timestamp: line.step_completion_time->Some_0,
                        order_line_id: line.order_line_id,
                        kitchen_id,
                        status: OrderLineStatus::Ready,
                    },
                ),
                None => None,
            }
        }
    } else {
        None
    }
}

/// The events of the first `n` lines, in the order of the lines.
pub open spec fn progress_events(lines: Seq<OrderLine>, now: i64, n: int) -> Seq<Event>
    decreases n,
{
    if n <= 0 {
        Seq::empty()
    } else {
        match progress_event(lines[n - 1], now) {
            Some(event) => progress_events(lines, now, n - 1).push(event),
            None => progress_events(lines, now, n - 1),
        }
    }
}

/// Advancing keeps the tables sound.
pub proof fn lemma_advance_keeps_tables_sound(
    sites: Seq<Site>,
    kitchens: Seq<Kitchen>,
    stations: Seq<Station>,
    menu: Seq<MenuItem>,
    orders: Seq<Order>,
    lines: Seq<OrderLine>,
    now: i64,
)
    requires
        tables_sound(sites, kitchens, stations, menu, orders, lines),
    ensures
        tables_sound(sites, kitchens, stations, menu, orders, advance_all(lines, now)),
{
    let next = advance_all(lines, now);
    assert forall|i: int| 0 <= i < next.len() implies #[trigger] next[i].spec_sound() by {
        assert(lines[i].spec_sound());
    }
    assert forall|i: int, j: int, station: StationId|
        0 <= i < next.len() && 0 <= j < next.len() && i != j && #[trigger] holds_station(
            next[i],
            station,
        ) implies !#[trigger] holds_station(next[j], station) by {
        assert(holds_station(lines[i], station));
        if holds_station(next[j], station) {
            assert(holds_station(lines[j], station));
        }
    }
    lemma_identity_keeps_tables_sound(sites, kitchens, stations, menu, orders, lines, next);
}

impl KitchenHandler {
    /// Advances every unfinished line whose step is done at `now`.
    ///
    /// Such a line moves on to its next step and gives up its station; a line
    /// past its last step is finished. The events tell, line by line, of the
    /// steps that ended and of the lines that are ready.
    pub fn advance_steps(&mut self, now: i64) -> (events: Vec<Event>)
        requires
            old(self).wf(),
        ensures
            final(self).wf(),
            final(self).same_catalog(old(self)),
            final(self).orders == old(self).orders,
            final(self).order_lines@ == advance_all(old(self).order_lines@, now),
            events@ == progress_events(
                old(self).order_lines@,
                now,
                old(self).order_lines@.len() as int,
            ),
    {
        let mut next: Vec<OrderLine> = Vec::new();
        let mut events: Vec<Event> = Vec::new();
        let mut i: usize = 0;
        while i < self.order_lines.len()
            invariant
                *self == *old(self),
                self.wf(),
                i <= self.order_lines.len(),
                next@.len() == i,
                forall|j: int| 0 <= j < i ==> next@[j] == advance_line(self.order_lines@[j], now),
                events@ == progress_events(self.order_lines@, now, i as int),
            decreases self.order_lines.len() - i,
        {
            let line = self.order_lines[i];
            assert(self.order_lines@[i as int].spec_sound());
            let due = !line.is_complete && match line.step_completion_time {
                Some(t) => t <= now,
                None => false,
            };
            if due {
                if line.current_step < line.total_steps {
                    match (line.assigned_station, line.step_completion_time) {
                        (Some(station_id), Some(timestamp)) => {
                            events.push(
                                Event::OrderLineStepFinished {
                                    timestamp,
                                    order_line_id: line.order_line_id,
                                    station_id,
                                    step_index: line.current_step,
                                },
                            );
                        },
                        _ => {},
                    }
                } else {
                    match (line.kitchen_id, line.step_completion_time) {
                        (Some(kitchen_id), Some(timestamp)) => {
                            events.push(
                                Event::OrderLineUpdated {
                                    timestamp,
                                    order_line_id: line.order_line_id,
                                    kitchen_id,
                                    status: OrderLineStatus::Ready,
                                },
                            );
                        },
                        _ => {},
                    }
                }
                next.push(
                    OrderLine {
                        order_id: line.order_id,
                        order_line_id: line.order_line_id,
                        menu_item_id: line.menu_item_id,
                        kitchen_id: line.kitchen_id,
                        submitted_at: line.submitted_at,
                        current_step: line.current_step + 1,
                        total_steps: line.total_steps,
                        assigned_station: None,
                        step_completion_time: None,
                        is_complete: line.current_step + 1 > line.total_steps,
                    },
                );
            } else {
                next.push(line);
            }
            i += 1;
        }
        proof {
            assert(next@ =~= advance_all(self.order_lines@, now));
            lemma_advance_keeps_tables_sound(
                self.sites@,
                self.kitchens@,
                self.stations@,
                self.menu_items@,
                self.orders@,
                self.order_lines@,
                now,
            );
        }
        self.order_lines = next;
        events
    }
}

} // verus!
