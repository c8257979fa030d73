//! Orders and their lines: the rows the scheduler works on.

use vstd::prelude::*;
use crate::geo::{Point, TileCode};
use crate::idents::{KitchenId, MenuItemId, OrderId, OrderLineId, PersonId, SiteId, StationId};

verus! {

/// Whether two pieces of text are the same.
pub fn text_equals(a: &str, b: &str) -> (same: bool)
    ensures
        same == (a@ == b@),
{
    let left: String = a.to_owned();
    let right: String = b.to_owned();
    left == right
}

/// Where an order stands between the customer and the delivery.
#[derive(Debug, Clone, Copy, PartialEq, Eq, Hash, Structural)]
pub enum OrderStatus {
    /// The customer submitted the order.
    Submitted,
    /// The order is being processed.
    Processing,
    /// The order is ready for pickup.
    Ready,
    /// A courier picked the order up.
    PickedUp,
    /// The order was delivered.
    Delivered,
    /// The order was cancelled.
    Cancelled,
    /// The order could not be processed.
    Failed,
}

impl OrderStatus {
    /// The status as it is written in the orders table.
    pub open spec fn spec_text(self) -> Seq<char> {
        match self {
            OrderStatus::Submitted => "submitted"@,
            OrderStatus::Processing => "processing"@,
            OrderStatus::Ready => "ready"@,
            OrderStatus::PickedUp => "picked_up"@,
            OrderStatus::Delivered => "delivered"@,
            OrderStatus::Cancelled => "cancelled"@,
            OrderStatus::Failed => "failed"@,
        }
    }

    /// The status that `text` spells, if it spells one.
    pub open spec fn spec_parse(text: Seq<char>) -> Option<OrderStatus> {
        if text == "submitted"@ {
            Some(OrderStatus::Submitted)
        } else if text == "processing"@ {
            Some(OrderStatus::Processing)
        } else if text == "ready"@ {
            Some(OrderStatus::Ready)
        } else if text == "picked_up"@ {
            Some(OrderStatus::PickedUp)
        } else if text == "delivered"@ {
            Some(OrderStatus::Delivered)
        } else if text == "cancelled"@ {
            Some(OrderStatus::Cancelled)
        } else if text == "failed"@ {
            Some(OrderStatus::Failed)
        } else {
            None
        }
    }

    /// The status as it is written in the orders table.
    pub fn as_str(&self) -> (s: &'static str)
        ensures
            s@ == self.spec_text(),
    {
        match self {
            OrderStatus::Submitted => "submitted",
            OrderStatus::Processing => "processing",
            OrderStatus::Ready => "ready",
            OrderStatus::PickedUp => "picked_up",
            OrderStatus::Delivered => "delivered",
            OrderStatus::Cancelled => "cancelled",
            OrderStatus::Failed => "failed",
        }
    }

    /// The status that `text` spells; `None` for any other text.
    pub fn parse(text: &str) -> (r: Option<OrderStatus>)
        ensures
            r == OrderStatus::spec_parse(text@),
    {
        if text_equals(text, "submitted") {
            Some(OrderStatus::Submitted)
        } else if text_equals(text, "processing") {
            Some(OrderStatus::Processing)
        } else if text_equals(text, "ready") {
            Some(OrderStatus::Ready)
        } else if text_equals(text, "picked_up") {
            Some(OrderStatus::PickedUp)
        } else if text_equals(text, "delivered") {
            Some(OrderStatus::Delivered)
        } else if text_equals(text, "cancelled") {
            Some(OrderStatus::Cancelled)
        } else if text_equals(text, "failed") {
            Some(OrderStatus::Failed)
        } else {
            None
        }
    }

    /// Reading back what was written gives the status that was written.
    pub proof fn lemma_parse_inverts_text(status: OrderStatus)
        ensures
            OrderStatus::spec_parse(status.spec_text()) == Some(status),
    {
        reveal_strlit("submitted");
        reveal_strlit("processing");
        reveal_strlit("ready");
        reveal_strlit("picked_up");
        reveal_strlit("delivered");
        reveal_strlit("cancelled");
        reveal_strlit("failed");
        let s = "submitted"@;
        let p = "processing"@;
        let r = "ready"@;
        let u = "picked_up"@;
        let d = "delivered"@;
        let c = "cancelled"@;
        let f = "failed"@;
        assert(p[0] != s[0] && r[0] != s[0] && u[0] != s[0] && d[0] != s[0] && c[0] != s[0] && f[0] != s[0]);
        assert(r[0] != p[0] && u[1] != p[1] && d[0] != p[0] && c[0] != p[0] && f[0] != p[0]);
        assert(u[0] != r[0] && d[0] != r[0] && c[0] != r[0] && f[0] != r[0]);
        assert(d[0] != u[0] && c[0] != u[0] && f[0] != u[0]);
        assert(c[0] != d[0] && f[0] != d[0]);
        assert(f[0] != c[0]);
    }
}

/// Where one line of an order stands in its kitchen.
#[derive(Debug, Clone, Copy, PartialEq, Eq, Hash, Structural)]
pub enum OrderLineStatus {
    /// The line was submitted with its order.
    Submitted,
    /// The line is assigned to a kitchen.
    Assigned,
    /// A step of the line is being worked on.
    Processing,
    /// The line is ready for pickup.
    Ready,
    /// The line was delivered.
    Delivered,
    /// The line waits for a station.
    Waiting,
}

impl OrderLineStatus {
    /// The status as it is written in events.
    pub open spec fn spec_text(self) -> Seq<char> {
        match self {
            OrderLineStatus::Submitted => "submitted"@,
            OrderLineStatus::Assigned => "assigned"@,
            OrderLineStatus::Processing => "processing"@,
            OrderLineStatus::Ready => "ready"@,
            OrderLineStatus::Delivered => "delivered"@,
            OrderLineStatus::Waiting => "waiting"@,
        }
    }

    /// The status that `text` spells, if it spells one.
    pub open spec fn spec_parse(text: Seq<char>) -> Option<OrderLineStatus> {
        if text == "submitted"@ {
            Some(OrderLineStatus::Submitted)
        } else if text == "assigned"@ {
            Some(OrderLineStatus::Assigned)
        } else if text == "processing"@ {
            Some(OrderLineStatus::Processing)
        } else if text == "ready"@ {
            Some(OrderLineStatus::Ready)
        } else if text == "delivered"@ {
            Some(OrderLineStatus::Delivered)
        } else if text == "waiting"@ {
            Some(OrderLineStatus::Waiting)
        } else {
            None
        }
    }

    /// The status as it is written in events.
    pub fn as_str(&self) -> (s: &'static str)
        ensures
            s@ == self.spec_text(),
    {
        match self {
            OrderLineStatus::Submitted => "submitted",
            OrderLineStatus::Assigned => "assigned",
            OrderLineStatus::Processing => "processing",
            OrderLineStatus::Ready => "ready",
            OrderLineStatus::Delivered => "delivered",
            OrderLineStatus::Waiting => "waiting",
        }
    }

    /// The status that `text` spells; `None` for any other text.
    pub fn parse(text: &str) -> (r: Option<OrderLineStatus>)
        ensures
            r == OrderLineStatus::spec_parse(text@),
    {
        if text_equals(text, "submitted") {
            Some(OrderLineStatus::Submitted)
        } else if text_equals(text, "assigned") {
            Some(OrderLineStatus::Assigned)
        } else if text_equals(text, "processing") {
            Some(OrderLineStatus::Processing)
        } else if text_equals(text, "ready") {
            Some(OrderLineStatus::Ready)
        } else if text_equals(text, "delivered") {
            Some(OrderLineStatus::Delivered)
        } else if text_equals(text, "waiting") {
            Some(OrderLineStatus::Waiting)
        } else {
            None
        }
    }
}

/// The earliest instant the tables hold, in milliseconds since the epoch.
pub const MIN_TIME_MS: i64 = 0;

/// The latest instant the tables hold, in milliseconds since the epoch:
/// the last millisecond of the year 9999.
pub const MAX_TIME_MS: i64 = 253_402_300_799_999;

/// Whether `t` is an instant the tables can hold.
pub open spec fn spec_time_in_range(t: i64) -> bool {
    MIN_TIME_MS <= t <= MAX_TIME_MS
}

/// Whether `t` is an instant the tables can hold.
pub fn time_in_range(t: i64) -> (b: bool)
    ensures
        b == spec_time_in_range(t),
{
    MIN_TIME_MS <= t && t <= MAX_TIME_MS
}

/// A row of the orders table.
#[derive(Debug, Clone, Copy, PartialEq, Eq, Structural)]
pub struct Order {
    pub order_id: OrderId,
    /// The customer who placed the order.
    pub person_id: PersonId,
    /// The site whose kitchens prepare the order.
    pub site_id: SiteId,
    /// When the order was placed, in milliseconds since the epoch.
    pub submitted_at: i64,
    /// Where the order is to be delivered.
    pub destination: Point,
    /// The tile of `destination` at the resolution at which street nodes
    /// are looked up.
    pub destination_tile: TileCode,
    pub status: OrderStatus,
}

/// A row of the order lines table.
#[derive(Debug, Clone, Copy, PartialEq, Eq, Structural)]
pub struct OrderLine {
    pub order_id: OrderId,
    pub order_line_id: OrderLineId,
    pub menu_item_id: MenuItemId,
    /// The kitchen the line is routed to.
    pub kitchen_id: Option<KitchenId>,
    /// When the order of the line was placed.
    pub submitted_at: i64,
    /// The step of the recipe the line is at, counted from one.
    pub current_step: u64,
    /// The number of steps of the recipe.
    pub total_steps: u64,
    /// The station that works on the current step, if one does.
    pub assigned_station: Option<StationId>,
    /// When the current step will be done, if a station works on it.
    pub step_completion_time: Option<i64>,
    /// Whether every step of the recipe is done.
    pub is_complete: bool,
}

impl OrderLine {
    /// What holds of every line in the table, whatever the others hold: an
    /// unfinished line is at one of the steps of its recipe, a finished line
    /// is past the last one, a station and a completion time come together,
    /// a finished line holds neither, and the times are in range.
    pub open spec fn spec_sound(self) -> bool {
        &&& self.total_steps >= 1
        &&& self.total_steps < u64::MAX
        &&& !self.is_complete ==> 1 <= self.current_step <= self.total_steps
        &&& self.is_complete <==> self.current_step > self.total_steps
        &&& self.assigned_station is Some <==> self.step_completion_time is Some
        &&& self.is_complete ==> self.assigned_station is None
        &&& spec_time_in_range(self.submitted_at)
        &&& self.step_completion_time matches Some(t) ==> 0 <= t <= MAX_TIME_MS + MAX_STEP_MS
        &&& self.kitchen_id is Some
    }
}

/// The longest a single step can take, in milliseconds.
pub const MAX_STEP_MS: i64 = 12_412_440_880_000;

} // verus!
