use universe::events::{
    metric_rows, publication_time, publish, publish_with, Event, EventStats, Metric, MetricLabel,
    SimulationEvent, ENVELOPE_VERSION,
};
use universe::idents::{OrderId, SiteId};

#[test]
fn event_types_are_spelled_out() {
    assert_eq!(SimulationEvent::OrderCreated.event_type(), "caspers.universe.order_created");
    assert_eq!(SimulationEvent::OrderReady.event_type(), "caspers.universe.order_ready");
    assert_eq!(SimulationEvent::OrderPickedUp.event_type(), "caspers.universe.order_picked_up");
    assert_eq!(SimulationEvent::OrderDelivered.event_type(), "caspers.universe.order_delivered");
    assert_eq!(
        SimulationEvent::OrderLineStepStarted.event_type(),
        "caspers.universe.order_line_step_started"
    );
    assert_eq!(
        SimulationEvent::OrderLineStepFinished.event_type(),
        "caspers.universe.order_line_step_finished"
    );
    assert_eq!(
        SimulationEvent::OrderLineUpdated.event_type(),
        "caspers.universe.order_line_updated"
    );
    assert_eq!(SimulationEvent::SiteCheckIn.event_type(), "caspers.universe.site_check_in");
    assert_eq!(SimulationEvent::SiteCheckOut.event_type(), "caspers.universe.site_check_out");
}

#[test]
fn event_stats_add_field_by_field() {
    let mut total = EventStats::new();
    assert_eq!(total.num_orders_created, 0);
    let tick = EventStats {
        num_orders_created: 3,
        num_orders_updated: 2,
        num_order_lines_updated: 7,
        num_people_updated: 1,
    };
    total.add(&tick);
    total.add(&tick);
    assert_eq!(total.num_orders_created, 6);
    assert_eq!(total.num_orders_updated, 4);
    assert_eq!(total.num_order_lines_updated, 14);
    assert_eq!(total.num_people_updated, 2);
}

#[test]
fn events_are_published_in_an_envelope() {
    let event = Event::OrderReady { site_id: SiteId(0x10), order_id: OrderId(2), timestamp: 1_761_675_872_000 };
    let envelope = event.envelope();
    assert_eq!(envelope.source, "/sites/00000000-0000-0000-0000-000000000010");
    assert_eq!(envelope.specversion, "1.0");
    assert_eq!(ENVELOPE_VERSION, "1.0");
    assert_eq!(envelope.event_type, "caspers.universe.order_ready");
    assert_eq!(envelope.time, 1_761_675_872_000);
    assert_eq!((envelope.id >> 80) as i64, 1_761_675_872_000);
    assert_ne!(event.envelope().id, envelope.id);
    // an instant before the epoch is published as it is, under an
    // identifier of the epoch
    let early = Event::OrderDelivered { order_id: OrderId(2), timestamp: -5 };
    assert_eq!(early.envelope().time, -5);
    assert_eq!(early.envelope().id >> 80, 0);
}

#[test]
fn metrics_are_three_rows_for_each_count() {
    let stats = EventStats {
        num_orders_created: 3,
        num_orders_updated: 2,
        num_order_lines_updated: 7,
        num_people_updated: 1,
    };
    assert_eq!(
        metric_rows(42, &stats),
        vec![
            Metric { timestamp: 42, label: MetricLabel::OrdersCreated, value: 3 },
            Metric { timestamp: 42, label: MetricLabel::OrdersUpdated, value: 2 },
            Metric { timestamp: 42, label: MetricLabel::OrderLinesUpdated, value: 7 },
        ]
    );
    assert_eq!(MetricLabel::OrdersCreated.as_str(), "orders_created");
    assert_eq!(MetricLabel::OrdersUpdated.as_str(), "orders_updated");
    assert_eq!(MetricLabel::OrderLinesUpdated.as_str(), "order_lines_updated");
}

#[test]
fn events_are_published_within_their_tick() {
    let now: i64 = 1_761_652_800_000;
    // the part of the step that the draw stands for, rounded down
    assert_eq!(publication_time(now, 60_000, 0), now);
    assert_eq!(publication_time(now, 60_000, 500_000), now + 30_000);
    assert_eq!(publication_time(now, 60_000, 999_999), now + 59_999);
    assert_eq!(publication_time(now, 7, 999_999), now + 6);
    assert_eq!(publication_time(now, 0, 999_999), now);
    assert_eq!(publication_time(now, u32::MAX, 999_999), now + 4_294_963_000);

    let events = vec![
        Event::OrderReady { site_id: SiteId(1), order_id: OrderId(2), timestamp: now },
        Event::OrderDelivered { order_id: OrderId(3), timestamp: now - 5 },
    ];
    let envelopes = publish_with(&events, now, 60_000, &vec![250_000, 0]);
    assert_eq!(envelopes.len(), 2);
    assert_eq!(envelopes[0].time, now + 15_000);
    assert_eq!(envelopes[1].time, now);
    assert_eq!((envelopes[0].id >> 80) as i64, now + 15_000);
    assert_eq!((envelopes[1].id >> 80) as i64, now);
    assert_eq!(envelopes[0].event_type, "caspers.universe.order_ready");
    assert_eq!(envelopes[1].event_type, "caspers.universe.order_delivered");
    assert_eq!(envelopes[0].source, events[0].source());
    assert_eq!(envelopes[0].specversion, "1.0");

    for _ in 0..50 {
        let envelopes = publish(&events, now, 60_000);
        assert_eq!(envelopes.len(), 2);
        for (envelope, event) in envelopes.iter().zip(&events) {
            assert!(now <= envelope.time && envelope.time < now + 60_000);
            assert_eq!((envelope.id >> 80) as i64, envelope.time);
            assert_eq!(envelope.event_type, event.kind().event_type());
        }
    }
    assert!(publish(&Vec::new(), now, 60_000).is_empty());

    // by itself an event goes under the instant it is about
    let own = events[1].envelope();
    assert_eq!(own.time, now - 5);
    assert_eq!(events[1].envelope_at(12).time, 12);
    assert_eq!(events[1].envelope_at(12).id >> 80, 12);
}
