use universe::error::Error;
use universe::snapshots::{
    find_snapshot, latest_snapshot, record_snapshot, record_snapshot_as, rows_in_scope,
    scoped_rows, Scope, Scoped, SnapshotMeta,
};

const NOW: i64 = 1_761_675_872_000;

#[test]
fn every_snapshot_gets_an_identifier_of_its_own() {
    let mut log: Vec<SnapshotMeta> = Vec::new();
    let first = record_snapshot(&mut log, 7, NOW).unwrap();
    let second = record_snapshot(&mut log, 7, NOW + 60_000).unwrap();
    let other = record_snapshot(&mut log, 8, NOW).unwrap();
    assert_eq!(log.len(), 3);
    assert_eq!((first.simulation_id, second.simulation_id, other.simulation_id), (7, 7, 8));
    assert_ne!(first.snapshot_id, second.snapshot_id);
    assert_ne!(second.snapshot_id, other.snapshot_id);
    // the table only grows, in the order of the writes
    assert_eq!(log[0], SnapshotMeta { id: first.snapshot_id, simulation_id: 7, created_at: NOW });
    assert_eq!(
        log[1],
        SnapshotMeta { id: second.snapshot_id, simulation_id: 7, created_at: NOW + 60_000 }
    );
    assert_eq!(log[2].id, other.snapshot_id);
    // the identifiers are time-ordered ones
    for meta in &log {
        assert_eq!((meta.id >> 76) & 0xf, 7);
        assert!(find_snapshot(&log, meta.id));
    }
    assert!(!find_snapshot(&log, 12345));
    // the latest snapshot of a simulation is the last that was written for it
    assert_eq!(latest_snapshot(&log, 7), Some(second));
    assert_eq!(latest_snapshot(&log, 8), Some(other));
    assert_eq!(latest_snapshot(&log, 9), None);
    assert_eq!(latest_snapshot(&Vec::new(), 7), None);
}

#[test]
fn rows_are_read_under_their_scope() {
    let old = Scope { simulation_id: 7, snapshot_id: 1 };
    let new = Scope { simulation_id: 7, snapshot_id: 2 };
    let elsewhere = Scope { simulation_id: 8, snapshot_id: 2 };
    let mut table: Vec<Scoped<&str>> = scoped_rows(old, vec!["a", "b"]);
    assert_eq!(table.len(), 2);
    assert_eq!((table[0].scope, table[0].row), (old, "a"));
    assert_eq!((table[1].scope, table[1].row), (old, "b"));
    table.extend(scoped_rows(elsewhere, vec!["x"]));
    table.extend(scoped_rows(new, vec!["c", "d", "e"]));
    assert_eq!(rows_in_scope(&table, old), vec![0, 1]);
    assert_eq!(rows_in_scope(&table, elsewhere), vec![2]);
    assert_eq!(rows_in_scope(&table, new), vec![3, 4, 5]);
    assert!(rows_in_scope(&table, Scope { simulation_id: 8, snapshot_id: 1 }).is_empty());
    assert!(scoped_rows::<u8>(old, Vec::new()).is_empty());
}

#[test]
fn an_identifier_in_use_is_refused() {
    let mut log: Vec<SnapshotMeta> = Vec::new();
    assert_eq!(record_snapshot_as(&mut log, 7, NOW, 41), Ok(Scope { simulation_id: 7, snapshot_id: 41 }));
    assert_eq!(record_snapshot_as(&mut log, 7, NOW, 42), Ok(Scope { simulation_id: 7, snapshot_id: 42 }));
    let before = log.clone();
    assert!(matches!(record_snapshot_as(&mut log, 8, NOW + 1, 41), Err(Error::InternalError(_))));
    assert_eq!(log, before);
    assert_eq!(log[1], SnapshotMeta { id: 42, simulation_id: 7, created_at: NOW });
}
