//! The bookkeeping of snapshots: every row of a snapshot carries the
//! simulation and the snapshot it belongs to, the tables only grow, and each
//! snapshot gets an identifier of its own.

use vstd::prelude::*;
use crate::error::Error;
use crate::idents::{is_time_ordered, mint_at_present};

verus! {

/// What scopes the rows of a snapshot: the simulation, and the snapshot.
#[derive(Debug, Clone, Copy, PartialEq, Eq, Hash, Structural)]
pub struct Scope {
    pub simulation_id: u128,
    pub snapshot_id: u128,
}

/// A row of a snapshot table: a row of the state under its scope.
#[derive(Debug)]
pub struct Scoped<T> {
    pub scope: Scope,
    pub row: T,
}

/// A row of the table of snapshots.
#[derive(Debug, Clone, Copy, PartialEq, Eq, Structural)]
pub struct SnapshotMeta {
    /// The identifier of the snapshot.
    pub id: u128,
    /// The simulation that the snapshot belongs to.
    pub simulation_id: u128,
    /// The instant of the simulation at which the snapshot was taken, in
    /// milliseconds since the epoch.
    pub created_at: i64,
}

/// Whether a snapshot in `log` has the identifier `id`.
pub open spec fn is_recorded(log: Seq<SnapshotMeta>, id: u128) -> bool {
    exists|s: int| 0 <= s < log.len() && #[trigger] log[s].id == id
}

/// Whether no two snapshots of `log` have the same identifier.
pub open spec fn log_sound(log: Seq<SnapshotMeta>) -> bool {
    forall|a: int, b: int| 0 <= a < b < log.len() ==> log[a].id != log[b].id
}

/// The rows among the first `n` of `table` that lie in `scope`, by their
/// places, in the order of the table.
pub open spec fn in_scope_upto<T>(table: Seq<Scoped<T>>, scope: Scope, n: int) -> Seq<int>
    decreases n,
{
    if n <= 0 {
        Seq::empty()
    } else if table[n - 1].scope == scope {
        in_scope_upto(table, scope, n - 1).push(n - 1)
    } else {
        in_scope_upto(table, scope, n - 1)
    }
}

/// Whether a snapshot in `log` has the identifier `id`.
pub fn find_snapshot(log: &Vec<SnapshotMeta>, id: u128) -> (found: bool)
    ensures
        found == is_recorded(log@, id),
{
    let mut s: usize = 0;
    while s < log.len()
        invariant
            s <= log.len(),
            forall|j: int| 0 <= j < s ==> log@[j].id != id,
        decreases log.len() - s,
    {
        if log[s].id == id {
            return true;
        }
        s += 1;
    }
    false
}

/// Records a snapshot of the simulation `simulation_id` taken at the instant
/// `now` of the simulation under the identifier `id`, and gives the scope
/// that its rows are written under.
///
/// The snapshot is added behind the snapshots that the table holds, which
/// stay as they are. If `id` is the identifier of a snapshot in the table,
/// nothing is recorded and the call fails.
pub fn record_snapshot_as(
    log: &mut Vec<SnapshotMeta>,
    simulation_id: u128,
    now: i64,
    id: u128,
) -> (result: Result<Scope, Error>)
    requires
        log_sound(old(log)@),
    ensures
        log_sound(final(log)@),
        result is Ok <==> !is_recorded(old(log)@, id),
        result matches Ok(scope) ==> scope == (Scope { simulation_id, snapshot_id: id })
            && final(log)@ == old(log)@.push(
            SnapshotMeta { id, simulation_id, created_at: now },
        ),
        result matches Err(e) ==> e is InternalError && final(log)@ == old(log)@,
{
    if find_snapshot(log, id) {
        return Err(Error::internal("snapshot identifier in use"));
    }
    log.push(SnapshotMeta { id, simulation_id, created_at: now });
    Ok(Scope { simulation_id, snapshot_id: id })
}

/// Records a snapshot of the simulation `simulation_id` taken at the instant
/// `now` of the simulation, and gives the scope that its rows are written
/// under.
///
/// The snapshot gets a freshly minted time-ordered identifier and is
/// recorded under it as [`record_snapshot_as`] says; into a table without
/// snapshots it is always recorded.
pub fn record_snapshot(log: &mut Vec<SnapshotMeta>, simulation_id: u128, now: i64) -> (result:
    Result<Scope, Error>)
    requires
        log_sound(old(log)@),
    ensures
        log_sound(final(log)@),
        old(log)@.len() == 0 ==> result is Ok,
        match result {
            Ok(scope) => scope.simulation_id == simulation_id && is_time_ordered(scope.snapshot_id)
                && !is_recorded(old(log)@, scope.snapshot_id) && final(log)@ == old(log)@.push(
                SnapshotMeta { id: scope.snapshot_id, simulation_id, created_at: now },
            ),
            Err(e) => e is InternalError && final(log)@ == old(log)@,
        },
{
    let id = mint_at_present();
    record_snapshot_as(log, simulation_id, now, id)
}

/// Whether snapshot `s` of `log` is the last that was recorded for the
/// simulation `simulation_id`.
pub open spec fn is_latest(log: Seq<SnapshotMeta>, simulation_id: u128, s: int) -> bool {
    &&& 0 <= s < log.len()
    &&& log[s].simulation_id == simulation_id
    &&& forall|j: int| s < j < log.len() ==> log[j].simulation_id != simulation_id
}

/// The scope of the latest snapshot of the simulation `simulation_id` in
/// `log`, if the simulation has a snapshot.
pub open spec fn spec_latest_snapshot(log: Seq<SnapshotMeta>, simulation_id: u128) -> Option<Scope> {
    if exists|s: int| is_latest(log, simulation_id, s) {
        let s = choose|s: int| is_latest(log, simulation_id, s);
        Some(Scope { simulation_id, snapshot_id: log[s].id })
    } else {
        None
    }
}

/// The latest snapshot of the simulation `simulation_id` in `log`, if it has
/// one: the last that was recorded for it.
pub fn latest_snapshot(log: &Vec<SnapshotMeta>, simulation_id: u128) -> (latest: Option<Scope>)
    ensures
        latest == spec_latest_snapshot(log@, simulation_id),
{
    let mut s: usize = log.len();
    while s > 0
        invariant
            s <= log.len(),
            forall|j: int| s <= j < log@.len() ==> log@[j].simulation_id != simulation_id,
        decreases s,
    {
        s -= 1;
        if log[s].simulation_id == simulation_id {
            proof {
                assert(is_latest(log@, simulation_id, s as int));
                let c = choose|c: int| is_latest(log@, simulation_id, c);
                assert(c == s);
            }
            return Some(Scope { simulation_id, snapshot_id: log[s].id });
        }
    }
    assert(forall|c: int| !is_latest(log@, simulation_id, c));
    None
}

/// The rows to append to a snapshot table for the rows `rows` of the state:
/// each row under `scope`, in the order of the rows.
pub fn scoped_rows<T>(scope: Scope, rows: Vec<T>) -> (scoped: Vec<Scoped<T>>)
    ensures
        scoped@.len() == rows@.len(),
        forall|i: int|
            0 <= i < rows@.len() ==> (#[trigger] scoped@[i]).scope == scope && scoped@[i].row
                == rows@[i],
{
    let ghost given = rows@;
    let mut rest = rows;
    let mut turned: Vec<T> = Vec::new();
    while rest.len() > 0
        invariant
            rest@.len() + turned@.len() == given.len(),
            forall|j: int| 0 <= j < rest@.len() ==> rest@[j] == given[j],
            forall|j: int|
                0 <= j < turned@.len() ==> #[trigger] turned@[j] == given[given.len() - 1 - j],
        decreases rest@.len(),
    {
        match rest.pop() {
            Some(row) => {
                turned.push(row);
            },
            None => {},
        }
    }
    let mut scoped: Vec<Scoped<T>> = Vec::new();
    while turned.len() > 0
        invariant
            turned@.len() + scoped@.len() == given.len(),
            forall|j: int|
                0 <= j < turned@.len() ==> #[trigger] turned@[j] == given[given.len() - 1 - j],
            forall|j: int|
                0 <= j < scoped@.len() ==> (#[trigger] scoped@[j]).scope == scope && scoped@[j].row
                    == given[j],
        decreases turned@.len(),
    {
        match turned.pop() {
            Some(row) => {
                scoped.push(Scoped { scope, row });
            },
            None => {},
        }
    }
    scoped
}

/// The places of the rows of `table` that lie in `scope`, in the order of
/// the table: what a read of the table under that scope sees.
pub fn rows_in_scope<T>(table: &Vec<Scoped<T>>, scope: Scope) -> (places: Vec<usize>)
    ensures
        places@.len() == in_scope_upto(table@, scope, table@.len() as int).len(),
        forall|k: int|
            0 <= k < places@.len() ==> #[trigger] places@[k] as int == in_scope_upto(
                table@,
                scope,
                table@.len() as int,
            )[k],
{
    let mut places: Vec<usize> = Vec::new();
    let mut i: usize = 0;
    while i < table.len()
        invariant
            i <= table.len(),
            places@.len() == in_scope_upto(table@, scope, i as int).len(),
            forall|k: int|
                0 <= k < places@.len() ==> #[trigger] places@[k] as int == in_scope_upto(
                    table@,
                    scope,
                    i as int,
                )[k],
        decreases table.len() - i,
    {
        let here = &table[i].scope;
        if here.simulation_id == scope.simulation_id && here.snapshot_id == scope.snapshot_id {
            places.push(i);
        }
        i += 1;
    }
    places
}

/// The tables only grow, and a snapshot stays what it was: appending rows
/// of other scopes leaves what a scope sees as it was.
pub proof fn law_snapshots_only_grow<T>(
    table: Seq<Scoped<T>>,
    more: Seq<Scoped<T>>,
    scope: Scope,
    n: int,
)
    requires
        0 <= n <= more.len(),
        forall|i: int| 0 <= i < more.len() ==> (#[trigger] more[i]).scope != scope,
    ensures
        in_scope_upto(table + more, scope, table.len() + n) == in_scope_upto(
            table,
            scope,
            table.len() as int,
        ),
    decreases n,
{
    let all = table + more;
    if n > 0 {
        law_snapshots_only_grow(table, more, scope, n - 1);
        assert(all[table.len() + n - 1] == more[n - 1]);
    } else {
        lemma_scope_of_prefix(table, all, scope, table.len() as int);
    }
}

/// What a scope sees among the first rows depends on those rows only.
pub proof fn lemma_scope_of_prefix<T>(a: Seq<Scoped<T>>, b: Seq<Scoped<T>>, scope: Scope, n: int)
    requires
        0 <= n <= a.len(),
        n <= b.len(),
        forall|i: int| 0 <= i < n ==> a[i] == b[i],
    ensures
        in_scope_upto(a, scope, n) == in_scope_upto(b, scope, n),
    decreases n,
{
    if n > 0 {
        lemma_scope_of_prefix(a, b, scope, n - 1);
    }
}

} // verus!
