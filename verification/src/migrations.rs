//! Schema-migration planning: which forward-only steps a store at a given
//! schema version still needs.  The host applies each step (a DDL statement
//! and a version-marker row) in order; which steps run is decided here, and
//! the plan is idempotent — a store already at the latest version gets none.

use vstd::prelude::*;

verus! {

/// The schema version this library's data model corresponds to: version 1 is
/// the base table, version 2 adds the source-application column.
pub const LATEST_SCHEMA_VERSION: i64 = 2;

/// The migration steps a store at schema version `current` still needs:
/// every version above `current`, up to the latest, in ascending order.
pub open spec fn spec_pending(current: int) -> Seq<int> {
    if current < 1 {
        seq![1int, 2int]
    } else if current < 2 {
        seq![2int]
    } else {
        seq![]
    }
}

/// Plans the migrations for a store at schema version `current_version`.
pub fn pending_migrations(current_version: i64) -> (r: Vec<i64>)
    ensures
        r@.map_values(|v: i64| v as int) == spec_pending(current_version as int),
{
    let mut r: Vec<i64> = Vec::new();
    if current_version < 1 {
        r.push(1);
    }
    if current_version < 2 {
        r.push(2);
    }
    proof {
        assert(r@.map_values(|v: i64| v as int) =~= spec_pending(current_version as int));
    }
    r
}

/// Migrations are idempotent: a store at or past the latest schema version
/// needs no steps, so planning them again against an already-migrated store
/// changes nothing.
pub proof fn lemma_migrations_idempotent(current: int)
    requires
        current >= LATEST_SCHEMA_VERSION,
    ensures
        spec_pending(current).len() == 0,
{
}

} // verus!
