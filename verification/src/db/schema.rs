//! Schema migrations and which of them a database still needs.
use vstd::prelude::*;

verus! {

/// The schema version that the last migration brings a database to.
pub const LATEST_SCHEMA_VERSION: i64 = 2;

/// One migration: the version it brings the schema to, its name, its SQL.
pub struct Migration {
    pub version: i64,
    pub name: &'static str,
    pub sql: &'static str,
}

/// The positions of the migrations still to apply to a database at version
/// `current`, in order: those whose version is above it.
pub fn pending_migrations(migrations: &Vec<Migration>, current: i64) -> (r: Vec<usize>)
    ensures
        r@ == Seq::new(migrations.len() as nat, |i: int| i).filter(|i: int| migrations@[i].version > current).map_values(
            |i: int| i as usize,
        ),
{
    let ghost all = Seq::new(migrations.len() as nat, |i: int| i);
    let mut r: Vec<usize> = Vec::new();
    let mut i: usize = 0;
    while i < migrations.len()
        invariant
            i <= migrations.len(),
            all == Seq::new(migrations.len() as nat, |i: int| i),
            r@ == all.take(i as int).filter(|i: int| migrations@[i].version > current).map_values(|i: int| i as usize),
        decreases migrations.len() - i,
    {
        let ghost before = r@;
        proof {
            let f = |i: int| migrations@[i].version > current;
            assert(all.take(i + 1) =~= all.take(i as int).push(i as int));
            all.take(i as int).lemma_filter_push(i as int, f);
        }
        if migrations[i].version > current {
            r.push(i);
            assert(r@ =~= before.push(i));
        }
        i += 1;
    }
    assert(all.take(i as int) =~= all);
    r
}

} // verus!
