//! Bulk import: applies a batch of rule definitions through the
//! upsert path, counting inserts and updates and carrying per-record
//! failures without aborting the batch.

use vstd::prelude::*;

use crate::rule::{rules_view, Rule, RuleView};
use crate::store::{spec_upsert, RuleStore, UpsertOutcome};

verus! {

/// How a batch import went: how many records were newly inserted, how
/// many updated in place, and how many rejected.
pub struct ImportReport {
    pub inserted: usize,
    pub updated: usize,
    pub failed: usize,
}

/// The store and the three counts after upserting the records in
/// order.
pub open spec fn spec_import(s: Seq<RuleView>, rs: Seq<RuleView>, now: Seq<char>) -> (
    Seq<RuleView>,
    int,
    int,
    int,
)
    decreases rs.len(),
{
    if rs.len() == 0 {
        (s, 0, 0, 0)
    } else {
        let prev = spec_import(s, rs.drop_last(), now);
        let step = spec_upsert(prev.0, rs.last(), now);
        match step.1 {
            UpsertOutcome::Inserted => (step.0, prev.1 + 1, prev.2, prev.3),
            UpsertOutcome::Updated => (step.0, prev.1, prev.2 + 1, prev.3),
            UpsertOutcome::Rejected => (step.0, prev.1, prev.2, prev.3 + 1),
        }
    }
}

/// Upserts every record of the batch in order, with one clock reading
/// for the whole batch. A rejected record is counted and skipped; the
/// rest of the batch still goes through.
pub fn import_rules(store: &mut RuleStore, rules: &Vec<Rule>, now: &String) -> (r: ImportReport)
    requires
        old(store).wf(),
    ensures
        final(store).wf(),
        final(store)@ == spec_import(old(store)@, rules_view(rules@), now@).0,
        r.inserted == spec_import(old(store)@, rules_view(rules@), now@).1,
        r.updated == spec_import(old(store)@, rules_view(rules@), now@).2,
        r.failed == spec_import(old(store)@, rules_view(rules@), now@).3,
{
    let ghost init = old(store)@;
    let ghost rv = rules_view(rules@);
    let n = rules.len();
    let mut inserted: usize = 0;
    let mut updated: usize = 0;
    let mut failed: usize = 0;
    let mut i: usize = 0;
    while i < n
        invariant
            i <= n,
            n == rules@.len(),
            rv == rules_view(rules@),
            store.wf(),
            inserted + updated + failed == i,
            store@ == spec_import(init, rv.take(i as int), now@).0,
            inserted == spec_import(init, rv.take(i as int), now@).1,
            updated == spec_import(init, rv.take(i as int), now@).2,
            failed == spec_import(init, rv.take(i as int), now@).3,
        decreases n - i,
    {
        proof {
            assert(rv.take(i + 1int).drop_last() =~= rv.take(i as int));
            assert(rv.take(i + 1int).last() == rv[i as int]);
            assert(rv[i as int] == rules@[i as int]@);
        }
        let outcome = store.upsert_rule(&rules[i], now);
        match outcome {
            Ok(true) => {
                inserted = inserted + 1;
            },
            Ok(false) => {
                updated = updated + 1;
            },
            Err(_) => {
                failed = failed + 1;
            },
        }
        i = i + 1;
    }
    proof {
        assert(rv.take(n as int) =~= rv);
    }
    ImportReport { inserted, updated, failed }
}

} // verus!
