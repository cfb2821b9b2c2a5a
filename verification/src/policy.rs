//! The access-control policy: pure predicates over a record and an
//! acting identity.

use vstd::prelude::*;
use crate::record::{Counter, CounterV, Record, RecordV, spec_owner_id};

verus! {

/// Whether `actor` owns the record.
pub open spec fn spec_owner_check(actor: u64, r: RecordV) -> bool {
    actor == spec_owner_id(r)
}

/// The edit rule for counters: a private counter only its owner may
/// edit; otherwise a non-empty whitelist admits only its members, and
/// the blacklist bars its members.
pub open spec fn spec_edit_check(actor: u64, c: CounterV) -> bool {
    if !c.public_edit {
        actor == c.owner_id
    } else if c.whitelisted_users.len() > 0 && !c.whitelisted_users.contains(actor) {
        false
    } else if c.blacklisted_users.contains(actor) {
        false
    } else {
        true
    }
}

fn contains_u64(v: &Vec<u64>, x: u64) -> (r: bool)
    ensures
        r == v@.contains(x),
{
    let mut i: usize = 0;
    while i < v.len()
        invariant
            i <= v.len(),
            forall|j: int| 0 <= j < i ==> v@[j] != x,
        decreases v.len() - i,
    {
        if v[i] == x {
            return true;
        }
        i = i + 1;
    }
    proof {
        if v@.contains(x) {
            let w = choose|w: int| 0 <= w < v@.len() && v@[w] == x;
        }
    }
    false
}

/// True exactly when `actor_id` created the record.
pub fn owner_check(actor_id: u64, rec: &Record) -> (r: bool)
    ensures
        r == spec_owner_check(actor_id, rec@),
{
    actor_id == rec.owner_id()
}

/// True exactly when `actor_id` may edit the counter. A counter closed
/// to public editing admits only its owner. A public one admits an
/// actor only if the whitelist (when non-empty) lists them and the
/// blacklist does not.
pub fn edit_check(actor_id: u64, counter: &Counter) -> (r: bool)
    ensures
        r == spec_edit_check(actor_id, counter@),
{
    if !counter.public_edit {
        return actor_id == counter.owner_id;
    }
    if counter.whitelisted_users.len() > 0 && !contains_u64(&counter.whitelisted_users, actor_id) {
        return false;
    }
    if contains_u64(&counter.blacklisted_users, actor_id) {
        return false;
    }
    true
}

} // verus!
