//! Shared helpers: long division, namespace overlay, duration
//! rendering, and the lock acquisition used around the collections.

use vstd::prelude::*;
use crate::assoc::amap;
use crate::namespace::Namespace;
use crate::numfmt::dec_nat;
use crate::text::chars_to_string;
use crate::json::push_lit;
use crate::numfmt::push_u64;

verus! {

/// Quotient and remainder of truncating long division, for non-negative
/// dividends and positive divisors.
pub fn divmod(a: i64, b: i64) -> (r: (i64, i64))
    requires
        a >= 0,
        b > 0,
    ensures
        r.0 == a as int / b as int,
        r.1 == a as int % b as int,
{
    (a / b, a % b)
}

/// Overlays `second` on `first`: the result holds every name of either,
/// and where both hold a name, `second`'s record wins.
pub fn merge(first: Namespace, second: Namespace) -> (r: Namespace)
    requires
        first.wf(),
        second.wf(),
    ensures
        r.wf(),
        r.as_map() == first.as_map().union_prefer_right(second.as_map()),
{
    let ghost fm = first.as_map();
    let ghost sv = second@;
    let mut r = first;
    proof {
        assert(sv.take(0) =~= Seq::<_>::empty());
        assert(r.as_map() =~= fm.union_prefer_right(amap(sv.take(0))));
    }
    let mut i: usize = 0;
    while i < second.entries.len()
        invariant
            i <= second.entries.len(),
            sv == second@,
            second.wf(),
            r.wf(),
            r.as_map() == fm.union_prefer_right(amap(sv.take(i as int))),
        decreases second.entries.len() - i,
    {
        let e = &second.entries[i];
        proof {
            assert(sv.take(i as int + 1).drop_last() =~= sv.take(i as int));
            assert(sv.take(i as int + 1).last() == sv[i as int]);
            assert(amap(sv.take(i as int + 1)) == amap(sv.take(i as int)).insert(
                sv[i as int].0,
                sv[i as int].1,
            ));
        }
        r.insert_rec(e.0.clone(), e.1.duplicate());
        proof {
            assert(sv[i as int] == (second.entries@[i as int].0@, second.entries@[i as int].1@));
            assert(fm.union_prefer_right(amap(sv.take(i as int))).insert(sv[i as int].0, sv[i as int].1)
                =~= fm.union_prefer_right(amap(sv.take(i as int + 1))));
        }
        i = i + 1;
    }
    proof {
        assert(sv.take(sv.len() as int) =~= sv);
    }
    r
}

/// The text a duration renders to: days (when any), hours, minutes and
/// seconds, spelled out or abbreviated.
pub open spec fn spec_duration(seconds: int, brief: bool) -> Seq<char>
    recommends
        seconds >= 0,
{
    let hours_total = seconds / 3600;
    let remainder = seconds % 3600;
    let minutes = remainder / 60;
    let secs = remainder % 60;
    let days = hours_total / 24;
    let hours = hours_total % 24;
    if brief {
        if days > 0 {
            dec_nat(days as nat) + "d "@ + dec_nat(hours as nat) + "h "@ + dec_nat(minutes as nat)
                + "m "@ + dec_nat(secs as nat) + "s"@
        } else {
            dec_nat(hours as nat) + "h "@ + dec_nat(minutes as nat) + "m "@ + dec_nat(secs as nat)
                + "s"@
        }
    } else if days > 0 {
        dec_nat(days as nat) + " days "@ + dec_nat(hours as nat) + " hours "@ + dec_nat(
            minutes as nat,
        ) + " minutes "@ + dec_nat(secs as nat) + " seconds"@
    } else {
        dec_nat(hours as nat) + " hours "@ + dec_nat(minutes as nat) + " minutes "@ + dec_nat(
            secs as nat,
        ) + " seconds"@
    }
}

/// Renders a non-negative duration in seconds as text: abbreviated
/// (`d`/`h`/`m`/`s`) when `brief`, spelled out otherwise; days appear
/// only when there is at least one.
pub fn duration_to_string(seconds: i64, brief: bool) -> (r: String)
    requires
        seconds >= 0,
    ensures
        r@ == spec_duration(seconds as int, brief),
{
    let (hours_total, remainder) = divmod(seconds, 3600);
    let (minutes, secs) = divmod(remainder, 60);
    let (days, hours) = divmod(hours_total, 24);
    let mut out: Vec<char> = Vec::new();
    if brief {
        if days > 0 {
            push_u64(&mut out, days as u64);
            push_lit(&mut out, "d ");
        }
        push_u64(&mut out, hours as u64);
        push_lit(&mut out, "h ");
        push_u64(&mut out, minutes as u64);
        push_lit(&mut out, "m ");
        push_u64(&mut out, secs as u64);
        push_lit(&mut out, "s");
    } else {
        if days > 0 {
            push_u64(&mut out, days as u64);
            push_lit(&mut out, " days ");
        }
        push_u64(&mut out, hours as u64);
        push_lit(&mut out, " hours ");
        push_u64(&mut out, minutes as u64);
        push_lit(&mut out, " minutes ");
        push_u64(&mut out, secs as u64);
        push_lit(&mut out, " seconds");
    }
    proof {
        assert(out@ =~= spec_duration(seconds as int, brief));
    }
    chars_to_string(&out)
}


/// Declares std's `Mutex` so that signatures may carry it.
#[verifier::external_type_specification]
#[verifier::external_body]
#[verifier::reject_recursive_types(T)]
pub struct ExMutex<T: ?Sized>(std::sync::Mutex<T>);

/// Declares std's `MutexGuard` so that `lock_mutex` may return it.
#[verifier::external_type_specification]
#[verifier::external_body]
#[verifier::reject_recursive_types(T)]
pub struct ExMutexGuard<'a, T: ?Sized + 'a>(std::sync::MutexGuard<'a, T>);

/// Relies on std's `Mutex::lock`. A poisoned lock (a prior panic while
/// the lock was held) becomes the user-facing internal-error message,
/// since the guarded data may then be inconsistent.
#[verifier::external_body]
pub fn lock_mutex<'a, T>(mutex: &'a std::sync::Mutex<T>) -> (r: Result<
    std::sync::MutexGuard<'a, T>,
    String,
>)
    ensures
        r is Err ==> r->Err_0@ == "Error: an internal error occurred, please report this."@,
{
    mutex.lock().map_err(|_| "Error: an internal error occurred, please report this.".to_owned())
}

} // verus!
