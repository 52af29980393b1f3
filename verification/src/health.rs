//! Whether the service is ready to serve.

use vstd::prelude::*;

use crate::errors::{AppError, AppErrorView};

verus! {

/// Whether billing has come to a halt: more than three intervals have passed since
/// the last cycle began.
pub open spec fn is_stalled(last_billing_cycle_at: Option<i64>, now: i64, interval: u64) -> bool {
    last_billing_cycle_at is Some && now - last_billing_cycle_at->0 > interval * 3
}

/// Whether the times can be reckoned with in numbers of 64 bits.
pub open spec fn can_reckon(last_billing_cycle_at: Option<i64>, now: i64, interval: u64) -> bool {
    last_billing_cycle_at is Some ==> {
        &&& i64::MIN <= now - last_billing_cycle_at->0 <= i64::MAX
        &&& interval * 3 <= i64::MAX
    }
}

/// What is wrong, where `checks` holds how each check came out, in the order in which
/// they did: the first check that failed, and else that billing has stalled.
pub open spec fn ailment(
    checks: Seq<Result<(), String>>,
    last_billing_cycle_at: Option<i64>,
    now: i64,
    interval: u64,
) -> Option<AppErrorView>
    decreases checks.len(),
{
    if checks.len() == 0 {
        if is_stalled(last_billing_cycle_at, now, interval) {
            Some(AppErrorView::BillingStalled)
        } else {
            None
        }
    } else {
        match checks.first() {
            Err(reason) => Some(AppErrorView::CheckFailed { reason: reason@ }),
            Ok(_) => ailment(checks.drop_first(), last_billing_cycle_at, now, interval),
        }
    }
}

/// Decides whether the service is ready: every check has succeeded, and billing has
/// not come to a halt. The answer is "ok" then.
pub fn readiness(
    checks: &Vec<Result<(), String>>,
    last_billing_cycle_at: Option<i64>,
    now: i64,
    interval: u64,
) -> (outcome: Result<&'static str, AppError>)
    requires
        (forall|i: int| 0 <= i < checks.len() ==> (#[trigger] checks[i]) is Ok) ==> can_reckon(
            last_billing_cycle_at,
            now,
            interval,
        ),
    ensures
        match outcome {
            Ok(answer) => {
                &&& ailment(checks@, last_billing_cycle_at, now, interval) is None
                &&& answer@ == "ok"@
            },
            Err(error) => ailment(checks@, last_billing_cycle_at, now, interval) == Some(error@),
        },
{
    let mut i: usize = 0;
    assert(checks@.skip(0) == checks@);
    while i < checks.len()
        invariant
            i <= checks.len(),
            forall|j: int| 0 <= j < i ==> (#[trigger] checks[j]) is Ok,
            ailment(checks@, last_billing_cycle_at, now, interval) == ailment(
                checks@.skip(i as int),
                last_billing_cycle_at,
                now,
                interval,
            ),
        decreases checks.len() - i,
    {
        assert(checks@.skip(i as int).drop_first() == checks@.skip(i + 1));
        assert(checks@.skip(i as int).first() == checks@[i as int]);
        if let Err(reason) = &checks[i] {
            return Err(AppError::CheckFailed { reason: reason.clone() });
        }
        i += 1;
    }
    if let Some(last) = last_billing_cycle_at {
        if now - last > (interval * 3) as i64 {
            return Err(AppError::BillingStalled);
        }
    }
    Ok("ok")
}

/// The service is ready if and only if every check has succeeded and billing has not
/// come to a halt.
pub proof fn law_ready_means_all_well(
    checks: Seq<Result<(), String>>,
    last_billing_cycle_at: Option<i64>,
    now: i64,
    interval: u64,
)
    ensures
        ailment(checks, last_billing_cycle_at, now, interval) is None <==> {
            &&& forall|i: int| 0 <= i < checks.len() ==> (#[trigger] checks[i]) is Ok
            &&& !is_stalled(last_billing_cycle_at, now, interval)
        },
    decreases checks.len(),
{
    if checks.len() > 0 {
        let rest = checks.drop_first();
        law_ready_means_all_well(rest, last_billing_cycle_at, now, interval);
        if checks.first() is Ok {
            assert forall|i: int| 0 <= i < checks.len() && (forall|j: int|
                0 <= j < rest.len() ==> (#[trigger] rest[j]) is Ok) implies (#[trigger] checks[i])
                is Ok by {
                if i > 0 {
                    assert(rest[i - 1] == checks[i]);
                }
            }
            assert forall|j: int| 0 <= j < rest.len() && (forall|i: int|
                0 <= i < checks.len() ==> (#[trigger] checks[i]) is Ok) implies (#[trigger] rest[j])
                is Ok by {
                assert(rest[j] == checks[j + 1]);
            }
        }
    }
}

/// The service is ready if and only if no check has failed and, where billing has begun, no
/// more than three intervals have passed since its last cycle began.
pub proof fn law_ready_within_three_intervals(
    checks: Seq<Result<(), String>>,
    last_billing_cycle_at: Option<i64>,
    now: i64,
    interval: u64,
)
    ensures
        ailment(checks, last_billing_cycle_at, now, interval) is None <==> {
            &&& forall|i: int| 0 <= i < checks.len() ==> (#[trigger] checks[i]) is Ok
            &&& match last_billing_cycle_at {
                Some(last) => now <= last + interval + interval + interval,
                None => true,
            }
        },
{
    law_ready_means_all_well(checks, last_billing_cycle_at, now, interval);
}

/// Where a check has failed, the reason of the first one that did is told, however long ago
/// the last cycle began; where all have succeeded and the service is not ready, it is that
/// billing has come to a halt.
pub proof fn law_first_failed_check_is_told(
    checks: Seq<Result<(), String>>,
    last_billing_cycle_at: Option<i64>,
    now: i64,
    interval: u64,
    at: int,
)
    requires
        0 <= at <= checks.len(),
        forall|i: int| 0 <= i < at ==> (#[trigger] checks[i]) is Ok,
        at < checks.len() ==> checks[at] is Err,
    ensures
        at < checks.len() ==> ailment(checks, last_billing_cycle_at, now, interval) == Some(
            AppErrorView::CheckFailed { reason: checks[at]->Err_0@ },
        ),
        at == checks.len() ==> {
            let wrong = ailment(checks, last_billing_cycle_at, now, interval);
            wrong is None || wrong == Some(AppErrorView::BillingStalled)
        },
    decreases checks.len(),
{
    if at > 0 {
        let rest = checks.drop_first();
        assert(checks[0] is Ok);
        assert forall|i: int| 0 <= i < at - 1 implies (#[trigger] rest[i]) is Ok by {
            assert(rest[i] == checks[i + 1]);
        }
        law_first_failed_check_is_told(rest, last_billing_cycle_at, now, interval, at - 1);
    }
}

} // verus!
