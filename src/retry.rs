use vstd::prelude::*;

verus! {

/// After a failed attempt with `used` retries spent out of `max`: the count
/// of retries spent once one more is made, or `None` where none is left and
/// the failure is fatal.
pub open spec fn next_retry(used: nat, max: nat) -> Option<nat> {
    if used < max {
        Some(used + 1)
    } else {
        None
    }
}

/// Retries spent after `k` failures in a row from a fresh start, or `None`
/// once one of them was fatal.
pub open spec fn after_failures(max: nat, k: nat) -> Option<nat>
    decreases k,
{
    if k == 0 {
        Some(0)
    } else {
        match after_failures(max, (k - 1) as nat) {
            Some(used) => next_retry(used, max),
            None => None,
        }
    }
}

/// Decides what follows a failed attempt: `Some` with the new count of
/// retries spent where one more retry is allowed, `None` where the failure is
/// fatal.
pub fn after_failure(used: u8, max_retries: u8) -> (r: Option<u8>)
    ensures
        r matches Some(n) ==> next_retry(used as nat, max_retries as nat) == Some(n as nat),
        r is None <==> next_retry(used as nat, max_retries as nat) is None,
{
    if used < max_retries {
        Some(used + 1)
    } else {
        None
    }
}

/// With `max` retries allowed, each of the first `max` failures in a row is
/// followed by a retry, and failure number `max + 1` is fatal: an operation
/// that keeps failing gives up after `max + 1` attempts.
pub proof fn lemma_retries_exhaust(max: nat)
    ensures
        forall|k: nat| k <= max ==> #[trigger] after_failures(max, k) == Some(k),
        after_failures(max, max + 1) is None,
{
    assert forall|k: nat| k <= max implies #[trigger] after_failures(max, k) == Some(k) by {
        lemma_retries_up_to(max, k);
    }
    lemma_retries_up_to(max, max);
}

proof fn lemma_retries_up_to(max: nat, k: nat)
    requires
        k <= max,
    ensures
        after_failures(max, k) == Some(k),
    decreases k,
{
    if k > 0 {
        lemma_retries_up_to(max, (k - 1) as nat);
    }
}

} // verus!
