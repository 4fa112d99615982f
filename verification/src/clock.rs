//! Wall-clock deadlines for the time-bounded search, behind trusted items.
//! Nothing is assumed about what the clock returns: every caller is verified
//! for every possible outcome of a deadline check.

use vstd::prelude::*;

verus! {

#[verifier::external_type_specification]
#[verifier::external_body]
pub struct ExInstant(std::time::Instant);

/// Relies on std::time::Instant::now: an opaque reading of a monotonic clock.
#[verifier::external_body]
fn instant_now() -> (t: std::time::Instant) {
    std::time::Instant::now()
}

/// Relies on std::time::Duration::from_millis, which never fails.
#[verifier::external_body]
fn duration_from_millis(ms: u64) -> (d: std::time::Duration) {
    std::time::Duration::from_millis(ms)
}

/// Relies on std::time::Instant::checked_add: None when the sum cannot be
/// represented, instead of panicking.
#[verifier::external_body]
fn instant_checked_add(t: &std::time::Instant, d: std::time::Duration) -> (r: Option<
    std::time::Instant,
>) {
    t.checked_add(d)
}

/// Relies on the `Ord` comparison of std::time::Instant.
#[verifier::external_body]
fn instant_ge(a: &std::time::Instant, b: &std::time::Instant) -> (r: bool) {
    *a >= *b
}

/// The moment `ms` milliseconds from now, or None when that moment cannot be
/// represented (treated by callers as no deadline at all).
pub fn deadline_after(ms: u64) -> (d: Option<std::time::Instant>) {
    let now = instant_now();
    let span = duration_from_millis(ms);
    instant_checked_add(&now, span)
}

/// Whether the deadline has passed. Without a deadline this is never true;
/// with one, the answer depends on the clock and callers must tolerate both.
pub fn deadline_passed(deadline: Option<&std::time::Instant>) -> (r: bool)
    ensures
        deadline is None ==> !r,
{
    match deadline {
        None => false,
        Some(d) => {
            let now = instant_now();
            instant_ge(&now, d)
        },
    }
}

} // verus!
