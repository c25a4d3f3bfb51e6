use vstd::prelude::*;

verus! {

/// The monotonic clock's instants, as the `instant` crate names them.
#[verifier::external_type_specification]
#[verifier::external_body]
pub struct ExInstant(instant::Instant);

/// Calls `instant::Instant::now`: the current moment of the monotonic clock.
/// It depends on the time of the call, so nothing is stated of it.
#[verifier::external_body]
pub(crate) fn now() -> (r: instant::Instant) {
    instant::Instant::now()
}

/// Calls `Instant::elapsed`: the time that has passed since `since`. It
/// depends on the time of the call, so nothing is stated of it.
#[verifier::external_body]
fn elapsed(since: &instant::Instant) -> (r: std::time::Duration) {
    since.elapsed()
}

/// Calls `Duration::as_millis`: the whole milliseconds of `d`. A duration is
/// opaque here, so nothing is stated of the number beyond its type.
#[verifier::external_body]
fn as_millis(d: &std::time::Duration) -> (r: u128) {
    d.as_millis()
}

/// The whole milliseconds that have passed since `since`.
pub fn elapsed_millis(since: &instant::Instant) -> (r: u128) {
    let d = elapsed(since);
    as_millis(&d)
}

} // verus!
