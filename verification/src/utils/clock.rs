//! The wall clock.
use vstd::prelude::*;

verus! {

#[verifier::external_type_specification]
#[verifier::external_body]
pub struct ExSystemTime(std::time::SystemTime);

/// `SystemTime::now()`: the time it is. Nothing is promised of it.
#[verifier::external_body]
fn system_time_now() -> (r: std::time::SystemTime) {
    std::time::SystemTime::now()
}

/// `SystemTime::duration_since(UNIX_EPOCH)`: the time passed since the Unix
/// epoch, `None` for a moment before it. Nothing is promised of the value.
#[verifier::external_body]
fn duration_since_unix_epoch(t: &std::time::SystemTime) -> (r: Option<std::time::Duration>) {
    match t.duration_since(std::time::UNIX_EPOCH) {
        Ok(d) => Some(d),
        Err(_) => None,
    }
}

/// `Duration::as_micros`: the whole microseconds of a duration. Nothing is
/// promised of the value.
#[verifier::external_body]
fn duration_as_micros(d: &std::time::Duration) -> (r: u128) {
    d.as_micros()
}

/// Microseconds since the Unix epoch, 0 for a clock set before it. Nothing
/// is promised of the value: it is the time.
pub fn now_micros() -> i64 {
    let now = system_time_now();
    match duration_since_unix_epoch(&now) {
        Some(d) => {
            let micros = duration_as_micros(&d);
            #[verifier::truncate]
            (micros as i64)
        },
        None => 0,
    }
}

} // verus!
