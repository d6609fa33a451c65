//! The clock and the random source: thin trusted wrappers around `chrono`,
//! `rand` and `std::time`, and the verified readings built on them.
use chrono::Timelike;
use rand::RngCore;
use vstd::prelude::*;

verus! {

#[verifier::external_type_specification]
#[verifier::external_body]
pub struct ExThreadRng(rand::rngs::ThreadRng);

#[verifier::external_type_specification]
#[verifier::external_body]
pub struct ExSystemTime(std::time::SystemTime);

#[verifier::external_type_specification]
#[verifier::external_body]
pub struct ExSystemTimeError(std::time::SystemTimeError);

/// `chrono::Local::now()`, read once, as its hour, minute and second
/// (`Timelike::hour`, `minute`, `second`). chrono documents them as 0 to 23,
/// 0 to 59 and 0 to 59 (a leap second shows in the nanoseconds instead).
/// Nothing else is stated: which time it is depends on the clock. The
/// date-time itself cannot be passed to verified code, since its type is
/// generic over chrono's `TimeZone` trait.
#[verifier::external_body]
pub(crate) fn local_clock() -> (r: (u32, u32, u32))
    ensures
        r.0 < 24,
        r.1 < 60,
        r.2 < 60,
{
    let now = chrono::Local::now();
    (now.hour(), now.minute(), now.second())
}

/// `rand::random::<u64>()`: a random number. Nothing is stated of it.
#[verifier::external_body]
pub(crate) fn random_u64() -> u64 {
    rand::random::<u64>()
}

/// `rand::thread_rng()`: the thread-local generator. Nothing is stated of
/// it.
#[verifier::external_body]
pub(crate) fn thread_rng() -> rand::rngs::ThreadRng {
    rand::thread_rng()
}

/// `RngCore::fill_bytes` on a sixteen-byte buffer: sixteen random bytes.
/// Nothing is stated of them.
#[verifier::external_body]
pub(crate) fn fill_bytes16(rng: &mut rand::rngs::ThreadRng) -> [u8; 16] {
    let mut bytes = [0u8; 16];
    rng.fill_bytes(&mut bytes);
    bytes
}

/// `std::time::SystemTime::now()`. Nothing is stated of it.
#[verifier::external_body]
pub(crate) fn system_now() -> std::time::SystemTime {
    std::time::SystemTime::now()
}

/// `SystemTime::duration_since(UNIX_EPOCH)`: the time elapsed since the
/// Unix epoch, or an error when the time lies before it. Nothing is stated
/// of which comes.
#[verifier::external_body]
pub(crate) fn since_unix_epoch(t: &std::time::SystemTime) -> std::result::Result<
    core::time::Duration,
    std::time::SystemTimeError,
> {
    t.duration_since(std::time::UNIX_EPOCH)
}

/// `Duration::as_secs`: whole seconds. Nothing is stated of the value.
#[verifier::external_body]
pub(crate) fn whole_seconds(d: &core::time::Duration) -> u64 {
    d.as_secs()
}

/// `Duration::as_millis`: whole milliseconds. Nothing is stated of the
/// value.
#[verifier::external_body]
pub(crate) fn whole_millis(d: &core::time::Duration) -> u128 {
    d.as_millis()
}

/// Seconds since the Unix epoch, or 0 when the clock reads earlier.
pub fn unix_now() -> u64 {
    let now = system_now();
    match since_unix_epoch(&now) {
        Ok(d) => whole_seconds(&d),
        Err(_) => 0,
    }
}

/// Milliseconds since the Unix epoch (cut to 64 bits), or 0 when the clock
/// reads earlier.
pub fn unix_millis() -> u64 {
    let now = system_now();
    match since_unix_epoch(&now) {
        Ok(d) => {
            let ms = whole_millis(&d);
            ms as u64
        },
        Err(_) => 0,
    }
}

/// Sixteen random bytes from the thread-local generator.
pub fn random_bytes16() -> [u8; 16] {
    let mut rng = thread_rng();
    fill_bytes16(&mut rng)
}

} // verus!
