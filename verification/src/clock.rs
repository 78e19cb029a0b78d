use vstd::prelude::*;

verus! {

/// `std::time::SystemTime::now().duration_since(UNIX_EPOCH)` in whole
/// seconds, 0 when the clock reads before the epoch.  Nothing is stated of
/// the value.
#[verifier::external_body]
pub fn unix_now_secs() -> (t: u64) {
    std::time::SystemTime::now().duration_since(std::time::UNIX_EPOCH).map(|d| d.as_secs()).unwrap_or(0)
}

/// `std::time::SystemTime::now().duration_since(UNIX_EPOCH)` in whole
/// milliseconds (truncated to 64 bits), 0 when the clock reads before the
/// epoch.  Nothing is stated of the value.
#[verifier::external_body]
pub fn unix_now_millis() -> (t: u64) {
    std::time::SystemTime::now().duration_since(std::time::UNIX_EPOCH).map(|d| d.as_millis() as u64).unwrap_or(0)
}

/// `uuid::Uuid::new_v4().to_string()`: a random UUID in its hyphenated
/// form, which the crate writes with 36 characters.
#[verifier::external_body]
pub fn new_uuid_v4() -> (s: String)
    ensures
        s@.len() == 36,
{
    uuid::Uuid::new_v4().to_string()
}

} // verus!
