//! The trusted boundary: the few calls whose results come from outside
//! crates or from the clocks, each behind a contract Verus believes.

use vstd::prelude::*;

verus! {

/// The lowercase form of a string, as `str::to_lowercase` computes it.
/// Left unspecified beyond the facts stated at the wrapper: it depends on
/// the characters alone.
pub uninterp spec fn lower_of(s: Seq<char>) -> Seq<char>;

/// Relies on `str::to_lowercase`: the result depends on the characters
/// alone, and an empty string stays empty.
#[verifier::external_body]
pub(crate) fn to_lower(s: &str) -> (r: String)
    ensures
        r@ == lower_of(s@),
        s@.len() == 0 ==> r@.len() == 0,
{
    s.to_lowercase()
}

/// Relies on `uuid::Uuid::new_v4` and its `Display` form: a freshly drawn
/// random identifier rendered as the 36-character hyphenated format.
/// Nothing relates two draws, so callers state what holds of any id.
#[verifier::external_body]
pub(crate) fn new_batch_id() -> (r: String)
    ensures
        r@.len() == 36,
{
    uuid::Uuid::new_v4().to_string()
}

/// Relies on `chrono::Local::now` and its `format` with the fixed layout
/// `%Y-%m-%d %H:%M:%S`: the current wall-clock date and time.  The value
/// depends on the clock; of its shape, only that every field is rendered
/// and the year to at least four digits, so at least 19 characters.
#[verifier::external_body]
pub(crate) fn local_now_stamp() -> (r: String)
    ensures
        r@.len() >= 19,
{
    chrono::Local::now().format("%Y-%m-%d %H:%M:%S").to_string()
}

/// Relies on `chrono::Local::now` and its `format` with the fixed layout
/// `%H:%M:%S`: the current wall-clock time of day.  The value depends on
/// the clock; each of the three fields is two digits, so 8 characters.
#[verifier::external_body]
pub(crate) fn local_now_hms() -> (r: String)
    ensures
        r@.len() == 8,
{
    chrono::Local::now().format("%H:%M:%S").to_string()
}

/// Relies on `std::time::SystemTime::now`: whole seconds of the system
/// clock since the Unix epoch, 0 should the clock read before it.  The
/// result depends on the clock, so nothing is promised of it.
#[verifier::external_body]
pub(crate) fn now_secs() -> (r: u64) {
    match std::time::SystemTime::now().duration_since(std::time::UNIX_EPOCH) {
        Ok(d) => d.as_secs(),
        Err(_) => 0,
    }
}

} // verus!
