//! Wall-clock timestamps for write operations, carried as Unix milliseconds
//! and rendered to text only at the system boundary.

use vstd::prelude::*;

verus! {

/// Stamps are kept within eight quadrillion milliseconds of the epoch
/// (about 253,000 years either side), comfortably inside the span that
/// chrono's calendar can represent.
pub const TIME_MAX_MILLIS: i64 = 8_000_000_000_000_000;

pub open spec fn time_in_range(millis: int) -> bool {
    -8_000_000_000_000_000 <= millis <= 8_000_000_000_000_000
}

/// The text chrono renders for the UTC instant at the given Unix
/// milliseconds; a function of the value alone.
pub uninterp spec fn utc_text_of(millis: int) -> Seq<char>;

/// Relies on chrono: `DateTime::<Utc>::from_timestamp_millis` returns `Some`
/// for any count of milliseconds this far inside its calendar range, and the
/// `Display` rendering of a `DateTime<Utc>` depends on the instant alone and
/// is never empty.
#[verifier::external_body]
pub(crate) fn utc_string(millis: i64) -> (r: String)
    requires
        time_in_range(millis as int),
    ensures
        r@ == utc_text_of(millis as int),
        r@.len() > 0,
{
    chrono::DateTime::<chrono::Utc>::from_timestamp_millis(millis)
        .unwrap()
        .to_string()
}

/// Relies on chrono's `Utc::now`, which panics if the system clock reads
/// before the Unix epoch and otherwise yields a nonnegative timestamp.
/// Nothing else is assumed of the clock.
#[verifier::external_body]
pub(crate) fn now_millis() -> (r: i64)
    ensures
        r >= 0,
{
    chrono::Utc::now().timestamp_millis()
}

} // verus!
