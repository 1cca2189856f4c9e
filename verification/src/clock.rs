//! The clock of the machine, and time stamps as text.

use vstd::prelude::*;
use crate::text::optional_text;

verus! {

/// The time on this machine's clock, in seconds since the Unix epoch, as
/// `chrono::Utc::now().timestamp()` gives it. Nothing is claimed of the
/// number: two calls may differ in any way. chrono panics where the clock
/// stands before the epoch.
#[verifier::external_body]
pub(crate) fn current_timestamp() -> (now: i64) {
    chrono::Utc::now().timestamp()
}

/// The text that chrono writes for the moment `seconds` after the Unix
/// epoch, in UTC, under the format `format`; `None` where chrono has no
/// date for that moment or does not accept the format.
pub uninterp spec fn date_text(seconds: int, format: Seq<char>) -> Option<Seq<char>>;

/// Writes the moment `seconds` after the Unix epoch, in UTC, as chrono
/// does under `format`: `chrono::DateTime::from_timestamp` makes the date,
/// `DateTime::format` reads the format, and `DelayedFormat::write_to`
/// writes the text. The first gives `None` for a moment outside the years
/// that chrono holds, the last fails on a format that chrono does not
/// accept; either way the result is `None`. The text depends on the two
/// arguments alone.
#[verifier::external_body]
pub(crate) fn format_timestamp(seconds: i64, format: &str) -> (r: Option<String>)
    ensures
        optional_text(r) == date_text(seconds as int, format@),
{
    let moment = chrono::DateTime::from_timestamp(seconds, 0)?;
    let mut out = String::new();
    moment.format(format).write_to(&mut out).ok()?;
    Some(out)
}

} // verus!
