//! Text for people: squeezed titles and readable dates.

use vstd::prelude::*;
use crate::chars::to_chars;
use crate::clock::{date_text, format_timestamp};
use crate::text::{optional_text, push_squeezed, squeeze};

verus! {

/// The format in which a time stamp is shown: year, month, day, hour,
/// minute and second.
pub open spec fn date_format() -> Seq<char> {
    "%Y-%m-%d %H:%M:%S"@
}

/// `text` with every run of white space replaced by one space.
pub fn squeeze_whitespaces(text: &str) -> (r: String)
    ensures
        r@ == squeeze(text@),
{
    let s = to_chars(text);
    let mut out = String::new();
    push_squeezed(&mut out, s.as_slice(), 0, s.len());
    proof {
        assert(s@.subrange(0, s.len() as int) =~= s@);
        assert(Seq::<char>::empty() + squeeze(s@) =~= squeeze(s@));
    }
    out
}

/// The date and time, in UTC, of the moment `ts` seconds after the Unix
/// epoch; `None` where that moment lies outside the years that dates
/// reach.
pub fn try_get_date_string(ts: i64) -> (r: Option<String>)
    ensures
        optional_text(r) == date_text(ts as int, date_format()),
{
    match format_timestamp(ts, "%Y-%m-%d %H:%M:%S") {
        None => None,
        Some(_) => Some(get_date_string(ts)),
    }
}

/// The date and time, in UTC, of the moment `ts` seconds after the Unix
/// epoch, which has to be one that dates reach.
pub fn get_date_string(ts: i64) -> (r: String)
    requires
        date_text(ts as int, date_format()) is Some,
    ensures
        r@ == date_text(ts as int, date_format())->Some_0,
{
    format_timestamp(ts, "%Y-%m-%d %H:%M:%S").unwrap()
}

} // verus!
