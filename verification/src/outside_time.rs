//! The clock of the machine and the writing of a moment, as the `chrono` crate does them.

use std::fmt::Write;
use vstd::prelude::*;

verus! {

/// A moment: the seconds and nanoseconds since the beginning of 1970, and how many seconds the
/// clocks at the place are ahead.
#[derive(Debug, Clone, Copy, PartialEq, Eq)]
pub struct Moment {
    pub seconds: i64,
    pub nanos: u32,
    pub offset: i32,
}

/// A moment that can be told: between the years -262143 and 262142, at a place whose clocks are
/// less than a day ahead or behind.
pub open spec fn can_be_told(moment: Moment) -> bool {
    &&& -8_334_601_228_800 <= moment.seconds <= 8_210_266_876_799
    &&& moment.nanos < 1_000_000_000
    &&& -86_400 < moment.offset < 86_400
}

/// What `chrono::DateTime::format` writes of a moment by a template: `None` where the moment
/// cannot be told or the template holds a mark without a meaning.
pub uninterp spec fn moment_text(seconds: i64, nanos: u32, offset: i32, template: Seq<char>) -> Option<
    Seq<char>,
>;

/// `chrono::Local::now`: the present moment where the program runs. Nothing can be said of it but
/// that it lies in the years that `chrono` can tell and that clocks are less than a day apart.
#[verifier::external_body]
pub(crate) fn local_now() -> (moment: Moment)
    ensures
        can_be_told(moment),
{
    let now = chrono::Local::now();
    Moment {
        seconds: now.timestamp(),
        nanos: now.timestamp_subsec_nanos(),
        offset: now.offset().local_minus_utc(),
    }
}

/// `chrono::DateTime::format`, written out: each mark of the template, a percent sign and what
/// follows it, gives way to a part of the moment. The text depends on the moment and the template
/// alone. A template without marks is written as it is, unless the moment cannot be told.
#[verifier::external_body]
pub(crate) fn write_moment(moment: Moment, template: &str) -> (text: Option<String>)
    ensures
        moment_text(moment.seconds, moment.nanos, moment.offset, template@) == match text {
            Some(written) => Some(written@),
            None => None,
        },
        !template@.contains('%') ==> match text {
            Some(written) => written@ == template@,
            None => !can_be_told(moment),
        },
{
    let zone = chrono::FixedOffset::east_opt(moment.offset)?;
    let time = chrono::DateTime::from_timestamp(moment.seconds, moment.nanos)?.with_timezone(&zone);
    let mut text = String::new();
    match write!(text, "{}", time.format(template)) {
        Ok(()) => Some(text),
        Err(_) => None,
    }
}

} // verus!
