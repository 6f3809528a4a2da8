//! Times of day as they are written in messages and in the alarms file: `HH:MM`, on a 24-hour
//! clock.

use crate::calendar::NaiveTime;
use chrono::Timelike;
use vstd::prelude::*;

verus! {

/// A text that is not a time of day, with the reason.
#[derive(Debug, PartialEq, Eq)]
pub struct TimeFormatError {
    pub message: String,
}

/// The digit that stands for a number below ten.
pub open spec fn digit(value: int) -> char {
    (48 + value) as char
}

/// Two digits, a colon and two digits.
pub open spec fn is_two_digit_text(text: Seq<char>) -> bool {
    &&& text.len() == 5
    &&& '0' <= text[0] <= '9'
    &&& '0' <= text[1] <= '9'
    &&& text[2] == ':'
    &&& '0' <= text[3] <= '9'
    &&& '0' <= text[4] <= '9'
}

/// The number that two digits write.
pub open spec fn two_digit_number(tens: char, ones: char) -> int {
    (tens as int - 48) * 10 + (ones as int - 48)
}

/// The hour that a text of two digits, a colon and two digits names.
pub open spec fn hour_in(text: Seq<char>) -> int {
    two_digit_number(text[0], text[1])
}

/// The minute that a text of two digits, a colon and two digits names.
pub open spec fn minute_in(text: Seq<char>) -> int {
    two_digit_number(text[3], text[4])
}

/// The hour and the minute that the text names are those of a time on a 24-hour clock.
pub open spec fn is_clock_time(text: Seq<char>) -> bool {
    hour_in(text) < 24 && minute_in(text) < 60
}

/// The text of a time of day: its hour and its minute.
pub open spec fn hm_text(time: NaiveTime) -> Seq<char> {
    let hour: int = time.seconds as int / 3600;
    let minute: int = time.seconds as int % 3600 / 60;
    seq![digit(hour / 10), digit(hour % 10), ':', digit(minute / 10), digit(minute % 10)]
}

/// What `NaiveTime::parse_from_str` makes of a text under the format `%H:%M`: seconds since
/// midnight and nanoseconds, or the message of its error.
pub uninterp spec fn parsed_hm(text: Seq<char>) -> Result<(u32, u32), Seq<char>>;

/// The text of `time`, without its seconds.
pub fn serialize(time: &NaiveTime) -> (r: String)
    requires
        time.wf(),
    ensures
        r@ == hm_text(*time),
{
    format_hm(*time)
}

/// The time of day that `text` names.
///
/// A text that `serialize` wrote is read back as the time that was written, to the minute. Two
/// digits, a colon and two digits that name no time of a 24-hour clock are refused.
pub fn deserialize(text: &str) -> (r: Result<NaiveTime, TimeFormatError>)
    ensures
        match (r, parsed_hm(text@)) {
            (Ok(time), Ok(parts)) => time.seconds == parts.0 && time.nanos == parts.1,
            (Err(e), Err(message)) => e.message@ == message,
            _ => false,
        },
        r matches Ok(time) ==> time.wf() && time == time.to_the_minute(),
        forall|time: NaiveTime|
            #![trigger hm_text(time)]
            time.wf() && text@ == hm_text(time) ==> r == Ok::<NaiveTime, TimeFormatError>(
                time.to_the_minute(),
            ),
        is_two_digit_text(text@) ==> (r is Ok <==> is_clock_time(text@)),
        is_two_digit_text(text@) && r is Ok ==> r->Ok_0.seconds == hour_in(text@) * 3600
            + minute_in(text@) * 60,
{
    match parse_hm(text) {
        Ok((seconds, nanos)) => Ok(NaiveTime { seconds, nanos }),
        Err(message) => Err(TimeFormatError { message }),
    }
}

/// Calls `NaiveTime::format` with `%H:%M` and turns what it returns into text. Claims that the
/// text is the hour and the minute, each padded with a zero to two digits.
#[verifier::external_body]
fn format_hm(time: NaiveTime) -> (r: String)
    requires
        time.wf(),
    ensures
        r@ == hm_text(time),
{
    let at = chrono::NaiveTime::from_num_seconds_from_midnight_opt(time.seconds, time.nanos);
    at.unwrap().format("%H:%M").to_string()
}

/// Calls `NaiveTime::parse_from_str` with `%H:%M`. The result is named `parsed_hm`. Claims that
/// a time which is read has no seconds, and that a text of two digits, a colon and two digits
/// is read as that hour and minute, and refused where a day has no such hour or minute.
#[verifier::external_body]
fn parse_hm(text: &str) -> (r: Result<(u32, u32), String>)
    ensures
        r is Ok <==> parsed_hm(text@) is Ok,
        r matches Ok(parts) ==> parsed_hm(text@)->Ok_0 == parts,
        r matches Err(message) ==> parsed_hm(text@)->Err_0 == message@,
        r matches Ok(parts) ==> parts.0 < 86_400 && parts.0 % 60 == 0 && parts.1 == 0,
        is_two_digit_text(text@) ==> (r is Ok <==> is_clock_time(text@)),
        is_two_digit_text(text@) && r is Ok ==> r->Ok_0.0 == hour_in(text@) * 3600 + minute_in(
            text@,
        ) * 60,
{
    match chrono::NaiveTime::parse_from_str(text, "%H:%M") {
        Ok(time) => Ok((time.num_seconds_from_midnight(), time.nanosecond())),
        Err(error) => Err(error.to_string()),
    }
}

} // verus!
