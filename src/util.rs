use vstd::prelude::*;
use vstd::string::StrSliceExecFns;

verus! {

pub const YEAR_SECONDS: i64 = 31536000;

pub const MONTH_SECONDS: i64 = 2592000;

pub const DAY_SECONDS: i64 = 86400;

pub const HOUR_SECONDS: i64 = 3600;

pub const MINUTE_SECONDS: i64 = 60;

/// How long ago a timestamp lies, split into calendar-like units
/// (a year is 365 days and a month 30 days).
#[derive(Clone, Copy, PartialEq, PartialOrd, Eq, Ord)]
pub struct DiffDayHourMinuteSecond {
    pub seconds: i16,
    pub hours: i16,
    pub minutes: i16,
    pub days: i16,
    pub months: i16,
    pub years: i16,
}

/// The first `n` characters of `s` (all of them when it is shorter).
pub open spec fn front_chars(s: Seq<char>, n: nat) -> Seq<char> {
    if n < s.len() {
        s.take(n as int)
    } else {
        s
    }
}

/// Returns the first `n` characters of `data`.
pub fn front_n_chars(data: &str, n: usize) -> (r: String)
    ensures
        r@ == front_chars(data@, n as nat),
{
    let len = data.unicode_len();
    let end = if n < len {
        n
    } else {
        len
    };
    let front = data.substring_char(0, end);
    assert(front@ == front_chars(data@, n as nat)) by {
        if n >= len {
            assert(data@.subrange(0, len as int) =~= data@);
        }
    }
    front.to_owned()
}

impl DiffDayHourMinuteSecond {
    /// The split of `elapsed` seconds into whole years, months, days,
    /// hours, minutes and the remaining seconds.
    pub open spec fn split_of(elapsed: int) -> DiffDayHourMinuteSecond {
        let years = elapsed / (YEAR_SECONDS as int);
        let r1 = elapsed % (YEAR_SECONDS as int);
        let months = r1 / (MONTH_SECONDS as int);
        let r2 = r1 % (MONTH_SECONDS as int);
        let days = r2 / (DAY_SECONDS as int);
        let r3 = r2 % (DAY_SECONDS as int);
        let hours = r3 / (HOUR_SECONDS as int);
        let r4 = r3 % (HOUR_SECONDS as int);
        DiffDayHourMinuteSecond {
            seconds: (r4 % (MINUTE_SECONDS as int)) as i16,
            hours: hours as i16,
            minutes: (r4 / (MINUTE_SECONDS as int)) as i16,
            days: days as i16,
            months: months as i16,
            years: years as i16,
        }
    }

    /// The time from `t` to `now` (both in seconds since the epoch), or
    /// `None` when `t` is not earlier than `now`. A count of years beyond
    /// the range of `i16` wraps.
    pub fn calc_diff_hours(now: i64, t: i64) -> (r: Option<DiffDayHourMinuteSecond>)
        ensures
            t >= now ==> r is None,
            t < now ==> r == Some(Self::split_of(now - t)),
    {
        if t >= now {
            return None;
        }
        let elapsed: i128 = now as i128 - t as i128;
        let years: i128 = elapsed / (YEAR_SECONDS as i128);
        let r1: i128 = elapsed % (YEAR_SECONDS as i128);
        let months: i128 = r1 / (MONTH_SECONDS as i128);
        let r2: i128 = r1 % (MONTH_SECONDS as i128);
        let days: i128 = r2 / (DAY_SECONDS as i128);
        let r3: i128 = r2 % (DAY_SECONDS as i128);
        let hours: i128 = r3 / (HOUR_SECONDS as i128);
        let r4: i128 = r3 % (HOUR_SECONDS as i128);
        let minutes: i128 = r4 / (MINUTE_SECONDS as i128);
        let seconds: i128 = r4 % (MINUTE_SECONDS as i128);
        Some(
            DiffDayHourMinuteSecond {
                seconds: seconds as i16,
                hours: hours as i16,
                minutes: minutes as i16,
                days: days as i16,
                months: months as i16,
                years: years as i16,
            },
        )
    }
}

} // verus!
