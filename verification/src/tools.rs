//! Reading a time zone from the parts a pattern captured.
use vstd::prelude::*;
use crate::text::{spec_uppercase, to_uppercase, text_eq, spec_lowercase, to_lowercase};
use crate::formatter::spec_parse_i64;
use crate::text::parse_i64;
use crate::field::option_text;

verus! {

/// The named parts a time zone pattern captured: a zone name, or an offset
/// written with its sign, hours and minutes.
pub struct TimezoneCapture {
    pub timezone_1: Option<String>,
    pub timezone_2: Option<String>,
    pub timezone_hour: Option<String>,
    pub timezone_minute: Option<String>,
    pub timezone_type: Option<String>,
}

/// How `str::parse::<i32>` reads a text: its integer when it is one that
/// fits.
pub open spec fn spec_parse_i32(s: Seq<char>) -> Option<int> {
    match spec_parse_i64(s) {
        Some(v) => if i32::MIN <= v <= i32::MAX { Some(v) } else { None },
        None => None,
    }
}

fn parse_i32(s: &str) -> (r: Option<i32>)
    ensures
        r matches Some(v) ==> spec_parse_i32(s@) == Some(v as int),
        r is None ==> spec_parse_i32(s@) is None,
{
    match parse_i64(s) {
        Some(v) => if -2147483648 <= v && v <= 2147483647 { Some(v as i32) } else { None },
        None => None,
    }
}

/// The first zone of the table with the given name.
pub open spec fn spec_find_zone(zones: Seq<(String, i32)>, name: Seq<char>) -> Option<int>
    decreases zones.len(),
{
    if zones.len() == 0 {
        None
    } else {
        match spec_find_zone(zones.drop_last(), name) {
            Some(k) => Some(k),
            None => if zones.last().0@ == name { Some(zones.len() - 1) } else { None },
        }
    }
}

/// The minutes of an offset written as hours, minutes and a sign: the
/// hours and minutes, negated by a `-` sign.
pub open spec fn spec_offset_minutes_of(hour: Seq<char>, minute: Option<Seq<char>>, sign: Option<Seq<char>>) -> int {
    let hours = spec_parse_i32(hour)->Some_0;
    let minutes = match minute {
        Some(m) => spec_parse_i32(m)->Some_0,
        None => 0,
    };
    let factor = match sign {
        Some(t) => if t == seq!['-'] { -1int } else { 1 },
        None => 1,
    };
    (hours * 60 + minutes) * factor
}

/// The minutes of the offset a pattern captured.
pub open spec fn spec_offset_minutes(capture: TimezoneCapture) -> int {
    spec_offset_minutes_of(
        capture.timezone_hour->Some_0@,
        option_text(capture.timezone_minute),
        option_text(capture.timezone_type),
    )
}

/// When an offset written as hours, minutes and a sign can be read: the
/// hours are there and read as an integer, the minutes read as one when
/// they are there, and the offset in minutes fits.
pub open spec fn offset_readable_of(hour: Option<Seq<char>>, minute: Option<Seq<char>>, sign: Option<Seq<char>>) -> bool {
    &&& hour is Some
    &&& spec_parse_i32(hour->Some_0) is Some
    &&& (minute matches Some(m) ==> spec_parse_i32(m) is Some)
    &&& i32::MIN <= spec_parse_i32(hour->Some_0)->Some_0 * 60 <= i32::MAX
    &&& i32::MIN <= spec_offset_minutes_of(hour->Some_0, minute, sign) <= i32::MAX
    &&& ({
        let minutes = match minute {
            Some(m) => spec_parse_i32(m)->Some_0,
            None => 0,
        };
        i32::MIN <= spec_parse_i32(hour->Some_0)->Some_0 * 60 + minutes <= i32::MAX
    })
}

/// When the captured offset can be read.
pub open spec fn offset_readable(capture: TimezoneCapture) -> bool {
    offset_readable_of(
        option_text(capture.timezone_hour),
        option_text(capture.timezone_minute),
        option_text(capture.timezone_type),
    )
}

/// Whether the captured offset can be read.
pub fn offset_readable_text(capture: &TimezoneCapture) -> (r: bool)
    ensures
        r == offset_readable(*capture),
{
    let hour_text = match &capture.timezone_hour {
        Some(h) => h,
        None => {
            return false;
        },
    };
    let hour: i64 = match parse_i32(hour_text.as_str()) {
        Some(h) => h as i64,
        None => {
            return false;
        },
    };
    let minute: i64 = match &capture.timezone_minute {
        Some(m) => match parse_i32(m.as_str()) {
            Some(m) => m as i64,
            None => {
                return false;
            },
        },
        None => 0,
    };
    let negative: bool = match &capture.timezone_type {
        Some(t) => text_eq(t.as_str(), "-"),
        None => false,
    };
    proof {
        reveal_strlit("-");
        assert("-"@ =~= seq!['-']);
    }
    let hours: i64 = hour * 60;
    let total: i64 = hours + minute;
    let offset: i64 = if negative { 0 - total } else { total };
    proof {
        assert(hour as int == spec_parse_i32(capture.timezone_hour->Some_0@)->Some_0);
        assert(minute as int == match capture.timezone_minute {
            Some(m) => spec_parse_i32(m@)->Some_0,
            None => 0,
        });
        let ghost sign: int = match &capture.timezone_type {
            Some(t) => if t@ == seq!['-'] { -1int } else { 1 },
            None => 1,
        };
        assert(negative <==> sign == -1);
        assert(offset as int == (hour * 60 + minute) * sign);
        assert(offset as int == spec_offset_minutes(*capture));
    }
    -2147483648 <= hours && hours <= 2147483647 && -2147483648 <= total && total <= 2147483647
        && -2147483648 <= offset && offset <= 2147483647
}

fn find_zone(zones: &Vec<(String, i32)>, name: &String) -> (r: Option<usize>)
    ensures
        r matches Some(k) ==> spec_find_zone(zones@, name@) == Some(k as int) && k < zones@.len(),
        r is None ==> spec_find_zone(zones@, name@) is None,
{
    let mut k: usize = 0;
    while k < zones.len()
        invariant
            k <= zones@.len(),
            spec_find_zone(zones@.take(k as int), name@) is None,
        decreases zones@.len() - k,
    {
        assert(zones@.take(k + 1).drop_last() =~= zones@.take(k as int));
        if text_eq(zones[k].0.as_str(), name.as_str()) {
            proof {
                lemma_find_zone_prefix(zones@, name@, k as int + 1, zones@.len() as int);
                assert(zones@.take(zones@.len() as int) =~= zones@);
            }
            return Some(k);
        }
        k = k + 1;
    }
    assert(zones@.take(k as int) =~= zones@);
    None
}

proof fn lemma_find_zone_prefix(zones: Seq<(String, i32)>, name: Seq<char>, n: int, m: int)
    requires
        0 < n <= m <= zones.len(),
        spec_find_zone(zones.take(n - 1), name) is None,
        zones[n - 1].0@ == name,
    ensures
        spec_find_zone(zones.take(m), name) == Some(n - 1),
    decreases m,
{
    assert(zones.take(m).drop_last() =~= zones.take(m - 1));
    if m > n {
        lemma_find_zone_prefix(zones, name, n, m - 1);
    }
}

/// Reads the time zone a pattern captured: a zone name, upper-cased and
/// looked up in the table of zones, or an offset, named as captured.
/// Gives the zone's name and its offset in minutes; a name that is not in
/// the table, or no capture of either kind, gives nothing.
pub fn parse_timezone(timezones: &Vec<(String, i32)>, capture: &TimezoneCapture) -> (r: Option<(String, i32)>)
    requires
        capture.timezone_1 is None && capture.timezone_2 is Some ==> offset_readable(*capture),
    ensures
        capture.timezone_1 matches Some(tz) ==> match spec_find_zone(timezones@, spec_uppercase(tz@)) {
            Some(k) => r matches Some(found) && found.0@ == spec_uppercase(tz@) && found.1 == timezones@[k].1,
            None => r is None,
        },
        capture.timezone_1 is None ==> match capture.timezone_2 {
            Some(tz) => r matches Some(found) && found.0 == tz && found.1 as int == spec_offset_minutes(*capture),
            None => r is None,
        },
{
    match &capture.timezone_1 {
        Some(tz) => {
            let timezone = to_uppercase(tz.as_str());
            match find_zone(timezones, &timezone) {
                Some(k) => {
                    let offset = timezones[k].1;
                    Some((timezone, offset))
                },
                None => None,
            }
        },
        None => match &capture.timezone_2 {
            Some(tz) => {
                let hour_text = match &capture.timezone_hour {
                    Some(h) => h,
                    None => {
                        return None;
                    },
                };
                let hour = match parse_i32(hour_text.as_str()) {
                    Some(h) => h,
                    None => {
                        return None;
                    },
                };
                let minute: i32 = match &capture.timezone_minute {
                    Some(minute) => match parse_i32(minute.as_str()) {
                        Some(m) => m,
                        None => {
                            return None;
                        },
                    },
                    None => 0,
                };
                let timezone_type: i32 = match &capture.timezone_type {
                    Some(timezone_type) => if text_eq(timezone_type.as_str(), "-") {
                        -1
                    } else {
                        1
                    },
                    None => 1,
                };
                proof {
                    reveal_strlit("-");
                    let total = hour * 60 + minute;
                    assert("-"@ =~= seq!['-']);
                    assert(hour as int == spec_parse_i32(capture.timezone_hour->Some_0@)->Some_0);
                    assert(minute as int == match capture.timezone_minute {
                        Some(m) => spec_parse_i32(m@)->Some_0,
                        None => 0,
                    });
                    assert(timezone_type as int == match capture.timezone_type {
                        Some(t) => if t@ == seq!['-'] { -1int } else { 1 },
                        None => 1,
                    });
                    assert(timezone_type == 1 || timezone_type == -1);
                    assert(total * timezone_type == spec_offset_minutes(*capture));
                    assert(i32::MIN <= total * timezone_type <= i32::MAX);
                }
                Some((tz.clone(), (hour * 60 + minute) * timezone_type))
            },
            None => None,
        },
    }
}

/// The named parts a time pattern captured: the hour, and the minute,
/// second and meridiem when there, each with where its match ends.
pub struct TimeCapture {
    pub hour: String,
    pub minute: Option<(String, usize)>,
    pub second: Option<(String, usize)>,
    pub meridiem: Option<(String, usize)>,
}

/// When the captured time can be read: the hour, and the minute and the
/// second when there, read as integers.
pub open spec fn clock_readable(capture: TimeCapture) -> bool {
    &&& spec_parse_i32(capture.hour@) is Some
    &&& (capture.minute matches Some(m) ==> spec_parse_i32(m.0@) is Some)
    &&& (capture.second matches Some(s) ==> spec_parse_i32(s.0@) is Some)
}

/// The time a capture reads as: hour, minute and second (a missing minute
/// or second is 0; `pm` in any case adds twelve hours to an hour from 0 to
/// 11), and where the time's text ends: at the meridiem, else the second,
/// else the minute, else 0.
pub open spec fn spec_clock(capture: TimeCapture) -> (int, int, int, int) {
    let hour = spec_parse_i32(capture.hour@)->Some_0;
    let minute = match capture.minute {
        Some(m) => spec_parse_i32(m.0@)->Some_0,
        None => 0,
    };
    let second = match capture.second {
        Some(s) => spec_parse_i32(s.0@)->Some_0,
        None => 0,
    };
    let is_pm = match capture.meridiem {
        Some(m) => spec_lowercase(m.0@) == "pm"@,
        None => false,
    };
    let end = match capture.meridiem {
        Some(m) => m.1 as int,
        None => match capture.second {
            Some(s) => s.1 as int,
            None => match capture.minute {
                Some(m) => m.1 as int,
                None => 0,
            },
        },
    };
    (if is_pm && 0 <= hour < 12 { hour + 12 } else { hour }, minute, second, end)
}

/// Whether the captured time can be read.
pub fn clock_readable_text(capture: &TimeCapture) -> (r: bool)
    ensures
        r == clock_readable(*capture),
{
    if parse_i32(capture.hour.as_str()).is_none() {
        return false;
    }
    match &capture.minute {
        Some(minute) => {
            if parse_i32(minute.0.as_str()).is_none() {
                return false;
            }
        },
        None => {},
    }
    match &capture.second {
        Some(second) => parse_i32(second.0.as_str()).is_some(),
        None => true,
    }
}

/// Reads the time a pattern captured.
pub fn read_clock(capture: &TimeCapture) -> (r: (i32, i32, i32, usize))
    requires
        clock_readable(*capture),
    ensures
        (r.0 as int, r.1 as int, r.2 as int, r.3 as int) == spec_clock(*capture),
{
    let mut end_position: usize = 0;
    let mut hour = match parse_i32(capture.hour.as_str()) {
        Some(h) => h,
        None => {
            return (0, 0, 0, 0);
        },
    };
    let minute: i32 = match &capture.minute {
        Some(minute) => {
            end_position = minute.1;
            match parse_i32(minute.0.as_str()) {
                Some(m) => m,
                None => {
                    return (0, 0, 0, 0);
                },
            }
        },
        None => 0,
    };
    let second: i32 = match &capture.second {
        Some(second) => {
            end_position = second.1;
            match parse_i32(second.0.as_str()) {
                Some(s) => s,
                None => {
                    return (0, 0, 0, 0);
                },
            }
        },
        None => 0,
    };
    proof {
        reveal_strlit("pm");
    }
    match &capture.meridiem {
        Some(meridiem) => {
            let lower = to_lowercase(meridiem.0.as_str());
            if text_eq(lower.as_str(), "pm") && hour < 12 && hour >= 0 {
                hour = hour + 12;
            }
            end_position = meridiem.1;
        },
        None => {},
    }
    (hour, minute, second, end_position)
}

} // verus!
