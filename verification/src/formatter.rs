//! Writing results: durations in words, numbers with thousands separators,
//! and the months of a language.
use vstd::prelude::*;
use crate::constants::{DurationFormat, DurationFormatType, MonthInfo};
use crate::text::{spec_trim, spec_replace, spec_parse_int, spec_decimal, trim, replace, parse_i64, int_to_string,
    push_char, append_str, chars_of};

verus! {

pub const MINUTE: i64 = 60;
pub const HOUR: i64 = 3600;
pub const DAY: i64 = 86400;
pub const WEEK: i64 = 604800;
pub const MONTH: i64 = 2592000;
pub const YEAR: i64 = 31536000;

/// How `str::parse::<i64>` reads a text: its integer when it is one that
/// fits.
pub open spec fn spec_parse_i64(s: Seq<char>) -> Option<int> {
    match spec_parse_int(s) {
        Some(v) => if i64::MIN <= v <= i64::MAX { Some(v) } else { None },
        None => None,
    }
}

fn parse_i64_exact(s: &str) -> (r: Option<i64>)
    ensures
        r matches Some(v) ==> spec_parse_i64(s@) == Some(v as int),
        r is None ==> spec_parse_i64(s@) is None,
{
    parse_i64(s)
}

/// The seconds in one unit of time: a month is thirty days, a year 365.
pub open spec fn unit_seconds(t: DurationFormatType) -> int {
    match t {
        DurationFormatType::Second => 1,
        DurationFormatType::Minute => 60,
        DurationFormatType::Hour => 3600,
        DurationFormatType::Day => 86400,
        DurationFormatType::Week => 604800,
        DurationFormatType::Month => 2592000,
        DurationFormatType::Year => 31536000,
    }
}

/// The units a duration is written in, from the largest, seconds aside.
pub open spec fn duration_units() -> Seq<DurationFormatType> {
    seq![
        DurationFormatType::Year,
        DurationFormatType::Month,
        DurationFormatType::Week,
        DurationFormatType::Day,
        DurationFormatType::Hour,
        DurationFormatType::Minute,
    ]
}

/// A span of `d` seconds written in the given units, largest first: each
/// unit it reaches takes as many whole units as fit, and what is left over
/// goes on as seconds when it is not zero.
pub open spec fn spec_duration_parts(d: int, units: Seq<DurationFormatType>) -> Seq<(int, DurationFormatType)>
    decreases units.len(),
{
    if units.len() == 0 {
        if d > 0 { seq![(d, DurationFormatType::Second)] } else { Seq::empty() }
    } else {
        let u = unit_seconds(units[0]);
        if d >= u {
            seq![(d / u, units[0])] + spec_duration_parts(d % u, units.drop_first())
        } else {
            spec_duration_parts(d, units.drop_first())
        }
    }
}

/// The seconds the parts of a duration add up to.
pub open spec fn parts_seconds(parts: Seq<(int, DurationFormatType)>) -> int
    decreases parts.len(),
{
    if parts.len() == 0 {
        0
    } else {
        parts[0].0 * unit_seconds(parts[0].1) + parts_seconds(parts.drop_first())
    }
}

proof fn lemma_parts_seconds_concat(a: Seq<(int, DurationFormatType)>, b: Seq<(int, DurationFormatType)>)
    ensures
        parts_seconds(a + b) == parts_seconds(a) + parts_seconds(b),
    decreases a.len(),
{
    if a.len() > 0 {
        assert((a + b).drop_first() =~= a.drop_first() + b);
        lemma_parts_seconds_concat(a.drop_first(), b);
    } else {
        assert(a + b =~= b);
    }
}

#[verifier::spinoff_prover]
proof fn lemma_duration_parts_add_up(d: int, units: Seq<DurationFormatType>)
    requires
        d >= 0,
        forall|i: int| 0 <= i < units.len() ==> unit_seconds(#[trigger] units[i]) > 0,
    ensures
        parts_seconds(spec_duration_parts(d, units)) == d,
    decreases units.len(),
{
    assert(parts_seconds(Seq::<(int, DurationFormatType)>::empty()) == 0);
    if units.len() == 0 {
        if d > 0 {
            assert(seq![(d, DurationFormatType::Second)].drop_first() =~= Seq::<(int, DurationFormatType)>::empty());
        }
    } else {
        let u = unit_seconds(units[0]);
        assert forall|i: int| 0 <= i < units.drop_first().len() implies unit_seconds(#[trigger] units.drop_first()[i]) > 0 by {
            assert(units.drop_first()[i] == units[i + 1]);
        }
        if d >= u {
            lemma_duration_parts_add_up(d % u, units.drop_first());
            let head = seq![(d / u, units[0])];
            lemma_parts_seconds_concat(head, spec_duration_parts(d % u, units.drop_first()));
            assert(head.drop_first() =~= Seq::<(int, DurationFormatType)>::empty());
            vstd::arithmetic::div_mod::lemma_fundamental_div_mod(d, u);
            assert((d / u) * u == u * (d / u)) by (nonlinear_arith);
        } else {
            lemma_duration_parts_add_up(d, units.drop_first());
        }
    }
}

/// The parts a duration is written in add up to its length in seconds.
pub proof fn lemma_duration_parts_total(d: int)
    requires
        d >= 0,
    ensures
        parts_seconds(spec_duration_parts(d, duration_units())) == d,
{
    lemma_duration_parts_add_up(d, duration_units());
}

/// The placeholder a unit's format text holds for the amount.
pub open spec fn spec_placeholder(t: DurationFormatType) -> Seq<char> {
    match t {
        DurationFormatType::Second => "{second}"@,
        DurationFormatType::Minute => "{minute}"@,
        DurationFormatType::Hour => "{hour}"@,
        DurationFormatType::Day => "{day}"@,
        DurationFormatType::Week => "{week}"@,
        DurationFormatType::Month => "{month}"@,
        DurationFormatType::Year => "{year}"@,
    }
}

/// The first format of the unit that is for exactly this amount.
pub open spec fn spec_exact_format(formats: Seq<DurationFormat>, t: DurationFormatType, n: int) -> Option<int>
    decreases formats.len(),
{
    if formats.len() == 0 {
        None
    } else {
        match spec_exact_format(formats.drop_last(), t, n) {
            Some(i) => Some(i),
            None => if formats.last().duration_type == t && spec_parse_i64(spec_trim(formats.last().count@)) == Some(n) {
                Some(formats.len() - 1)
            } else {
                None
            },
        }
    }
}

/// The first format of the unit that is for any amount.
pub open spec fn spec_general_format(formats: Seq<DurationFormat>, t: DurationFormatType) -> Option<int>
    decreases formats.len(),
{
    if formats.len() == 0 {
        None
    } else {
        match spec_general_format(formats.drop_last(), t) {
            Some(i) => Some(i),
            None => if formats.last().duration_type == t && spec_parse_i64(spec_trim(formats.last().count@)) is None {
                Some(formats.len() - 1)
            } else {
                None
            },
        }
    }
}

/// How an amount of a unit is written: by the format for exactly that
/// amount, or else by the format for any amount, with the amount in place
/// of the placeholder; with no format, the amount alone.
pub open spec fn spec_duration_text(formats: Seq<DurationFormat>, placeholder: Seq<char>, n: int, t: DurationFormatType) -> Seq<char> {
    match spec_exact_format(formats, t, n) {
        Some(i) => spec_replace(formats[i].format@, placeholder, spec_decimal(n)),
        None => match spec_general_format(formats, t) {
            Some(i) => spec_replace(formats[i].format@, placeholder, spec_decimal(n)),
            None => spec_decimal(n),
        },
    }
}

/// The parts of a duration written one after another, each followed by a
/// space.
pub open spec fn spec_render_parts(formats: Seq<DurationFormat>, parts: Seq<(int, DurationFormatType)>) -> Seq<char>
    decreases parts.len(),
{
    if parts.len() == 0 {
        Seq::empty()
    } else {
        spec_render_parts(formats, parts.drop_last())
            + spec_duration_text(formats, spec_placeholder(parts.last().1), parts.last().0, parts.last().1)
            + seq![' ']
    }
}

/// The placeholder of a unit.
fn placeholder(t: DurationFormatType) -> (r: &'static str)
    ensures
        r@ == spec_placeholder(t),
{
    match t {
        DurationFormatType::Second => "{second}",
        DurationFormatType::Minute => "{minute}",
        DurationFormatType::Hour => "{hour}",
        DurationFormatType::Day => "{day}",
        DurationFormatType::Week => "{week}",
        DurationFormatType::Month => "{month}",
        DurationFormatType::Year => "{year}",
    }
}

/// Writes an amount of a unit, followed by a space, at the end of `buffer`.
pub fn duration_formatter(format: &Vec<DurationFormat>, buffer: &mut String, replace_str: &str, duration: i64, duration_type: DurationFormatType)
    ensures
        final(buffer)@ == old(buffer)@ + spec_duration_text(format@, replace_str@, duration as int, duration_type) + seq![' '],
{
    let mut k: usize = 0;
    while k < format.len()
        invariant
            k <= format@.len(),
            spec_exact_format(format@.take(k as int), duration_type, duration as int) is None,
            *buffer == *old(buffer),
        decreases format@.len() - k,
    {
        assert(format@.take(k + 1).drop_last() =~= format@.take(k as int));
        let count = trim(format[k].count.as_str());
        let value = parse_i64_exact(count.as_str());
        let hit = match value {
            Some(v) => format[k].duration_type == duration_type && v == duration,
            None => false,
        };
        if hit {
            proof {
                lemma_first_format_stays(format@, duration_type, duration as int, k as int + 1);
            }
            let number = int_to_string(duration);
            let text = replace(format[k].format.as_str(), replace_str, number.as_str());
            append_str(buffer, text.as_str());
            push_char(buffer, ' ');
            return;
        }
        k = k + 1;
    }
    assert(format@.take(k as int) =~= format@);
    let mut k: usize = 0;
    while k < format.len()
        invariant
            k <= format@.len(),
            spec_exact_format(format@, duration_type, duration as int) is None,
            spec_general_format(format@.take(k as int), duration_type) is None,
            *buffer == *old(buffer),
        decreases format@.len() - k,
    {
        assert(format@.take(k + 1).drop_last() =~= format@.take(k as int));
        let count = trim(format[k].count.as_str());
        let value = parse_i64_exact(count.as_str());
        if format[k].duration_type == duration_type && value.is_none() {
            proof {
                lemma_general_format_stays(format@, duration_type, k as int + 1);
            }
            let number = int_to_string(duration);
            let text = replace(format[k].format.as_str(), replace_str, number.as_str());
            append_str(buffer, text.as_str());
            push_char(buffer, ' ');
            return;
        }
        k = k + 1;
    }
    assert(format@.take(k as int) =~= format@);
    let number = int_to_string(duration);
    append_str(buffer, number.as_str());
    push_char(buffer, ' ');
}

proof fn lemma_first_format_stays(formats: Seq<DurationFormat>, t: DurationFormatType, n: int, m: int)
    requires
        0 < m <= formats.len(),
        spec_exact_format(formats.take(m - 1), t, n) is None,
        formats[m - 1].duration_type == t,
        spec_parse_i64(spec_trim(formats[m - 1].count@)) == Some(n),
    ensures
        spec_exact_format(formats, t, n) == Some(m - 1),
    decreases formats.len() - m,
{
    assert(formats.take(m).drop_last() =~= formats.take(m - 1));
    assert(formats.take(m).last() == formats[m - 1]);
    assert(spec_exact_format(formats.take(m), t, n) == Some(m - 1));
    if m < formats.len() {
        lemma_first_format_stays_prefix(formats, t, n, m, formats.len() as int);
        assert(formats.take(formats.len() as int) =~= formats);
    } else {
        assert(formats.take(m) =~= formats);
    }
}

proof fn lemma_first_format_stays_prefix(formats: Seq<DurationFormat>, t: DurationFormatType, n: int, m: int, p: int)
    requires
        0 < m <= p <= formats.len(),
        spec_exact_format(formats.take(m), t, n) == Some(m - 1),
    ensures
        spec_exact_format(formats.take(p), t, n) == Some(m - 1),
    decreases p - m,
{
    if p > m {
        lemma_first_format_stays_prefix(formats, t, n, m, p - 1);
        assert(formats.take(p).drop_last() =~= formats.take(p - 1));
    }
    if p == formats.len() {
        assert(formats.take(p) =~= formats);
    }
}

proof fn lemma_general_format_stays(formats: Seq<DurationFormat>, t: DurationFormatType, m: int)
    requires
        0 < m <= formats.len(),
        spec_general_format(formats.take(m - 1), t) is None,
        formats[m - 1].duration_type == t,
        spec_parse_i64(spec_trim(formats[m - 1].count@)) is None,
    ensures
        spec_general_format(formats, t) == Some(m - 1),
{
    assert(formats.take(m).drop_last() =~= formats.take(m - 1));
    assert(formats.take(m).last() == formats[m - 1]);
    assert(spec_general_format(formats.take(m), t) == Some(m - 1));
    lemma_general_format_stays_prefix(formats, t, m, formats.len() as int);
    assert(formats.take(formats.len() as int) =~= formats);
}

proof fn lemma_general_format_stays_prefix(formats: Seq<DurationFormat>, t: DurationFormatType, m: int, p: int)
    requires
        0 < m <= p <= formats.len(),
        spec_general_format(formats.take(m), t) == Some(m - 1),
    ensures
        spec_general_format(formats.take(p), t) == Some(m - 1),
    decreases p - m,
{
    if p > m {
        lemma_general_format_stays_prefix(formats, t, m, p - 1);
        assert(formats.take(p).drop_last() =~= formats.take(p - 1));
    }
}

/// Writes a span of time in words, from years down to seconds, in the
/// given formats; a span of no whole second is written as nothing.
pub fn print_duration(formats: &Vec<DurationFormat>, seconds: i64) -> (r: String)
    requires
        seconds > i64::MIN,
    ensures
        r@ == spec_trim(spec_render_parts(formats@, spec_duration_parts(
            if seconds < 0 { -seconds } else { seconds as int },
            duration_units(),
        ))),
{
    let mut buffer = String::new();
    let mut duration: i64 = if seconds < 0 { -seconds } else { seconds };
    let ghost total: int = duration as int;
    let mut units: Vec<DurationFormatType> = Vec::new();
    units.push(DurationFormatType::Year);
    units.push(DurationFormatType::Month);
    units.push(DurationFormatType::Week);
    units.push(DurationFormatType::Day);
    units.push(DurationFormatType::Hour);
    units.push(DurationFormatType::Minute);
    let mut sizes: Vec<i64> = Vec::new();
    sizes.push(YEAR);
    sizes.push(MONTH);
    sizes.push(WEEK);
    sizes.push(DAY);
    sizes.push(HOUR);
    sizes.push(MINUTE);
    assert(units@ =~= duration_units());
    let mut k: usize = 0;
    let ghost mut done: Seq<(int, DurationFormatType)> = Seq::empty();
    assert(units@.skip(0) =~= units@);
    assert(done + spec_duration_parts(duration as int, units@.skip(0)) =~= spec_duration_parts(total, duration_units()));
    while k < units.len()
        invariant
            units@ == duration_units(),
            sizes@.len() == units@.len(),
            forall|i: int| 0 <= i < sizes@.len() ==> sizes@[i] == unit_seconds(#[trigger] units@[i]),
            k <= units@.len(),
            duration >= 0,
            buffer@ == spec_render_parts(formats@, done),
            done + spec_duration_parts(duration as int, units@.skip(k as int))
                == spec_duration_parts(total, duration_units()),
        decreases units@.len() - k,
    {
        let u = sizes[k];
        let t = units[k];
        let ghost rest = units@.skip(k as int);
        assert(rest[0] == t);
        assert(rest.drop_first() =~= units@.skip(k + 1));
        if duration >= u {
            let amount = duration / u;
            duration_formatter(formats, &mut buffer, placeholder(t), amount, t);
            proof {
                let part = (amount as int, t);
                assert(done.push(part).drop_last() =~= done);
                assert(seq![part] + spec_duration_parts((duration % u) as int, rest.drop_first())
                    == spec_duration_parts(duration as int, rest));
                assert(done.push(part) + spec_duration_parts((duration % u) as int, rest.drop_first())
                    =~= done + (seq![part] + spec_duration_parts((duration % u) as int, rest.drop_first())));
                done = done.push(part);
            }
            duration = duration % u;
        }
        k = k + 1;
    }
    assert(units@.skip(k as int) =~= Seq::<DurationFormatType>::empty());
    if duration > 0 {
        duration_formatter(formats, &mut buffer, placeholder(DurationFormatType::Second), duration, DurationFormatType::Second);
        proof {
            let part = (duration as int, DurationFormatType::Second);
            assert(done.push(part).drop_last() =~= done);
            assert(done + seq![part] =~= done.push(part));
            done = done.push(part);
        }
    } else {
        assert(done + Seq::<(int, DurationFormatType)>::empty() =~= done);
    }
    trim(buffer.as_str())
}

/// The largest unit of a span, counted as `get_number` shows it: whole
/// years; months within the year; days; hours within the day; minutes
/// within the hour; or seconds.
pub open spec fn spec_high_duration_number(d: int) -> int {
    if d >= 31536000 {
        d / 31536000
    } else if d >= 2592000 {
        (d / 2592000) % 30
    } else if d >= 86400 {
        d / 86400
    } else if d >= 3600 {
        (d / 3600) % 24
    } else if d >= 60 {
        (d / 60) % 60
    } else {
        d
    }
}

/// The number a span of time shows for its largest unit.
pub fn get_high_duration_number(seconds: i64) -> (r: i64)
    requires
        seconds > i64::MIN,
    ensures
        r == spec_high_duration_number(if seconds < 0 { -seconds } else { seconds as int }),
{
    let duration_info: i64 = if seconds < 0 { -seconds } else { seconds };
    if duration_info >= YEAR {
        return duration_info / YEAR;
    }
    if duration_info >= MONTH {
        return (duration_info / MONTH) % 30;
    }
    if duration_info >= DAY {
        return duration_info / DAY;
    }
    if duration_info >= HOUR {
        return (duration_info / HOUR) % 24;
    }
    if duration_info >= MINUTE {
        return (duration_info / MINUTE) % 60;
    }
    duration_info
}

/// The clock reading of a span: hours within the day, minutes, seconds.
pub open spec fn spec_clock_parts(d: int) -> (int, int, int) {
    let hours = if d >= 3600 { (d / 3600) % 24 } else { 0 };
    let after_hours = if d >= 3600 { d % 3600 } else { d };
    let minutes = if after_hours >= 60 { (after_hours / 60) % 60 } else { 0 };
    let seconds = if after_hours >= 60 { after_hours % 60 } else { after_hours };
    (hours, minutes, seconds)
}

/// The clock reading of a span of time, for showing it as a time of day.
pub fn duration_clock_parts(seconds: i64) -> (r: (i64, i64, i64))
    requires
        seconds > i64::MIN,
    ensures
        (r.0 as int, r.1 as int, r.2 as int) == spec_clock_parts(if seconds < 0 { -seconds } else { seconds as int }),
{
    let mut duration_info: i64 = if seconds < 0 { -seconds } else { seconds };
    let mut hours: i64 = 0;
    let mut minutes: i64 = 0;
    if duration_info >= HOUR {
        hours = (duration_info / HOUR) % 24;
        duration_info = duration_info % HOUR;
    }
    if duration_info >= MINUTE {
        minutes = (duration_info / MINUTE) % 60;
        duration_info = duration_info % MINUTE;
    }
    (hours, minutes, duration_info)
}

/// A span shorter than a day reads on the clock as itself.
pub proof fn lemma_clock_parts_within_day(d: int)
    requires
        0 <= d < 86400,
    ensures
        ({
            let (h, m, s) = spec_clock_parts(d);
            &&& h * 3600 + m * 60 + s == d
            &&& 0 <= h < 24 && 0 <= m < 60 && 0 <= s < 60
        }),
{
    vstd::arithmetic::div_mod::lemma_fundamental_div_mod(d, 3600);
    vstd::arithmetic::div_mod::lemma_fundamental_div_mod(d % 3600, 60);
    assert(d / 3600 < 24) by (nonlinear_arith)
        requires
            0 <= d < 86400,
    ;
    assert(d % 3600 / 60 < 60) by (nonlinear_arith)
        requires
            0 <= d % 3600 < 3600,
    ;
}

/// The first `k` characters of a number's integer part of `n` digits,
/// with a separator after each digit that leaves a multiple of three
/// digits to its right.
pub open spec fn spec_grouped(s: Seq<char>, n: int, sep: Seq<char>, k: int) -> Seq<char>
    decreases k,
{
    if k <= 0 {
        Seq::empty()
    } else {
        spec_grouped(s, n, sep, k - 1) + seq![s[k - 1]]
            + (if k < n && (n - k) % 3 == 0 { sep } else { Seq::empty() })
    }
}

proof fn lemma_grouped_prefix(s: Seq<char>, n: int, sep: Seq<char>, k: int)
    requires
        0 <= k < n - 3,
    ensures
        spec_grouped(s, n, sep, k) == spec_grouped(s, n - 3, sep, k),
    decreases k,
{
    if k > 0 {
        lemma_grouped_prefix(s, n, sep, k - 1);
        assert((n - k) % 3 == (n - 3 - k) % 3);
    }
}

/// Grouping the integer part of a number by threes: up to three digits
/// stay as they are, and more digits are the grouping of all but the last
/// three, a separator, and the last three. So every group after the first
/// has exactly three digits, whatever the number of digits.
pub proof fn lemma_grouped_by_threes(s: Seq<char>, n: int, sep: Seq<char>)
    requires
        0 <= n <= s.len(),
    ensures
        n <= 3 ==> spec_grouped(s, n, sep, n) == s.take(n),
        n > 3 ==> spec_grouped(s, n, sep, n) == spec_grouped(s, n - 3, sep, n - 3) + sep + s.subrange(n - 3, n),
{
    if n <= 3 {
        assert(spec_grouped(s, n, sep, 0) =~= Seq::<char>::empty());
        if n >= 1 {
            assert(!(1 < n && (n - 1) % 3 == 0));
            assert(spec_grouped(s, n, sep, 1) =~= s.take(1));
        }
        if n >= 2 {
            assert(!(2 < n && (n - 2) % 3 == 0));
            assert(spec_grouped(s, n, sep, 2) =~= s.take(2));
        }
        if n >= 3 {
            assert(spec_grouped(s, n, sep, 3) =~= s.take(3));
        }
        assert(spec_grouped(s, n, sep, n) =~= s.take(n));
    } else {
        let m = n - 3;
        if m > 1 {
            lemma_grouped_prefix(s, n, sep, m - 1);
        }
        assert(spec_grouped(s, n, sep, m) =~= spec_grouped(s, m, sep, m) + sep) by {
            assert((n - m) % 3 == 0);
            if m > 1 {
                assert(spec_grouped(s, n, sep, m - 1) == spec_grouped(s, m, sep, m - 1));
            } else {
                assert(spec_grouped(s, n, sep, 0) =~= Seq::<char>::empty());
                assert(spec_grouped(s, m, sep, 0) =~= Seq::<char>::empty());
            }
        }
        assert((n - (m + 1)) % 3 != 0);
        assert((n - (m + 2)) % 3 != 0);
        let g1 = spec_grouped(s, n, sep, m + 1);
        let g2 = spec_grouped(s, n, sep, m + 2);
        assert(g1 =~= spec_grouped(s, n, sep, m) + seq![s[m]]);
        assert(g2 =~= g1 + seq![s[m + 1]]);
        assert(spec_grouped(s, n, sep, n) =~= g2 + seq![s[m + 2]]);
        assert(spec_grouped(s, n, sep, n) =~= spec_grouped(s, m, sep, m) + sep + s.subrange(m, n));
    }
}

/// A written number with thousands separators: the sign, the `n` digits
/// of the integer part grouped by threes, and, when the fraction is kept
/// and there is one, the decimal separator and the digits after the point.
pub open spec fn spec_group_number(formatted: Seq<char>, n: int, negative: bool, thousands: Seq<char>, decimal: Seq<char>, keep_fraction: bool) -> Seq<char> {
    (if negative { seq!['-'] } else { Seq::empty() })
        + spec_grouped(formatted, n, thousands, n)
        + (if keep_fraction && n != formatted.len() { decimal + formatted.subrange(n + 1, formatted.len() as int) } else { Seq::empty() })
}

/// A grouped integer part of `n` digits holds the digits and one separator
/// for each full group of three after the first digit.
pub proof fn lemma_grouped_len(s: Seq<char>, n: int, sep: Seq<char>)
    requires
        1 <= n <= s.len(),
    ensures
        spec_grouped(s, n, sep, n).len() == n + sep.len() * ((n - 1) / 3),
    decreases n,
{
    lemma_grouped_by_threes(s, n, sep);
    if n > 3 {
        lemma_grouped_len(s, n - 3, sep);
        assert((n - 1) / 3 == (n - 4) / 3 + 1);
        assert(sep.len() * ((n - 1) / 3) == sep.len() * ((n - 4) / 3) + sep.len()) by (nonlinear_arith)
            requires
                (n - 1) / 3 == (n - 4) / 3 + 1,
        ;
    } else {
        assert((n - 1) / 3 == 0);
    }
}

/// A written number with separators starts with `-` exactly for a negative
/// number, then the grouped integer part; when the fraction is kept and the
/// number has a point, it ends with the decimal separator and the digits
/// after the point, and otherwise with the integer part.
pub proof fn lemma_group_number_layout(formatted: Seq<char>, n: int, negative: bool, thousands: Seq<char>, decimal: Seq<char>, keep_fraction: bool)
    requires
        0 <= n <= formatted.len(),
    ensures
        ({
            let r = spec_group_number(formatted, n, negative, thousands, decimal, keep_fraction);
            let sign_len: int = if negative { 1 } else { 0 };
            let body = spec_grouped(formatted, n, thousands, n);
            &&& negative ==> r[0] == '-'
            &&& r.subrange(sign_len, sign_len + body.len()) == body
            &&& keep_fraction && n < formatted.len() ==> r.skip(sign_len + body.len()) == decimal + formatted.skip(n + 1)
            &&& !(keep_fraction && n < formatted.len()) ==> r.len() == sign_len + body.len()
        }),
{
    let r = spec_group_number(formatted, n, negative, thousands, decimal, keep_fraction);
    let sign_len: int = if negative { 1 } else { 0 };
    let body = spec_grouped(formatted, n, thousands, n);
    assert(r.subrange(sign_len, sign_len + body.len()) =~= body);
    if keep_fraction && n < formatted.len() {
        assert(formatted.subrange(n + 1, formatted.len() as int) =~= formatted.skip(n + 1));
        assert(r.skip(sign_len + body.len()) =~= decimal + formatted.skip(n + 1));
    }
}

/// Puts thousands and decimal separators into a number written with `.`:
/// `trunc_size` is the number of digits before the point.
pub fn group_number(formatted: &str, trunc_size: usize, negative: bool, thousands_separator: &str, decimal_separator: &str, keep_fraction: bool) -> (r: String)
    requires
        trunc_size <= formatted@.len(),
    ensures
        r@ == spec_group_number(formatted@, trunc_size as int, negative, thousands_separator@, decimal_separator@, keep_fraction),
{
    let chars = chars_of(formatted);
    let mut out = String::new();
    if negative {
        push_char(&mut out, '-');
    }
    let ghost head = out@;
    let mut index: usize = 0;
    while index < trunc_size
        invariant
            chars@ == formatted@,
            index <= trunc_size <= chars@.len(),
            out@ == head + spec_grouped(formatted@, trunc_size as int, thousands_separator@, index as int),
        decreases trunc_size - index,
    {
        push_char(&mut out, chars[index]);
        if index + 1 != trunc_size && (trunc_size - (index + 1)) % 3 == 0 {
            append_str(&mut out, thousands_separator);
        }
        index = index + 1;
        assert(out@ =~= head + spec_grouped(formatted@, trunc_size as int, thousands_separator@, index as int));
    }
    let ghost body = out@;
    if keep_fraction && trunc_size != chars.len() {
        append_str(&mut out, decimal_separator);
        let mut i: usize = trunc_size + 1;
        let ghost mid = out@;
        while i < chars.len()
            invariant
                chars@ == formatted@,
                trunc_size < chars@.len(),
                trunc_size + 1 <= i <= chars@.len(),
                out@ == mid + formatted@.subrange(trunc_size + 1, i as int),
            decreases chars@.len() - i,
        {
            push_char(&mut out, chars[i]);
            i = i + 1;
            assert(out@ =~= mid + formatted@.subrange(trunc_size + 1, i as int));
        }
        assert(out@ =~= spec_group_number(formatted@, trunc_size as int, negative, thousands_separator@, decimal_separator@, keep_fraction));
    } else {
        assert(out@ =~= spec_group_number(formatted@, trunc_size as int, negative, thousands_separator@, decimal_separator@, keep_fraction));
    }
    out
}

/// The month with a number, 1 for the first, from a language's list.
pub fn get_month_info(months: &Vec<MonthInfo>, month: u8) -> (r: Option<MonthInfo>)
    requires
        month >= 1,
    ensures
        month - 1 < months@.len() ==> r == Some(months@[month - 1]),
        month - 1 >= months@.len() ==> r is None,
{
    let position: usize = (month - 1) as usize;
    if position < months.len() {
        Some(months[position].duplicate())
    } else {
        None
    }
}

} // verus!
