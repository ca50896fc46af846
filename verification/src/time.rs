//! Instants, and the file names made from them.

use crate::calendar;
use crate::files;
use crate::text;
use vstd::prelude::*;

verus! {

/// The first second that a timestamp can have: the first of the year -262143.
pub const MIN_SECS: i64 = -8_334_601_228_800;

/// The last second that a timestamp can have: the last of the year 262142.
pub const MAX_SECS: i64 = 8_210_266_876_799;

/// Nanoseconds in a second.
pub const NANOS_PER_SEC: u32 = 1_000_000_000;

/// Nanoseconds in a millisecond.
pub const NANOS_PER_MILLI: u32 = 1_000_000;

/// An instant, with the offset from UTC of the clock that shows it.
#[derive(Clone, Copy, Debug, PartialEq, Eq, Structural)]
pub struct Timestamp {
    /// Whole seconds since the first of January 1970, 0:00 UTC.
    pub secs: i64,
    /// Nanoseconds since the last whole second. From one second on they stand
    /// for a leap second.
    pub nanos: u32,
    /// Seconds by which the clock is ahead of UTC.
    pub utc_offset: i32,
}

/// An instant, whatever clock shows it.
#[derive(Clone, Copy, Debug, PartialEq, Eq, Structural)]
pub struct UtcInstant {
    /// Whole seconds since the first of January 1970, 0:00 UTC.
    pub secs: i64,
    /// Nanoseconds since the last whole second.
    pub nanos: u32,
}

impl Timestamp {
    /// The instant can be told: it is in range, a leap second stands at the end
    /// of a minute, and the clock is less than a day off.
    pub open spec fn is_valid(self) -> bool {
        &&& MIN_SECS <= self.secs <= MAX_SECS
        &&& self.nanos < 2 * NANOS_PER_SEC
        &&& self.nanos >= NANOS_PER_SEC ==> self.secs as int % 60 == 59
        &&& -86_400 < self.utc_offset < 86_400
    }

    /// Seconds shown by the clock.
    pub open spec fn local_secs(self) -> int {
        self.secs + self.utc_offset
    }

    /// Day shown by the clock.
    pub open spec fn local_day(self) -> int {
        self.local_secs() / 86_400
    }

    /// Second of the day shown by the clock.
    pub open spec fn second_of_day(self) -> int {
        self.local_secs() % 86_400
    }

    /// Milliseconds since the last whole second.
    pub open spec fn sub_millis(self) -> int {
        self.nanos as int / NANOS_PER_MILLI as int
    }

    /// Milliseconds since the first of January 1970, 0:00 UTC.
    pub open spec fn millis(self) -> int {
        self.secs * 1000 + self.sub_millis()
    }

    /// `self` is `other` or comes after it, whatever their clocks show.
    pub open spec fn not_before(self, other: Timestamp) -> bool {
        self.secs > other.secs || (self.secs == other.secs && self.nanos >= other.nanos)
    }

    /// Makes a timestamp where it can be told.
    pub fn new(secs: i64, nanos: u32, utc_offset: i32) -> (r: Option<Timestamp>)
        ensures
            r == (if (Timestamp { secs, nanos, utc_offset }).is_valid() {
                Some(Timestamp { secs, nanos, utc_offset })
            } else {
                None
            }),
    {
        if secs < MIN_SECS || secs > MAX_SECS || nanos >= 2 * NANOS_PER_SEC {
            return None;
        }
        if utc_offset <= -86_400 || utc_offset >= 86_400 {
            return None;
        }
        if nanos >= NANOS_PER_SEC && ((secs - MIN_SECS) as u64) % 60 != 59 {
            return None;
        }
        Some(Timestamp { secs, nanos, utc_offset })
    }

    /// The instant a number of milliseconds after 1970 began, on a clock that
    /// shows UTC.
    pub fn from_timestamp_millis(millis: i64) -> (r: Option<Timestamp>)
        ensures
            r is Some <==> MIN_SECS <= millis as int / 1000 <= MAX_SECS,
            r matches Some(t) ==> t == (Timestamp {
                secs: (millis as int / 1000) as i64,
                nanos: (millis as int % 1000 * NANOS_PER_MILLI) as u32,
                utc_offset: 0,
            }),
            r matches Some(t) ==> t.is_valid(),
            r matches Some(t) ==> t.secs * 1_000_000_000 + t.nanos == millis * 1_000_000 && t.nanos
                < 1_000_000_000 && t.utc_offset == 0,
    {
        // Counted from a whole second before every instant, so that nothing is
        // negative.
        let counted: u128 = (millis as i128 + 9_223_372_036_854_776_000) as u128;
        let secs: i128 = (counted / 1000) as i128 - 9_223_372_036_854_776;
        let nanos: u32 = (counted % 1000) as u32 * NANOS_PER_MILLI;
        Timestamp::new(secs as i64, nanos, 0)
    }

    /// Milliseconds since the first of January 1970, 0:00 UTC.
    pub fn timestamp_millis(&self) -> (r: i64)
        requires
            self.is_valid(),
        ensures
            r == self.millis(),
            r * 1_000_000 <= self.secs * 1_000_000_000 + self.nanos < (r + 1) * 1_000_000,
    {
        self.secs * 1000 + (self.nanos / NANOS_PER_MILLI) as i64
    }

    /// Whether `self` is `other` or comes after it.
    pub fn is_not_before(&self, other: &Timestamp) -> (r: bool)
        ensures
            r == self.not_before(*other),
            r <==> self.secs * 0x1_0000_0000 + self.nanos >= other.secs * 0x1_0000_0000
                + other.nanos,
    {
        self.secs > other.secs || (self.secs == other.secs && self.nanos >= other.nanos)
    }
}

/// A year in at least four digits, with a sign where four are not enough.
pub open spec fn year_text(year: int) -> Seq<char> {
    if 0 <= year <= 9999 {
        calendar::padded(year as nat, 4)
    } else if year < 0 {
        "-"@ + calendar::padded((-year) as nat, 4)
    } else {
        "+"@ + calendar::padded(year as nat, 4)
    }
}

/// `YYYY-MM-DD`
pub open spec fn date_text(date: calendar::Date) -> Seq<char> {
    year_text(date.year) + ("-"@ + (calendar::padded(date.month as nat, 2) + ("-"@
        + calendar::padded(date.day as nat, 2))))
}

/// `HH-MM-SS-mmm`, with a leap second as second 60.
pub open spec fn clock_text(second_of_day: int, sub_millis: int) -> Seq<char> {
    let hour = second_of_day / 3600;
    let minute = second_of_day / 60 % 60;
    let second = second_of_day % 60 + sub_millis / 1000;
    calendar::padded(hour as nat, 2) + ("-"@ + (calendar::padded(minute as nat, 2) + ("-"@ + (
    calendar::padded(second as nat, 2) + ("-"@ + calendar::padded((sub_millis % 1000) as nat, 3))))))
}

/// `+HHMM`, to the nearest minute.
pub open spec fn offset_text(utc_offset: int) -> Seq<char> {
    let size = if utc_offset < 0 {
        -utc_offset
    } else {
        utc_offset
    };
    let minutes = (size + 30) / 60;
    let sign = if utc_offset < 0 {
        "-"@
    } else {
        "+"@
    };
    sign + (calendar::padded((minutes / 60) as nat, 2) + calendar::padded((minutes % 60) as nat, 2))
}

/// The file name of an instant on a given day: `YYYY-MM-DD_HH-MM-SS-mmm_+HHMM`
pub open spec fn basename_on(date: calendar::Date, time: Timestamp) -> Seq<char> {
    date_text(date) + ("_"@ + (clock_text(time.second_of_day(), time.sub_millis()) + ("_"@
        + offset_text(time.utc_offset as int))))
}

/// The file name of an instant.
pub open spec fn basename(time: Timestamp) -> Seq<char> {
    basename_on(calendar::date_of(time.local_day()), time)
}

/// The clock shows a year of four digits.
pub open spec fn has_common_year(time: Timestamp) -> bool {
    0 <= calendar::date_of(time.local_day()).year <= 9999
}

/// Leap seconds are shown where they are: at the end of a minute.
pub open spec fn shows_whole_minutes(time: Timestamp) -> bool {
    time.nanos < NANOS_PER_SEC || time.utc_offset as int % 60 == 0
}

pub proof fn lemma_first_part_decides(a: Seq<char>, b: Seq<char>, x: Seq<char>, y: Seq<char>)
    requires
        text::text_lt(a, b),
        a.len() == b.len(),
    ensures
        text::text_lt(a + x, b + y),
{
    let i = choose|i: int| text::less_at(a, b, i);
    assert(text::less_at(a + x, b + y, i));
}

proof fn lemma_second_part_decides(a: Seq<char>, x: Seq<char>, y: Seq<char>)
    requires
        text::text_lt(x, y),
    ensures
        text::text_lt(a + x, a + y),
{
    let i = choose|i: int| text::less_at(x, y, i);
    assert(text::less_at(a + x, a + y, a.len() + i));
}

/// Either part may be read as one number: the first decides, then the second.
proof fn lemma_fields_decide(
    a: nat,
    b: nat,
    width: nat,
    separator: Seq<char>,
    x: Seq<char>,
    y: Seq<char>,
)
    requires
        a < calendar::power_of_ten(width),
        b < calendar::power_of_ten(width),
        a < b || (a == b && text::text_lt(x, y)),
    ensures
        text::text_lt(
            calendar::padded(a, width) + (separator + x),
            calendar::padded(b, width) + (separator + y),
        ),
{
    calendar::lemma_padded(a, width);
    calendar::lemma_padded(b, width);
    if a < b {
        calendar::lemma_padded_increases(a, b, width);
        lemma_first_part_decides(
            calendar::padded(a, width),
            calendar::padded(b, width),
            separator + x,
            separator + y,
        );
    } else {
        lemma_second_part_decides(separator, x, y);
        lemma_second_part_decides(calendar::padded(a, width), separator + x, separator + y);
    }
}

proof fn lemma_powers()
    ensures
        calendar::power_of_ten(2) == 100,
        calendar::power_of_ten(3) == 1000,
        calendar::power_of_ten(4) == 10_000,
{
    reveal_with_fuel(calendar::power_of_ten, 5);
}

proof fn lemma_date_text(date: calendar::Date)
    requires
        calendar::is_date(date),
        0 <= date.year <= 9999,
    ensures
        date_text(date).len() == 10,
{
    lemma_powers();
    reveal_strlit("-");
    calendar::lemma_padded(date.year as nat, 4);
    calendar::lemma_padded(date.month as nat, 2);
    calendar::lemma_padded(date.day as nat, 2);
}

proof fn lemma_date_text_increases(a: calendar::Date, b: calendar::Date)
    requires
        calendar::is_date(a),
        calendar::is_date(b),
        0 <= a.year <= 9999,
        0 <= b.year <= 9999,
        calendar::date_lt(a, b),
    ensures
        text::text_lt(date_text(a), date_text(b)),
{
    lemma_powers();
    let dash = "-"@;
    let xa = calendar::padded(a.day as nat, 2);
    let xb = calendar::padded(b.day as nat, 2);
    let ma = calendar::padded(a.month as nat, 2) + (dash + xa);
    let mb = calendar::padded(b.month as nat, 2) + (dash + xb);
    if a.year == b.year {
        if a.month == b.month {
            calendar::lemma_padded_increases(a.day as nat, b.day as nat, 2);
        }
        lemma_fields_decide(a.month as nat, b.month as nat, 2, dash, xa, xb);
    }
    lemma_fields_decide(a.year as nat, b.year as nat, 4, dash, ma, mb);
}

proof fn lemma_clock_text(second_of_day: int, sub_millis: int)
    requires
        0 <= second_of_day < 86_400,
        0 <= sub_millis < 2000,
    ensures
        clock_text(second_of_day, sub_millis).len() == 12,
{
    lemma_powers();
    reveal_strlit("-");
    calendar::lemma_padded((second_of_day / 3600) as nat, 2);
    calendar::lemma_padded((second_of_day / 60 % 60) as nat, 2);
    calendar::lemma_padded((second_of_day % 60 + sub_millis / 1000) as nat, 2);
    calendar::lemma_padded((sub_millis % 1000) as nat, 3);
}

/// The fields of a clock that shows a later time differ first where they grow.
proof fn lemma_clock_fields(s: int, m: int, t: int, n: int)
    requires
        0 <= s < 86_400,
        0 <= t < 86_400,
        0 <= m < 2000,
        0 <= n < 2000,
        m >= 1000 ==> s % 60 == 59,
        n >= 1000 ==> t % 60 == 59,
        s < t || (s == t && m < n),
    ensures
        ({
            ||| s / 3600 < t / 3600
            ||| s / 3600 == t / 3600 && s / 60 % 60 < t / 60 % 60
            ||| s / 3600 == t / 3600 && s / 60 % 60 == t / 60 % 60 && s % 60 + m / 1000 < t % 60 + n
                / 1000
            ||| s / 3600 == t / 3600 && s / 60 % 60 == t / 60 % 60 && s % 60 + m / 1000 == t % 60
                + n / 1000 && m % 1000 < n % 1000
        }),
        0 <= s / 3600 < 24,
        0 <= s / 60 % 60 < 60,
        0 <= s % 60 + m / 1000 <= 60,
        0 <= m % 1000 < 1000,
        0 <= t / 3600 < 24,
        0 <= t / 60 % 60 < 60,
        0 <= t % 60 + n / 1000 <= 60,
        0 <= n % 1000 < 1000,
{
    let s_minute = s / 60;
    let t_minute = t / 60;
    assert(s_minute <= t_minute);
    assert(s / 3600 == s_minute / 60);
    assert(t / 3600 == t_minute / 60);
    if s_minute < t_minute {
        assert(s_minute / 60 < t_minute / 60 || s_minute % 60 < t_minute % 60);
    } else {
        assert(s % 60 < t % 60 || (s % 60 == t % 60 && m < n));
        if m >= 1000 {
            assert(s % 60 == t % 60);
        }
    }
}

proof fn lemma_four_fields_decide(
    h: (nat, nat),
    minute: (nat, nat),
    second: (nat, nat),
    milli: (nat, nat),
)
    requires
        h.0 < 100 && h.1 < 100,
        minute.0 < 100 && minute.1 < 100,
        second.0 < 100 && second.1 < 100,
        milli.0 < 1000 && milli.1 < 1000,
        ({
            ||| h.0 < h.1
            ||| h.0 == h.1 && minute.0 < minute.1
            ||| h.0 == h.1 && minute.0 == minute.1 && second.0 < second.1
            ||| h.0 == h.1 && minute.0 == minute.1 && second.0 == second.1 && milli.0 < milli.1
        }),
    ensures
        text::text_lt(
            calendar::padded(h.0, 2) + ("-"@ + (calendar::padded(minute.0, 2) + ("-"@ + (
            calendar::padded(second.0, 2) + ("-"@ + calendar::padded(milli.0, 3)))))),
            calendar::padded(h.1, 2) + ("-"@ + (calendar::padded(minute.1, 2) + ("-"@ + (
            calendar::padded(second.1, 2) + ("-"@ + calendar::padded(milli.1, 3)))))),
        ),
{
    lemma_powers();
    let dash = "-"@;
    let x1 = calendar::padded(milli.0, 3);
    let y1 = calendar::padded(milli.1, 3);
    let x2 = calendar::padded(second.0, 2) + (dash + x1);
    let y2 = calendar::padded(second.1, 2) + (dash + y1);
    let x3 = calendar::padded(minute.0, 2) + (dash + x2);
    let y3 = calendar::padded(minute.1, 2) + (dash + y2);
    if h.0 == h.1 {
        if minute.0 == minute.1 {
            if second.0 == second.1 {
                calendar::lemma_padded_increases(milli.0, milli.1, 3);
            }
            lemma_fields_decide(second.0, second.1, 2, dash, x1, y1);
        }
        lemma_fields_decide(minute.0, minute.1, 2, dash, x2, y2);
    }
    lemma_fields_decide(h.0, h.1, 2, dash, x3, y3);
}

proof fn lemma_clock_text_increases(s: int, m: int, t: int, n: int)
    requires
        0 <= s < 86_400,
        0 <= t < 86_400,
        0 <= m < 2000,
        0 <= n < 2000,
        m >= 1000 ==> s % 60 == 59,
        n >= 1000 ==> t % 60 == 59,
        s < t || (s == t && m < n),
    ensures
        text::text_lt(clock_text(s, m), clock_text(t, n)),
{
    lemma_clock_fields(s, m, t, n);
    lemma_four_fields_decide(
        ((s / 3600) as nat, (t / 3600) as nat),
        ((s / 60 % 60) as nat, (t / 60 % 60) as nat),
        ((s % 60 + m / 1000) as nat, (t % 60 + n / 1000) as nat),
        ((m % 1000) as nat, (n % 1000) as nat),
    );
}

/// What an earlier instant's clock shows.
proof fn lemma_local_order(a: Timestamp, b: Timestamp)
    requires
        a.is_valid(),
        b.is_valid(),
        a.utc_offset == b.utc_offset,
        shows_whole_minutes(a),
        shows_whole_minutes(b),
        a.secs < b.secs || (a.secs == b.secs && a.sub_millis() < b.sub_millis()),
    ensures
        a.local_day() <= b.local_day(),
        a.local_day() == b.local_day() ==> (a.second_of_day() < b.second_of_day() || (
        a.second_of_day() == b.second_of_day() && a.sub_millis() < b.sub_millis())),
{
}

/// What the clock shows is a time of day.
proof fn lemma_local_bounds(a: Timestamp)
    requires
        a.is_valid(),
    ensures
        0 <= a.second_of_day() < 86_400,
        0 <= a.sub_millis() < 2000,
        shows_whole_minutes(a) && a.sub_millis() >= 1000 ==> a.second_of_day() % 60 == 59,
{
    if shows_whole_minutes(a) && a.sub_millis() >= 1000 {
        assert(a.nanos >= NANOS_PER_SEC);
        assert(a.local_secs() % 60 == 59);
        assert(a.local_secs() == 86_400 * a.local_day() + a.second_of_day());
    }
}

/// Names made on clocks with the same offset, in years of four digits, sort in
/// the order of time, to the millisecond.
pub proof fn law_names_sort_by_time(a: Timestamp, b: Timestamp)
    requires
        a.is_valid(),
        b.is_valid(),
        a.utc_offset == b.utc_offset,
        has_common_year(a),
        has_common_year(b),
        shows_whole_minutes(a),
        shows_whole_minutes(b),
    ensures
        text::text_lt(basename(a), basename(b)) <==> (a.secs < b.secs || (a.secs == b.secs
            && a.sub_millis() < b.sub_millis())),
        basename(a) == basename(b) <==> (a.secs == b.secs && a.sub_millis() == b.sub_millis()),
{
    if a.secs == b.secs && a.sub_millis() == b.sub_millis() {
        text::lemma_text_irreflexive(basename(a));
    } else if a.secs < b.secs || (a.secs == b.secs && a.sub_millis() < b.sub_millis()) {
        lemma_earlier_name(a, b);
        text::lemma_text_irreflexive(basename(a));
    } else {
        lemma_earlier_name(b, a);
        text::lemma_text_irreflexive(basename(a));
        if text::text_lt(basename(a), basename(b)) {
            text::lemma_text_transitive(basename(a), basename(b), basename(a));
        }
    }
}

proof fn lemma_earlier_name(a: Timestamp, b: Timestamp)
    requires
        a.is_valid(),
        b.is_valid(),
        a.utc_offset == b.utc_offset,
        has_common_year(a),
        has_common_year(b),
        shows_whole_minutes(a),
        shows_whole_minutes(b),
        a.secs < b.secs || (a.secs == b.secs && a.sub_millis() < b.sub_millis()),
    ensures
        text::text_lt(basename(a), basename(b)),
{
    lemma_local_order(a, b);
    lemma_local_bounds(a);
    lemma_local_bounds(b);
    lemma_earlier_text(
        a.local_day(),
        a.second_of_day(),
        a.sub_millis(),
        b.local_day(),
        b.second_of_day(),
        b.sub_millis(),
        offset_text(a.utc_offset as int),
    );
}

proof fn lemma_earlier_text(
    day_a: int,
    s: int,
    m: int,
    day_b: int,
    t: int,
    n: int,
    zone: Seq<char>,
)
    requires
        0 <= calendar::date_of(day_a).year <= 9999,
        0 <= calendar::date_of(day_b).year <= 9999,
        0 <= s < 86_400,
        0 <= t < 86_400,
        0 <= m < 2000,
        0 <= n < 2000,
        m >= 1000 ==> s % 60 == 59,
        n >= 1000 ==> t % 60 == 59,
        day_a < day_b || (day_a == day_b && (s < t || (s == t && m < n))),
    ensures
        text::text_lt(
            date_text(calendar::date_of(day_a)) + ("_"@ + (clock_text(s, m) + ("_"@ + zone))),
            date_text(calendar::date_of(day_b)) + ("_"@ + (clock_text(t, n) + ("_"@ + zone))),
        ),
{
    let da = date_text(calendar::date_of(day_a));
    let db = date_text(calendar::date_of(day_b));
    calendar::lemma_date_of(day_a);
    calendar::lemma_date_of(day_b);
    let bar = "_"@;
    let ca = clock_text(s, m);
    let cb = clock_text(t, n);
    let rest_a = bar + (ca + (bar + zone));
    let rest_b = bar + (cb + (bar + zone));
    if day_a < day_b {
        lemma_date_text(calendar::date_of(day_a));
        lemma_date_text(calendar::date_of(day_b));
        calendar::lemma_date_of_increases(day_a, day_b);
        lemma_date_text_increases(calendar::date_of(day_a), calendar::date_of(day_b));
        lemma_first_part_decides(da, db, rest_a, rest_b);
    } else {
        lemma_clock_text(s, m);
        lemma_clock_text(t, n);
        lemma_clock_text_increases(s, m, t, n);
        lemma_first_part_decides(ca, cb, bar + zone, bar + zone);
        lemma_second_part_decides(bar, ca + (bar + zone), cb + (bar + zone));
        lemma_second_part_decides(da, rest_a, rest_b);
    }
}

/// The instant made from a number of milliseconds tells that number back.
pub proof fn law_millis_round_trip(millis: i64, time: Timestamp)
    requires
        time == (Timestamp {
            secs: (millis as int / 1000) as i64,
            nanos: (millis as int % 1000 * NANOS_PER_MILLI) as u32,
            utc_offset: 0,
        }),
    ensures
        time.millis() == millis,
{
}

/// The characters that names made from instants consist of.
pub open spec fn is_name_char(c: char) -> bool {
    ('0' as int <= c as int <= '9' as int) || c == '+' || c == '-' || c == '_'
}

/// Every character is one that names made from instants consist of.
pub open spec fn is_name_text(s: Seq<char>) -> bool {
    forall|i: int| 0 <= i < s.len() ==> is_name_char(#[trigger] s[i])
}

proof fn lemma_padded_is_name_text(n: nat, width: nat)
    ensures
        is_name_text(calendar::padded(n, width)),
    decreases n, width,
{
    if n == 0 && width == 0 {
    } else if width == 0 {
        lemma_padded_is_name_text(n / 10, 0);
    } else {
        lemma_padded_is_name_text(n / 10, (width - 1) as nat);
    }
}

/// Such a text can name a file.
pub proof fn lemma_name_text_is_plain(s: Seq<char>)
    requires
        is_name_text(s),
        s.len() > 0,
    ensures
        files::is_plain(s),
{
}

/// A name is never empty, and holds digits, signs and bars only.
pub proof fn law_basename_is_plain(time: Timestamp)
    ensures
        is_name_text(basename(time)),
        basename(time).len() > 0,
{
    reveal_strlit("-");
    reveal_strlit("+");
    reveal_strlit("_");
    let date = calendar::date_of(time.local_day());
    lemma_padded_is_name_text(date.year as nat, 4);
    lemma_padded_is_name_text((-date.year) as nat, 4);
    lemma_padded_is_name_text(date.month as nat, 2);
    lemma_padded_is_name_text(date.day as nat, 2);
    let s = time.second_of_day();
    let m = time.sub_millis();
    lemma_padded_is_name_text((s / 3600) as nat, 2);
    lemma_padded_is_name_text((s / 60 % 60) as nat, 2);
    lemma_padded_is_name_text((s % 60 + m / 1000) as nat, 2);
    lemma_padded_is_name_text((m % 1000) as nat, 3);
    let size = if time.utc_offset < 0 {
        -time.utc_offset
    } else {
        time.utc_offset as int
    };
    let minutes = (size + 30) / 60;
    lemma_padded_is_name_text((minutes / 60) as nat, 2);
    lemma_padded_is_name_text((minutes % 60) as nat, 2);
    assert(is_name_text(year_text(date.year)));
    assert(is_name_text(date_text(date)));
    assert(is_name_text(clock_text(s, m)));
    assert(is_name_text(offset_text(time.utc_offset as int)));
}

/// In years of four digits every name has the same length.
pub proof fn law_basename_length(time: Timestamp)
    requires
        time.is_valid(),
        has_common_year(time),
    ensures
        basename(time).len() == 29,
{
    reveal_strlit("-");
    reveal_strlit("+");
    reveal_strlit("_");
    lemma_local_bounds(time);
    calendar::lemma_date_of(time.local_day());
    lemma_date_text(calendar::date_of(time.local_day()));
    lemma_clock_text(time.second_of_day(), time.sub_millis());
    lemma_powers();
    let size = if time.utc_offset < 0 {
        -time.utc_offset
    } else {
        time.utc_offset as int
    };
    let minutes = (size + 30) / 60;
    calendar::lemma_padded((minutes / 60) as nat, 2);
    calendar::lemma_padded((minutes % 60) as nat, 2);
}

/// The milliseconds of an instant are the whole ones that have passed: no part
/// of a millisecond is counted, and none that has passed is left out.
pub proof fn law_millis_are_whole(time: Timestamp)
    requires
        time.is_valid(),
    ensures
        time.millis() * 1_000_000 <= time.secs * 1_000_000_000 + time.nanos,
        time.secs * 1_000_000_000 + time.nanos < (time.millis() + 1) * 1_000_000,
{
}

/// As many milliseconds lie between two instants as their milliseconds differ,
/// to less than one; an instant a whole number of milliseconds later has that many
/// more.
pub proof fn law_millis_measure_time(a: Timestamp, b: Timestamp, passed: int)
    requires
        a.is_valid(),
        b.is_valid(),
        b.secs * 1_000_000_000 + b.nanos == a.secs * 1_000_000_000 + a.nanos + passed,
    ensures
        -1_000_000 < (b.millis() - a.millis()) * 1_000_000 - passed < 1_000_000,
        passed >= 0 ==> b.millis() >= a.millis(),
        passed % 1_000_000 == 0 ==> (b.millis() - a.millis()) * 1_000_000 == passed,
{
    law_millis_are_whole(a);
    law_millis_are_whole(b);
}

/// Two instants are compared by their seconds and then by their nanoseconds, and
/// not by what their clocks show: of any two one is not before the other, and both
/// are so only where they are one instant.
pub proof fn law_instants_are_ordered(a: Timestamp, b: Timestamp, c: Timestamp)
    requires
        a.is_valid(),
        b.is_valid(),
    ensures
        a.not_before(b) <==> a.secs * 2_000_000_000 + a.nanos >= b.secs * 2_000_000_000 + b.nanos,
        a.nanos < 1_000_000_000 && b.nanos < 1_000_000_000 ==> (a.not_before(b) <==> a.secs
            * 1_000_000_000 + a.nanos >= b.secs * 1_000_000_000 + b.nanos),
        a.not_before(b) || b.not_before(a),
        a.not_before(b) && b.not_before(a) <==> a.secs == b.secs && a.nanos == b.nanos,
        a.not_before(b) && b.not_before(c) ==> a.not_before(c),
{
}

/// The instants that can be told are those of the years from -262143 to 262142,
/// with a leap second only at the end of a minute, on clocks less than a day off.
pub proof fn law_range_of_instants(time: Timestamp)
    ensures
        time.is_valid() <==> {
            &&& -262_143 <= calendar::date_of(time.secs as int / 86_400).year <= 262_142
            &&& time.nanos < 2_000_000_000
            &&& time.nanos >= 1_000_000_000 ==> time.secs as int % 60 == 59
            &&& -86_400 < time.utc_offset < 86_400
        },
{
    let day = time.secs as int / 86_400;
    let date = calendar::date_of(day);
    calendar::lemma_date_of(day);
    let first = calendar::Date { year: -262_143, month: 1, day: 1 };
    let past = calendar::Date { year: 262_143, month: 1, day: 1 };
    assert(calendar::is_date(first) && calendar::is_date(past));
    assert(calendar::day_number(first) == -96_465_292);
    assert(calendar::day_number(past) == 95_026_237);
    if date.year < -262_143 {
        calendar::lemma_day_number_increases(date, first);
    } else if date != first {
        calendar::lemma_day_number_increases(first, date);
    }
    if date.year <= 262_142 {
        calendar::lemma_day_number_increases(date, past);
    } else if date != past {
        calendar::lemma_day_number_increases(past, date);
    }
}

/// The number that decimal digits stand for.
pub open spec fn number_in(digits: Seq<char>) -> int
    decreases digits.len(),
{
    if digits.len() == 0 {
        0
    } else {
        10 * number_in(digits.drop_last()) + (digits.last() as int - 48)
    }
}

proof fn lemma_padded_stands_for(n: nat, width: nat)
    ensures
        number_in(calendar::padded(n, width)) == n,
    decreases n, width,
{
    if n == 0 && width == 0 {
    } else {
        let less = if width == 0 {
            0
        } else {
            (width - 1) as nat
        };
        lemma_padded_stands_for(n / 10, less);
        let all = calendar::padded(n, width);
        assert(all == calendar::padded(n / 10, less).push(calendar::digit((n % 10) as int)));
        assert(all.drop_last() =~= calendar::padded(n / 10, less));
    }
}

proof fn lemma_date_text_tells(date: calendar::Date)
    requires
        calendar::is_date(date),
        0 <= date.year <= 9999,
    ensures
        ({
            let text = date_text(date);
            &&& text.len() == 10
            &&& number_in(text.subrange(0, 4)) == date.year
            &&& text[4] == '-'
            &&& number_in(text.subrange(5, 7)) == date.month
            &&& text[7] == '-'
            &&& number_in(text.subrange(8, 10)) == date.day
        }),
{
    lemma_powers();
    reveal_strlit("-");
    let year = calendar::padded(date.year as nat, 4);
    let month = calendar::padded(date.month as nat, 2);
    let day = calendar::padded(date.day as nat, 2);
    calendar::lemma_padded(date.year as nat, 4);
    calendar::lemma_padded(date.month as nat, 2);
    calendar::lemma_padded(date.day as nat, 2);
    lemma_padded_stands_for(date.year as nat, 4);
    lemma_padded_stands_for(date.month as nat, 2);
    lemma_padded_stands_for(date.day as nat, 2);
    let text = date_text(date);
    assert(text.subrange(0, 4) =~= year);
    assert(text.subrange(5, 7) =~= month);
    assert(text.subrange(8, 10) =~= day);
}

proof fn lemma_clock_text_tells(s: int, m: int)
    requires
        0 <= s < 86_400,
        0 <= m < 2000,
    ensures
        ({
            let text = clock_text(s, m);
            &&& text.len() == 12
            &&& number_in(text.subrange(0, 2)) == s / 3600
            &&& text[2] == '-'
            &&& number_in(text.subrange(3, 5)) == s / 60 % 60
            &&& text[5] == '-'
            &&& number_in(text.subrange(6, 8)) == s % 60 + m / 1000
            &&& text[8] == '-'
            &&& number_in(text.subrange(9, 12)) == m % 1000
        }),
{
    lemma_powers();
    reveal_strlit("-");
    let hour = (s / 3600) as nat;
    let minute = (s / 60 % 60) as nat;
    let second = (s % 60 + m / 1000) as nat;
    let milli = (m % 1000) as nat;
    calendar::lemma_padded(hour, 2);
    calendar::lemma_padded(minute, 2);
    calendar::lemma_padded(second, 2);
    calendar::lemma_padded(milli, 3);
    lemma_padded_stands_for(hour, 2);
    lemma_padded_stands_for(minute, 2);
    lemma_padded_stands_for(second, 2);
    lemma_padded_stands_for(milli, 3);
    let text = clock_text(s, m);
    assert(text.subrange(0, 2) =~= calendar::padded(hour, 2));
    assert(text.subrange(3, 5) =~= calendar::padded(minute, 2));
    assert(text.subrange(6, 8) =~= calendar::padded(second, 2));
    assert(text.subrange(9, 12) =~= calendar::padded(milli, 3));
}

proof fn lemma_offset_text_tells(utc_offset: int)
    requires
        -86_400 < utc_offset < 86_400,
    ensures
        ({
            let text = offset_text(utc_offset);
            let size = if utc_offset < 0 {
                -utc_offset
            } else {
                utc_offset
            };
            let minutes = 60 * number_in(text.subrange(1, 3)) + number_in(text.subrange(3, 5));
            &&& text.len() == 5
            &&& text[0] == if utc_offset < 0 {
                '-'
            } else {
                '+'
            }
            &&& 0 <= number_in(text.subrange(3, 5)) < 60
            &&& 60 * minutes - 30 <= size < 60 * minutes + 30
        }),
{
    lemma_powers();
    reveal_strlit("-");
    reveal_strlit("+");
    let size = if utc_offset < 0 {
        -utc_offset
    } else {
        utc_offset
    };
    let minutes = (size + 30) / 60;
    let h = (minutes / 60) as nat;
    let m = (minutes % 60) as nat;
    calendar::lemma_padded(h, 2);
    calendar::lemma_padded(m, 2);
    lemma_padded_stands_for(h, 2);
    lemma_padded_stands_for(m, 2);
    let text = offset_text(utc_offset);
    assert(text.subrange(1, 3) =~= calendar::padded(h, 2));
    assert(text.subrange(3, 5) =~= calendar::padded(m, 2));
}

/// The name of an instant, `YYYY-MM-DD_HH-MM-SS-mmm_+HHMM`, tells the instant: the
/// date, the time of day and the milliseconds that its digits stand for are those of
/// the instant on its clock, and the offset of the clock is given to the nearest
/// minute.
pub proof fn law_name_tells_time(time: Timestamp)
    requires
        time.is_valid(),
        has_common_year(time),
    ensures
        ({
            let name = basename(time);
            let date = calendar::Date {
                year: number_in(name.subrange(0, 4)),
                month: number_in(name.subrange(5, 7)),
                day: number_in(name.subrange(8, 10)),
            };
            let hour = number_in(name.subrange(11, 13));
            let minute = number_in(name.subrange(14, 16));
            let second = number_in(name.subrange(17, 19));
            let milli = number_in(name.subrange(20, 23));
            let ahead = 60 * number_in(name.subrange(25, 27)) + number_in(name.subrange(27, 29));
            let size = if time.utc_offset < 0 {
                -time.utc_offset
            } else {
                time.utc_offset as int
            };
            &&& name.len() == 29
            &&& name[4] == '-' && name[7] == '-' && name[10] == '_' && name[13] == '-' && name[16]
                == '-' && name[19] == '-' && name[23] == '_'
            &&& calendar::is_date(date)
            &&& 0 <= hour < 24 && 0 <= minute < 60 && 0 <= second <= 60 && 0 <= milli < 1000
            &&& calendar::day_number(date) * 86_400 + hour * 3600 + minute * 60 + second
                == time.secs + time.utc_offset + time.nanos as int / 1_000_000_000
            &&& milli == time.nanos as int / 1_000_000 % 1000
            &&& name[24] == if time.utc_offset < 0 {
                '-'
            } else {
                '+'
            }
            &&& 0 <= number_in(name.subrange(27, 29)) < 60
            &&& 60 * ahead - 30 <= size < 60 * ahead + 30
        }),
{
    reveal_strlit("_");
    let date = calendar::date_of(time.local_day());
    let s = time.second_of_day();
    let m = time.sub_millis();
    calendar::lemma_date_of(time.local_day());
    lemma_local_bounds(time);
    lemma_date_text_tells(date);
    lemma_clock_text_tells(s, m);
    lemma_offset_text_tells(time.utc_offset as int);
    let name = basename(time);
    let days = date_text(date);
    let clock = clock_text(s, m);
    let zone = offset_text(time.utc_offset as int);
    assert(name.subrange(0, 4) =~= days.subrange(0, 4));
    assert(name.subrange(5, 7) =~= days.subrange(5, 7));
    assert(name.subrange(8, 10) =~= days.subrange(8, 10));
    assert(name.subrange(11, 13) =~= clock.subrange(0, 2));
    assert(name.subrange(14, 16) =~= clock.subrange(3, 5));
    assert(name.subrange(17, 19) =~= clock.subrange(6, 8));
    assert(name.subrange(20, 23) =~= clock.subrange(9, 12));
    assert(name.subrange(25, 27) =~= zone.subrange(1, 3));
    assert(name.subrange(27, 29) =~= zone.subrange(3, 5));
    assert(time.secs + time.utc_offset == 86_400 * time.local_day() + s);
    assert(s == 3600 * (s / 3600) + 60 * (s / 60 % 60) + s % 60) by {
        assert(s / 60 / 60 == s / 3600);
    }
    assert(m / 1000 == time.nanos as int / 1_000_000_000);
}

proof fn lemma_padded_grows(n: nat, width: nat)
    requires
        n >= calendar::power_of_ten(width),
    ensures
        calendar::padded(n, width).len() > width,
        calendar::padded(n, width)[0] != '0',
    decreases n, width,
{
    let less = if width == 0 {
        0
    } else {
        (width - 1) as nat
    };
    let front = calendar::padded(n / 10, less);
    assert(calendar::padded(n, width) == front.push(calendar::digit((n % 10) as int)));
    if width > 0 {
        lemma_padded_grows(n / 10, less);
    } else if n >= 10 {
        lemma_padded_grows(n / 10, 0);
    } else {
        assert(front =~= Seq::empty());
    }
}

proof fn lemma_year_text_tells(year: int)
    ensures
        ({
            let text = year_text(year);
            &&& text.len() >= 4
            &&& 0 <= year <= 9999 ==> text.len() == 4 && number_in(text) == year
            &&& year < 0 ==> text[0] == '-' && number_in(text.skip(1)) == -year
            &&& year > 9999 ==> text[0] == '+' && number_in(text.skip(1)) == year
            &&& -9999 <= year < 0 ==> text.len() == 5
            &&& year < -9999 || year > 9999 ==> text.len() > 5 && text[1] != '0'
        }),
{
    lemma_powers();
    reveal_strlit("-");
    reveal_strlit("+");
    let size = (if year < 0 {
        -year
    } else {
        year
    }) as nat;
    lemma_padded_stands_for(size, 4);
    if size < 10_000 {
        calendar::lemma_padded(size, 4);
    } else {
        lemma_padded_grows(size, 4);
    }
    let text = year_text(year);
    if !(0 <= year <= 9999) {
        assert(text.skip(1) =~= calendar::padded(size, 4));
    }
}

/// In any year the name of an instant ends as it does in years of four digits. It
/// begins with the year: with a minus sign where that is negative, with a plus sign
/// where it has more than four digits, and with zeros up to four digits only.
pub proof fn law_name_tells_time_in_any_year(time: Timestamp)
    requires
        time.is_valid(),
    ensures
        ({
            let name = basename(time);
            let y = name.len() - 25;
            let years = name.take(y);
            let year = if years[0] == '-' {
                -number_in(years.skip(1))
            } else if years[0] == '+' {
                number_in(years.skip(1))
            } else {
                number_in(years)
            };
            let date = calendar::Date {
                year,
                month: number_in(name.subrange(y + 1, y + 3)),
                day: number_in(name.subrange(y + 4, y + 6)),
            };
            let hour = number_in(name.subrange(y + 7, y + 9));
            let minute = number_in(name.subrange(y + 10, y + 12));
            let second = number_in(name.subrange(y + 13, y + 15));
            let milli = number_in(name.subrange(y + 16, y + 19));
            let ahead = 60 * number_in(name.subrange(y + 21, y + 23)) + number_in(
                name.subrange(y + 23, y + 25),
            );
            let size = if time.utc_offset < 0 {
                -time.utc_offset
            } else {
                time.utc_offset as int
            };
            &&& y >= 4
            &&& 0 <= year <= 9999 ==> y == 4
            &&& year < 0 <==> years[0] == '-'
            &&& year > 9999 <==> years[0] == '+'
            &&& -9999 <= year < 0 ==> y == 5
            &&& year < -9999 || year > 9999 ==> y > 5 && years[1] != '0'
            &&& name[y] == '-' && name[y + 3] == '-' && name[y + 6] == '_' && name[y + 9] == '-'
                && name[y + 12] == '-' && name[y + 15] == '-' && name[y + 19] == '_'
            &&& calendar::is_date(date)
            &&& 0 <= hour < 24 && 0 <= minute < 60 && 0 <= second <= 60 && 0 <= milli < 1000
            &&& calendar::day_number(date) * 86_400 + hour * 3600 + minute * 60 + second
                == time.secs + time.utc_offset + time.nanos as int / 1_000_000_000
            &&& milli == time.nanos as int / 1_000_000 % 1000
            &&& name[y + 20] == if time.utc_offset < 0 {
                '-'
            } else {
                '+'
            }
            &&& 0 <= number_in(name.subrange(y + 23, y + 25)) < 60
            &&& 60 * ahead - 30 <= size < 60 * ahead + 30
        }),
{
    reveal_strlit("_");
    reveal_strlit("-");
    lemma_powers();
    let date = calendar::date_of(time.local_day());
    let s = time.second_of_day();
    let m = time.sub_millis();
    calendar::lemma_date_of(time.local_day());
    lemma_local_bounds(time);
    lemma_year_text_tells(date.year);
    lemma_year_text_begins(date.year);
    calendar::lemma_padded(date.month as nat, 2);
    calendar::lemma_padded(date.day as nat, 2);
    lemma_padded_stands_for(date.month as nat, 2);
    lemma_padded_stands_for(date.day as nat, 2);
    lemma_clock_text_tells(s, m);
    lemma_offset_text_tells(time.utc_offset as int);
    let name = basename(time);
    let years = year_text(date.year);
    let clock = clock_text(s, m);
    let zone = offset_text(time.utc_offset as int);
    let y = years.len() as int;
    assert(name.len() == y + 25);
    assert(name.take(y) =~= years);
    assert(name.subrange(y + 1, y + 3) =~= calendar::padded(date.month as nat, 2));
    assert(name.subrange(y + 4, y + 6) =~= calendar::padded(date.day as nat, 2));
    assert(name.subrange(y + 7, y + 9) =~= clock.subrange(0, 2));
    assert(name.subrange(y + 10, y + 12) =~= clock.subrange(3, 5));
    assert(name.subrange(y + 13, y + 15) =~= clock.subrange(6, 8));
    assert(name.subrange(y + 16, y + 19) =~= clock.subrange(9, 12));
    assert(name.subrange(y + 21, y + 23) =~= zone.subrange(1, 3));
    assert(name.subrange(y + 23, y + 25) =~= zone.subrange(3, 5));
    assert(time.secs + time.utc_offset == 86_400 * time.local_day() + s);
    assert(s == 3600 * (s / 3600) + 60 * (s / 60 % 60) + s % 60) by {
        assert(s / 60 / 60 == s / 3600);
    }
    assert(m / 1000 == time.nanos as int / 1_000_000_000);
}

proof fn lemma_year_text_begins(year: int)
    ensures
        0 <= year <= 9999 ==> '0' as int <= year_text(year)[0] as int <= '9' as int,
{
    lemma_powers();
    if 0 <= year <= 9999 {
        calendar::lemma_padded(year as nat, 4);
    }
}

} // verus!
