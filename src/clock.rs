//! Day numbers, weekday labels and twelve-hour clock strings.
//!
//! A day is numbered as chrono's `num_days_from_ce` numbers it: day 1 is
//! Monday, 1 January of year 1 in the proleptic Gregorian calendar.
use vstd::prelude::*;
use crate::text::same_text;

verus! {

/// The weekday of day `d`, counted from Monday (0) to Sunday (6).
pub open spec fn weekday_of(d: int) -> int {
    (d - 1) % 7
}

/// Weekday of a day number, counted from Monday (0) to Sunday (6).
pub fn weekday_index(d: i64) -> (r: u32)
    ensures
        r as int == weekday_of(d as int),
        r < 7,
{
    let m: i64 = match d.checked_rem_euclid(7) {
        Some(m) => m,
        None => 0,
    };
    assert(0 <= m < 7);
    let w: i64 = (m + 6) % 7;
    assert(w as int == weekday_of(d as int)) by (nonlinear_arith)
        requires m == d % 7, w == (m + 6) % 7, 0 <= m < 7;
    w as u32
}


/// The lower-case English name of weekday `w` (Monday is 0).
pub open spec fn weekday_name(w: int) -> Seq<char> {
    if w == 0 {
        "monday"@
    } else if w == 1 {
        "tuesday"@
    } else if w == 2 {
        "wednesday"@
    } else if w == 3 {
        "thursday"@
    } else if w == 4 {
        "friday"@
    } else if w == 5 {
        "saturday"@
    } else {
        "sunday"@
    }
}

/// The weekday that a lower-case English weekday name names.
pub open spec fn weekday_named(s: Seq<char>) -> Option<int> {
    if s == "monday"@ {
        Some(0)
    } else if s == "tuesday"@ {
        Some(1)
    } else if s == "wednesday"@ {
        Some(2)
    } else if s == "thursday"@ {
        Some(3)
    } else if s == "friday"@ {
        Some(4)
    } else if s == "saturday"@ {
        Some(5)
    } else if s == "sunday"@ {
        Some(6)
    } else {
        None
    }
}

/// The text in lower case, as `str::to_lowercase` gives it.
pub uninterp spec fn lower_of(s: Seq<char>) -> Seq<char>;

/// Relies on `str::to_lowercase`: the result depends on the text alone.
#[verifier::external_body]
pub(crate) fn lowercase(s: &str) -> (r: String)
    ensures
        r@ == lower_of(s@),
{
    s.to_lowercase()
}

/// The first day at or after `today` that falls on weekday `w`.
pub open spec fn next_weekday(w: int, today: int) -> int {
    today + (w - weekday_of(today)) % 7
}

/// The day that a day label stands for, seen from day `today`: `today`,
/// `tomorrow`, or the first day at or after `today` that bears the named
/// weekday (the name as it stands, else in lower case). Any other label
/// stands for `today`.
pub open spec fn resolved_day(label: Seq<char>, today: int) -> int {
    if label == "today"@ {
        today
    } else if label == "tomorrow"@ {
        today + 1
    } else {
        match weekday_named(label) {
            Some(w) => next_weekday(w, today),
            None => match weekday_named(lower_of(label)) {
                Some(w) => next_weekday(w, today),
                None => today,
            },
        }
    }
}

/// The name of weekday `w` (Monday is 0) as a day label.
pub fn weekday_label(w: u32) -> (r: String)
    requires
        w < 7,
    ensures
        r@ == weekday_name(w as int),
{
    let name = if w == 0 {
        "monday"
    } else if w == 1 {
        "tuesday"
    } else if w == 2 {
        "wednesday"
    } else if w == 3 {
        "thursday"
    } else if w == 4 {
        "friday"
    } else if w == 5 {
        "saturday"
    } else {
        "sunday"
    };
    name.to_owned()
}

/// The weekday that a lower-case weekday name names, if any.
pub fn weekday_from_name(name: &str) -> (r: Option<u32>)
    ensures
        match r {
            Some(w) => weekday_named(name@) == Some(w as int),
            None => weekday_named(name@) is None,
        },
{
    if same_text(name, "monday") {
        Some(0)
    } else if same_text(name, "tuesday") {
        Some(1)
    } else if same_text(name, "wednesday") {
        Some(2)
    } else if same_text(name, "thursday") {
        Some(3)
    } else if same_text(name, "friday") {
        Some(4)
    } else if same_text(name, "saturday") {
        Some(5)
    } else if same_text(name, "sunday") {
        Some(6)
    } else {
        None
    }
}

/// Resolves a day label to a day number, seen from day `today`. A label that
/// names no day resolves to `today`.
pub fn calculate_date_from_tag(tag: &str, today: i64) -> (r: i64)
    requires
        today <= i64::MAX - 7,
    ensures
        r == resolved_day(tag@, today as int),
{
    if same_text(tag, "today") {
        today
    } else if same_text(tag, "tomorrow") {
        today + 1
    } else {
        let named = match weekday_from_name(tag) {
            Some(w) => Some(w),
            None => {
                let lowered = lowercase(tag);
                weekday_from_name(lowered.as_str())
            },
        };
        match named {
            Some(target) => day_on_weekday(target, today),
            None => today,
        }
    }
}

/// The first day at or after `today` that falls on weekday `target`.
pub fn day_on_weekday(target: u32, today: i64) -> (r: i64)
    requires
        target < 7,
        today <= i64::MAX - 7,
    ensures
        r == next_weekday(target as int, today as int),
{
    let current = weekday_index(today);
    let ahead: i64 = if target >= current {
        (target - current) as i64
    } else {
        (7 + target - current) as i64
    };
    assert(ahead == (target - current) % 7);
    today + ahead
}

/// A weekday name resolves to a day that bears that weekday, at most six
/// days after `today`.
pub proof fn lemma_weekday_label_resolves(w: int, today: int)
    requires
        0 <= w < 7,
    ensures
        weekday_of(resolved_day(weekday_name(w), today)) == w,
        today <= resolved_day(weekday_name(w), today) <= today + 6,
{
    reveal_strlit("today");
    reveal_strlit("tomorrow");
    reveal_strlit("monday");
    reveal_strlit("tuesday");
    reveal_strlit("wednesday");
    reveal_strlit("thursday");
    reveal_strlit("friday");
    reveal_strlit("saturday");
    reveal_strlit("sunday");
    let name = weekday_name(w);
    assert(name != "today"@) by {
        if name.len() == 5 {
            assert(name[1] != "today"@[1]);
        }
    }
    assert(name != "tomorrow"@) by {
        if name.len() == 8 {
            assert(name[1] != "tomorrow"@[1]);
        }
    }
    assert("monday"@ != "friday"@) by { assert("monday"@[0] != "friday"@[0]); }
    assert("monday"@ != "sunday"@) by { assert("monday"@[0] != "sunday"@[0]); }
    assert("friday"@ != "sunday"@) by { assert("friday"@[0] != "sunday"@[0]); }
    assert("thursday"@ != "saturday"@) by { assert("thursday"@[0] != "saturday"@[0]); }
    assert("monday"@.len() == 6 && "tuesday"@.len() == 7 && "wednesday"@.len() == 9);
    assert("thursday"@.len() == 8 && "friday"@.len() == 6 && "saturday"@.len() == 8);
    assert("sunday"@.len() == 6);
    if w == 0 {
        assert(weekday_named(name) == Some(w));
    } else if w == 1 {
        assert(weekday_named(name) == Some(w));
    } else if w == 2 {
        assert(weekday_named(name) == Some(w));
    } else if w == 3 {
        assert(weekday_named(name) == Some(w));
    } else if w == 4 {
        assert(weekday_named(name) == Some(w));
    } else if w == 5 {
        assert(weekday_named(name) == Some(w));
    } else {
        assert(weekday_named(name) == Some(w));
    }
    let d = today + (w - weekday_of(today)) % 7;
    assert(weekday_of(d) == w) by (nonlinear_arith)
        requires d == today + (w - weekday_of(today)) % 7, 0 <= w < 7,
            weekday_of(today) == (today - 1) % 7, weekday_of(d) == (d - 1) % 7;
}

/// `today` resolves to the day itself and `tomorrow` to the day after.
pub proof fn lemma_relative_labels_resolve(today: int)
    ensures
        resolved_day("today"@, today) == today,
        resolved_day("tomorrow"@, today) == today + 1,
{
    reveal_strlit("today");
    reveal_strlit("tomorrow");
    assert("tomorrow"@ != "today"@) by { assert("tomorrow"@.len() != "today"@.len()); }
}


/// The pattern that listing pages write their clock strings in: hour without
/// a leading zero, two-digit minute, then `am` or `pm`.
pub const CLOCK_PATTERN: &'static str = "%-I:%M %P";

/// The hour and minute that chrono reads from `s` under `pattern`, if it
/// reads any.
pub uninterp spec fn clock_reading(s: Seq<char>, pattern: Seq<char>) -> Option<(u32, u32)>;

/// Relies on chrono's `NaiveTime::parse_from_str`, with `Timelike::hour` and
/// `Timelike::minute` on its result: the reading depends on the two texts
/// alone, and a time's hour is below 24 and its minute below 60.
#[verifier::external_body]
fn read_clock(s: &str, pattern: &str) -> (r: Option<(u32, u32)>)
    ensures
        r == clock_reading(s@, pattern@),
        r matches Some((h, m)) ==> h < 24 && m < 60,
{
    match chrono::NaiveTime::parse_from_str(s, pattern) {
        Ok(t) => Some((chrono::Timelike::hour(&t), chrono::Timelike::minute(&t))),
        Err(_) => None,
    }
}

/// Minutes from midnight of a clock string, where chrono reads it under
/// `CLOCK_PATTERN`.
pub open spec fn clock_offset(s: Seq<char>) -> Option<int> {
    match clock_reading(s, CLOCK_PATTERN@) {
        Some((h, m)) => Some(h * 60 + m),
        None => None,
    }
}

/// Minutes from midnight of the time `hour`:`minute`.
pub fn offset_from_clock(hour: u32, minute: u32) -> (r: i64)
    requires
        hour < 24,
        minute < 60,
    ensures
        r == hour * 60 + minute,
        0 <= r < 1440,
{
    hour as i64 * 60 + minute as i64
}

/// Minutes from midnight of a twelve-hour clock string such as `7:30 pm`, or
/// `None` where the string is not one.
pub fn get_offset_from_string(time_string: &str) -> (r: Option<i64>)
    ensures
        match r {
            Some(m) => clock_offset(time_string@) == Some(m as int) && 0 <= m < 1440,
            None => clock_offset(time_string@) is None,
        },
{
    match read_clock(time_string, CLOCK_PATTERN) {
        Some((h, m)) => Some(offset_from_clock(h, m)),
        None => None,
    }
}

/// The label that the fixed week of labels gives to the day `k` days after
/// `today`: `today`, `tomorrow`, then weekday names.
pub open spec fn fallback_label(today: int, k: int) -> Seq<char> {
    if k == 0 {
        "today"@
    } else if k == 1 {
        "tomorrow"@
    } else {
        weekday_name(weekday_of(today + k))
    }
}

/// The fixed week of days used where no labels could be discovered: `today`,
/// `tomorrow` and the five weekdays after them, each with its day number.
pub fn fallback_days(today: i64) -> (r: Vec<(i64, String)>)
    requires
        today <= i64::MAX - 7,
    ensures
        r@.len() == 7,
        forall|k: int|
            0 <= k < 7 ==> (#[trigger] r@[k]).0 == today + k && r@[k].1@ == fallback_label(
                today as int,
                k,
            ),
{
    let mut days: Vec<(i64, String)> = Vec::new();
    days.push((today, "today".to_owned()));
    days.push((today + 1, "tomorrow".to_owned()));
    let mut k: i64 = 2;
    while k < 7
        invariant
            2 <= k <= 7,
            today <= i64::MAX - 7,
            days@.len() == k,
            forall|j: int|
                0 <= j < k ==> (#[trigger] days@[j]).0 == today + j && days@[j].1@
                    == fallback_label(today as int, j),
        decreases 7 - k,
    {
        let day = today + k;
        let name = weekday_label(weekday_index(day));
        days.push((day, name));
        k = k + 1;
    }
    days
}

} // verus!
