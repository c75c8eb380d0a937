use crate::keymap::{event_meaning, mapkey, Event, KeyMapping};
use crate::text::decimal_digits;
use crate::widgets::PromptIntent;
use chrono::Datelike;
use vstd::prelude::*;
use vstd::string::*;

verus! {

/// A day of the calendar: year, month (1 to 12) and day of the month.
#[derive(Debug, PartialEq, Eq, Clone, Copy)]
pub struct CalendarDate {
    pub year: i32,
    pub month: u32,
    pub day: u32,
}

pub open spec fn ymd(d: CalendarDate) -> (i32, u32, u32) {
    (d.year, d.month, d.day)
}

/// A leap year of the proleptic Gregorian calendar.
pub open spec fn leap_year(y: int) -> bool {
    y % 4 == 0 && (y % 100 != 0 || y % 400 == 0)
}

/// The number of days of month `m` of year `y`.
pub open spec fn days_in_month(y: int, m: int) -> int {
    if m == 2 {
        if leap_year(y) {
            29
        } else {
            28
        }
    } else if m == 4 || m == 6 || m == 9 || m == 11 {
        30
    } else {
        31
    }
}

/// The date exists in `chrono`'s calendar: a real day of a year from
/// -262143 to 262142.
pub open spec fn date_exists(d: (i32, u32, u32)) -> bool {
    -262143 <= d.0 <= 262142 && 1 <= d.1 <= 12 && 1 <= d.2 <= days_in_month(d.0 as int, d.1 as int)
}

/// `chrono`'s month arithmetic (`diff_months`): the month `k` months from
/// the date's (counted from year 0), the day kept, or the last day of that
/// month when it is shorter; `None` when the count overflows `i32` or the
/// result does not exist.
pub open spec fn months_moved(d: (i32, u32, u32), k: int) -> Option<(i32, u32, u32)> {
    let total = d.0 * 12 + d.1 - 1 + k;
    let y = total / 12;
    let m = total % 12 + 1;
    let day = if d.2 > days_in_month(y, m) {
        days_in_month(y, m)
    } else {
        d.2 as int
    };
    if total < i32::MIN || total > i32::MAX {
        None
    } else if date_exists((y as i32, m as u32, day as u32)) {
        Some((y as i32, m as u32, day as u32))
    } else {
        None
    }
}

/// `chrono::NaiveDate::checked_add_months`: the same day `n` months
/// later (the last day of that month when it is shorter), if the date
/// exists and the result is in range.
pub open spec fn months_added(d: (i32, u32, u32), n: u32) -> Option<(i32, u32, u32)> {
    if !date_exists(d) {
        None
    } else if n == 0 {
        Some(d)
    } else if n > i32::MAX {
        None
    } else {
        months_moved(d, n as int)
    }
}

/// `chrono::NaiveDate::checked_sub_months`: the same day `n` months
/// earlier (the last day of that month when it is shorter).
pub open spec fn months_subtracted(d: (i32, u32, u32), n: u32) -> Option<(i32, u32, u32)> {
    if !date_exists(d) {
        None
    } else if n == 0 {
        Some(d)
    } else if n > i32::MAX {
        None
    } else {
        months_moved(d, -(n as int))
    }
}

/// The number of days of year `y`.
pub open spec fn year_length(y: int) -> int {
    if leap_year(y) {
        366
    } else {
        365
    }
}

/// The number of days from the first day of year 0 to the first day of
/// year `y` (negative before year 0).
pub open spec fn days_before_year(y: int) -> int
    decreases (if y >= 0 {
        y
    } else {
        -y
    }),
{
    if y == 0 {
        0
    } else if y > 0 {
        days_before_year(y - 1) + year_length(y - 1)
    } else {
        days_before_year(y + 1) - year_length(y)
    }
}

/// The number of days of year `y` before month `m`.
pub open spec fn days_before_month(y: int, m: int) -> int
    decreases m,
{
    if m <= 1 {
        0
    } else {
        days_before_month(y, m - 1) + days_in_month(y, m - 1)
    }
}

/// The number of a day on the calendar: how many days it comes after the
/// first day of year 0.
pub open spec fn day_number(d: (i32, u32, u32)) -> int {
    days_before_year(d.0 as int) + days_before_month(d.0 as int, d.1 as int) + d.2 - 1
}

/// The date `k` days after `d` (before it, for a negative `k`), if both
/// exist.
pub open spec fn days_moved(d: (i32, u32, u32), k: int) -> Option<(i32, u32, u32)> {
    if date_exists(d) && exists|e: (i32, u32, u32)|
        date_exists(e) && #[trigger] day_number(e) == day_number(d) + k {
        Some(choose|e: (i32, u32, u32)| date_exists(e) && #[trigger] day_number(e) == day_number(d) + k)
    } else {
        None
    }
}

/// `chrono::NaiveDate::checked_add_days`: the date `n` days later, if it
/// is in the calendar's range.
pub open spec fn days_added(d: (i32, u32, u32), n: u64) -> Option<(i32, u32, u32)> {
    days_moved(d, n as int)
}

/// `chrono::NaiveDate::checked_sub_days`: the date `n` days earlier, if
/// it is in the calendar's range.
pub open spec fn days_subtracted(d: (i32, u32, u32), n: u64) -> Option<(i32, u32, u32)> {
    days_moved(d, -(n as int))
}

proof fn lemma_year_step(y: int)
    ensures
        days_before_year(y + 1) == days_before_year(y) + year_length(y),
{
    if y < 0 && y + 1 < 0 {
        assert(days_before_year(y) == days_before_year(y + 1) - year_length(y));
    } else if y < 0 {
        assert(days_before_year(y) == days_before_year(0) - year_length(y));
    }
}

proof fn lemma_years_ordered(a: int, b: int)
    requires
        a < b,
    ensures
        days_before_year(a) + year_length(a) <= days_before_year(b),
    decreases b - a,
{
    lemma_year_step(a);
    if b > a + 1 {
        lemma_years_ordered(a, b - 1);
        lemma_year_step(b - 1);
    }
}

proof fn lemma_months_ordered(y: int, m: int, m2: int)
    requires
        1 <= m < m2,
    ensures
        days_before_month(y, m) + days_in_month(y, m) <= days_before_month(y, m2),
    decreases m2 - m,
{
    if m2 > m + 1 {
        lemma_months_ordered(y, m, m2 - 1);
    }
}

proof fn lemma_months_of_year(y: int)
    ensures
        days_before_month(y, 13) == year_length(y),
        forall|m: int| 1 <= m <= 13 ==> #[trigger] days_before_month(y, m) >= 0,
{
    assert(days_before_month(y, 1) == 0);
    assert(days_before_month(y, 2) == 31);
    assert(days_before_month(y, 3) == 31 + days_in_month(y, 2));
    assert(days_before_month(y, 4) == 62 + days_in_month(y, 2));
    assert(days_before_month(y, 5) == 92 + days_in_month(y, 2));
    assert(days_before_month(y, 6) == 123 + days_in_month(y, 2));
    assert(days_before_month(y, 7) == 153 + days_in_month(y, 2));
    assert(days_before_month(y, 8) == 184 + days_in_month(y, 2));
    assert(days_before_month(y, 9) == 215 + days_in_month(y, 2));
    assert(days_before_month(y, 10) == 245 + days_in_month(y, 2));
    assert(days_before_month(y, 11) == 276 + days_in_month(y, 2));
    assert(days_before_month(y, 12) == 306 + days_in_month(y, 2));
    assert(days_before_month(y, 13) == 337 + days_in_month(y, 2));
}

/// A later date has a larger number.
proof fn lemma_later_day_number(a: (i32, u32, u32), b: (i32, u32, u32))
    requires
        date_exists(a),
        date_exists(b),
        date_before(a, b),
    ensures
        day_number(a) < day_number(b),
{
    lemma_months_of_year(a.0 as int);
    lemma_months_of_year(b.0 as int);
    if a.0 < b.0 {
        if a.1 < 12 {
            lemma_months_ordered(a.0 as int, a.1 as int, 13);
        }
        lemma_years_ordered(a.0 as int, b.0 as int);
    } else if a.1 < b.1 {
        lemma_months_ordered(a.0 as int, a.1 as int, b.1 as int);
    }
}

/// Of two existing dates, the one with the smaller number comes first.
proof fn lemma_day_number_order(a: (i32, u32, u32), b: (i32, u32, u32))
    requires
        date_exists(a),
        date_exists(b),
        day_number(a) < day_number(b),
    ensures
        date_before(a, b),
{
    if !date_before(a, b) && a != b {
        lemma_later_day_number(b, a);
    }
}

/// `s` after as many zeros as bring it to `w` characters.
pub open spec fn zero_padded(s: Seq<char>, w: nat) -> Seq<char> {
    if s.len() >= w {
        s
    } else {
        Seq::new((w - s.len()) as nat, |i: int| '0') + s
    }
}

/// The year as `NaiveDate`'s `Debug` writes it: four digits from 0 to
/// 9999, else with its sign and at least four digits.
pub open spec fn year_text(y: int) -> Seq<char> {
    if 0 <= y <= 9999 {
        zero_padded(decimal_digits(y as nat), 4)
    } else if y < 0 {
        seq!['-'] + zero_padded(decimal_digits((-y) as nat), 4)
    } else {
        seq!['+'] + zero_padded(decimal_digits(y as nat), 4)
    }
}

/// The text of a date, `%Y-%m-%d` (`NaiveDate`'s `Display`, which writes
/// its `Debug` form): the year, then the month and the day in two digits;
/// empty for a date that does not exist.
pub open spec fn date_text(d: (i32, u32, u32)) -> Seq<char> {
    if date_exists(d) {
        year_text(d.0 as int) + seq!['-'] + zero_padded(decimal_digits(d.1 as nat), 2) + seq!['-']
            + zero_padded(decimal_digits(d.2 as nat), 2)
    } else {
        Seq::empty()
    }
}

/// The date that `str::parse::<NaiveDate>` reads from a text.
pub uninterp spec fn date_parse(s: Seq<char>) -> Option<(i32, u32, u32)>;

pub open spec fn optional_ymd(o: Option<CalendarDate>) -> Option<(i32, u32, u32)> {
    match o {
        Some(d) => Some(ymd(d)),
        None => None,
    }
}

/// `chrono::NaiveDate::checked_add_months` on the date: the result is
/// `months_added` of the date and the count (`None` for a date that does
/// not exist), as `diff_months` in `chrono`'s source computes it.
#[verifier::external_body]
fn add_months(d: CalendarDate, n: u32) -> (res: Option<CalendarDate>)
    ensures
        optional_ymd(res) == months_added(ymd(d), n),
{
    let x = chrono::NaiveDate::from_ymd_opt(d.year, d.month, d.day)?;
    let y = x.checked_add_months(chrono::Months::new(n))?;
    Some(CalendarDate { year: y.year(), month: y.month(), day: y.day() })
}

/// `chrono::NaiveDate::checked_sub_months` on the date: the result is
/// `months_subtracted` of the date and the count (`None` for a date that
/// does not exist), as `diff_months` in `chrono`'s source computes it.
#[verifier::external_body]
fn sub_months(d: CalendarDate, n: u32) -> (res: Option<CalendarDate>)
    ensures
        optional_ymd(res) == months_subtracted(ymd(d), n),
{
    let x = chrono::NaiveDate::from_ymd_opt(d.year, d.month, d.day)?;
    let y = x.checked_sub_months(chrono::Months::new(n))?;
    Some(CalendarDate { year: y.year(), month: y.month(), day: y.day() })
}

/// `chrono::NaiveDate::checked_add_days` on the date: the result is
/// `days_added` of the date and the count (`None` for a date that does not exist).
#[verifier::external_body]
fn add_days(d: CalendarDate, n: u64) -> (res: Option<CalendarDate>)
    ensures
        optional_ymd(res) == days_added(ymd(d), n),
{
    let x = chrono::NaiveDate::from_ymd_opt(d.year, d.month, d.day)?;
    let y = x.checked_add_days(chrono::Days::new(n))?;
    Some(CalendarDate { year: y.year(), month: y.month(), day: y.day() })
}

/// `chrono::NaiveDate::checked_sub_days` on the date: the result is
/// `days_subtracted` of the date and the count (`None` for a date that does not exist).
#[verifier::external_body]
fn sub_days(d: CalendarDate, n: u64) -> (res: Option<CalendarDate>)
    ensures
        optional_ymd(res) == days_subtracted(ymd(d), n),
{
    let x = chrono::NaiveDate::from_ymd_opt(d.year, d.month, d.day)?;
    let y = x.checked_sub_days(chrono::Days::new(n))?;
    Some(CalendarDate { year: y.year(), month: y.month(), day: y.day() })
}

/// The text of a date (`NaiveDate`'s `Display`), as `date_text` states
/// it; empty for a date that does not exist.
#[verifier::external_body]
fn format_date(d: CalendarDate) -> (res: String)
    ensures
        res@ == date_text(ymd(d)),
{
    match chrono::NaiveDate::from_ymd_opt(d.year, d.month, d.day) {
        Some(x) => x.to_string(),
        None => String::new(),
    }
}

/// Reads a date (`str::parse::<NaiveDate>`).
#[verifier::external_body]
fn parse_date(s: &str) -> (res: Option<CalendarDate>)
    ensures
        optional_ymd(res) == date_parse(s@),
{
    let x = s.parse::<chrono::NaiveDate>().ok()?;
    Some(CalendarDate { year: x.year(), month: x.month(), day: x.day() })
}

/// The number of days a date comes after the Monday of its week
/// (`NaiveDate::weekday`, then `num_days_from_monday`).
pub uninterp spec fn weekday_from_monday(d: (i32, u32, u32)) -> Option<u32>;

/// `chrono::NaiveDate::weekday` and `Weekday::num_days_from_monday` on
/// the date: from 0 for a Monday to 6 for a Sunday (`None` for a date that
/// does not exist).
#[verifier::external_body]
fn days_from_monday(d: CalendarDate) -> (res: Option<u32>)
    ensures
        res == weekday_from_monday(ymd(d)),
        res matches Some(w) ==> w < 7,
{
    let x = chrono::NaiveDate::from_ymd_opt(d.year, d.month, d.day)?;
    Some(x.weekday().num_days_from_monday())
}

/// Where a key moves the selected date: a month with the scroll keys, a
/// week up and down, a day left and right. `None` for other keys and
/// for a move out of the calendar's range.
pub open spec fn moved(d: CalendarDate, m: KeyMapping) -> Option<(i32, u32, u32)> {
    match m {
        KeyMapping::ScrollUp => months_subtracted(ymd(d), 1),
        KeyMapping::ScrollDown => months_added(ymd(d), 1),
        KeyMapping::Up => days_subtracted(ymd(d), 7),
        KeyMapping::Down => days_added(ymd(d), 7),
        KeyMapping::Left => days_subtracted(ymd(d), 1),
        KeyMapping::Right => days_added(ymd(d), 1),
        _ => None,
    }
}

/// The arrows move the selected date by whole days on the calendar: Down
/// to the date seven days later, Up seven days earlier, Right one day
/// later, Left one day earlier; each move that succeeds lands on an
/// existing date, later for Down and Right, earlier for Up and Left.
pub proof fn lemma_arrow_moves(d: CalendarDate)
    ensures
        moved(d, KeyMapping::Down) matches Some(n) ==> date_exists(n) && day_number(n) == day_number(
            ymd(d),
        ) + 7 && date_before(ymd(d), n),
        moved(d, KeyMapping::Up) matches Some(n) ==> date_exists(n) && day_number(n) == day_number(
            ymd(d),
        ) - 7 && date_before(n, ymd(d)),
        moved(d, KeyMapping::Right) matches Some(n) ==> date_exists(n) && day_number(n)
            == day_number(ymd(d)) + 1 && date_before(ymd(d), n),
        moved(d, KeyMapping::Left) matches Some(n) ==> date_exists(n) && day_number(n) == day_number(
            ymd(d),
        ) - 1 && date_before(n, ymd(d)),
{
    let x = ymd(d);
    if let Some(n) = moved(d, KeyMapping::Down) {
        lemma_day_number_order(x, n);
    }
    if let Some(n) = moved(d, KeyMapping::Up) {
        lemma_day_number_order(n, x);
    }
    if let Some(n) = moved(d, KeyMapping::Right) {
        lemma_day_number_order(x, n);
    }
    if let Some(n) = moved(d, KeyMapping::Left) {
        lemma_day_number_order(n, x);
    }
}

/// The scroll keys move the selected date by a month: down to the next
/// month, up to the one before, keeping the day where the month has it
/// (never a later day); each move that succeeds lands on an existing date,
/// later for down and earlier for up.
pub proof fn lemma_month_moves(d: CalendarDate)
    ensures
        moved(d, KeyMapping::ScrollDown) matches Some(n) ==> date_exists(n) && date_before(ymd(d), n)
            && n.1 == d.month % 12 + 1 && n.2 <= d.day && (n.2 == d.day || n.2 == days_in_month(
            n.0 as int,
            n.1 as int,
        )),
        moved(d, KeyMapping::ScrollUp) matches Some(n) ==> date_exists(n) && date_before(n, ymd(d))
            && n.1 == (d.month + 10) % 12 + 1 && n.2 <= d.day && (n.2 == d.day || n.2
            == days_in_month(n.0 as int, n.1 as int)),
{
    let x = ymd(d);
    if moved(d, KeyMapping::ScrollDown) is Some {
        let total = x.0 * 12 + x.1 - 1 + 1;
        if x.1 < 12 {
            assert(total / 12 == x.0 as int && total % 12 == x.1 as int) by (nonlinear_arith)
                requires
                    total == x.0 * 12 + x.1,
                    1 <= x.1 < 12,
            ;
        } else {
            assert(total / 12 == x.0 + 1 && total % 12 == 0) by (nonlinear_arith)
                requires
                    total == x.0 * 12 + 12,
            ;
        }
    }
    if moved(d, KeyMapping::ScrollUp) is Some {
        let total = x.0 * 12 + x.1 - 1 - 1;
        if x.1 > 1 {
            assert(total / 12 == x.0 as int && total % 12 == x.1 - 2) by (nonlinear_arith)
                requires
                    total == x.0 * 12 + x.1 - 2,
                    1 < x.1 <= 12,
            ;
        } else {
            assert(total / 12 == x.0 - 1 && total % 12 == 11) by (nonlinear_arith)
                requires
                    total == x.0 * 12 - 1,
            ;
        }
    }
}

/// The keys that move the selected date.
pub open spec fn moves(m: KeyMapping) -> bool {
    m == KeyMapping::ScrollUp || m == KeyMapping::ScrollDown || m == KeyMapping::Up || m
        == KeyMapping::Down || m == KeyMapping::Left || m == KeyMapping::Right
}

/// A move past the first or last day the calendar holds.
#[derive(Debug, PartialEq, Eq)]
pub enum DateOutOfRange {
    OutOfRange,
}

/// A calendar to pick a date from.
pub struct DatePicker {
    pub title: String,
    pub selected: CalendarDate,
}

impl DatePicker {
    /// A calendar on `today`.
    pub fn new(title: String, today: CalendarDate) -> (res: DatePicker)
        ensures
            res.title == title,
            res.selected == today,
    {
        DatePicker { title, selected: today }
    }

    /// The calendar on the date that the fallback value gives, if it
    /// reads as one.
    pub fn with_fallback(self, fallback: Option<String>) -> (res: DatePicker)
        ensures
            res.title == self.title,
            optional_ymd(Some(res.selected)) == match fallback {
                Some(f) => match date_parse(f@) {
                    Some(p) => Some(p),
                    None => Some(ymd(self.selected)),
                },
                None => Some(ymd(self.selected)),
            },
    {
        let selected = match fallback {
            Some(f) => match parse_date(f.as_str()) {
                Some(d) => d,
                None => self.selected,
            },
            None => self.selected,
        };
        DatePicker { selected, ..self }
    }

    /// Reacts to a key: moves the selected date, accepts it as text, or
    /// aborts. A move must stay in the calendar's range.
    pub fn handle_prompt(&mut self, event: &Event) -> (res: Option<PromptIntent>)
        requires
            moves(event_meaning(*event)) ==> moved(old(self).selected, event_meaning(*event)) is Some,
        ensures
            final(self).title == old(self).title,
            moves(event_meaning(*event)) ==> Some(ymd(final(self).selected)) == moved(
                old(self).selected,
                event_meaning(*event),
            ) && res is None,
            !moves(event_meaning(*event)) ==> final(self).selected == old(self).selected,
            event_meaning(*event) == KeyMapping::Accept ==> (res matches Some(PromptIntent::Accept(t))
                && t@ == date_text(ymd(old(self).selected))),
            event_meaning(*event) == KeyMapping::Abort ==> res == Some(PromptIntent::Abort),
            !moves(event_meaning(*event)) && event_meaning(*event) != KeyMapping::Accept
                && event_meaning(*event) != KeyMapping::Abort ==> res is None,
    {
        let next = match mapkey(event) {
            KeyMapping::ScrollUp => sub_months(self.selected, 1),
            KeyMapping::ScrollDown => add_months(self.selected, 1),
            KeyMapping::Up => sub_days(self.selected, 7),
            KeyMapping::Down => add_days(self.selected, 7),
            KeyMapping::Left => sub_days(self.selected, 1),
            KeyMapping::Right => add_days(self.selected, 1),
            KeyMapping::Accept => {
                return Some(PromptIntent::Accept(format_date(self.selected)));
            },
            KeyMapping::Abort => {
                return Some(PromptIntent::Abort);
            },
            _ => {
                return None;
            },
        };
        self.selected = next.unwrap();
        None
    }

    /// Whether the calendar can take the key: a move stays in its range.
    pub fn can_take(&self, event: &Event) -> (res: bool)
        ensures
            res == (moves(event_meaning(*event)) ==> moved(self.selected, event_meaning(*event)) is Some),
    {
        match mapkey(event) {
            KeyMapping::ScrollUp => sub_months(self.selected, 1).is_some(),
            KeyMapping::ScrollDown => add_months(self.selected, 1).is_some(),
            KeyMapping::Up => sub_days(self.selected, 7).is_some(),
            KeyMapping::Down => add_days(self.selected, 7).is_some(),
            KeyMapping::Left => sub_days(self.selected, 1).is_some(),
            KeyMapping::Right => add_days(self.selected, 1).is_some(),
            _ => true,
        }
    }

    /// Reacts to a key as `handle_prompt` does, but refuses a move out of
    /// the calendar's range, leaving the date as it is.
    pub fn try_handle_prompt(&mut self, event: &Event) -> (res: Result<
        Option<PromptIntent>,
        DateOutOfRange,
    >)
        ensures
            final(self).title == old(self).title,
            moves(event_meaning(*event)) && moved(old(self).selected, event_meaning(*event)) is None
                ==> res == Err::<Option<PromptIntent>, DateOutOfRange>(DateOutOfRange::OutOfRange)
                && final(self).selected == old(self).selected,
            moves(event_meaning(*event)) && moved(old(self).selected, event_meaning(*event)) is Some
                ==> Some(ymd(final(self).selected)) == moved(
                old(self).selected,
                event_meaning(*event),
            ) && res == Ok::<Option<PromptIntent>, DateOutOfRange>(None),
            !moves(event_meaning(*event)) ==> final(self).selected == old(self).selected,
            event_meaning(*event) == KeyMapping::Accept ==> (res matches Ok(
                Some(PromptIntent::Accept(t)),
            ) && t@ == date_text(ymd(old(self).selected))),
            event_meaning(*event) == KeyMapping::Abort ==> res == Ok::<
                Option<PromptIntent>,
                DateOutOfRange,
            >(Some(PromptIntent::Abort)),
            !moves(event_meaning(*event)) && event_meaning(*event) != KeyMapping::Accept
                && event_meaning(*event) != KeyMapping::Abort ==> res == Ok::<
                Option<PromptIntent>,
                DateOutOfRange,
            >(None),
    {
        if !self.can_take(event) {
            return Err(DateOutOfRange::OutOfRange);
        }
        Ok(self.handle_prompt(event))
    }
}

/// How a day of the month grid is drawn: the selected date, today, a day
/// of the months around, or a day of the month.
#[derive(Debug, PartialEq, Eq, Clone, Copy)]
pub enum DayStyle {
    Selected,
    Today,
    OtherMonth,
    Plain,
}

/// A day of the month grid.
pub struct GridDay {
    pub date: CalendarDate,
    pub style: DayStyle,
}

/// The first date comes before the second.
pub open spec fn date_before(a: (i32, u32, u32), b: (i32, u32, u32)) -> bool {
    a.0 < b.0 || (a.0 == b.0 && (a.1 < b.1 || (a.1 == b.1 && a.2 < b.2)))
}

fn is_before(a: CalendarDate, b: CalendarDate) -> (res: bool)
    ensures
        res == date_before(ymd(a), ymd(b)),
{
    a.year < b.year || (a.year == b.year && (a.month < b.month || (a.month == b.month && a.day
        < b.day)))
}

/// How a day is drawn when `selected` is picked on `today`.
pub open spec fn day_style(d: (i32, u32, u32), selected: (i32, u32, u32), today: (i32, u32, u32)) -> DayStyle {
    if d == selected {
        DayStyle::Selected
    } else if d == today {
        DayStyle::Today
    } else if d.1 != selected.1 {
        DayStyle::OtherMonth
    } else {
        DayStyle::Plain
    }
}

/// The first day of the month grid of `selected` (the Monday of the week of
/// the first of its month) and the first of the next month.
pub open spec fn grid_bounds(selected: (i32, u32, u32)) -> Option<((i32, u32, u32), (i32, u32, u32))> {
    let first = (selected.0, selected.1, 1u32);
    match weekday_from_monday(first) {
        Some(w) => match (days_subtracted(first, w as u64), months_added(first, 1)) {
            (Some(start), Some(end)) => Some((start, end)),
            _ => None,
        },
        None => None,
    }
}

/// Week `k` of the grid from `start` begins before `end`.
pub open spec fn week_shown(start: (i32, u32, u32), end: (i32, u32, u32), k: int) -> bool {
    days_added(start, (7 * k) as u64) matches Some(w) && date_before(w, end)
}

/// `row` is week `k` of the grid from `start`: its days in order, as long
/// as the calendar goes on, each drawn by `day_style`.
pub open spec fn grid_week(
    row: Seq<GridDay>,
    start: (i32, u32, u32),
    k: int,
    selected: (i32, u32, u32),
    today: (i32, u32, u32),
) -> bool {
    &&& row.len() <= 7
    &&& forall|j: int|
        0 <= j < row.len() ==> days_added(start, (7 * k + j) as u64) == Some(ymd(#[trigger] row[j].date))
            && row[j].style == day_style(ymd(row[j].date), selected, today)
    &&& row.len() < 7 ==> days_added(start, (7 * k + row.len()) as u64) is None
}

impl DatePicker {
    /// The calendar of the selected date's month: rows of seven days,
    /// Monday first, from the week of the first of the month through the
    /// last week that begins before the next month (a month spans at most
    /// six weeks). `None` where the month's first day, its Monday or the
    /// next month is out of the calendar's range.
    pub fn month_grid(&self, today: CalendarDate) -> (res: Option<Vec<Vec<GridDay>>>)
        ensures
            match grid_bounds(ymd(self.selected)) {
                None => res is None,
                Some((start, end)) => res matches Some(rows) && rows@.len() <= 6 && (forall|k: int|
                    0 <= k < rows@.len() ==> week_shown(start, end, k) && grid_week(
                        #[trigger] rows@[k]@,
                        start,
                        k,
                        ymd(self.selected),
                        ymd(today),
                    )) && (rows@.len() < 6 ==> !week_shown(start, end, rows@.len() as int)),
            },
    {
        let first = CalendarDate { year: self.selected.year, month: self.selected.month, day: 1 };
        let w = match days_from_monday(first) {
            Some(w) => w,
            None => return None,
        };
        let start = match sub_days(first, w as u64) {
            Some(s) => s,
            None => return None,
        };
        let end = match add_months(first, 1) {
            Some(e) => e,
            None => return None,
        };
        let ghost sv = ymd(start);
        let ghost ev = ymd(end);
        let mut rows: Vec<Vec<GridDay>> = Vec::new();
        let mut k: u64 = 0;
        while k < 6
            invariant
                k <= 6,
                rows@.len() == k,
                grid_bounds(ymd(self.selected)) == Some((sv, ev)),
                sv == ymd(start),
                ev == ymd(end),
                forall|kk: int| 0 <= kk < rows@.len() ==> #[trigger] week_shown(sv, ev, kk),
                forall|kk: int|
                    0 <= kk < rows@.len() ==> grid_week(
                        #[trigger] rows@[kk]@,
                        sv,
                        kk,
                        ymd(self.selected),
                        ymd(today),
                    ),
            decreases 6 - k,
        {
            let shown = match add_days(start, 7 * k) {
                Some(d) => is_before(d, end),
                None => false,
            };
            assert(shown == week_shown(sv, ev, k as int));
            if !shown {
                return Some(rows);
            }
            let mut row: Vec<GridDay> = Vec::new();
            let mut j: u64 = 0;
            let mut ended = false;
            while j < 7 && !ended
                invariant
                    j <= 7,
                    k < 6,
                    rows@.len() == k,
                    grid_bounds(ymd(self.selected)) == Some((sv, ev)),
                    ev == ymd(end),
                    week_shown(sv, ev, k as int),
                    forall|kk: int| 0 <= kk < rows@.len() ==> #[trigger] week_shown(sv, ev, kk),
                    forall|kk: int|
                        0 <= kk < rows@.len() ==> grid_week(
                            #[trigger] rows@[kk]@,
                            sv,
                            kk,
                            ymd(self.selected),
                            ymd(today),
                        ),
                    row@.len() == j,
                    sv == ymd(start),
                    ended ==> days_added(sv, (7 * k + j) as u64) is None,
                    forall|jj: int|
                        0 <= jj < j ==> days_added(sv, (7 * k + jj) as u64) == Some(
                            ymd(#[trigger] row@[jj].date),
                        ) && row@[jj].style == day_style(
                            ymd(row@[jj].date),
                            ymd(self.selected),
                            ymd(today),
                        ),
                decreases 8 - j - (if ended { 1int } else { 0int }),
            {
                match add_days(start, 7 * k + j) {
                    Some(d) => {
                        let style = if is_same_day(d, self.selected) {
                            DayStyle::Selected
                        } else if is_same_day(d, today) {
                            DayStyle::Today
                        } else if d.month != self.selected.month {
                            DayStyle::OtherMonth
                        } else {
                            DayStyle::Plain
                        };
                        row.push(GridDay { date: d, style });
                        j = j + 1;
                    },
                    None => {
                        ended = true;
                    },
                }
            }
            assert(grid_week(row@, sv, k as int, ymd(self.selected), ymd(today)));
            let ghost before = rows@;
            let ghost rv = row@;
            rows.push(row);
            proof {
                assert(rows@[k as int]@ == rv);
                assert(week_shown(sv, ev, k as int));
                assert forall|kk: int| 0 <= kk < rows@.len() implies #[trigger] week_shown(sv, ev, kk) by {
                    if kk < k {
                        assert(before[kk] == rows@[kk]);
                    }
                }
                assert forall|kk: int| 0 <= kk < rows@.len() implies grid_week(
                    #[trigger] rows@[kk]@,
                    sv,
                    kk,
                    ymd(self.selected),
                    ymd(today),
                ) by {
                    if kk < k {
                        assert(rows@[kk] == before[kk]);
                    }
                }
            }
            k = k + 1;
        }
        Some(rows)
    }
}

fn is_same_day(a: CalendarDate, b: CalendarDate) -> (res: bool)
    ensures
        res == (ymd(a) == ymd(b)),
{
    a.year == b.year && a.month == b.month && a.day == b.day
}

} // verus!
