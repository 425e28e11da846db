//! Calendar dates for the grid model.
//!
//! A date is identified by its day number in the proleptic Gregorian
//! calendar, counting the first day of year 1 as day 0.  Day numbers make
//! the grid's date arithmetic (consecutive days, week starts, epoch
//! timestamps) plain integer arithmetic; the year/month/day form is
//! recovered on demand.
use vstd::prelude::*;

verus! {

use vstd::arithmetic::div_mod::{
    lemma_fundamental_div_mod,
    lemma_fundamental_div_mod_converse,
    lemma_mod_mod,
};
use vstd::string::StringExecFns;

/// Day number of 1970-01-01.
pub const EPOCH_DAY: u64 = 719162;

/// Day number of 9999-12-31, the last supported day.
pub const MAX_DAY: u64 = 3652058;

/// Seconds in one day.
pub const DAY_SECONDS: u64 = 86400;

pub open spec fn is_leap_year(y: int) -> bool {
    (y % 4 == 0 && y % 100 != 0) || y % 400 == 0
}

pub open spec fn days_in_year(y: int) -> int {
    if is_leap_year(y) {
        366
    } else {
        365
    }
}

pub open spec fn days_in_month(y: int, m: int) -> int {
    if m == 2 {
        if is_leap_year(y) {
            29
        } else {
            28
        }
    } else if m == 4 || m == 6 || m == 9 || m == 11 {
        30
    } else {
        31
    }
}

/// Days of year `y` that precede the first day of month `m`.
pub open spec fn days_before_month(y: int, m: int) -> int {
    let leap: int = if is_leap_year(y) {
        1
    } else {
        0
    };
    if m == 1 {
        0
    } else if m == 2 {
        31
    } else if m == 3 {
        59 + leap
    } else if m == 4 {
        90 + leap
    } else if m == 5 {
        120 + leap
    } else if m == 6 {
        151 + leap
    } else if m == 7 {
        181 + leap
    } else if m == 8 {
        212 + leap
    } else if m == 9 {
        243 + leap
    } else if m == 10 {
        273 + leap
    } else if m == 11 {
        304 + leap
    } else {
        334 + leap
    }
}

/// Days that precede the first day of year `y`, counting from year 1.
pub open spec fn days_before_year(y: int) -> int {
    (y - 1) * 365 + (y - 1) / 4 - (y - 1) / 100 + (y - 1) / 400
}

pub open spec fn valid_ymd(y: int, m: int, d: int) -> bool {
    &&& 1 <= y <= 9999
    &&& 1 <= m <= 12
    &&& 1 <= d <= days_in_month(y, m)
}

/// Day number of the calendar day `y`-`m`-`d`.
pub open spec fn day_num_of(y: int, m: int, d: int) -> int {
    days_before_year(y) + days_before_month(y, m) + (d - 1)
}

/// Seconds since 1970-01-01T00:00:00Z at midnight of the given day number.
pub open spec fn midnight_epoch_seconds(day: int) -> int {
    (day - EPOCH_DAY) * (DAY_SECONDS as int)
}

/// Dividing by a positive constant loses one exactly at the multiples.
proof fn lemma_div_step(n: int, d: int)
    requires
        n >= 1,
        d >= 1,
    ensures
        n / d == (n - 1) / d + if n % d == 0 {
            1int
        } else {
            0int
        },
{
    let q: int = n / d;
    let r: int = n % d;
    lemma_fundamental_div_mod(n, d);
    if r == 0 {
        assert(n - 1 == (q - 1) * d + (d - 1)) by (nonlinear_arith)
            requires
                n == d * q + r,
                r == 0,
        ;
        lemma_fundamental_div_mod_converse(n - 1, d, q - 1, d - 1);
    } else {
        assert(n - 1 == q * d + (r - 1)) by (nonlinear_arith)
            requires
                n == d * q + r,
        ;
        lemma_fundamental_div_mod_converse(n - 1, d, q, r - 1);
    }
}

/// One year advances the year prefix sum by exactly that year's length.
pub proof fn lemma_days_before_year_step(y: int)
    requires
        y >= 1,
    ensures
        days_before_year(y + 1) == days_before_year(y) + days_in_year(y),
{
    lemma_div_step(y, 4);
    lemma_div_step(y, 100);
    lemma_div_step(y, 400);
    lemma_mod_mod(y, 100, 4);
    lemma_mod_mod(y, 4, 25);
}

/// The year prefix sum grows by at least 365 per year.
pub proof fn lemma_days_before_year_monotone(a: int, b: int)
    requires
        1 <= a <= b,
    ensures
        days_before_year(b) - days_before_year(a) >= 365 * (b - a),
    decreases b - a,
{
    if a < b {
        lemma_days_before_year_monotone(a, b - 1);
        lemma_days_before_year_step(b - 1);
    }
}

/// Every day of a valid calendar date falls inside its year.
pub proof fn lemma_ymd_in_year(y: int, m: int, d: int)
    requires
        valid_ymd(y, m, d),
    ensures
        0 <= days_before_month(y, m) + (d - 1) < days_in_year(y),
{
}

/// Valid calendar dates have day numbers within the supported range.
pub proof fn lemma_day_num_bounds(y: int, m: int, d: int)
    requires
        valid_ymd(y, m, d),
    ensures
        0 <= day_num_of(y, m, d) <= MAX_DAY,
{
    lemma_ymd_in_year(y, m, d);
    lemma_days_before_year_step(y);
    lemma_days_before_year_monotone(1, y);
    if y + 1 <= 10000 {
        lemma_days_before_year_monotone(y + 1, 10000);
    }
    assert(days_before_year(1) == 0);
    assert(days_before_year(10000) == MAX_DAY + 1);
}

/// The digit character for a value below ten.
pub open spec fn digit_char(d: nat) -> char {
    if d == 0 {
        '0'
    } else if d == 1 {
        '1'
    } else if d == 2 {
        '2'
    } else if d == 3 {
        '3'
    } else if d == 4 {
        '4'
    } else if d == 5 {
        '5'
    } else if d == 6 {
        '6'
    } else if d == 7 {
        '7'
    } else if d == 8 {
        '8'
    } else {
        '9'
    }
}

/// The decimal digits of `n`, most significant first.
pub open spec fn dec_chars(n: nat) -> Seq<char>
    decreases n,
{
    if n < 10 {
        seq![digit_char(n)]
    } else {
        dec_chars(n / 10).push(digit_char(n % 10))
    }
}

/// The canonical text of a calendar day: year, month and day in decimal,
/// without padding, separated by dashes.
pub open spec fn date_text_spec(y: nat, m: nat, d: nat) -> Seq<char> {
    dec_chars(y) + seq!['-'] + dec_chars(m) + seq!['-'] + dec_chars(d)
}

/// The canonical text of the day with the given day number: the unique
/// valid calendar date carrying that number, written out.
pub open spec fn text_of_day(day: int) -> Seq<char> {
    let t = choose|t: (nat, nat, nat)|
        valid_ymd(t.0 as int, t.1 as int, t.2 as int) && day_num_of(
            t.0 as int,
            t.1 as int,
            t.2 as int,
        ) == day;
    date_text_spec(t.0, t.1, t.2)
}

/// In one year, a month holds exactly the days between its offset and the
/// next month's offset.
proof fn lemma_month_partition(y: int, m: int)
    requires
        1 <= m <= 11,
    ensures
        days_before_month(y, m) + days_in_month(y, m) == days_before_month(y, m + 1),
{
}

/// No two valid calendar dates share a day number.
pub proof fn lemma_day_num_injective(
    y1: int,
    m1: int,
    d1: int,
    y2: int,
    m2: int,
    d2: int,
)
    requires
        valid_ymd(y1, m1, d1),
        valid_ymd(y2, m2, d2),
        day_num_of(y1, m1, d1) == day_num_of(y2, m2, d2),
    ensures
        y1 == y2,
        m1 == m2,
        d1 == d2,
{
    if y1 != y2 {
        let lo: int = if y1 < y2 {
            y1
        } else {
            y2
        };
        let hi: int = if y1 < y2 {
            y2
        } else {
            y1
        };
        lemma_ymd_in_year(y1, m1, d1);
        lemma_ymd_in_year(y2, m2, d2);
        lemma_days_before_year_step(lo);
        lemma_days_before_year_monotone(lo + 1, hi);
        assert(false);
    }
    if m1 != m2 {
        let lo: int = if m1 < m2 {
            m1
        } else {
            m2
        };
        let hi: int = if m1 < m2 {
            m2
        } else {
            m1
        };
        lemma_month_partition(y1, lo);
        assert(days_before_month(y1, lo + 1) <= days_before_month(y1, hi));
        assert(false);
    }
}

/// Two dates with the same day number are the same date.
pub proof fn lemma_date_view_injective(a: Date, b: Date)
    requires
        a@ == b@,
    ensures
        a == b,
{
}

/// One calendar day.  Ordering and equality of dates are those of the
/// underlying day numbers.
#[derive(Clone, Copy, Debug, PartialEq, Eq, Structural)]
pub struct Date {
    day: u64,
}

impl View for Date {
    type V = int;

    closed spec fn view(&self) -> int {
        self.day as int
    }
}

#[verifier::type_invariant]
spec fn date_inv(d: Date) -> bool {
    d.day <= MAX_DAY
}

impl Date {
    /// The date with the given day number, when it is in range.
    pub fn from_day_number(day: u64) -> (r: Option<Date>)
        ensures
            r is Some <==> day <= MAX_DAY,
            r is Some ==> r.unwrap()@ == day,
    {
        if day <= MAX_DAY {
            Some(Date { day })
        } else {
            None
        }
    }

    /// The date of the calendar day `y`-`m`-`d`, when that is a real day.
    pub fn from_ymd(y: u64, m: u64, d: u64) -> (r: Option<Date>)
        ensures
            r is Some <==> valid_ymd(y as int, m as int, d as int),
            r is Some ==> r.unwrap()@ == day_num_of(y as int, m as int, d as int),
    {
        if 1 <= y && y <= 9999 && 1 <= m && m <= 12 && 1 <= d && d <= days_in_month_x(y, m) {
            proof {
                lemma_day_num_bounds(y as int, m as int, d as int);
            }
            let yy: u64 = y - 1;
            let base: u64 = yy * 365 + yy / 4 + days_before_month_x(y, m) + (d - 1);
            assert(yy / 100 <= yy && yy / 400 <= yy) by {
                vstd::arithmetic::div_mod::lemma_div_nonincreasing(yy as int, 100);
                vstd::arithmetic::div_mod::lemma_div_nonincreasing(yy as int, 400);
            }
            let day: u64 = base - yy / 100 + yy / 400;
            Some(Date { day })
        } else {
            None
        }
    }

    /// The day number identifying this date.
    pub fn day_number(&self) -> (d: u64)
        ensures
            d == self@,
            d <= MAX_DAY,
    {
        proof {
            use_type_invariant(self);
        }
        self.day
    }

    /// The date `n` days later, when it stays in range.
    pub fn add_days(&self, n: u64) -> (r: Option<Date>)
        ensures
            r is Some <==> self@ + n <= MAX_DAY,
            r is Some ==> r.unwrap()@ == self@ + n,
    {
        proof {
            use_type_invariant(self);
        }
        if n <= MAX_DAY - self.day {
            Some(Date { day: self.day + n })
        } else {
            None
        }
    }

    /// Days since the week's Monday: 0 for Monday up to 6 for Sunday.
    pub fn weekday_offset(&self) -> (w: u64)
        ensures
            w == self@ % 7,
    {
        proof {
            use_type_invariant(self);
        }
        self.day % 7
    }

    /// The Monday of this date's week: the date itself when it is a Monday.
    pub fn monday_on_or_before(&self) -> (r: Date)
        ensures
            r@ == self@ - self@ % 7,
            r@ % 7 == 0,
            r@ <= self@,
    {
        proof {
            use_type_invariant(self);
            lemma_fundamental_div_mod(self.day as int, 7);
            lemma_fundamental_div_mod_converse(self@ - self@ % 7, 7, self@ / 7, 0);
        }
        Date { day: self.day - self.day % 7 }
    }

    /// Seconds since the platform epoch at this date's midnight, UTC.
    pub fn epoch_seconds(&self) -> (s: i64)
        ensures
            s == midnight_epoch_seconds(self@),
    {
        proof {
            use_type_invariant(self);
        }
        (self.day as i64 - EPOCH_DAY as i64) * DAY_SECONDS as i64
    }

    /// This date as calendar year, month and day.
    pub fn ymd(&self) -> (r: (u64, u64, u64))
        ensures
            valid_ymd(r.0 as int, r.1 as int, r.2 as int),
            day_num_of(r.0 as int, r.1 as int, r.2 as int) == self@,
    {
        proof {
            use_type_invariant(self);
        }
        let mut y: u64 = 1;
        let mut rem: u64 = self.day;
        while rem >= days_in_year_x(y)
            invariant
                1 <= y <= 9999,
                days_before_year(y as int) + rem == self@,
                self@ <= MAX_DAY,
            decreases rem,
        {
            proof {
                if y == 9999 {
                    assert(days_before_year(9999int) == 3651694);
                    assert(false);
                }
                lemma_days_before_year_step(y as int);
            }
            rem = rem - days_in_year_x(y);
            y = y + 1;
        }
        let mut m: u64 = 1;
        while rem >= days_in_month_x(y, m) && m < 12
            invariant
                1 <= y <= 9999,
                1 <= m <= 12,
                days_before_month(y as int, m as int) + rem == self@ - days_before_year(y as int),
                rem < days_in_year(y as int),
            decreases 12 - m,
        {
            rem = rem - days_in_month_x(y, m);
            m = m + 1;
        }
        (y, m, rem + 1)
    }

    /// The canonical text of this date: year, month and day in decimal,
    /// without padding, separated by dashes.
    pub fn to_text(&self) -> (s: String)
        ensures
            s@ == text_of_day(self@),
    {
        let (y, m, d): (u64, u64, u64) = self.ymd();
        let mut s: String = String::new();
        push_dec_chars(&mut s, y);
        s.append("-");
        push_dec_chars(&mut s, m);
        s.append("-");
        push_dec_chars(&mut s, d);
        proof {
            reveal_strlit("-");
            assert("-"@ =~= seq!['-']);
            assert(s@ =~= date_text_spec(y as nat, m as nat, d as nat));
            let w: (nat, nat, nat) = (y as nat, m as nat, d as nat);
            assert(valid_ymd(w.0 as int, w.1 as int, w.2 as int) && day_num_of(
                w.0 as int,
                w.1 as int,
                w.2 as int,
            ) == self@);
            let t = choose|t: (nat, nat, nat)|
                valid_ymd(t.0 as int, t.1 as int, t.2 as int) && day_num_of(
                    t.0 as int,
                    t.1 as int,
                    t.2 as int,
                ) == self@;
            lemma_day_num_injective(
                t.0 as int,
                t.1 as int,
                t.2 as int,
                w.0 as int,
                w.1 as int,
                w.2 as int,
            );
        }
        s
    }
}

/// The one-character text of a decimal digit.
fn digit_str(d: u64) -> (r: &'static str)
    requires
        d < 10,
    ensures
        r@ == seq![digit_char(d as nat)],
{
    proof {
        reveal_strlit("0");
        reveal_strlit("1");
        reveal_strlit("2");
        reveal_strlit("3");
        reveal_strlit("4");
        reveal_strlit("5");
        reveal_strlit("6");
        reveal_strlit("7");
        reveal_strlit("8");
        reveal_strlit("9");
        assert("0"@ =~= seq!['0']);
        assert("1"@ =~= seq!['1']);
        assert("2"@ =~= seq!['2']);
        assert("3"@ =~= seq!['3']);
        assert("4"@ =~= seq!['4']);
        assert("5"@ =~= seq!['5']);
        assert("6"@ =~= seq!['6']);
        assert("7"@ =~= seq!['7']);
        assert("8"@ =~= seq!['8']);
        assert("9"@ =~= seq!['9']);
    }
    match d {
        0 => "0",
        1 => "1",
        2 => "2",
        3 => "3",
        4 => "4",
        5 => "5",
        6 => "6",
        7 => "7",
        8 => "8",
        _ => "9",
    }
}

/// Append the decimal digits of `n`.
pub(crate) fn push_dec_chars(s: &mut String, n: u64)
    ensures
        final(s)@ == old(s)@ + dec_chars(n as nat),
    decreases n,
{
    if n < 10 {
        s.append(digit_str(n));
        proof {
            assert(s@ =~= old(s)@ + dec_chars(n as nat));
        }
    } else {
        push_dec_chars(s, n / 10);
        s.append(digit_str(n % 10));
        proof {
            assert(s@ =~= old(s)@ + dec_chars(n as nat));
        }
    }
}

impl Default for Date {
    /// Day 0, the first supported date.
    fn default() -> (r: Date)
        ensures
            r@ == 0,
    {
        Date { day: 0 }
    }
}

/// Whether year `y` is a leap year.
pub fn is_leap_year_x(y: u64) -> (r: bool)
    ensures
        r == is_leap_year(y as int),
{
    (y % 4 == 0 && y % 100 != 0) || y % 400 == 0
}

/// The length of year `y` in days.
pub fn days_in_year_x(y: u64) -> (r: u64)
    ensures
        r == days_in_year(y as int),
{
    if is_leap_year_x(y) {
        366
    } else {
        365
    }
}

/// The length of month `m` of year `y` in days.
pub fn days_in_month_x(y: u64, m: u64) -> (r: u64)
    ensures
        r == days_in_month(y as int, m as int),
{
    if m == 2 {
        if is_leap_year_x(y) {
            29
        } else {
            28
        }
    } else if m == 4 || m == 6 || m == 9 || m == 11 {
        30
    } else {
        31
    }
}

/// Days of year `y` that precede the first day of month `m`.
pub fn days_before_month_x(y: u64, m: u64) -> (r: u64)
    requires
        1 <= m <= 12,
    ensures
        r == days_before_month(y as int, m as int),
{
    let leap: u64 = if is_leap_year_x(y) {
        1
    } else {
        0
    };
    if m == 1 {
        0
    } else if m == 2 {
        31
    } else if m == 3 {
        59 + leap
    } else if m == 4 {
        90 + leap
    } else if m == 5 {
        120 + leap
    } else if m == 6 {
        151 + leap
    } else if m == 7 {
        181 + leap
    } else if m == 8 {
        212 + leap
    } else if m == 9 {
        243 + leap
    } else if m == 10 {
        273 + leap
    } else if m == 11 {
        304 + leap
    } else {
        334 + leap
    }
}

} // verus!
