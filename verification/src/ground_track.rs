//! The epoch of a ground track: the two-digit year and the day of the year
//! that a TLE epoch such as `80275.98708465` holds, and the Julian day on
//! which that year begins.
use vstd::prelude::*;
use crate::text::is_digit;
use vstd::arithmetic::div_mod::{lemma_fundamental_div_mod, lemma_fundamental_div_mod_converse_div, lemma_fundamental_div_mod_converse_mod, lemma_mod_multiples_vanish};
use crate::numeric::{i32_text, is_float_literal, parse_i32, is_float_text, digits_value, strip_plus};

verus! {

/// Converts satellite positions to points over the earth for the epoch it holds.
pub struct GroundTrack {
    pub epoch_year_julian_fraction: String,
}

/// The year of an epoch, the Julian day number of its day 0, and the text of
/// the (fractional) day of the year.
pub struct EpochParts {
    pub year: i32,
    pub julian_day_number_jan_0: i64,
    pub day_of_year: String,
}

/// Two-digit TLE years: 57 to 99 stand for 1957 to 1999, smaller ones for
/// the years from 2000 on.
pub open spec fn full_year(two_digits: int) -> int {
    if two_digits < 57 {
        two_digits + 2000
    } else {
        two_digits + 1900
    }
}

/// The Julian day number (days counted from noon) of day 0 of `year`, that
/// is of 31 December of the year before, in the Gregorian calendar; the
/// formula of Meeus with month 13 of year `year - 1` and day 0:
/// floor(365.25 (y + 4716)) + floor(30.6001 × 14) + B − 1524 with
/// y = year − 1, A = floor(y / 100) and B = 2 − A + floor(A / 4).
/// The Julian date of midnight starting that day is this number − 0.5.
pub open spec fn julian_day_number_jan_0_of(year: int) -> int {
    let y = year - 1;
    let a = y / 100;
    let b = 2 - a + a / 4;
    (1461 * (y + 4716)) / 4 + 428 + b - 1524
}

/// The parts of an epoch text: its first two characters as the year, the
/// rest as the day of the year.  `None` where the first two characters do
/// not parse as `i32` or the rest does not parse as `f64`.
pub open spec fn epoch_text(s: Seq<char>) -> Option<(int, int, Seq<char>)> {
    if s.len() >= 2 && i32_text(s.take(2)) is Some && is_float_literal(s.skip(2)) {
        let year = full_year(i32_text(s.take(2)).unwrap() as int);
        Some((year, julian_day_number_jan_0_of(year), s.skip(2)))
    } else {
        None
    }
}

/// A two-character integer lies between -9 and 99.
proof fn lemma_two_char_year_range(s: Seq<char>)
    requires
        s.len() == 2,
        i32_text(s) is Some,
    ensures
        -9 <= i32_text(s).unwrap() <= 99,
{
    reveal_with_fuel(digits_value, 3);
    if s[0] == '-' {
        let d = s.drop_first();
        assert(is_digit(d[0]));
        assert(d.drop_last().len() == 0);
    } else {
        let d = strip_plus(s);
        assert(is_digit(d[0]));
        assert(is_digit(d.last()));
        if d.len() == 2 {
            assert(d.drop_last().drop_last().len() == 0);
            assert(d.drop_last().last() == d[0]);
        } else {
            assert(d.drop_last().len() == 0);
        }
    }
}

/// `a / b` rounded down, the division of the calendar formula.
fn floor_div(a: i64, b: i64) -> (q: i64)
    requires
        b > 0,
    ensures
        q == a / b,
{
    if a >= 0 {
        a / b
    } else {
        let c = -(a + 1);
        let m = c / b;
        let r = c % b;
        proof {
            vstd::arithmetic::div_mod::lemma_fundamental_div_mod(c as int, b as int);
            assert(a == (-m - 1) * b + (b - r - 1)) by (nonlinear_arith)
                requires
                    c == b * m + r,
                    c == -(a + 1),
            ;
            vstd::arithmetic::div_mod::lemma_fundamental_div_mod_converse_div(
                a as int,
                b as int,
                -m - 1,
                b - r - 1,
            );
        }
        -m - 1
    }
}

/// The Julian day number of day 0 of `year`, for any year.
pub fn julian_day_number_jan_0(year: i32) -> (r: i64)
    ensures
        r == julian_day_number_jan_0_of(year as int),
{
    let y = year as i64 - 1;
    let a = floor_div(y, 100);
    let b = 2 - a + floor_div(a, 4);
    floor_div(1461 * (y + 4716), 4) + 428 + b - 1524
}

impl GroundTrack {
    pub fn new(epoch_year_julian_fraction: String) -> (g: Self)
        ensures
            g.epoch_year_julian_fraction == epoch_year_julian_fraction,
    {
        GroundTrack { epoch_year_julian_fraction }
    }

    /// The year, its Julian day number of day 0 and the day of the year
    /// that the epoch holds.
    pub fn epoch_parts(&self) -> (r: Option<EpochParts>)
        ensures
            match r {
                Some(p) => epoch_text(self.epoch_year_julian_fraction@) == Some(
                    (p.year as int, p.julian_day_number_jan_0 as int, p.day_of_year@),
                ),
                None => epoch_text(self.epoch_year_julian_fraction@) is None,
            },
    {
        let s = self.epoch_year_julian_fraction.as_str();
        let n = s.unicode_len();
        if n < 2 {
            return None;
        }
        let year_str = s.substring_char(0, 2);
        let day_str = s.substring_char(2, n);
        assert(year_str@ =~= s@.take(2));
        assert(day_str@ =~= s@.skip(2));
        let two_digits = match parse_i32(year_str) {
            Some(v) => v,
            None => {
                return None;
            },
        };
        if !is_float_text(day_str) {
            return None;
        }
        proof {
            lemma_two_char_year_range(s@.take(2));
        }
        let year = if two_digits < 57 {
            two_digits + 2000
        } else {
            two_digits + 1900
        };
        Some(
            EpochParts {
                year,
                julian_day_number_jan_0: julian_day_number_jan_0(year),
                day_of_year: day_str.to_owned(),
            },
        )
    }
}

/// Every epoch year lies between 1957 and 2056: two-digit years cover one
/// century from the launch of the first satellite.
pub proof fn lemma_epoch_year_range(s: Seq<char>)
    requires
        epoch_text(s) is Some,
    ensures
        1957 <= epoch_text(s).unwrap().0 <= 2056,
{
    lemma_two_char_year_range(s.take(2));
}

/// The Gregorian calendar's leap years.
pub open spec fn is_leap_year(y: int) -> bool {
    (y % 4 == 0 && y % 100 != 0) || y % 400 == 0
}

/// Rounding down `k / d` steps up by one exactly where `k + 1` is a multiple of `d`.
proof fn lemma_floor_step(k: int, d: int)
    requires
        d > 0,
    ensures
        (k + 1) / d - k / d == (if (k + 1) % d == 0 { 1int } else { 0int }),
{
    let q = k / d;
    let r = k % d;
    lemma_fundamental_div_mod(k, d);
    if r == d - 1 {
        assert(k + 1 == (q + 1) * d + 0) by (nonlinear_arith)
            requires
                k == d * q + r,
                r == d - 1,
        ;
        lemma_fundamental_div_mod_converse_div(k + 1, d, q + 1, 0);
        lemma_fundamental_div_mod_converse_mod(k + 1, d, q + 1, 0);
    } else {
        assert(k + 1 == q * d + (r + 1)) by (nonlinear_arith)
            requires
                k == d * q + r,
        ;
        lemma_fundamental_div_mod_converse_div(k + 1, d, q, r + 1);
        lemma_fundamental_div_mod_converse_mod(k + 1, d, q, r + 1);
    }
}

/// floor(365.25 k) written with integers.
proof fn lemma_quarter_of_1461(k: int)
    ensures
        (1461 * k) / 4 == 365 * k + k / 4,
{
    let q = k / 4;
    let r = k % 4;
    lemma_fundamental_div_mod(k, 4);
    assert(1461 * k == (365 * k + q) * 4 + r) by (nonlinear_arith)
        requires
            k == 4 * q + r,
    ;
    lemma_fundamental_div_mod_converse_div(1461 * k, 4, 365 * k + q, r);
}

/// Day 0 of one year and day 0 of the next lie a year apart: 366 days
/// after a leap year, 365 after any other.
pub proof fn lemma_year_length(y: int)
    ensures
        julian_day_number_jan_0_of(y + 1) - julian_day_number_jan_0_of(y) == (if is_leap_year(y) {
            366int
        } else {
            365int
        }),
{
    let k = y + 4715;
    lemma_quarter_of_1461(k);
    lemma_quarter_of_1461(k + 1);
    lemma_floor_step(k, 4);
    lemma_floor_step(y - 1, 100);
    let a = (y - 1) / 100;
    lemma_floor_step(a, 4);
    lemma_mod_multiples_vanish(1179, y, 4);
    assert(4 * 1179 + y == k + 1);
    let a2 = y / 100;
    lemma_fundamental_div_mod(y, 100);
    if y % 100 == 0 {
        assert(a2 == a + 1);
        let q4 = a2 / 4;
        let r4 = a2 % 4;
        lemma_fundamental_div_mod(a2, 4);
        assert(y == q4 * 400 + 100 * r4) by (nonlinear_arith)
            requires
                y == 100 * a2 + 0,
                a2 == 4 * q4 + r4,
        ;
        lemma_fundamental_div_mod_converse_mod(y, 400, q4, 100 * r4);
        assert(y == (25 * a2) * 4 + 0) by (nonlinear_arith)
            requires
                y == 100 * a2 + 0,
        ;
        lemma_fundamental_div_mod_converse_mod(y, 4, 25 * a2, 0);
    } else {
        assert(a2 == a);
        if y % 400 == 0 {
            let q = y / 400;
            lemma_fundamental_div_mod(y, 400);
            assert(y == (4 * q) * 100 + 0) by (nonlinear_arith)
                requires
                    y == 400 * q + 0,
            ;
            lemma_fundamental_div_mod_converse_mod(y, 100, 4 * q, 0);
        }
    }
}

/// Day 0 of 2000 is Friday, 31 December 1999, Julian day number 2451544;
/// with `lemma_year_length` this fixes the day 0 of every year.
pub proof fn lemma_julian_day_anchor()
    ensures
        julian_day_number_jan_0_of(2000) == 2451544,
{
}

/// An epoch's year ends in the epoch's first two digits and lies between
/// 1957 and 2056, and the day number is that of day 0 of that very year.
pub proof fn lemma_epoch_parts_consistent(s: Seq<char>)
    requires
        epoch_text(s) is Some,
    ensures
        ({
            let (year, jdn, day) = epoch_text(s).unwrap();
            &&& 1957 <= year <= 2056
            &&& year % 100 == (i32_text(s.take(2)).unwrap() as int) % 100
            &&& jdn == julian_day_number_jan_0_of(year)
            &&& day == s.skip(2)
        }),
{
    lemma_two_char_year_range(s.take(2));
    let v = i32_text(s.take(2)).unwrap() as int;
    let year = epoch_text(s).unwrap().0;
    if v < 57 {
        lemma_mod_multiples_vanish(20, v, 100);
        assert(100 * 20 + v == year);
    } else {
        lemma_mod_multiples_vanish(19, v, 100);
        assert(100 * 19 + v == year);
    }
}

} // verus!
