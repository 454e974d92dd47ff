//! Days and the dates of the calendar.
use vstd::prelude::*;

use crate::{decimal, sorting};
use crate::decimal::to_decimal;

verus! {

/// Whether a year has 366 days.
pub open spec fn is_leap(y: int) -> bool {
    y % 4 == 0 && (y % 100 != 0 || y % 400 == 0)
}

/// The days of the months before month `m` in a year that is not a leap year.
pub open spec fn days_before_month(m: int) -> int {
    if m == 1 {
        0
    } else if m == 2 {
        31
    } else if m == 3 {
        59
    } else if m == 4 {
        90
    } else if m == 5 {
        120
    } else if m == 6 {
        151
    } else if m == 7 {
        181
    } else if m == 8 {
        212
    } else if m == 9 {
        243
    } else if m == 10 {
        273
    } else if m == 11 {
        304
    } else {
        334
    }
}

/// The days of month `m` in year `y`.
pub open spec fn days_in_month(y: int, m: int) -> int {
    if m == 2 {
        if is_leap(y) {
            29
        } else {
            28
        }
    } else if m == 4 || m == 6 || m == 9 || m == 11 {
        30
    } else {
        31
    }
}

/// Whether there is such a date.
pub open spec fn is_date(y: int, m: int, d: int) -> bool {
    1 <= m <= 12 && 1 <= d <= days_in_month(y, m)
}

/// The days from the start of 1970 to the start of year `y`.
pub open spec fn days_before_year(y: int) -> int {
    365 * (y - 1) + (y - 1) / 4 - (y - 1) / 100 + (y - 1) / 400 - 719_162
}

/// The days from the start of 1970 to a date.
pub open spec fn days_of_date(y: int, m: int, d: int) -> int {
    days_before_year(y) + days_before_month(m) + (if m > 2 && is_leap(y) {
        1int
    } else {
        0int
    }) + d - 1
}

proof fn lemma_years_grow(y: int, z: int)
    requires
        y < z,
    ensures
        days_before_year(y) + 365 + (if is_leap(y) {
            1int
        } else {
            0int
        }) <= days_before_year(z),
    decreases z - y,
{
    if z == y + 1 {
        assert(y / 4 - (y - 1) / 4 == if y % 4 == 0 {
            1int
        } else {
            0int
        });
        assert(y / 100 - (y - 1) / 100 == if y % 100 == 0 {
            1int
        } else {
            0int
        });
        assert(y / 400 - (y - 1) / 400 == if y % 400 == 0 {
            1int
        } else {
            0int
        });
    } else {
        lemma_years_grow(y, z - 1);
        lemma_years_grow(z - 1, z);
    }
}

/// A day has one date only.
pub proof fn date_is_unique(y: int, m: int, d: int, y2: int, m2: int, d2: int)
    requires
        is_date(y, m, d),
        is_date(y2, m2, d2),
        days_of_date(y, m, d) == days_of_date(y2, m2, d2),
    ensures
        y == y2,
        m == m2,
        d == d2,
{
    if y < y2 {
        lemma_years_grow(y, y2);
    } else if y2 < y {
        lemma_years_grow(y2, y);
    }
}

/// The date of the day that many days after the start of 1970.
pub open spec fn date_of(days: int) -> (int, int, int) {
    choose|date: (int, int, int)|
        is_date(date.0, date.1, date.2) && #[trigger] days_of_date(date.0, date.1, date.2) == days
}

proof fn lemma_date_of(days: int, y: int, m: int, d: int)
    requires
        is_date(y, m, d),
        days_of_date(y, m, d) == days,
    ensures
        date_of(days) == (y, m, d),
{
    let date = (y, m, d);
    assert(is_date(date.0, date.1, date.2) && days_of_date(date.0, date.1, date.2) == days);
    let c = date_of(days);
    date_is_unique(y, m, d, c.0, c.1, c.2);
}

/// `n` in decimal notation, with zeros before it to make it `width` characters
/// long; a sign counts.
pub open spec fn padded(n: int, width: int) -> Seq<char> {
    if n < 0 {
        seq!['-'] + zeros(width - 1 - decimal::decimal((-n) as nat).len())
            + decimal::decimal((-n) as nat)
    } else {
        zeros(width - decimal::decimal(n as nat).len()) + decimal::decimal(n as nat)
    }
}

/// That many zeros.
pub open spec fn zeros(n: int) -> Seq<char> {
    Seq::new(
        if n < 0 {
            0
        } else {
            n as nat
        },
        |i: int| '0',
    )
}

fn push_zeros(out: &mut String, n: usize)
    ensures
        final(out)@ == old(out)@ + zeros(n as int),
{
    let mut i: usize = 0;
    let ghost before = out@;
    proof {
        assert(before + zeros(0) =~= before);
    }
    while i < n
        invariant
            i <= n,
            out@ == before + zeros(i as int),
        decreases n - i,
    {
        proof {
            assert(before + zeros(i + 1) =~= (before + zeros(i as int)).push('0'));
        }
        out.push('0');
        i += 1;
    }
}

/// `n` in decimal notation, filled up with zeros.
pub fn pad(n: i64, width: usize) -> (r: String)
    requires
        1 <= width,
    ensures
        r@ == padded(n as int, width as int),
{
    let mut out = String::new();
    if n < 0 {
        let digits = to_decimal((0 - (n as i128)) as u64);
        let len: usize = digits.as_str().unicode_len();
        out.push('-');
        if len < width - 1 {
            push_zeros(&mut out, width - 1 - len);
        }
        out.append(digits.as_str());
        proof {
            assert(out@ =~= padded(n as int, width as int));
        }
    } else {
        let digits = to_decimal(n as u64);
        let len: usize = digits.as_str().unicode_len();
        if len < width {
            push_zeros(&mut out, width - len);
        }
        out.append(digits.as_str());
        proof {
            assert(out@ =~= padded(n as int, width as int));
        }
    }
    out
}

/// A date as `year-month-day`.
pub open spec fn date_text(date: (int, int, int)) -> Seq<char> {
    padded(date.0, 4) + "-"@ + padded(date.1, 2) + "-"@ + padded(date.2, 2)
}

/// The year of the era, counted from March, that the day `doe` of the era of
/// four hundred years falls in, and the day in that year.
proof fn lemma_year_of_era(doe: int) -> (r: (int, int))
    requires
        0 <= doe < 146_097,
    ensures
        r.0 == (doe - doe / 1460 + doe / 36_524 - doe / 146_096) / 365,
        r.1 == doe - (365 * r.0 + r.0 / 4 - r.0 / 100),
        0 <= r.0 < 400,
        0 <= r.1 <= 365,
        r.1 == 365 ==> is_leap(r.0 + 1),
{
    let yoe = (doe - doe / 1460 + doe / 36_524 - doe / 146_096) / 365;
    let doy = doe - (365 * yoe + yoe / 4 - yoe / 100);
    (yoe, doy)
}

/// March 1 of the year number `yoe` in the era number `era`.
proof fn lemma_march_first(yoe: int, era: int)
    requires
        0 <= yoe < 400,
    ensures
        days_of_date(yoe + 400 * era, 3, 1) == 146_097 * era + 365 * yoe + yoe / 4 - yoe / 100
            - 719_468,
        is_leap(yoe + 400 * era) == is_leap(yoe),
        days_before_year(yoe + 400 * era + 1) == 146_097 * era + 365 * yoe + yoe / 4 - yoe / 100
            - 719_162,
{
    let y = yoe + 400 * era;
    assert((y - 1) / 4 == (yoe - 1) / 4 + 100 * era);
    assert((y - 1) / 100 == (yoe - 1) / 100 + 4 * era);
    assert((y - 1) / 400 == (yoe - 1) / 400 + era);
    assert(y / 4 == yoe / 4 + 100 * era);
    assert(y / 100 == yoe / 100 + 4 * era);
    assert(y / 400 == yoe / 400 + era);
    assert(y % 4 == yoe % 4);
    assert(y % 100 == yoe % 100);
    assert(y % 400 == yoe % 400);
    assert(yoe / 4 - (yoe - 1) / 4 == if yoe % 4 == 0 {
        1int
    } else {
        0int
    });
    assert(yoe / 100 - (yoe - 1) / 100 == if yoe % 100 == 0 {
        1int
    } else {
        0int
    });
    assert(yoe / 400 - (yoe - 1) / 400 == if yoe % 400 == 0 {
        1int
    } else {
        0int
    });
}

/// The date of the day number `doy` after March 1.
proof fn lemma_day_of_march_year(yoe: int, era: int, doy: int)
    requires
        0 <= yoe < 400,
        0 <= doy <= 365,
        doy == 365 ==> is_leap(yoe + 1),
    ensures
        ({
            let mp = (5 * doy + 2) / 153;
            let d = doy - (153 * mp + 2) / 5 + 1;
            let m = if mp < 10 {
                mp + 3
            } else {
                mp - 9
            };
            let y = yoe + 400 * era + if m <= 2 {
                1int
            } else {
                0int
            };
            &&& 0 <= mp <= 11
            &&& is_date(y, m, d)
            &&& days_of_date(y, m, d) == days_of_date(yoe + 400 * era, 3, 1) + doy
        }),
{
    lemma_march_first(yoe, era);
    let y1 = yoe + 400 * era + 1;
    assert(y1 % 4 == (yoe + 1) % 4);
    assert(y1 % 100 == (yoe + 1) % 100);
    assert(y1 % 400 == (yoe + 1) % 400);
    assert(is_leap(y1) == is_leap(yoe + 1));
}

/// The date of the day that many days after the start of 1970.
pub fn civil_from_days(days_since_unix_epoch: i64) -> (r: String)
    requires
        days_since_unix_epoch <= i64::MAX - 719_468,
    ensures
        r@ == date_text(date_of(days_since_unix_epoch as int)),
{
    let z: i64 = days_since_unix_epoch + 719_468;
    let era: i64 = if z >= 0 {
        z / 146_097
    } else {
        let up: i128 = 146_096 - z as i128;
        0 - ((up / 146_097) as i64)
    };
    let doe: i64 = (z as i128 - era as i128 * 146_097) as i64;
    proof {
        assert(0 <= doe < 146_097);
        let _ = lemma_year_of_era(doe as int);
    }
    let yoe: i64 = (doe - doe / 1460 + doe / 36_524 - doe / 146_096) / 365;
    let doy: i64 = doe - (365 * yoe + yoe / 4 - yoe / 100);
    let mp: i64 = (5 * doy + 2) / 153;
    let day: i64 = doy - (153 * mp + 2) / 5 + 1;
    let month: i64 = if mp < 10 {
        mp + 3
    } else {
        mp - 9
    };
    let year: i64 = yoe + era * 400 + if month <= 2 {
        1
    } else {
        0
    };
    proof {
        lemma_march_first(yoe as int, era as int);
        lemma_day_of_march_year(yoe as int, era as int, doy as int);
        lemma_date_of(days_since_unix_epoch as int, year as int, month as int, day as int);
    }
    let mut out = pad(year, 4);
    out.append("-");
    out.append(pad(month, 2).as_str());
    out.append("-");
    out.append(pad(day, 2).as_str());
    out
}

/// The date of a second, counted from the start of 1970.
pub fn tencentcloud_date(timestamp: i64) -> (r: String)
    ensures
        r@ == date_text(date_of(timestamp as int / 86_400)),
{
    let days: i64 = if timestamp >= 0 {
        timestamp / 86_400
    } else {
        let up: i128 = 86_399 - timestamp as i128;
        0 - ((up / 86_400) as i64)
    };
    proof {
        assert(days == timestamp as int / 86_400);
    }
    civil_from_days(days)
}

/// Every day has a date.
proof fn lemma_date_exists(days: int)
    ensures
        ({
            let date = date_of(days);
            is_date(date.0, date.1, date.2) && days_of_date(date.0, date.1, date.2) == days
        }),
{
    let z = days + 719_468;
    let era = z / 146_097;
    let doe = z % 146_097;
    assert(z == 146_097 * era + doe);
    let r = lemma_year_of_era(doe);
    lemma_march_first(r.0, era);
    lemma_day_of_march_year(r.0, era, r.1);
    let mp = (5 * r.1 + 2) / 153;
    let d = r.1 - (153 * mp + 2) / 5 + 1;
    let m = if mp < 10 {
        mp + 3
    } else {
        mp - 9
    };
    let y = r.0 + 400 * era + if m <= 2 {
        1int
    } else {
        0int
    };
    lemma_date_of(days, y, m, d);
}

/// Whether a date comes before another one.
pub open spec fn date_before(a: (int, int, int), b: (int, int, int)) -> bool {
    a.0 < b.0 || a.0 == b.0 && (a.1 < b.1 || a.1 == b.1 && a.2 < b.2)
}

/// Later dates are later days.
proof fn lemma_dates_grow(a: (int, int, int), b: (int, int, int))
    requires
        is_date(a.0, a.1, a.2),
        is_date(b.0, b.1, b.2),
        date_before(a, b),
    ensures
        days_of_date(a.0, a.1, a.2) < days_of_date(b.0, b.1, b.2),
{
    if a.0 < b.0 {
        lemma_years_grow(a.0, b.0);
    }
}

/// The days of the years 0 to 9999.
pub open spec fn in_four_digits(days: int) -> bool {
    -719_528 <= days <= 2_932_896
}

/// The characters of a date of the years 0 to 9999.
pub open spec fn date_chars(date: (int, int, int)) -> Seq<char> {
    seq![
        decimal::digit((date.0 / 1000) as nat),
        decimal::digit((date.0 / 100 % 10) as nat),
        decimal::digit((date.0 / 10 % 10) as nat),
        decimal::digit((date.0 % 10) as nat),
        '-',
        decimal::digit((date.1 / 10) as nat),
        decimal::digit((date.1 % 10) as nat),
        '-',
        decimal::digit((date.2 / 10) as nat),
        decimal::digit((date.2 % 10) as nat),
    ]
}

proof fn lemma_padded_two(n: int)
    requires
        0 <= n < 100,
    ensures
        padded(n, 2) == seq![
            decimal::digit((n / 10) as nat),
            decimal::digit((n % 10) as nat),
        ],
{
    reveal_with_fuel(decimal::decimal, 2);
    assert(padded(n, 2) =~= seq![
        decimal::digit((n / 10) as nat),
        decimal::digit((n % 10) as nat),
    ]);
}

proof fn lemma_padded_four(n: int)
    requires
        0 <= n < 10_000,
    ensures
        padded(n, 4) == seq![
            decimal::digit((n / 1000) as nat),
            decimal::digit((n / 100 % 10) as nat),
            decimal::digit((n / 10 % 10) as nat),
            decimal::digit((n % 10) as nat),
        ],
{
    reveal_with_fuel(decimal::decimal, 4);
    assert(n / 10 / 10 == n / 100);
    assert(n / 100 / 10 == n / 1000);
    assert(padded(n, 4) =~= seq![
        decimal::digit((n / 1000) as nat),
        decimal::digit((n / 100 % 10) as nat),
        decimal::digit((n / 10 % 10) as nat),
        decimal::digit((n % 10) as nat),
    ]);
}

proof fn lemma_date_text(date: (int, int, int))
    requires
        is_date(date.0, date.1, date.2),
        0 <= date.0 <= 9999,
    ensures
        date_text(date) == date_chars(date),
{
    reveal_strlit("-");
    lemma_padded_four(date.0);
    lemma_padded_two(date.1);
    lemma_padded_two(date.2);
    assert(date_text(date) =~= date_chars(date));
}

/// Over the years 0 to 9999 the date of a day is one of the calendar, and is written
/// in ten characters: four digits, two and two, with hyphens between them.
pub proof fn dates_are_written_out(days: int)
    requires
        in_four_digits(days),
    ensures
        is_date(date_of(days).0, date_of(days).1, date_of(days).2),
        days_of_date(date_of(days).0, date_of(days).1, date_of(days).2) == days,
        0 <= date_of(days).0 <= 9999,
        date_text(date_of(days)) == date_chars(date_of(days)),
        date_text(date_of(days)).len() == 10,
{
    lemma_date_exists(days);
    let date = date_of(days);
    if date.0 < 0 {
        lemma_dates_grow(date, (0, 1, 1));
    } else if date.0 > 9999 {
        lemma_dates_grow((9999, 12, 31), date);
    }
    lemma_date_text(date);
}

/// The first difference decides which text comes first.
proof fn lemma_first_difference(a: Seq<char>, b: Seq<char>, k: int)
    requires
        0 <= k < a.len(),
        k < b.len(),
        forall|i: int| 0 <= i < k ==> a[i] == b[i],
        a[k] < b[k],
    ensures
        sorting::text_le(a, b),
        !sorting::text_le(b, a),
    decreases k,
{
    if k > 0 {
        let x = a.drop_first();
        let y = b.drop_first();
        assert forall|i: int| 0 <= i < k - 1 implies x[i] == y[i] by {
            assert(a[i + 1] == b[i + 1]);
        }
        lemma_first_difference(x, y, k - 1);
    }
}

proof fn lemma_digits_grow(m: int, n: int)
    requires
        0 <= m < n <= 9,
    ensures
        decimal::digit(m as nat) < decimal::digit(n as nat),
{
}

/// Where two years of four digits first differ.
proof fn lemma_years_differ(x: int, y: int) -> (k: int)
    requires
        0 <= x < y <= 9999,
    ensures
        0 <= k <= 3,
        k > 0 ==> x / 1000 == y / 1000,
        k > 1 ==> x / 100 % 10 == y / 100 % 10,
        k > 2 ==> x / 10 % 10 == y / 10 % 10,
        k == 0 ==> x / 1000 < y / 1000,
        k == 1 ==> x / 100 % 10 < y / 100 % 10,
        k == 2 ==> x / 10 % 10 < y / 10 % 10,
        k == 3 ==> x % 10 < y % 10,
{
    if x / 1000 < y / 1000 {
        0
    } else if x / 100 < y / 100 {
        1
    } else if x / 10 < y / 10 {
        2
    } else {
        3
    }
}

/// A date that comes before another one is written before it.
#[verifier::spinoff_prover]
proof fn lemma_texts_in_order(x: (int, int, int), y: (int, int, int))
    requires
        is_date(x.0, x.1, x.2),
        is_date(y.0, y.1, y.2),
        0 <= x.0 <= 9999,
        0 <= y.0 <= 9999,
        date_before(x, y),
    ensures
        sorting::text_le(date_chars(x), date_chars(y)),
        !sorting::text_le(date_chars(y), date_chars(x)),
{
    let s = date_chars(x);
    let t = date_chars(y);
    if x.0 < y.0 {
        let k = lemma_years_differ(x.0, y.0);
        if k == 0 {
            lemma_digits_grow(x.0 / 1000, y.0 / 1000);
        } else if k == 1 {
            lemma_digits_grow(x.0 / 100 % 10, y.0 / 100 % 10);
        } else if k == 2 {
            lemma_digits_grow(x.0 / 10 % 10, y.0 / 10 % 10);
        } else {
            lemma_digits_grow(x.0 % 10, y.0 % 10);
        }
        lemma_first_difference(s, t, k);
    } else if x.1 < y.1 {
        if x.1 / 10 < y.1 / 10 {
            lemma_digits_grow(x.1 / 10, y.1 / 10);
            lemma_first_difference(s, t, 5);
        } else {
            lemma_digits_grow(x.1 % 10, y.1 % 10);
            lemma_first_difference(s, t, 6);
        }
    } else {
        if x.2 / 10 < y.2 / 10 {
            lemma_digits_grow(x.2 / 10, y.2 / 10);
            lemma_first_difference(s, t, 8);
        } else {
            lemma_digits_grow(x.2 % 10, y.2 % 10);
            lemma_first_difference(s, t, 9);
        }
    }
}

/// Over the years 0 to 9999 the dates of days stand in the order of the days, also as
/// texts.
pub proof fn dates_are_in_order(a: int, b: int)
    requires
        in_four_digits(a),
        in_four_digits(b),
        a < b,
    ensures
        date_before(date_of(a), date_of(b)),
        sorting::text_le(date_text(date_of(a)), date_text(date_of(b))),
        !sorting::text_le(date_text(date_of(b)), date_text(date_of(a))),
{
    dates_are_written_out(a);
    dates_are_written_out(b);
    let x = date_of(a);
    let y = date_of(b);
    if date_before(y, x) {
        lemma_dates_grow(y, x);
    }
    assert(x != y);
    assert(date_before(x, y));
    lemma_texts_in_order(x, y);
}

/// The date after a date.
pub open spec fn next_date(date: (int, int, int)) -> (int, int, int) {
    if date.2 < days_in_month(date.0, date.1) {
        (date.0, date.1, date.2 + 1)
    } else if date.1 < 12 {
        (date.0, date.1 + 1, 1)
    } else {
        (date.0 + 1, 1, 1)
    }
}

/// The day after a day has the date after its date.
pub proof fn days_follow_each_other(days: int)
    ensures
        date_of(days + 1) == next_date(date_of(days)),
{
    lemma_date_exists(days);
    let date = date_of(days);
    let next = next_date(date);
    let y = date.0;
    assert(y / 4 - (y - 1) / 4 == if y % 4 == 0 {
        1int
    } else {
        0int
    });
    assert(y / 100 - (y - 1) / 100 == if y % 100 == 0 {
        1int
    } else {
        0int
    });
    assert(y / 400 - (y - 1) / 400 == if y % 400 == 0 {
        1int
    } else {
        0int
    });
    lemma_date_of(days + 1, next.0, next.1, next.2);
}

} // verus!
