//! The order of the `YYYY-MM-DD` texts of S3 modification times.

use vstd::prelude::*;
use crate::s3::list::{civil_month, civil_year, days_before_year, days_in_month, days_in_year,
    is_leap_year, law_epoch_date_is_calendar_date, lemma_civil_year, spec_epoch_to_date, trunc_div};
use crate::text::{chars_le, chars_lt, dec, dec_int_zero_pad, digit_char, lemma_chars_le_concat,
    lemma_chars_le_refl, lemma_digit_lt, repeat_char};

verus! {

proof fn lemma_civil_year_mono(y0: int, d1: int, d2: int)
    requires
        y0 >= 1970,
        0 <= d1 <= d2,
    ensures
        civil_year(y0, d1).0 < civil_year(y0, d2).0 || (civil_year(y0, d1).0 == civil_year(y0, d2).0
            && civil_year(y0, d1).1 <= civil_year(y0, d2).1),
    decreases d2,
{
    if d2 >= days_in_year(y0) {
        if d1 >= days_in_year(y0) {
            lemma_civil_year_mono(y0 + 1, d1 - days_in_year(y0), d2 - days_in_year(y0));
        } else {
            lemma_civil_year(y0 + 1, d2 - days_in_year(y0));
        }
    }
}

proof fn lemma_civil_month_at_least(leap: bool, m0: int, d: int)
    ensures
        civil_month(leap, m0, d).0 >= m0,
    decreases 13 - m0,
{
    if !(m0 > 12 || d < days_in_month(leap, m0)) {
        lemma_civil_month_at_least(leap, m0 + 1, d - days_in_month(leap, m0));
    }
}

proof fn lemma_civil_month_mono(leap: bool, m0: int, d1: int, d2: int)
    requires
        d1 <= d2,
    ensures
        civil_month(leap, m0, d1).0 < civil_month(leap, m0, d2).0 || (civil_month(leap, m0, d1).0
            == civil_month(leap, m0, d2).0 && civil_month(leap, m0, d1).1 <= civil_month(
            leap,
            m0,
            d2,
        ).1),
    decreases 13 - m0,
{
    if !(m0 > 12 || d2 < days_in_month(leap, m0)) {
        if d1 >= days_in_month(leap, m0) {
            lemma_civil_month_mono(leap, m0 + 1, d1 - days_in_month(leap, m0), d2 - days_in_month(leap, m0));
        } else {
            lemma_civil_month_at_least(leap, m0 + 1, d2 - days_in_month(leap, m0));
        }
    }
}

proof fn lemma_days_before_year_lower(y: int)
    requires
        y >= 1970,
    ensures
        days_before_year(y) >= 365 * (y - 1970),
    decreases y - 1970,
{
    if y > 1970 {
        lemma_days_before_year_lower(y - 1);
    }
}

proof fn lemma_pad2(n: int)
    requires
        0 <= n < 100,
    ensures
        dec_int_zero_pad(n, 2) == seq![digit_char(n / 10)] + seq![digit_char(n % 10)],
{
    if n < 10 {
        assert(dec(n as nat) == seq![digit_char(n)]);
        assert(repeat_char('0', 1) =~= seq!['0']) by {
            assert(repeat_char('0', 0) =~= Seq::<char>::empty());
        }
        assert(digit_char(0) == '0');
    } else {
        assert(dec((n / 10) as nat) == seq![digit_char(n / 10)]);
        assert(dec(n as nat) == dec((n / 10) as nat).push(digit_char(n % 10)));
        assert(repeat_char('0', 0) =~= Seq::<char>::empty());
    }
    assert(dec_int_zero_pad(n, 2) =~= seq![digit_char(n / 10)] + seq![digit_char(n % 10)]);
}

proof fn lemma_pad4(n: int)
    requires
        1000 <= n < 10000,
    ensures
        dec_int_zero_pad(n, 4) == seq![digit_char(n / 1000)] + (seq![digit_char((n / 100) % 10)] + (
        seq![digit_char((n / 10) % 10)] + seq![digit_char(n % 10)])),
{
    assert(dec((n / 1000) as nat) == seq![digit_char(n / 1000)]);
    assert((n / 10) / 10 == n / 100);
    assert((n / 100) / 10 == n / 1000);
    assert(dec((n / 100) as nat) == dec((n / 1000) as nat).push(digit_char((n / 100) % 10)));
    assert(dec((n / 10) as nat) == dec((n / 100) as nat).push(digit_char((n / 10) % 10)));
    assert(dec(n as nat) == dec((n / 10) as nat).push(digit_char(n % 10)));
    assert(repeat_char('0', 0) =~= Seq::<char>::empty());
    assert(dec_int_zero_pad(n, 4) =~= seq![digit_char(n / 1000)] + (seq![digit_char((n / 100) % 10)] + (
    seq![digit_char((n / 10) % 10)] + seq![digit_char(n % 10)])));
}

proof fn lemma_digit_step(i: int, j: int, r1: Seq<char>, r2: Seq<char>)
    requires
        0 <= i <= j <= 9,
        i == j ==> chars_lt(r1, r2),
        r1.len() == r2.len(),
    ensures
        chars_lt(seq![digit_char(i)] + r1, seq![digit_char(j)] + r2),
{
    if i < j {
        lemma_digit_lt(i, j);
        lemma_chars_le_concat(seq![digit_char(i)], r1, seq![digit_char(j)], r2);
    } else {
        lemma_chars_le_concat(seq![digit_char(i)], r1, seq![digit_char(j)], r2);
        assert((seq![digit_char(i)] + r1).drop_first() =~= r1);
        assert((seq![digit_char(j)] + r2).drop_first() =~= r2);
    }
}

proof fn lemma_pad2_lt(a: int, b: int)
    requires
        0 <= a < b < 100,
    ensures
        chars_lt(dec_int_zero_pad(a, 2), dec_int_zero_pad(b, 2)),
        dec_int_zero_pad(a, 2).len() == 2,
        dec_int_zero_pad(b, 2).len() == 2,
{
    lemma_pad2(a);
    lemma_pad2(b);
    if a / 10 == b / 10 {
        lemma_digit_lt(a % 10, b % 10);
    }
    lemma_digit_step(a / 10, b / 10, seq![digit_char(a % 10)], seq![digit_char(b % 10)]);
}

proof fn lemma_pad4_split(n: int)
    requires
        1000 <= n < 10000,
    ensures
        dec_int_zero_pad(n, 4) == dec_int_zero_pad(n / 100, 2) + dec_int_zero_pad(n % 100, 2),
{
    lemma_pad4(n);
    lemma_pad2(n / 100);
    lemma_pad2(n % 100);
    assert((n / 100) / 10 == n / 1000) by (nonlinear_arith)
        requires
            1000 <= n < 10000,
    ;
    assert((n % 100) / 10 == (n / 10) % 10) by (nonlinear_arith)
        requires
            1000 <= n < 10000,
    ;
    assert((n % 100) % 10 == n % 10) by (nonlinear_arith)
        requires
            1000 <= n < 10000,
    ;
    assert(dec_int_zero_pad(n, 4) =~= dec_int_zero_pad(n / 100, 2) + dec_int_zero_pad(n % 100, 2));
}

proof fn lemma_pad4_lt(a: int, b: int)
    requires
        1000 <= a < b < 10000,
    ensures
        chars_lt(dec_int_zero_pad(a, 4), dec_int_zero_pad(b, 4)),
        dec_int_zero_pad(a, 4).len() == 4,
        dec_int_zero_pad(b, 4).len() == 4,
{
    lemma_pad4_split(a);
    lemma_pad4_split(b);
    lemma_pad2(a / 100);
    lemma_pad2(b / 100);
    lemma_pad2(a % 100);
    lemma_pad2(b % 100);
    let ha = dec_int_zero_pad(a / 100, 2);
    let hb = dec_int_zero_pad(b / 100, 2);
    let la = dec_int_zero_pad(a % 100, 2);
    let lb = dec_int_zero_pad(b % 100, 2);
    lemma_chars_le_concat(ha, la, hb, lb);
    if a / 100 < b / 100 {
        lemma_pad2_lt(a / 100, b / 100);
    } else {
        assert(a / 100 == b / 100);
        assert(a % 100 < b % 100);
        lemma_pad2_lt(a % 100, b % 100);
        assert((ha + la).drop_first().drop_first() =~= la);
        assert((hb + lb).drop_first().drop_first() =~= lb);
        assert(ha + la != hb + lb) by {
            assert((ha + la).skip(2) =~= la);
            assert((hb + lb).skip(2) =~= lb);
        }
    }
}

/// The `YYYY-MM-DD` text of year `y`, month `m` and day offset `dm`.
spec fn date_text(y: int, m: int, dm: int) -> Seq<char> {
    dec_int_zero_pad(y, 4) + ("-"@ + (dec_int_zero_pad(m, 2) + ("-"@ + dec_int_zero_pad(dm + 1, 2))))
}

proof fn lemma_date_text_order(y1: int, m1: int, dm1: int, y2: int, m2: int, dm2: int)
    requires
        1970 <= y1 <= 2100,
        1970 <= y2 <= 2100,
        1 <= m1 <= 12,
        1 <= m2 <= 12,
        0 <= dm1 <= 30,
        0 <= dm2 <= 30,
        y1 < y2 || (y1 == y2 && (m1 < m2 || (m1 == m2 && dm1 <= dm2))),
    ensures
        chars_le(date_text(y1, m1, dm1), date_text(y2, m2, dm2)),
{
    let dash = "-"@;
    let q1 = dash + dec_int_zero_pad(dm1 + 1, 2);
    let q2 = dash + dec_int_zero_pad(dm2 + 1, 2);
    let r1 = dec_int_zero_pad(m1, 2) + q1;
    let r2 = dec_int_zero_pad(m2, 2) + q2;
    let t1 = dash + r1;
    let t2 = dash + r2;
    lemma_pad4_split(y1);
    lemma_pad4_split(y2);
    lemma_pad2(y1 / 100);
    lemma_pad2(y1 % 100);
    lemma_pad2(y2 / 100);
    lemma_pad2(y2 % 100);
    lemma_chars_le_concat(dec_int_zero_pad(y1, 4), t1, dec_int_zero_pad(y2, 4), t2);
    if y1 < y2 {
        lemma_pad4_lt(y1, y2);
    } else {
        lemma_chars_le_concat(dash, r1, dash, r2);
        lemma_pad2(m1);
        lemma_pad2(m2);
        lemma_chars_le_concat(dec_int_zero_pad(m1, 2), q1, dec_int_zero_pad(m2, 2), q2);
        if m1 < m2 {
            lemma_pad2_lt(m1, m2);
        } else {
            lemma_chars_le_concat(dash, dec_int_zero_pad(dm1 + 1, 2), dash, dec_int_zero_pad(dm2 + 1, 2));
            if dm1 < dm2 {
                lemma_pad2_lt(dm1 + 1, dm2 + 1);
            } else {
                lemma_chars_le_refl(dec_int_zero_pad(dm1 + 1, 2));
            }
        }
    }
}

proof fn lemma_date_parts(d: int)
    requires
        0 <= d <= 47481,
    ensures
        ({
            let (y, dy) = civil_year(1970, d);
            let (m, dm) = civil_month(is_leap_year(y), 1, dy);
            &&& 1970 <= y <= 2100
            &&& 1 <= m <= 12
            &&& 0 <= dm <= 30
        }),
{
    law_epoch_date_is_calendar_date(d);
    lemma_civil_year(1970, d);
    let (y, dy) = civil_year(1970, d);
    lemma_days_before_year_lower(y);
    let (m, dm) = civil_month(is_leap_year(y), 1, dy);
    assert(days_in_month(is_leap_year(y), m) <= 31);
}

/// The date parts of a day count since 1970-01-01.
spec fn year_of(d: int) -> int {
    civil_year(1970, d).0
}

spec fn month_of(d: int) -> (int, int) {
    civil_month(is_leap_year(civil_year(1970, d).0), 1, civil_year(1970, d).1)
}

proof fn lemma_epoch_days(s: i64)
    requires
        0 <= s < 4102444800,
    ensures
        0 <= trunc_div(s as int, 86400) <= 47481,
        (trunc_div(s as int, 86400) as i32) as int == trunc_div(s as int, 86400),
{
}

proof fn lemma_epoch_text(s: i64)
    requires
        0 <= s < 4102444800,
    ensures
        spec_epoch_to_date(s) == date_text(
            year_of(trunc_div(s as int, 86400)),
            month_of(trunc_div(s as int, 86400)).0,
            month_of(trunc_div(s as int, 86400)).1,
        ),
{
    lemma_epoch_days(s);
    let d = trunc_div(s as int, 86400);
    assert(spec_epoch_to_date(s) =~= date_text(year_of(d), month_of(d).0, month_of(d).1));
}

/// Date-text order: within 1970-01-01 to 2099-12-31 (UTC), a later time never
/// gets an earlier `YYYY-MM-DD` text, so the texts sort as the times do.
pub proof fn law_epoch_date_order(s1: i64, s2: i64)
    requires
        0 <= s1 <= s2 < 4102444800,
    ensures
        chars_le(spec_epoch_to_date(s1), spec_epoch_to_date(s2)),
{
    lemma_epoch_days(s1);
    lemma_epoch_days(s2);
    let d1 = trunc_div(s1 as int, 86400);
    let d2 = trunc_div(s2 as int, 86400);
    assert(d1 <= d2) by (nonlinear_arith)
        requires
            d1 == (s1 as int) / 86400,
            d2 == (s2 as int) / 86400,
            0 <= s1 <= s2,
    ;
    lemma_date_parts(d1);
    lemma_date_parts(d2);
    lemma_civil_year_mono(1970, d1, d2);
    if year_of(d1) == year_of(d2) {
        lemma_civil_month_mono(is_leap_year(year_of(d1)), 1, civil_year(1970, d1).1, civil_year(1970, d2).1);
    }
    lemma_date_text_order(year_of(d1), month_of(d1).0, month_of(d1).1, year_of(d2), month_of(d2).0, month_of(d2).1);
    lemma_epoch_text(s1);
    lemma_epoch_text(s2);
}

} // verus!
