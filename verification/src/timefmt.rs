use vstd::prelude::*;

use crate::text::{digit_char, digit_str};
use vstd::arithmetic::div_mod::{
    lemma_fundamental_div_mod, lemma_div_is_ordered, lemma_div_pos_is_pos,
    lemma_mod_division_less_than_divisor, lemma_multiply_divide_lt, lemma_mod_mod,
};

verus! {

/// Seconds from 1970-01-01 00:00:00 to 10000-01-01 00:00:00: the first
/// epoch second whose year no longer fits in four digits, and the upper
/// bound of the range the formatter accepts.
pub const MAX_EPOCH_SECONDS: u64 = 253402300800;

/// A year with an intercalated day.
pub open spec fn spec_is_leap_year(y: int) -> bool {
    y % 4 == 0 && (y % 100 != 0 || y % 400 == 0)
}

pub open spec fn spec_days_in_year(y: int) -> int {
    if spec_is_leap_year(y) {
        366
    } else {
        365
    }
}

/// Days in month `m` (1 to 12) of year `y`.
pub open spec fn spec_days_in_month(y: int, m: int) -> int {
    if m == 2 {
        if spec_is_leap_year(y) {
            29
        } else {
            28
        }
    } else if m == 4 || m == 6 || m == 9 || m == 11 {
        30
    } else {
        31
    }
}

/// Days from 1970-01-01 to the first day of year `y`.
pub open spec fn days_before_year(y: int) -> int
    decreases y - 1970,
{
    if y <= 1970 {
        0
    } else {
        days_before_year(y - 1) + spec_days_in_year(y - 1)
    }
}

/// Days from the first day of year `y` to the first day of its month `m`.
pub open spec fn days_before_month(y: int, m: int) -> int
    decreases m,
{
    if m <= 1 {
        0
    } else {
        days_before_month(y, m - 1) + spec_days_in_month(y, m - 1)
    }
}

/// Starting at year `y` with `d` whole days left, the year the last day
/// falls in and the remaining day count within that year.
pub open spec fn spec_split_year(y: int, d: int) -> (int, int)
    decreases d,
{
    if 0 <= d && d >= spec_days_in_year(y) {
        spec_split_year(y + 1, d - spec_days_in_year(y))
    } else {
        (y, d)
    }
}

/// Starting at month `m` of year `y` with `d` whole days left, the month
/// the last day falls in and the remaining day count within that month.
pub open spec fn spec_split_month(y: int, m: int, d: int) -> (int, int)
    decreases d,
{
    if 0 <= d && d >= spec_days_in_month(y, m) {
        spec_split_month(y, m + 1, d - spec_days_in_month(y, m))
    } else {
        (m, d)
    }
}

/// Two decimal digits, zero padded.
pub open spec fn pad2(n: int) -> Seq<char> {
    seq![digit_char(n / 10), digit_char(n % 10)]
}

/// Four decimal digits, zero padded.
pub open spec fn pad4(n: int) -> Seq<char> {
    pad2(n / 100) + pad2(n % 100)
}

/// The fixed-width `YYYY-MM-DD HH:MM:SS` shape over its six fields.
pub open spec fn spec_render(y: int, m: int, d: int, h: int, mi: int, s: int) -> Seq<char> {
    pad4(y) + seq!['-'] + pad2(m) + seq!['-'] + pad2(d) + seq![' '] + pad2(h) + seq![':'] + pad2(
        mi,
    ) + seq![':'] + pad2(s)
}

/// The canonical `YYYY-MM-DD HH:MM:SS` rendering, in UTC, of an epoch
/// second count.
pub open spec fn spec_timestamp_string(t: int) -> Seq<char> {
    let days = t / 86400;
    let secs = t % 86400;
    let yr = spec_split_year(1970, days);
    let md = spec_split_month(yr.0, 1, yr.1);
    spec_render(yr.0, md.0, md.1 + 1, secs / 3600, (secs % 3600) / 60, secs % 60)
}

/// Leap years strictly before year `y` (proleptic Gregorian rule).
pub open spec fn leaps_before(y: int) -> int {
    (y - 1) / 4 - (y - 1) / 100 + (y - 1) / 400
}

/// Closed form for `days_before_year`, giving the day count without
/// unwinding one year at a time.
pub proof fn lemma_days_before_year_closed(y: int)
    requires
        y >= 1970,
    ensures
        days_before_year(y) == 365 * (y - 1970) + leaps_before(y) - leaps_before(1970),
    decreases y - 1970,
{
    if y == 1970 {
    } else {
        lemma_days_before_year_closed(y - 1);
        let x = y - 1;
        assert(x / 4 - (x - 1) / 4 == if x % 4 == 0 { 1int } else { 0int }) by (nonlinear_arith);
        assert(x / 100 - (x - 1) / 100 == if x % 100 == 0 { 1int } else { 0int })
            by (nonlinear_arith);
        assert(x / 400 - (x - 1) / 400 == if x % 400 == 0 { 1int } else { 0int })
            by (nonlinear_arith);
    }
}

/// `days_before_year` does not decrease as the year grows.
pub proof fn lemma_days_before_year_mono(y1: int, y2: int)
    requires
        y1 <= y2,
    ensures
        days_before_year(y1) <= days_before_year(y2),
    decreases y2 - y1,
{
    if y1 < y2 {
        lemma_days_before_year_mono(y1, y2 - 1);
    }
}

/// Day count to the first four-digit-overflowing year.
pub proof fn lemma_days_before_year_10000()
    ensures
        days_before_year(10000) == 2932897,
{
    lemma_days_before_year_closed(10000);
    assert(leaps_before(10000) == 9999int / 4 - 9999int / 100 + 9999int / 400);
    assert(leaps_before(1970) == 1969int / 4 - 1969int / 100 + 1969int / 400);
    assert(9999int / 4 == 2499) by (nonlinear_arith);
    assert(9999int / 100 == 99) by (nonlinear_arith);
    assert(9999int / 400 == 24) by (nonlinear_arith);
    assert(1969int / 4 == 492) by (nonlinear_arith);
    assert(1969int / 100 == 19) by (nonlinear_arith);
    assert(1969int / 400 == 4) by (nonlinear_arith);
}

/// The twelve months of year `y` together hold exactly its days.
pub proof fn lemma_months_cover_year(y: int)
    ensures
        days_before_month(y, 13) == spec_days_in_year(y),
{
    assert(days_before_month(y, 1) == 0);
    assert(days_before_month(y, 2) == days_before_month(y, 1) + spec_days_in_month(y, 1));
    assert(days_before_month(y, 3) == days_before_month(y, 2) + spec_days_in_month(y, 2));
    assert(days_before_month(y, 4) == days_before_month(y, 3) + spec_days_in_month(y, 3));
    assert(days_before_month(y, 5) == days_before_month(y, 4) + spec_days_in_month(y, 4));
    assert(days_before_month(y, 6) == days_before_month(y, 5) + spec_days_in_month(y, 5));
    assert(days_before_month(y, 7) == days_before_month(y, 6) + spec_days_in_month(y, 6));
    assert(days_before_month(y, 8) == days_before_month(y, 7) + spec_days_in_month(y, 7));
    assert(days_before_month(y, 9) == days_before_month(y, 8) + spec_days_in_month(y, 8));
    assert(days_before_month(y, 10) == days_before_month(y, 9) + spec_days_in_month(y, 9));
    assert(days_before_month(y, 11) == days_before_month(y, 10) + spec_days_in_month(y, 10));
    assert(days_before_month(y, 12) == days_before_month(y, 11) + spec_days_in_month(y, 11));
    assert(days_before_month(y, 13) == days_before_month(y, 12) + spec_days_in_month(y, 12));
}

/// Days in year `y`, matching `spec_days_in_year`.
pub fn days_in_year(y: u64) -> (r: u64)
    requires
        y <= 10000,
    ensures
        r as int == spec_days_in_year(y as int),
        r == 365 || r == 366,
{
    if y % 4 == 0 && (y % 100 != 0 || y % 400 == 0) {
        366
    } else {
        365
    }
}

/// Days in month `m` of year `y`, matching `spec_days_in_month`.
pub fn days_in_month(y: u64, m: u64) -> (r: u64)
    requires
        y <= 10000,
        1 <= m <= 12,
    ensures
        r as int == spec_days_in_month(y as int, m as int),
        28 <= r <= 31,
{
    if m == 2 {
        if y % 4 == 0 && (y % 100 != 0 || y % 400 == 0) {
            29
        } else {
            28
        }
    } else if m == 4 || m == 6 || m == 9 || m == 11 {
        30
    } else {
        31
    }
}

/// Two zero-padded decimal digits.
pub fn pad2_string(v: u64) -> (r: String)
    requires
        v < 100,
    ensures
        r@ == pad2(v as int),
{
    let mut r = digit_str(v / 10).to_owned();
    r.append(digit_str(v % 10));
    proof {
        assert(r@ =~= pad2(v as int));
    }
    r
}

/// Four zero-padded decimal digits.
pub fn pad4_string(v: u64) -> (r: String)
    requires
        v < 10000,
    ensures
        r@ == pad4(v as int),
{
    let mut r = pad2_string(v / 100);
    let low = pad2_string(v % 100);
    r.append(low.as_str());
    proof {
        assert(r@ =~= pad4(v as int));
    }
    r
}

/// Join the six calendar fields in the fixed `YYYY-MM-DD HH:MM:SS` shape.
pub fn render_fields(y: u64, m: u64, d: u64, h: u64, mi: u64, s: u64) -> (r: String)
    requires
        y < 10000,
        m < 100,
        d < 100,
        h < 100,
        mi < 100,
        s < 100,
    ensures
        r@ == spec_render(y as int, m as int, d as int, h as int, mi as int, s as int),
{
    proof {
        reveal_strlit("-");
        reveal_strlit(" ");
        reveal_strlit(":");
        assert(("-")@ =~= seq!['-']);
        assert((" ")@ =~= seq![' ']);
        assert((":")@ =~= seq![':']);
    }
    let mut out = pad4_string(y);
    let part_month = pad2_string(m);
    let part_day = pad2_string(d);
    let part_hour = pad2_string(h);
    let part_minute = pad2_string(mi);
    let part_second = pad2_string(s);
    out.append("-");
    out.append(part_month.as_str());
    out.append("-");
    out.append(part_day.as_str());
    out.append(" ");
    out.append(part_hour.as_str());
    out.append(":");
    out.append(part_minute.as_str());
    out.append(":");
    out.append(part_second.as_str());
    out
}

/// Resolve a day count from 1970-01-01 into the year it falls in and the
/// day index within that year.
pub fn split_epoch_days(days: u64) -> (r: (u64, u64))
    requires
        days < 2932897,
    ensures
        (r.0 as int, r.1 as int) == spec_split_year(1970, days as int),
        1970 <= r.0 <= 9999,
        (r.1 as int) < spec_days_in_year(r.0 as int),
{
    proof {
        lemma_days_before_year_10000();
    }
    let ghost spec_yr = spec_split_year(1970, days as int);
    let mut y: u64 = 1970;
    let mut rem: u64 = days;
    while rem >= days_in_year(y)
        invariant
            1970 <= y <= 10000,
            rem <= days < 2932897,
            days_before_year(10000) == 2932897,
            days_before_year(y as int) + rem as int == days as int,
            spec_yr == spec_split_year(1970, days as int),
            spec_yr == spec_split_year(y as int, rem as int),
        decreases rem,
    {
        let diy = days_in_year(y);
        proof {
            if y == 10000 {
                assert(days_before_year(10000) + rem >= 2932897 + 365);
                assert(false);
            }
        }
        rem = rem - diy;
        y = y + 1;
    }
    proof {
        if y == 10000 {
            assert(days as int >= days_before_year(10000));
            assert(false);
        }
        assert(spec_split_year(y as int, rem as int) == (y as int, rem as int));
    }
    (y, rem)
}

/// Resolve a day index within year `y` into the month it falls in and the
/// day index within that month.
pub fn split_year_days(y: u64, doy: u64) -> (r: (u64, u64))
    requires
        1970 <= y <= 9999,
        (doy as int) < spec_days_in_year(y as int),
    ensures
        (r.0 as int, r.1 as int) == spec_split_month(y as int, 1, doy as int),
        1 <= r.0 <= 12,
        r.1 < 31,
{
    let ghost spec_md = spec_split_month(y as int, 1, doy as int);
    proof {
        lemma_months_cover_year(y as int);
    }
    let mut m: u64 = 1;
    let mut d: u64 = doy;
    while d >= days_in_month(y, m)
        invariant
            1970 <= y <= 9999,
            1 <= m <= 12,
            d <= doy,
            (doy as int) < spec_days_in_year(y as int),
            days_before_month(y as int, 13) == spec_days_in_year(y as int),
            days_before_month(y as int, m as int) + d as int == doy as int,
            spec_md == spec_split_month(y as int, 1, doy as int),
            spec_md == spec_split_month(y as int, m as int, d as int),
        decreases d,
    {
        let dim = days_in_month(y, m);
        proof {
            if m == 12 {
                assert(days_before_month(y as int, 13) == days_before_month(y as int, 12)
                    + spec_days_in_month(y as int, 12));
                assert(false);
            }
        }
        d = d - dim;
        m = m + 1;
    }
    proof {
        assert(spec_split_month(y as int, m as int, d as int) == (m as int, d as int));
        assert(d < 31);
    }
    (m, d)
}

/// Render an epoch second count as `YYYY-MM-DD HH:MM:SS` in UTC.  Pure:
/// the result is fixed by the timestamp alone, so equal inputs always
/// render equally.
pub fn get_date_from_timestamp(timestamp: i64) -> (r: String)
    requires
        0 <= timestamp,
        timestamp < MAX_EPOCH_SECONDS,
    ensures
        r@ == spec_timestamp_string(timestamp as int),
{
    let t: u64 = timestamp as u64;
    let days: u64 = t / 86400;
    let secs: u64 = t % 86400;
    proof {
        lemma_mod_division_less_than_divisor(t as int, 86400);
        lemma_div_pos_is_pos(t as int, 86400);
        assert(days < 2932897) by {
            lemma_multiply_divide_lt(t as int, 86400, 2932897);
        }
    }
    let yr = split_epoch_days(days);
    let md = split_year_days(yr.0, yr.1);

    let hour: u64 = secs / 3600;
    let rest: u64 = secs % 3600;
    let minute: u64 = rest / 60;
    let second: u64 = rest % 60;
    proof {
        lemma_mod_division_less_than_divisor(secs as int, 3600);
        lemma_mod_division_less_than_divisor(rest as int, 60);
        lemma_div_pos_is_pos(secs as int, 3600);
        lemma_div_pos_is_pos(rest as int, 60);
        assert(hour < 24) by {
            lemma_multiply_divide_lt(secs as int, 3600, 24);
        }
        assert(minute < 60) by {
            lemma_multiply_divide_lt(rest as int, 60, 60);
        }
    }

    let out = render_fields(yr.0, md.0, md.1 + 1, hour, minute, second);
    proof {
        let tt = timestamp as int;
        let sdays = tt / 86400;
        let ssecs = tt % 86400;
        assert(days as int == sdays && secs as int == ssecs);
        let syr = spec_split_year(1970, sdays);
        let smd = spec_split_month(syr.0, 1, syr.1);
        assert(yr.0 as int == syr.0 && yr.1 as int == syr.1);
        assert(md.0 as int == smd.0 && md.1 as int == smd.1);
        assert(hour as int == ssecs / 3600);
        assert(minute as int == (ssecs % 3600) / 60);
        assert(second as int == ssecs % 60) by {
            lemma_mod_mod(ssecs, 60, 60);
            assert(60int * 60int == 3600int);
        }
        assert(out@ == spec_render(syr.0, smd.0, smd.1 + 1, ssecs / 3600, (ssecs % 3600) / 60, ssecs % 60));
        assert(spec_timestamp_string(tt) == spec_render(
            syr.0,
            smd.0,
            smd.1 + 1,
            ssecs / 3600,
            (ssecs % 3600) / 60,
            ssecs % 60,
        ));
    }
    out
}

/// Lexicographic order on character sequences, by code point.
pub open spec fn lex_le(a: Seq<char>, b: Seq<char>) -> bool
    decreases a.len(),
{
    if a.len() == 0 {
        true
    } else if b.len() == 0 {
        false
    } else if (a[0] as int) < (b[0] as int) {
        true
    } else if a[0] == b[0] {
        lex_le(a.drop_first(), b.drop_first())
    } else {
        false
    }
}

/// The order is reflexive.
pub proof fn lemma_lex_le_refl(a: Seq<char>)
    ensures
        lex_le(a, a),
    decreases a.len(),
{
    if a.len() > 0 {
        lemma_lex_le_refl(a.drop_first());
    }
}

/// A shared prefix does not disturb the order of what follows.
pub proof fn lemma_lex_concat_eq(x: Seq<char>, a: Seq<char>, b: Seq<char>)
    requires
        lex_le(a, b),
    ensures
        lex_le(x + a, x + b),
    decreases x.len(),
{
    if x.len() == 0 {
        assert(x + a =~= a);
        assert(x + b =~= b);
    } else {
        lemma_lex_concat_eq(x.drop_first(), a, b);
        assert((x + a).drop_first() =~= x.drop_first() + a);
        assert((x + b).drop_first() =~= x.drop_first() + b);
        assert((x + a)[0] == x[0] && (x + b)[0] == x[0]);
    }
}

/// A strictly smaller head of equal width decides the order, whatever
/// follows it.
pub proof fn lemma_lex_concat_lt(x1: Seq<char>, y1: Seq<char>, a: Seq<char>, b: Seq<char>)
    requires
        x1.len() == y1.len(),
        lex_le(x1, y1),
        x1 != y1,
    ensures
        lex_le(x1 + a, y1 + b),
    decreases x1.len(),
{
    if x1.len() == 0 {
        assert(y1.len() == 0);
        assert(x1 =~= y1);
        assert(false);
    } else {
        assert((x1 + a)[0] == x1[0] && (y1 + b)[0] == y1[0]);
        if (x1[0] as int) < (y1[0] as int) {
        } else {
            assert(x1[0] == y1[0]);
            assert(lex_le(x1.drop_first(), y1.drop_first()));
            if x1.drop_first() == y1.drop_first() {
                assert forall|i: int| 0 <= i < x1.len() implies x1[i] == y1[i] by {
                    if i > 0 {
                        assert(x1.drop_first()[i - 1] == y1.drop_first()[i - 1]);
                    }
                }
                assert(x1 =~= y1);
                assert(false);
            }
            lemma_lex_concat_lt(x1.drop_first(), y1.drop_first(), a, b);
            assert((x1 + a).drop_first() =~= x1.drop_first() + a);
            assert((y1 + b).drop_first() =~= y1.drop_first() + b);
        }
    }
}

/// Digits order as their characters do, and distinct digits render as
/// distinct characters.
pub proof fn lemma_digit_char_order(d1: int, d2: int)
    requires
        0 <= d1 < 10,
        0 <= d2 < 10,
    ensures
        d1 <= d2 ==> (digit_char(d1) as int) <= (digit_char(d2) as int),
        d1 < d2 ==> (digit_char(d1) as int) < (digit_char(d2) as int),
        d1 != d2 ==> digit_char(d1) != digit_char(d2),
{
}

/// Two-character order on a pair of two-digit renderings.
proof fn lemma_lex2(c1: char, c2: char, d1: char, d2: char)
    requires
        (c1 as int) < (d1 as int) || (c1 == d1 && ((c2 as int) < (d2 as int) || c2 == d2)),
    ensures
        lex_le(seq![c1, c2], seq![d1, d2]),
{
    let a = seq![c1, c2];
    let b = seq![d1, d2];
    if (c1 as int) < (d1 as int) {
        assert(lex_le(a, b));
    } else {
        assert(a.drop_first() =~= seq![c2]);
        assert(b.drop_first() =~= seq![d2]);
        if (c2 as int) < (d2 as int) {
            assert(lex_le(seq![c2], seq![d2]));
        } else {
            assert(c2 == d2);
            lemma_lex_le_refl(seq![c2]);
            assert(lex_le(seq![c2], seq![d2]));
        }
    }
}

/// The two-digit rendering orders as the numbers do and tells distinct
/// numbers apart.
pub proof fn lemma_pad2_order(a: int, b: int)
    requires
        0 <= a <= b < 100,
    ensures
        lex_le(pad2(a), pad2(b)),
        a < b ==> pad2(a) != pad2(b),
        a == b ==> pad2(a) == pad2(b),
{
    lemma_div_is_ordered(a, b, 10);
    lemma_fundamental_div_mod(a, 10);
    lemma_fundamental_div_mod(b, 10);
    lemma_mod_division_less_than_divisor(a, 10);
    lemma_mod_division_less_than_divisor(b, 10);
    lemma_div_pos_is_pos(a, 10);
    lemma_div_pos_is_pos(b, 10);
    assert(a / 10 < 10 && b / 10 < 10) by {
        lemma_multiply_divide_lt(a, 10, 10);
        lemma_multiply_divide_lt(b, 10, 10);
    }
    lemma_digit_char_order(a / 10, b / 10);
    lemma_digit_char_order(a % 10, b % 10);
    if a / 10 < b / 10 {
        lemma_lex2(digit_char(a / 10), digit_char(a % 10), digit_char(b / 10), digit_char(b % 10));
        assert(pad2(a)[0] != pad2(b)[0]);
    } else {
        assert(a / 10 == b / 10);
        assert(a % 10 <= b % 10);
        lemma_lex2(digit_char(a / 10), digit_char(a % 10), digit_char(b / 10), digit_char(b % 10));
        if a < b {
            assert(a % 10 < b % 10);
            assert(pad2(a)[1] != pad2(b)[1]);
        }
    }
}

/// The four-digit rendering orders as the numbers do and tells distinct
/// numbers apart.
pub proof fn lemma_pad4_order(a: int, b: int)
    requires
        0 <= a <= b < 10000,
    ensures
        lex_le(pad4(a), pad4(b)),
        a < b ==> pad4(a) != pad4(b),
        a == b ==> pad4(a) == pad4(b),
{
    lemma_div_is_ordered(a, b, 100);
    lemma_fundamental_div_mod(a, 100);
    lemma_fundamental_div_mod(b, 100);
    lemma_mod_division_less_than_divisor(a, 100);
    lemma_mod_division_less_than_divisor(b, 100);
    lemma_div_pos_is_pos(a, 100);
    lemma_div_pos_is_pos(b, 100);
    assert(a / 100 < 100 && b / 100 < 100) by {
        lemma_multiply_divide_lt(a, 100, 100);
        lemma_multiply_divide_lt(b, 100, 100);
    }
    lemma_pad2_order(a % 100, if a / 100 == b / 100 { b % 100 } else { a % 100 });
    if a / 100 < b / 100 {
        lemma_pad2_order(a / 100, b / 100);
        lemma_lex_concat_lt(pad2(a / 100), pad2(b / 100), pad2(a % 100), pad2(b % 100));
        assert(pad2(a / 100) != pad2(b / 100));
        assert(pad2(a / 100).len() == 2 && pad2(b / 100).len() == 2);
        if pad4(a) == pad4(b) {
            assert(pad4(a)[0] == pad4(b)[0] && pad4(a)[1] == pad4(b)[1]);
            assert(pad2(a / 100) =~= pad2(b / 100));
            assert(false);
        }
    } else {
        assert(a / 100 == b / 100);
        assert(a % 100 <= b % 100);
        lemma_pad2_order(a / 100, b / 100);
        lemma_pad2_order(a % 100, b % 100);
        lemma_lex_concat_eq(pad2(a / 100), pad2(a % 100), pad2(b % 100));
        if a < b {
            assert(a % 100 < b % 100);
            assert(pad2(a % 100) != pad2(b % 100));
            if pad4(a) == pad4(b) {
                assert(pad4(a)[2] == pad4(b)[2] && pad4(a)[3] == pad4(b)[3]);
                assert(pad2(a % 100) =~= pad2(b % 100));
                assert(false);
            }
        }
    }
}

/// Division and remainder by a fixed positive divisor respect order:
/// the quotients order, and equal quotients order the remainders.
pub proof fn lemma_divmod_mono(a: int, b: int, k: int)
    requires
        0 <= a <= b,
        k > 0,
    ensures
        a / k <= b / k,
        a / k == b / k ==> a % k <= b % k,
{
    lemma_div_is_ordered(a, b, k);
    lemma_fundamental_div_mod(a, k);
    lemma_fundamental_div_mod(b, k);
}

/// What the year split yields: a year at or past the start, the day
/// count accounted for exactly, and a remainder inside the final year.
pub proof fn lemma_split_year_props(y: int, d: int)
    requires
        y >= 1970,
        0 <= d,
    ensures
        spec_split_year(y, d).0 >= y,
        days_before_year(spec_split_year(y, d).0) - days_before_year(y) + spec_split_year(y, d).1
            == d,
        0 <= spec_split_year(y, d).1 < spec_days_in_year(spec_split_year(y, d).0),
    decreases d,
{
    if d >= spec_days_in_year(y) {
        lemma_split_year_props(y + 1, d - spec_days_in_year(y));
    }
}

/// Later day counts never land in an earlier year, and within one year
/// never on an earlier day.
pub proof fn lemma_split_year_mono(d1: int, d2: int)
    requires
        0 <= d1 <= d2,
    ensures
        spec_split_year(1970, d1).0 <= spec_split_year(1970, d2).0,
        spec_split_year(1970, d1).0 == spec_split_year(1970, d2).0 ==> spec_split_year(
            1970,
            d1,
        ).1 <= spec_split_year(1970, d2).1,
{
    lemma_split_year_props(1970, d1);
    lemma_split_year_props(1970, d2);
    let r1 = spec_split_year(1970, d1);
    let r2 = spec_split_year(1970, d2);
    if r1.0 > r2.0 {
        lemma_days_before_year_mono(r2.0 + 1, r1.0);
        assert(days_before_year(r2.0 + 1) == days_before_year(r2.0) + spec_days_in_year(r2.0));
        assert(days_before_year(r1.0) > d2);
        assert(false);
    }
}

/// `days_before_month` does not decrease as the month grows.
pub proof fn lemma_days_before_month_mono(y: int, m1: int, m2: int)
    requires
        m1 <= m2,
    ensures
        days_before_month(y, m1) <= days_before_month(y, m2),
    decreases m2 - m1,
{
    if m1 < m2 {
        lemma_days_before_month_mono(y, m1, m2 - 1);
    }
}

/// What the month split yields: a month between the start and December,
/// the day count accounted for exactly, and a remainder inside the
/// final month.
pub proof fn lemma_split_month_props(y: int, m: int, d: int)
    requires
        1 <= m <= 12,
        0 <= d,
        days_before_month(y, m) + d < spec_days_in_year(y),
    ensures
        m <= spec_split_month(y, m, d).0 <= 12,
        days_before_month(y, spec_split_month(y, m, d).0) - days_before_month(y, m)
            + spec_split_month(y, m, d).1 == d,
        0 <= spec_split_month(y, m, d).1 < spec_days_in_month(y, spec_split_month(y, m, d).0),
    decreases d,
{
    lemma_months_cover_year(y);
    if d >= spec_days_in_month(y, m) {
        if m == 12 {
            assert(days_before_month(y, 13) == days_before_month(y, 12) + spec_days_in_month(
                y,
                12,
            ));
            assert(false);
        }
        assert(days_before_month(y, m + 1) == days_before_month(y, m) + spec_days_in_month(y, m));
        lemma_split_month_props(y, m + 1, d - spec_days_in_month(y, m));
    }
}

/// Within one year, later days never land in an earlier month, and
/// within one month never on an earlier day.
pub proof fn lemma_split_month_mono(y: int, d1: int, d2: int)
    requires
        0 <= d1 <= d2,
        d2 < spec_days_in_year(y),
    ensures
        spec_split_month(y, 1, d1).0 <= spec_split_month(y, 1, d2).0,
        spec_split_month(y, 1, d1).0 == spec_split_month(y, 1, d2).0 ==> spec_split_month(
            y,
            1,
            d1,
        ).1 <= spec_split_month(y, 1, d2).1,
{
    lemma_split_month_props(y, 1, d1);
    lemma_split_month_props(y, 1, d2);
    let r1 = spec_split_month(y, 1, d1);
    let r2 = spec_split_month(y, 1, d2);
    if r1.0 > r2.0 {
        lemma_days_before_month_mono(y, r2.0 + 1, r1.0);
        assert(days_before_month(y, r2.0 + 1) == days_before_month(y, r2.0) + spec_days_in_month(
            y,
            r2.0,
        ));
        assert(days_before_month(y, r1.0) > d2);
        assert(false);
    }
}

/// The calendar fields of a timestamp in the accepted range: a
/// four-digit year and two-digit values everywhere else.
pub proof fn lemma_timestamp_fields(t: int)
    requires
        0 <= t < MAX_EPOCH_SECONDS,
    ensures
        1970 <= spec_split_year(1970, t / 86400).0 < 10000,
        0 <= spec_split_year(1970, t / 86400).1 < spec_days_in_year(
            spec_split_year(1970, t / 86400).0,
        ),
        1 <= spec_split_month(
            spec_split_year(1970, t / 86400).0,
            1,
            spec_split_year(1970, t / 86400).1,
        ).0 <= 12,
        0 <= spec_split_month(
            spec_split_year(1970, t / 86400).0,
            1,
            spec_split_year(1970, t / 86400).1,
        ).1 < 31,
        0 <= (t % 86400) / 3600 < 24,
        0 <= ((t % 86400) % 3600) / 60 < 60,
        0 <= (t % 86400) % 60 < 60,
{
    let days = t / 86400;
    let secs = t % 86400;
    lemma_div_pos_is_pos(t, 86400);
    lemma_mod_division_less_than_divisor(t, 86400);
    assert(days < 2932897) by {
        lemma_multiply_divide_lt(t, 86400, 2932897);
    }
    lemma_split_year_props(1970, days);
    let yr = spec_split_year(1970, days);
    if yr.0 >= 10000 {
        lemma_days_before_year_10000();
        lemma_days_before_year_mono(10000, yr.0);
        assert(false);
    }
    lemma_split_month_props(yr.0, 1, yr.1);
    lemma_div_pos_is_pos(secs, 3600);
    lemma_mod_division_less_than_divisor(secs, 3600);
    assert(secs / 3600 < 24) by {
        lemma_multiply_divide_lt(secs, 3600, 24);
    }
    let rest = secs % 3600;
    lemma_div_pos_is_pos(rest, 60);
    lemma_mod_division_less_than_divisor(rest, 60);
    assert(rest / 60 < 60) by {
        lemma_multiply_divide_lt(rest, 60, 60);
    }
    lemma_mod_division_less_than_divisor(secs, 60);
}

/// The rendered string, reassociated so each field heads its tail.
pub open spec fn tail_second(s: int) -> Seq<char> {
    seq![':'] + pad2(s)
}

pub open spec fn tail_minute(mi: int, s: int) -> Seq<char> {
    seq![':'] + (pad2(mi) + tail_second(s))
}

pub open spec fn tail_hour(h: int, mi: int, s: int) -> Seq<char> {
    seq![' '] + (pad2(h) + tail_minute(mi, s))
}

pub open spec fn tail_day(d: int, h: int, mi: int, s: int) -> Seq<char> {
    seq!['-'] + (pad2(d) + tail_hour(h, mi, s))
}

pub open spec fn tail_month(m: int, d: int, h: int, mi: int, s: int) -> Seq<char> {
    seq!['-'] + (pad2(m) + tail_day(d, h, mi, s))
}

proof fn lemma_render_reassociate(y: int, m: int, d: int, h: int, mi: int, s: int)
    ensures
        spec_render(y, m, d, h, mi, s) == pad4(y) + tail_month(m, d, h, mi, s),
{
    assert(spec_render(y, m, d, h, mi, s) =~= pad4(y) + tail_month(m, d, h, mi, s));
}

/// A separator and a shared field pass the order of the tails through.
proof fn lemma_wrap_eq(sep: char, head: Seq<char>, a: Seq<char>, b: Seq<char>)
    requires
        lex_le(a, b),
    ensures
        lex_le(seq![sep] + (head + a), seq![sep] + (head + b)),
{
    lemma_lex_concat_eq(head, a, b);
    lemma_lex_concat_eq(seq![sep], head + a, head + b);
}

/// A separator and a strictly smaller field decide the order, whatever
/// the tails hold.
proof fn lemma_wrap_lt(sep: char, head1: Seq<char>, head2: Seq<char>, a: Seq<char>, b: Seq<char>)
    requires
        head1.len() == head2.len(),
        lex_le(head1, head2),
        head1 != head2,
    ensures
        lex_le(seq![sep] + (head1 + a), seq![sep] + (head2 + b)),
{
    lemma_lex_concat_lt(head1, head2, a, b);
    lemma_lex_concat_eq(seq![sep], head1 + a, head2 + b);
}

/// Law: rendering timestamps preserves their order; as the timestamp
/// grows, the rendered string never decreases lexicographically.
pub proof fn lemma_timestamp_string_monotonic(t1: int, t2: int)
    requires
        0 <= t1 <= t2 < MAX_EPOCH_SECONDS,
    ensures
        lex_le(spec_timestamp_string(t1), spec_timestamp_string(t2)),
{
    let days1 = t1 / 86400;
    let secs1 = t1 % 86400;
    let days2 = t2 / 86400;
    let secs2 = t2 % 86400;
    lemma_timestamp_fields(t1);
    lemma_timestamp_fields(t2);
    lemma_divmod_mono(t1, t2, 86400);
    let yr1 = spec_split_year(1970, days1);
    let yr2 = spec_split_year(1970, days2);
    let md1 = spec_split_month(yr1.0, 1, yr1.1);
    let md2 = spec_split_month(yr2.0, 1, yr2.1);
    let h1 = secs1 / 3600;
    let h2 = secs2 / 3600;
    let mi1 = (secs1 % 3600) / 60;
    let mi2 = (secs2 % 3600) / 60;
    let s1 = secs1 % 60;
    let s2 = secs2 % 60;
    lemma_render_reassociate(yr1.0, md1.0, md1.1 + 1, h1, mi1, s1);
    lemma_render_reassociate(yr2.0, md2.0, md2.1 + 1, h2, mi2, s2);
    let tm1 = tail_month(md1.0, md1.1 + 1, h1, mi1, s1);
    let tm2 = tail_month(md2.0, md2.1 + 1, h2, mi2, s2);
    lemma_split_year_mono(days1, days2);
    if yr1.0 < yr2.0 {
        lemma_pad4_order(yr1.0, yr2.0);
        lemma_lex_concat_lt(pad4(yr1.0), pad4(yr2.0), tm1, tm2);
    } else {
        assert(yr1.0 == yr2.0);
        let y = yr1.0;
        assert(yr1.1 <= yr2.1);
        lemma_split_month_mono(y, yr1.1, yr2.1);
        let td1 = tail_day(md1.1 + 1, h1, mi1, s1);
        let td2 = tail_day(md2.1 + 1, h2, mi2, s2);
        let th1 = tail_hour(h1, mi1, s1);
        let th2 = tail_hour(h2, mi2, s2);
        let tmi1 = tail_minute(mi1, s1);
        let tmi2 = tail_minute(mi2, s2);
        let ts1 = tail_second(s1);
        let ts2 = tail_second(s2);
        if md1.0 < md2.0 {
            lemma_pad2_order(md1.0, md2.0);
            lemma_wrap_lt('-', pad2(md1.0), pad2(md2.0), td1, td2);
        } else {
            assert(md1.0 == md2.0);
            if md1.1 < md2.1 {
                lemma_pad2_order(md1.1 + 1, md2.1 + 1);
                lemma_wrap_lt('-', pad2(md1.1 + 1), pad2(md2.1 + 1), th1, th2);
            } else {
                assert(md1.1 == md2.1);
                // same calendar day, hence the same day count, so the
                // clock fields inherit the order of the timestamps
                lemma_split_year_props(1970, days1);
                lemma_split_year_props(1970, days2);
                lemma_split_month_props(y, 1, yr1.1);
                lemma_split_month_props(y, 1, yr2.1);
                assert(yr1.1 == yr2.1);
                assert(days1 == days2);
                assert(secs1 <= secs2);
                lemma_divmod_mono(secs1, secs2, 3600);
                if h1 < h2 {
                    lemma_pad2_order(h1, h2);
                    lemma_wrap_lt(' ', pad2(h1), pad2(h2), tmi1, tmi2);
                } else {
                    assert(h1 == h2);
                    assert(secs1 % 3600 <= secs2 % 3600);
                    lemma_divmod_mono(secs1 % 3600, secs2 % 3600, 60);
                    if mi1 < mi2 {
                        lemma_pad2_order(mi1, mi2);
                        lemma_wrap_lt(':', pad2(mi1), pad2(mi2), ts1, ts2);
                    } else {
                        assert(mi1 == mi2);
                        assert(s1 == (secs1 % 3600) % 60 && s2 == (secs2 % 3600) % 60) by {
                            lemma_mod_mod(secs1, 60, 60);
                            lemma_mod_mod(secs2, 60, 60);
                            assert(60int * 60int == 3600int);
                        }
                        assert(s1 <= s2);
                        lemma_pad2_order(s1, s2);
                        lemma_lex_concat_eq(seq![':'], pad2(s1), pad2(s2));
                        assert(lex_le(ts1, ts2));
                        lemma_wrap_eq(':', pad2(mi1), ts1, ts2);
                    }
                    assert(lex_le(tmi1, tmi2));
                    lemma_wrap_eq(' ', pad2(h1), tmi1, tmi2);
                }
                assert(lex_le(th1, th2));
                lemma_wrap_eq('-', pad2(md1.1 + 1), th1, th2);
            }
            assert(lex_le(td1, td2));
            lemma_wrap_eq('-', pad2(md1.0), td1, td2);
        }
        assert(lex_le(tm1, tm2));
        lemma_lex_concat_eq(pad4(yr1.0), tm1, tm2);
    }
    assert(lex_le(pad4(yr1.0) + tm1, pad4(yr2.0) + tm2));
}

} // verus!
