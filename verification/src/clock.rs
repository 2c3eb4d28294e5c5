//! Local times written "YYYY-MM-DD HH:MM:SS": their fields, and stepping a
//! time back and forth by whole minutes across hours, days, months and
//! years, for the cutoff before which unpaid orders expire.

use vstd::prelude::*;
use crate::text::{digit_char, digit_to_char, chars_of, string_of};
use crate::money::{two_digits, digit_value, is_digit, lemma_digit_char, char_digit};
use crate::models::ORDER_TTL_MIN;

verus! {

/// A local time's fields: year, month, day, hour, minute, second.
#[derive(Clone, Copy)]
pub struct Stamp {
    pub y: u32,
    pub mo: u32,
    pub d: u32,
    pub h: u32,
    pub mi: u32,
    pub s: u32,
}

/// A leap year of the Gregorian calendar.
pub open spec fn leap_year(y: int) -> bool {
    y % 4 == 0 && (y % 100 != 0 || y % 400 == 0)
}

/// The number of days of month `mo` of year `y`.
pub open spec fn days_in_month(y: int, mo: int) -> int {
    if mo == 2 {
        if leap_year(y) {
            29
        } else {
            28
        }
    } else if mo == 4 || mo == 6 || mo == 9 || mo == 11 {
        30
    } else {
        31
    }
}

/// A real date and time of a year 0 to 9999 (a leap second allowed).
pub open spec fn valid_stamp(t: Stamp) -> bool {
    &&& t.y <= 9999
    &&& 1 <= t.mo <= 12
    &&& 1 <= t.d <= days_in_month(t.y as int, t.mo as int)
    &&& t.h <= 23
    &&& t.mi <= 59
    &&& t.s <= 60
}

/// Four zero-padded digits of `n` (`{:04}` for `n < 10000`).
pub open spec fn four_digits(n: int) -> Seq<char> {
    seq![digit_char(n / 1000), digit_char((n / 100) % 10), digit_char((n / 10) % 10), digit_char(n % 10)]
}

/// The time as "YYYY-MM-DD HH:MM:SS" (chrono's "%Y-%m-%d %H:%M:%S" for a
/// year 0 to 9999).
pub open spec fn stamp_text(t: Stamp) -> Seq<char> {
    four_digits(t.y as int) + seq!['-'] + two_digits(t.mo as int) + seq!['-'] + two_digits(t.d as int)
        + seq![' '] + two_digits(t.h as int) + seq![':'] + two_digits(t.mi as int) + seq![':']
        + two_digits(t.s as int)
}

/// What chrono writes for a local time with "%Y-%m-%d %H:%M:%S": a real
/// date and time with a four-digit year, or, outside the years 0 to 9999,
/// a year with a sign and four to six digits (20 to 22 characters in all).
pub open spec fn clock_text(s: Seq<char>) -> bool {
    (exists|t: Stamp| valid_stamp(t) && #[trigger] stamp_text(t) == s) || (20 <= s.len() <= 22 && (s[0] == '+'
        || s[0] == '-'))
}

/// The two-digit number at positions `i` and `i + 1`.
pub open spec fn two_value(s: Seq<char>, i: int) -> int {
    digit_value(s[i]) * 10 + digit_value(s[i + 1])
}

/// The fields read off a "YYYY-MM-DD HH:MM:SS" text.
pub open spec fn text_fields(s: Seq<char>) -> Stamp {
    Stamp {
        y: (digit_value(s[0]) * 1000 + digit_value(s[1]) * 100 + digit_value(s[2]) * 10 + digit_value(s[3])) as u32,
        mo: two_value(s, 5) as u32,
        d: two_value(s, 8) as u32,
        h: two_value(s, 11) as u32,
        mi: two_value(s, 14) as u32,
        s: two_value(s, 17) as u32,
    }
}

/// The time a text shows, when it is a real date and time with a
/// four-digit year written "YYYY-MM-DD HH:MM:SS".
pub open spec fn clock_stamp(s: Seq<char>) -> Option<Stamp> {
    if exists|t: Stamp| valid_stamp(t) && #[trigger] stamp_text(t) == s {
        Some(text_fields(s))
    } else {
        None
    }
}

// ---------- stepping by minutes ----------

/// The same time one day earlier.
pub open spec fn day_back(t: Stamp) -> Stamp {
    if t.d > 1 {
        Stamp { d: (t.d - 1) as u32, ..t }
    } else if t.mo > 1 {
        Stamp { mo: (t.mo - 1) as u32, d: days_in_month(t.y as int, t.mo - 1) as u32, ..t }
    } else {
        Stamp { y: (t.y - 1) as u32, mo: 12, d: 31, ..t }
    }
}

/// The same time one day later.
pub open spec fn day_fwd(t: Stamp) -> Stamp {
    if t.d < days_in_month(t.y as int, t.mo as int) {
        Stamp { d: (t.d + 1) as u32, ..t }
    } else if t.mo < 12 {
        Stamp { mo: (t.mo + 1) as u32, d: 1, ..t }
    } else {
        Stamp { y: (t.y + 1) as u32, mo: 1, d: 1, ..t }
    }
}

/// The same time one hour earlier.
pub open spec fn hour_back(t: Stamp) -> Stamp {
    if t.h > 0 {
        Stamp { h: (t.h - 1) as u32, ..t }
    } else {
        day_back(Stamp { h: 23, ..t })
    }
}

/// The same time one hour later.
pub open spec fn hour_fwd(t: Stamp) -> Stamp {
    if t.h < 23 {
        Stamp { h: (t.h + 1) as u32, ..t }
    } else {
        day_fwd(Stamp { h: 0, ..t })
    }
}

/// `t` less `m` minutes, `m` below an hour; the seconds stay.
pub open spec fn minutes_back(t: Stamp, m: int) -> Stamp {
    if t.mi >= m {
        Stamp { mi: (t.mi - m) as u32, ..t }
    } else {
        hour_back(Stamp { mi: (t.mi + 60 - m) as u32, ..t })
    }
}

/// `t` plus `m` minutes, `m` below an hour; the seconds stay.
pub open spec fn minutes_fwd(t: Stamp, m: int) -> Stamp {
    if t.mi + m < 60 {
        Stamp { mi: (t.mi + m) as u32, ..t }
    } else {
        hour_fwd(Stamp { mi: (t.mi + m - 60) as u32, ..t })
    }
}

/// `m` minutes before `t` would fall before the year 0.
pub open spec fn before_year_zero(t: Stamp, m: int) -> bool {
    t.y == 0 && t.mo == 1 && t.d == 1 && t.h == 0 && t.mi < m
}

/// The cutoff for unpaid orders at time `now`: the time `ORDER_TTL_MIN`
/// minutes earlier, written the same way.  When `now` is no such time (or
/// the cutoff would fall before the year 0) it is empty, and no order is
/// older than it.
pub open spec fn order_cutoff(now: Seq<char>) -> Seq<char> {
    match clock_stamp(now) {
        Some(t) => if before_year_zero(t, ORDER_TTL_MIN as int) {
            Seq::empty()
        } else {
            stamp_text(minutes_back(t, ORDER_TTL_MIN as int))
        },
        None => Seq::empty(),
    }
}

// ---------- proofs ----------

proof fn lemma_digit_back(c: char)
    requires
        is_digit(c),
    ensures
        0 <= digit_value(c) < 10,
        digit_char(digit_value(c)) == c,
{
}

proof fn lemma_four_split(n: int)
    by (nonlinear_arith)
    requires
        0 <= n <= 9999,
    ensures
        0 <= n / 1000 < 10,
        0 <= (n / 100) % 10 < 10,
        0 <= (n / 10) % 10 < 10,
        0 <= n % 10 < 10,
        (n / 1000) * 1000 + ((n / 100) % 10) * 100 + ((n / 10) % 10) * 10 + n % 10 == n,
{
}

proof fn lemma_two_split(n: int)
    by (nonlinear_arith)
    requires
        0 <= n <= 99,
    ensures
        0 <= n / 10 < 10,
        0 <= n % 10 < 10,
        (n / 10) * 10 + n % 10 == n,
{
}

proof fn lemma_four_join(a: int, b: int, c: int, d: int)
    by (nonlinear_arith)
    requires
        0 <= a < 10,
        0 <= b < 10,
        0 <= c < 10,
        0 <= d < 10,
    ensures
        ({
            let n = a * 1000 + b * 100 + c * 10 + d;
            &&& n / 1000 == a
            &&& (n / 100) % 10 == b
            &&& (n / 10) % 10 == c
            &&& n % 10 == d
        }),
{
}

proof fn lemma_two_join(a: int, b: int)
    by (nonlinear_arith)
    requires
        0 <= a < 10,
        0 <= b < 10,
    ensures
        (a * 10 + b) / 10 == a,
        (a * 10 + b) % 10 == b,
{
}

/// Digits and separators where "YYYY-MM-DD HH:MM:SS" has them.
pub open spec fn shaped(s: Seq<char>) -> bool {
    &&& s.len() == 19
    &&& s[4] == '-' && s[7] == '-' && s[10] == ' ' && s[13] == ':' && s[16] == ':'
    &&& is_digit(s[0]) && is_digit(s[1]) && is_digit(s[2]) && is_digit(s[3])
    &&& is_digit(s[5]) && is_digit(s[6]) && is_digit(s[8]) && is_digit(s[9])
    &&& is_digit(s[11]) && is_digit(s[12]) && is_digit(s[14]) && is_digit(s[15])
    &&& is_digit(s[17]) && is_digit(s[18])
}

/// A time's text has the shape and reads back as the time.
pub proof fn lemma_text_fields(t: Stamp)
    requires
        valid_stamp(t),
    ensures
        shaped(stamp_text(t)),
        text_fields(stamp_text(t)) == t,
{
    let s = stamp_text(t);
    let y = t.y as int;
    let mo = t.mo as int;
    let d = t.d as int;
    let h = t.h as int;
    let mi = t.mi as int;
    let sec = t.s as int;
    lemma_four_split(y);
    lemma_two_split(mo);
    lemma_two_split(d);
    lemma_two_split(h);
    lemma_two_split(mi);
    lemma_two_split(sec);
    lemma_digit_char(y / 1000);
    lemma_digit_char((y / 100) % 10);
    lemma_digit_char((y / 10) % 10);
    lemma_digit_char(y % 10);
    lemma_digit_char(mo / 10);
    lemma_digit_char(mo % 10);
    lemma_digit_char(d / 10);
    lemma_digit_char(d % 10);
    lemma_digit_char(h / 10);
    lemma_digit_char(h % 10);
    lemma_digit_char(mi / 10);
    lemma_digit_char(mi % 10);
    lemma_digit_char(sec / 10);
    lemma_digit_char(sec % 10);
    assert(s[0] == digit_char(y / 1000));
    assert(s[1] == digit_char((y / 100) % 10));
    assert(s[2] == digit_char((y / 10) % 10));
    assert(s[3] == digit_char(y % 10));
    assert(s[4] == '-');
    assert(s[5] == digit_char(mo / 10) && s[6] == digit_char(mo % 10));
    assert(s[7] == '-');
    assert(s[8] == digit_char(d / 10) && s[9] == digit_char(d % 10));
    assert(s[10] == ' ');
    assert(s[11] == digit_char(h / 10) && s[12] == digit_char(h % 10));
    assert(s[13] == ':');
    assert(s[14] == digit_char(mi / 10) && s[15] == digit_char(mi % 10));
    assert(s[16] == ':');
    assert(s[17] == digit_char(sec / 10) && s[18] == digit_char(sec % 10));
}

/// The text of a real time shows that time.
pub proof fn lemma_clock_stamp(t: Stamp)
    requires
        valid_stamp(t),
    ensures
        clock_stamp(stamp_text(t)) == Some(t),
{
    lemma_text_fields(t);
}

proof fn lemma_day_round_trip(t: Stamp)
    requires
        valid_stamp(t),
        !(t.y == 0 && t.mo == 1 && t.d == 1),
    ensures
        valid_stamp(day_back(t)),
        day_fwd(day_back(t)) == t,
{
}

proof fn lemma_hour_round_trip(t: Stamp)
    requires
        valid_stamp(t),
        !(t.y == 0 && t.mo == 1 && t.d == 1 && t.h == 0),
    ensures
        valid_stamp(hour_back(t)),
        hour_fwd(hour_back(t)) == t,
{
    if t.h == 0 {
        lemma_day_round_trip(Stamp { h: 23, ..t });
    }
}

/// Going back `m` minutes (less than an hour) from a real time gives a
/// real time, and going forward `m` minutes from there comes back to it:
/// the earlier time is exactly `m` minutes before, across hours, days,
/// months, leap days and years.
pub proof fn law_minutes_back_then_forward(t: Stamp, m: int)
    requires
        valid_stamp(t),
        0 < m < 60,
        !before_year_zero(t, m),
    ensures
        valid_stamp(minutes_back(t, m)),
        minutes_fwd(minutes_back(t, m), m) == t,
{
    if t.mi < m {
        lemma_hour_round_trip(Stamp { mi: (t.mi + 60 - m) as u32, ..t });
    }
}

/// The cutoff for unpaid orders at a real time `now` is the time
/// `ORDER_TTL_MIN` minutes earlier: a real time that comes back to `now`
/// `ORDER_TTL_MIN` minutes later.
pub proof fn law_order_cutoff(now: Stamp)
    requires
        valid_stamp(now),
        !before_year_zero(now, ORDER_TTL_MIN as int),
    ensures
        ({
            let c = minutes_back(now, ORDER_TTL_MIN as int);
            &&& order_cutoff(stamp_text(now)) == stamp_text(c)
            &&& valid_stamp(c)
            &&& minutes_fwd(c, ORDER_TTL_MIN as int) == now
        }),
{
    lemma_clock_stamp(now);
    law_minutes_back_then_forward(now, ORDER_TTL_MIN as int);
}

// ---------- time order ----------

/// A time's place in time: its fields read as one number, year first.
pub open spec fn stamp_key(t: Stamp) -> int {
    ((((t.y as int * 100 + t.mo) * 100 + t.d) * 100 + t.h) * 100 + t.mi) * 100 + t.s
}

/// A separator position of "YYYY-MM-DD HH:MM:SS".
pub open spec fn sep_pos(i: int) -> bool {
    i == 4 || i == 7 || i == 10 || i == 13 || i == 16
}

/// The digits among the first `n` characters read as one number.
pub open spec fn digits_num(x: Seq<char>, n: int) -> int
    decreases n,
{
    if n <= 0 {
        0
    } else if sep_pos(n - 1) {
        digits_num(x, n - 1)
    } else {
        digits_num(x, n - 1) * 10 + digit_value(x[n - 1])
    }
}

proof fn lemma_first_diff(x: Seq<char>, y: Seq<char>, i: int)
    requires
        x.len() == y.len(),
        0 <= i <= x.len(),
        forall|j: int| 0 <= j < i ==> x[j] == y[j],
        crate::text::text_lt(x.skip(i), y.skip(i)),
    ensures
        exists|k: int|
            i <= k < x.len() && (forall|j: int| 0 <= j < k ==> x[j] == y[j]) && (#[trigger] x[k] as u32) < (y[k] as u32),
    decreases x.len() - i,
{
    let a = x.skip(i);
    let b = y.skip(i);
    if i < x.len() {
        assert(a[0] == x[i] && b[0] == y[i]);
        if x[i] == y[i] {
            assert(a.drop_first() =~= x.skip(i + 1));
            assert(b.drop_first() =~= y.skip(i + 1));
            lemma_first_diff(x, y, i + 1);
        }
    }
}

proof fn lemma_num_same(x: Seq<char>, y: Seq<char>, n: int)
    requires
        0 <= n <= x.len(),
        n <= y.len(),
        forall|j: int| 0 <= j < n ==> x[j] == y[j],
    ensures
        digits_num(x, n) == digits_num(y, n),
    decreases n,
{
    if n > 0 {
        lemma_num_same(x, y, n - 1);
    }
}

proof fn lemma_num_grows(x: Seq<char>, y: Seq<char>, k: int, n: int)
    requires
        shaped(x),
        shaped(y),
        0 <= k < n <= 19,
        !sep_pos(k),
        forall|j: int| 0 <= j < k ==> x[j] == y[j],
        (x[k] as u32) < (y[k] as u32),
    ensures
        digits_num(x, n) < digits_num(y, n),
    decreases n,
{
    if n == k + 1 {
        lemma_num_same(x, y, k);
    } else {
        lemma_num_grows(x, y, k, n - 1);
        if !sep_pos(n - 1) {
            assert(0 <= digit_value(x[n - 1]) < 10);
            assert(0 <= digit_value(y[n - 1]) < 10);
        }
    }
}

/// For texts of real times, text order is time order.
pub proof fn lemma_text_order(a: Stamp, b: Stamp)
    requires
        valid_stamp(a),
        valid_stamp(b),
        crate::text::text_lt(stamp_text(a), stamp_text(b)),
    ensures
        stamp_key(a) < stamp_key(b),
{
    let x = stamp_text(a);
    let y = stamp_text(b);
    lemma_text_fields(a);
    lemma_text_fields(b);
    assert(x.skip(0) =~= x);
    assert(y.skip(0) =~= y);
    lemma_first_diff(x, y, 0);
    let k = choose|k: int| 0 <= k < x.len() && (forall|j: int| 0 <= j < k ==> x[j] == y[j]) && (#[trigger] x[k] as u32) < (y[k] as u32);
    assert(!sep_pos(k));
    lemma_num_grows(x, y, k, 19);
    lemma_num_key(a);
    lemma_num_key(b);
}

proof fn lemma_num_key(t: Stamp)
    requires
        valid_stamp(t),
    ensures
        digits_num(stamp_text(t), 19) == stamp_key(t),
{
    let x = stamp_text(t);
    lemma_text_fields(t);
    let f = text_fields(x);
    reveal_with_fuel(digits_num, 20);
    assert(digits_num(x, 4) == f.y);
    assert(digits_num(x, 7) == f.y * 100 + f.mo);
    assert(digits_num(x, 10) == (f.y * 100 + f.mo) * 100 + f.d);
    assert(digits_num(x, 13) == ((f.y * 100 + f.mo) * 100 + f.d) * 100 + f.h);
    assert(digits_num(x, 16) == (((f.y * 100 + f.mo) * 100 + f.d) * 100 + f.h) * 100 + f.mi);
}

/// An order created at a real time `c` that is not earlier than
/// `ORDER_TTL_MIN` minutes before a real time `now` is not expired at
/// `now`, and neither are its cards released: orders younger than the
/// time to pay survive every expiry.
pub proof fn law_young_orders_not_expired(s: crate::models::StoreV, now: Stamp, c: Stamp, i: int)
    requires
        s.wf(),
        0 <= i < s.orders.len(),
        valid_stamp(now),
        valid_stamp(c),
        !before_year_zero(now, ORDER_TTL_MIN as int),
        s.orders[i].created_at == stamp_text(c),
        stamp_key(minutes_back(now, ORDER_TTL_MIN as int)) <= stamp_key(c),
    ensures
        crate::models::expired(s, order_cutoff(stamp_text(now))).orders[i] == s.orders[i],
        forall|j: int|
            0 <= j < s.cards.len() && s.cards[j].order_id == Some(s.orders[i].id) ==> #[trigger] crate::models::expired(
                s,
                order_cutoff(stamp_text(now)),
            ).cards[j] == s.cards[j],
{
    law_order_cutoff(now);
    let cut = minutes_back(now, ORDER_TTL_MIN as int);
    if crate::text::text_lt(stamp_text(c), stamp_text(cut)) {
        lemma_text_order(c, cut);
    }
    crate::stock_laws::law_recent_orders_stay(s, stamp_text(now), i);
}

// ---------- executable ----------

fn days_in_month_of(y: u32, mo: u32) -> (r: u32)
    ensures
        r == days_in_month(y as int, mo as int),
{
    if mo == 2 {
        if y % 4 == 0 && (y % 100 != 0 || y % 400 == 0) {
            29
        } else {
            28
        }
    } else if mo == 4 || mo == 6 || mo == 9 || mo == 11 {
        30
    } else {
        31
    }
}

/// The time a text shows (see `clock_stamp`).
pub fn parse_stamp(v: &[char]) -> (r: Option<Stamp>)
    ensures
        r == clock_stamp(v@),
        r matches Some(t) ==> valid_stamp(t) && stamp_text(t) == v@,
{
    if v.len() != 19 {
        proof {
            if exists|t: Stamp| valid_stamp(t) && #[trigger] stamp_text(t) == v@ {
                let t = choose|t: Stamp| valid_stamp(t) && #[trigger] stamp_text(t) == v@;
                lemma_text_fields(t);
            }
        }
        return None;
    }
    let shaped = v[4] == '-' && v[7] == '-' && v[10] == ' ' && v[13] == ':' && v[16] == ':' && is_digit_c(v[0])
        && is_digit_c(v[1]) && is_digit_c(v[2]) && is_digit_c(v[3]) && is_digit_c(v[5]) && is_digit_c(v[6])
        && is_digit_c(v[8]) && is_digit_c(v[9]) && is_digit_c(v[11]) && is_digit_c(v[12]) && is_digit_c(v[14])
        && is_digit_c(v[15]) && is_digit_c(v[17]) && is_digit_c(v[18]);
    if !shaped {
        proof {
            if exists|t: Stamp| valid_stamp(t) && #[trigger] stamp_text(t) == v@ {
                let t = choose|t: Stamp| valid_stamp(t) && #[trigger] stamp_text(t) == v@;
                lemma_text_fields(t);
            }
        }
        return None;
    }
    let y = (char_digit(v[0]) * 1000 + char_digit(v[1]) * 100 + char_digit(v[2]) * 10 + char_digit(v[3])) as u32;
    let mo = (char_digit(v[5]) * 10 + char_digit(v[6])) as u32;
    let d = (char_digit(v[8]) * 10 + char_digit(v[9])) as u32;
    let h = (char_digit(v[11]) * 10 + char_digit(v[12])) as u32;
    let mi = (char_digit(v[14]) * 10 + char_digit(v[15])) as u32;
    let s = (char_digit(v[17]) * 10 + char_digit(v[18])) as u32;
    let t = Stamp { y, mo, d, h, mi, s };
    assert(t == text_fields(v@));
    let ok = 1 <= mo && mo <= 12 && 1 <= d && d <= days_in_month_of(y, mo) && h <= 23 && mi <= 59 && s <= 60;
    if !ok {
        proof {
            if exists|u: Stamp| valid_stamp(u) && #[trigger] stamp_text(u) == v@ {
                let u = choose|u: Stamp| valid_stamp(u) && #[trigger] stamp_text(u) == v@;
                lemma_text_fields(u);
            }
        }
        return None;
    }
    proof {
        lemma_digit_back(v@[0]);
        lemma_digit_back(v@[1]);
        lemma_digit_back(v@[2]);
        lemma_digit_back(v@[3]);
        lemma_digit_back(v@[5]);
        lemma_digit_back(v@[6]);
        lemma_digit_back(v@[8]);
        lemma_digit_back(v@[9]);
        lemma_digit_back(v@[11]);
        lemma_digit_back(v@[12]);
        lemma_digit_back(v@[14]);
        lemma_digit_back(v@[15]);
        lemma_digit_back(v@[17]);
        lemma_digit_back(v@[18]);
        lemma_four_join(digit_value(v@[0]), digit_value(v@[1]), digit_value(v@[2]), digit_value(v@[3]));
        lemma_two_join(digit_value(v@[5]), digit_value(v@[6]));
        lemma_two_join(digit_value(v@[8]), digit_value(v@[9]));
        lemma_two_join(digit_value(v@[11]), digit_value(v@[12]));
        lemma_two_join(digit_value(v@[14]), digit_value(v@[15]));
        lemma_two_join(digit_value(v@[17]), digit_value(v@[18]));
        assert(stamp_text(t) =~= v@);
        lemma_text_fields(t);
    }
    Some(t)
}

fn is_digit_c(c: char) -> (r: bool)
    ensures
        r == is_digit(c),
{
    '0' <= c && c <= '9'
}

fn push_two(v: &mut Vec<char>, n: u32)
    requires
        n < 100,
    ensures
        final(v)@ == old(v)@ + two_digits(n as int),
{
    let ghost v0 = v@;
    v.push(digit_to_char((n / 10) as u64));
    v.push(digit_to_char((n % 10) as u64));
    assert(v@ =~= v0 + two_digits(n as int));
}

/// The text of a time (see `stamp_text`).
pub fn stamp_string(t: Stamp) -> (r: String)
    requires
        valid_stamp(t),
    ensures
        r@ == stamp_text(t),
{
    let mut v: Vec<char> = Vec::new();
    v.push(digit_to_char((t.y / 1000) as u64));
    v.push(digit_to_char(((t.y / 100) % 10) as u64));
    v.push(digit_to_char(((t.y / 10) % 10) as u64));
    v.push(digit_to_char((t.y % 10) as u64));
    assert(v@ =~= four_digits(t.y as int));
    v.push('-');
    push_two(&mut v, t.mo);
    v.push('-');
    push_two(&mut v, t.d);
    v.push(' ');
    push_two(&mut v, t.h);
    v.push(':');
    push_two(&mut v, t.mi);
    v.push(':');
    push_two(&mut v, t.s);
    assert(v@ =~= stamp_text(t));
    string_of(v.as_slice())
}

fn day_back_of(t: Stamp) -> (r: Stamp)
    requires
        valid_stamp(t),
        !(t.y == 0 && t.mo == 1 && t.d == 1),
    ensures
        r == day_back(t),
{
    if t.d > 1 {
        Stamp { d: t.d - 1, ..t }
    } else if t.mo > 1 {
        Stamp { mo: t.mo - 1, d: days_in_month_of(t.y, t.mo - 1), ..t }
    } else {
        Stamp { y: t.y - 1, mo: 12, d: 31, ..t }
    }
}

/// `t` less `m` minutes (see `minutes_back`).
fn minutes_back_of(t: Stamp, m: u32) -> (r: Stamp)
    requires
        valid_stamp(t),
        0 < m < 60,
        !before_year_zero(t, m as int),
    ensures
        r == minutes_back(t, m as int),
{
    if t.mi >= m {
        Stamp { mi: t.mi - m, ..t }
    } else {
        let u = Stamp { mi: t.mi + 60 - m, ..t };
        if u.h > 0 {
            Stamp { h: u.h - 1, ..u }
        } else {
            day_back_of(Stamp { h: 23, ..u })
        }
    }
}

/// The cutoff for unpaid orders at time `now` (see `order_cutoff`).
pub fn order_cutoff_at(now: &str) -> (r: String)
    ensures
        r@ == order_cutoff(now@),
{
    let v = chars_of(now);
    let p = parse_stamp(v.as_slice());
    assert(p == clock_stamp(now@));
    match p {
        Some(t) => {
            let m: u32 = 15;
            assert(m as int == ORDER_TTL_MIN as int);
            if t.y == 0 && t.mo == 1 && t.d == 1 && t.h == 0 && t.mi < m {
                String::new()
            } else {
                proof {
                    assert(valid_stamp(t));
                    law_minutes_back_then_forward(t, m as int);
                }
                let c = minutes_back_of(t, m);
                stamp_string(c)
            }
        },
        None => String::new(),
    }
}

} // verus!
