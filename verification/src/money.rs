//! Amounts are kept in cents (integers); these render and parse the
//! "yuan.cents" text that people type and read.

use vstd::prelude::*;
use crate::text::{chars_of, dec, dec_chars, digit_char, digit_to_char, is_ws, lemma_lead_ws_unique, lemma_trail_ws, lemma_trail_ws_unique, push_all, string_of, trail_ws, trim, trim_chars};

verus! {

/// Largest whole-yuan part that `yuan_to_cents` accepts.
pub const MAX_YUAN: u64 = 10_000_000;

pub open spec fn abs(c: int) -> int {
    if c < 0 { -c } else { c }
}

/// Two zero-padded digits of `n` (`{:02}` for `n < 100`).
pub open spec fn two_digits(n: int) -> Seq<char> {
    seq![digit_char(n / 10), digit_char(n % 10)]
}

/// `cents_str`: an optional '-', whole yuan, '.', two digits of cents.
pub open spec fn cents_text(c: int) -> Seq<char> {
    let a = abs(c);
    (if c < 0 { seq!['-'] } else { Seq::<char>::empty() }) + dec((a / 100) as nat) + seq!['.']
        + two_digits(a % 100)
}

pub open spec fn is_digit(c: char) -> bool {
    '0' <= c && c <= '9'
}

pub open spec fn all_digits(s: Seq<char>) -> bool {
    forall|i: int| 0 <= i < s.len() ==> is_digit(#[trigger] s[i])
}

pub open spec fn digit_value(c: char) -> int {
    (c as u32) - ('0' as u32)
}

/// Value of a string of decimal digits.
pub open spec fn digits_value(s: Seq<char>) -> nat
    decreases s.len(),
{
    if s.len() == 0 {
        0
    } else {
        (digits_value(s.drop_last()) * 10 + digit_value(s.last())) as nat
    }
}

/// An unsigned integer as `str::parse::<i64>` reads one that does not start
/// with '-': an optional '+' and at least one digit.  Values too large for an
/// `i64` come out as large naturals here; callers bound them.
pub open spec fn parse_plus_digits(s: Seq<char>) -> Option<nat> {
    let d = if s.len() > 0 && s[0] == '+' { s.drop_first() } else { s };
    if d.len() > 0 && all_digits(d) {
        Some(digits_value(d))
    } else {
        None
    }
}

/// Number of characters before the first `c` (the length when there is none).
pub open spec fn idx_of(s: Seq<char>, c: char) -> nat
    decreases s.len(),
{
    if s.len() > 0 && s[0] != c {
        1 + idx_of(s.drop_first(), c)
    } else {
        0
    }
}

/// Cents of the fraction after the point: none or empty is 0, one digit is
/// tenths, two digits are cents, anything else is refused.
pub open spec fn frac_cents(f: Option<Seq<char>>) -> Option<int> {
    match f {
        None => Some(0),
        Some(f) => if f.len() == 0 {
            Some(0)
        } else if f.len() > 2 || !all_digits(f) {
            None
        } else if f.len() == 1 {
            Some(digit_value(f[0]) * 10)
        } else {
            Some(digit_value(f[0]) * 10 + digit_value(f[1]))
        },
    }
}

/// `yuan_to_cents`: the trimmed text, not empty and not starting with '-',
/// split at its first '.', whole part at most `MAX_YUAN`.
pub open spec fn yuan_cents(s0: Seq<char>) -> Option<int> {
    let s = trim(s0);
    if s.len() == 0 || s[0] == '-' {
        None
    } else {
        let k = idx_of(s, '.');
        let whole = s.take(k as int);
        let frac = if k < s.len() { Some(s.skip(k + 1 as int)) } else { None };
        match (parse_plus_digits(whole), frac_cents(frac)) {
            (Some(w), Some(f)) => if w > MAX_YUAN { None } else { Some(w * 100 + f) },
            _ => None,
        }
    }
}

/// Renders an amount in cents as yuan with two decimals, e.g. 1250 as "12.50".
pub fn cents_str(cents: i64) -> (r: String)
    ensures
        r@ == cents_text(cents as int),
{
    let a: u64 = if cents < 0 {
        if cents == i64::MIN {
            9223372036854775808u64
        } else {
            (-cents) as u64
        }
    } else {
        cents as u64
    };
    let mut v: Vec<char> = Vec::new();
    if cents < 0 {
        v.push('-');
    }
    let w = dec_chars(a / 100);
    push_all(&mut v, w.as_slice());
    v.push('.');
    let c = a % 100;
    v.push(digit_to_char(c / 10));
    v.push(digit_to_char(c % 10));
    proof {
        assert(a as int == abs(cents as int));
        assert(v@ =~= cents_text(cents as int));
    }
    string_of(v.as_slice())
}

pub fn char_is_digit(c: char) -> (b: bool)
    ensures
        b == is_digit(c),
{
    '0' <= c && c <= '9'
}

pub fn char_digit(c: char) -> (d: u64)
    requires
        is_digit(c),
    ensures
        d == digit_value(c),
        d < 10,
{
    ((c as u32) - ('0' as u32)) as u64
}

pub proof fn lemma_digits_value_step(s: Seq<char>, i: int)
    requires
        0 <= i < s.len(),
        is_digit(s[i]),
    ensures
        digits_value(s.take(i + 1)) == digits_value(s.take(i)) * 10 + digit_value(s[i]),
{
    assert(s.take(i + 1).drop_last() =~= s.take(i));
    assert(s.take(i + 1).last() == s[i]);
}

pub proof fn lemma_digit_char(k: int)
    requires
        0 <= k < 10,
    ensures
        digit_value(digit_char(k)) == k,
        is_digit(digit_char(k)),
        !is_ws(digit_char(k)),
        digit_char(k) != '.',
        digit_char(k) != '-',
        digit_char(k) != '+',
{
}

/// Parses `v[lo..hi]` as in `parse_plus_digits`, giving `None` also when the
/// value exceeds `cap`.
pub fn parse_digits_capped(v: &[char], lo: usize, hi: usize, cap: u64) -> (r: Option<u64>)
    requires
        lo <= hi <= v@.len(),
        cap <= MAX_YUAN,
    ensures
        r matches Some(w) ==> parse_plus_digits(v@.subrange(lo as int, hi as int)) == Some(
            w as nat,
        ) && w <= cap,
        r is None ==> match parse_plus_digits(v@.subrange(lo as int, hi as int)) {
            Some(w) => w > cap,
            None => true,
        },
{
    let ghost s = v@.subrange(lo as int, hi as int);
    let mut i = lo;
    if i < hi && v[i] == '+' {
        i = i + 1;
    }
    let ghost d = v@.subrange(i as int, hi as int);
    proof {
        if s.len() > 0 && s[0] == '+' {
            assert(d =~= s.drop_first());
        } else {
            assert(d =~= s);
        }
    }
    if i == hi {
        return None;
    }
    let start = i;
    let mut val: u64 = 0;
    let mut big = false;
    while i < hi
        invariant
            lo <= start <= i <= hi <= v@.len(),
            start < hi,
            cap <= MAX_YUAN,
            s == v@.subrange(lo as int, hi as int),
            d == v@.subrange(start as int, hi as int),
            d == (if s.len() > 0 && s[0] == '+' { s.drop_first() } else { s }),
            forall|j: int| 0 <= j < i - start ==> is_digit(#[trigger] d[j]),
            !big ==> val as nat == digits_value(d.take(i - start)) && val <= cap,
            big ==> digits_value(d.take(i - start)) > cap,
        decreases hi - i,
    {
        let c = v[i];
        if !char_is_digit(c) {
            assert(d[i - start] == c);
            return None;
        }
        proof {
            assert(d[i - start] == c);
            lemma_digits_value_step(d, i - start);
        }
        let x = char_digit(c);
        if !big {
            let nv = val * 10 + x;
            if nv > cap {
                big = true;
            } else {
                val = nv;
            }
        }
        i = i + 1;
    }
    assert(d.take(d.len() as int) =~= d);
    if big {
        None
    } else {
        Some(val)
    }
}

/// Index of the first `c` in `v`, or its length.
pub fn find_char(v: &[char], c: char) -> (k: usize)
    ensures
        k == idx_of(v@, c),
        k <= v@.len(),
        forall|j: int| 0 <= j < k ==> v@[j] != c,
        k < v@.len() ==> v@[k as int] == c,
{
    let mut k: usize = 0;
    while k < v.len() && v[k] != c
        invariant
            k <= v@.len(),
            forall|j: int| 0 <= j < k ==> v@[j] != c,
        decreases v@.len() - k,
    {
        k = k + 1;
    }
    proof {
        lemma_idx_of(v@, c, k as int);
    }
    k
}

pub proof fn lemma_idx_of(s: Seq<char>, c: char, k: int)
    requires
        0 <= k <= s.len(),
        forall|j: int| 0 <= j < k ==> s[j] != c,
        k < s.len() ==> s[k] == c,
    ensures
        idx_of(s, c) == k,
    decreases s.len(),
{
    if k > 0 {
        assert forall|j: int| 0 <= j < k - 1 implies s.drop_first()[j] != c by {
            assert(s[j + 1] != c);
        }
        lemma_idx_of(s.drop_first(), c, k - 1);
    }
}

/// Parses a yuan amount such as "12.5", "12.50" or "12" into cents (1250).
/// Refuses empty or negative text, more than two decimals, and whole parts
/// above ten million.
pub fn yuan_to_cents(s: &str) -> (r: Option<i64>)
    ensures
        r matches Some(c) ==> yuan_cents(s@) == Some(c as int),
        r is None ==> yuan_cents(s@) is None,
{
    let v0 = chars_of(s);
    let v = trim_chars(v0.as_slice());
    let n = v.len();
    if n == 0 || v[0] == '-' {
        return None;
    }
    let k = find_char(v.as_slice(), '.');
    let ghost t = v@;
    proof {
        assert(v@.subrange(0, k as int) =~= t.take(k as int));
    }
    let w = match parse_digits_capped(v.as_slice(), 0, k, MAX_YUAN) {
        Some(w) => w,
        None => return None,
    };
    let f: u64 = if k < n {
        let flen = n - k - 1;
        proof {
            assert(v@.subrange(k + 1, n as int) =~= t.skip(k + 1));
        }
        if flen == 0 {
            0
        } else if flen > 2 {
            return None;
        } else {
            let c1 = v[k + 1];
            if !char_is_digit(c1) {
                assert(t.skip(k + 1)[0] == c1);
                return None;
            }
            if flen == 1 {
                proof {
                    assert(t.skip(k + 1)[0] == c1);
                    assert(all_digits(t.skip(k + 1)));
                }
                char_digit(c1) * 10
            } else {
                let c2 = v[k + 2];
                if !char_is_digit(c2) {
                    assert(t.skip(k + 1)[1] == c2);
                    return None;
                }
                proof {
                    assert(t.skip(k + 1)[0] == c1);
                    assert(t.skip(k + 1)[1] == c2);
                    assert(all_digits(t.skip(k + 1)));
                }
                char_digit(c1) * 10 + char_digit(c2)
            }
        }
    } else {
        0
    };
    Some((w * 100 + f) as i64)
}

// ---------- laws ----------

pub proof fn lemma_dec_digits(n: nat)
    ensures
        all_digits(dec(n)),
        dec(n).len() > 0,
        digits_value(dec(n)) == n,
        !is_ws(dec(n)[0]),
        dec(n)[0] != '-',
        dec(n)[0] != '+',
    decreases n,
{
    if n >= 10 {
        lemma_dec_digits(n / 10);
        lemma_digit_char((n % 10) as int);
        let d = dec(n);
        assert(d.drop_last() =~= dec(n / 10));
        assert(d[0] == dec(n / 10)[0]);
        assert(d.last() == digit_char((n % 10) as int));
        assert forall|i: int| 0 <= i < d.len() implies is_digit(#[trigger] d[i]) by {
            if i < d.len() - 1 {
                assert(d[i] == dec(n / 10)[i]);
            }
        }
        assert((n / 10) * 10 + n % 10 == n) by (nonlinear_arith);
        assert(digits_value(d) == digits_value(d.drop_last()) * 10 + digit_value(d.last()));
        assert(digits_value(d) == (n / 10) * 10 + n % 10);
    } else {
        lemma_digit_char(n as int);
        let d = dec(n);
        assert(d.drop_last() =~= Seq::<char>::empty());
        assert(digits_value(d.drop_last()) == 0);
        assert(d.last() == digit_char(n as int));
        assert(digits_value(d) == digits_value(d.drop_last()) * 10 + digit_value(d.last()));
    }
}

/// Every amount of at most `MAX_YUAN` yuan and 99 cents that `cents_str`
/// renders is read back by `yuan_to_cents` as the same number of cents.
pub proof fn law_cents_roundtrip(c: int)
    requires
        0 <= c <= MAX_YUAN * 100 + 99,
    ensures
        yuan_cents(cents_text(c)) == Some(c),
{
    let w = (c / 100) as nat;
    let f = c % 100;
    let d = dec(w);
    lemma_dec_digits(w);
    let s = cents_text(c);
    assert(s =~= d + seq!['.'] + two_digits(f));
    // no whitespace anywhere
    assert forall|i: int| 0 <= i < s.len() implies !is_ws(#[trigger] s[i]) by {
        if i < d.len() {
            assert(is_digit(d[i]));
        }
    }
    lemma_lead_ws_unique(s, 0);
    lemma_trail_ws_unique(s.skip(0), 0);
    assert(s.skip(0) =~= s);
    assert(trim(s) =~= s);
    assert forall|j: int| 0 <= j < d.len() implies s[j] != '.' by {
        assert(is_digit(d[j]));
    }
    lemma_idx_of(s, '.', d.len() as int);
    assert(s.take(d.len() as int) =~= d);
    assert(s.skip(d.len() + 1 as int) =~= two_digits(f));
    assert(parse_plus_digits(d) == Some(w));
}

/// A negative amount's rendering is refused by `yuan_to_cents`.
pub proof fn law_negative_refused(c: int)
    requires
        c < 0,
    ensures
        yuan_cents(cents_text(c)) is None,
{
    let s = cents_text(c);
    assert(s[0] == '-');
    assert(!is_ws('-'));
    lemma_lead_ws_unique(s, 0);
    let t = s.skip(0);
    assert(t =~= s);
    lemma_trail_ws(t);
    let tr = trail_ws(t);
    assert(s.last() == digit_char(abs(c) % 100 % 10));
    assert(!is_ws(s.last()));
    lemma_trail_ws_unique(t, 0);
    assert(trim(s) =~= s);
}

/// Whatever `yuan_to_cents` accepts lies between 0 and `MAX_YUAN` yuan 99 cents.
pub proof fn law_yuan_range(s: Seq<char>)
    ensures
        yuan_cents(s) matches Some(c) ==> 0 <= c <= MAX_YUAN * 100 + 99,
{
    let t = trim(s);
    if t.len() > 0 && t[0] != '-' {
        let k = idx_of(t, '.');
        let frac = if k < t.len() { Some(t.skip(k + 1 as int)) } else { None };
        match frac {
            Some(f) => {
                if f.len() > 0 && f.len() <= 2 && all_digits(f) {
                    assert(is_digit(f[0]));
                    if f.len() == 2 {
                        assert(is_digit(f[1]));
                    }
                }
            },
            None => {},
        }
    }
}

} // verus!
