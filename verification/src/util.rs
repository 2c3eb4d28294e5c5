//! Clock, randomness and URL encoding, through the outside crates that
//! provide them.

use vstd::prelude::*;
use crate::text::{dec, push_all, string_of};
use rand::Rng;

verus! {

/// `[0-9A-Za-z]` and `-`, `.`, `_`, `~`: the bytes URL encoding leaves alone.
pub open spec fn url_safe(b: u8) -> bool {
    (0x30 <= b && b <= 0x39) || (0x41 <= b && b <= 0x5a) || (0x61 <= b && b <= 0x7a) || b == 0x2d
        || b == 0x2e || b == 0x5f || b == 0x7e
}

/// Upper-case hexadecimal digit of `d < 16`.
pub open spec fn hex_upper(d: u8) -> char {
    if d < 10 {
        (0x30 + d) as char
    } else {
        (0x41 + d - 10) as char
    }
}

/// Percent-encoding of bytes: safe bytes as themselves, every other byte as
/// '%' and two upper-case hex digits.
pub open spec fn url_encoded(bs: Seq<u8>) -> Seq<char>
    decreases bs.len(),
{
    if bs.len() == 0 {
        Seq::empty()
    } else {
        let b = bs.last();
        url_encoded(bs.drop_last()) + if url_safe(b) {
            seq![b as char]
        } else {
            seq!['%', hex_upper(b >> 4), hex_upper(b & 15)]
        }
    }
}

/// URL-encodes text for a query string (`urlencoding::encode`): the crate
/// percent-encodes every byte of the UTF-8 text except ASCII letters,
/// digits and `-`, `.`, `_`, `~`, writing hex digits in upper case.
#[verifier::external_body]
pub fn enc(s: &str) -> (r: String)
    ensures
        r@ == url_encoded(vstd::utf8::encode_utf8(s@)),
{
    urlencoding::encode(s).into_owned()
}

/// The current local time as "YYYY-MM-DD HH:MM:SS" (`chrono::Local::now`
/// formatted with "%Y-%m-%d %H:%M:%S").  Which time it is depends on the
/// clock; what is claimed is only the shape chrono's formatting gives a
/// local date and time (`clock_text`): a real date and time, the year
/// zero-padded to four digits, or signed outside the years 0 to 9999.
#[verifier::external_body]
pub fn now_str() -> (r: String)
    ensures
        crate::clock::clock_text(r@),
{
    chrono::Local::now().format("%Y-%m-%d %H:%M:%S").to_string()
}

/// The local time `minutes` minutes ago, formatted as `now_str`; it depends
/// on the clock, so nothing is claimed of it.  chrono panics when the span
/// or the time it leads to is out of its range, hence the bound (under two
/// years).
#[verifier::external_body]
pub fn minutes_ago_str(minutes: i64) -> String
    requires
        0 <= minutes <= 1_000_000,
{
    (chrono::Local::now() - chrono::Duration::minutes(minutes)).format("%Y-%m-%d %H:%M:%S").to_string()
}

/// Today's date as "YYYY-MM-DD"; it depends on the clock, so nothing is
/// claimed of it.
#[verifier::external_body]
pub fn today_str() -> String {
    chrono::Local::now().format("%Y-%m-%d").to_string()
}

/// A character of a time stamp as chrono writes it: a digit, or the sign
/// it puts before a year outside 0..=9999.
pub open spec fn stamp_char(c: char) -> bool {
    ('0' <= c && c <= '9') || c == '+' || c == '-'
}

/// A "YYYYMMDDHHMMSS" stamp as chrono writes it: the year has at least four
/// digits, with a sign and at most six digits outside 0..=9999 (chrono's
/// years run from -262143 to 262143), and the other fields two digits
/// each; so 14 to 17 characters, digits but for the sign.
pub open spec fn time_stamp(s: Seq<char>) -> bool {
    14 <= s.len() <= 17 && forall|i: int| 0 <= i < s.len() ==> stamp_char(#[trigger] s[i])
}

/// The local time as "YYYYMMDDHHMMSS" (`chrono::Local::now` formatted with
/// `%Y%m%d%H%M%S`), the first part of an order number and of a stored image
/// name.  Which time it is depends on the clock; what is claimed is only
/// the shape that chrono's formatting gives every time (`time_stamp`).
#[verifier::external_body]
pub(crate) fn compact_now() -> (r: String)
    ensures
        time_stamp(r@),
{
    chrono::Local::now().format("%Y%m%d%H%M%S").to_string()
}

/// The time `days` days from now, formatted as `now_str`; it depends on the
/// clock, so nothing is claimed of it.  chrono panics when the span or the
/// time it leads to is out of its range, hence the bound (a century).
#[verifier::external_body]
pub fn days_later_str(days: i64) -> String
    requires
        0 <= days <= 36_500,
{
    (chrono::Local::now() + chrono::Duration::days(days)).format("%Y-%m-%d %H:%M:%S").to_string()
}

/// A random number below `n` (`rand::thread_rng().gen_range(0..n)`); the
/// crate panics on an empty range, hence `n > 0`.
#[verifier::external_body]
pub fn random_below(n: u32) -> (r: u32)
    requires
        n > 0,
    ensures
        r < n,
{
    rand::thread_rng().gen_range(0..n)
}

/// `n` with at least `w` digits, zero-padded on the left.
pub open spec fn zero_padded(n: nat, w: nat) -> Seq<char> {
    let d = dec(n);
    if d.len() >= w {
        d
    } else {
        Seq::new((w - d.len()) as nat, |i: int| '0') + d
    }
}

pub fn pad_digits(n: u64, w: usize) -> (r: Vec<char>)
    ensures
        r@ == zero_padded(n as nat, w as nat),
{
    let d = crate::text::dec_chars(n);
    let mut r: Vec<char> = Vec::new();
    if d.len() < w {
        let k = w - d.len();
        let mut i: usize = 0;
        while i < k
            invariant
                i <= k,
                r@ == Seq::new(i as nat, |j: int| '0'),
            decreases k - i,
        {
            r.push('0');
            i = i + 1;
            assert(r@ =~= Seq::new(i as nat, |j: int| '0'));
        }
    }
    push_all(&mut r, d.as_slice());
    r
}

/// An order number: the time stamp followed by the random number `n`
/// zero-padded to six digits.
pub open spec fn order_no_text(stamp: Seq<char>, n: nat) -> Seq<char> {
    stamp + zero_padded(n, 6)
}

/// Order number from a time stamp and a random number below one million.
pub fn order_no_from(stamp: &str, n: u32) -> (r: String)
    ensures
        r@ == order_no_text(stamp@, n as nat),
{
    let mut v = crate::text::chars_of(stamp);
    let d = pad_digits(n as u64, 6);
    push_all(&mut v, d.as_slice());
    string_of(v.as_slice())
}

/// A new order number: the current time "YYYYMMDDHHMMSS" and six random
/// digits.
pub fn gen_order_no() -> (r: String)
    ensures
        exists|stamp: Seq<char>, n: nat| n < 1_000_000 && time_stamp(stamp) && r@ == order_no_text(stamp, n),
{
    let ts = compact_now();
    let n = random_below(1_000_000);
    order_no_from(ts.as_str(), n)
}

/// Lower-case hexadecimal digit of `d < 16`.
pub open spec fn hex_lower(d: int) -> char {
    if d < 10 {
        (0x30 + d) as char
    } else {
        (0x61 + d - 10) as char
    }
}

/// A lower-case hexadecimal digit.
pub open spec fn is_hex_lower(c: char) -> bool {
    ('0' <= c && c <= '9') || ('a' <= c && c <= 'f')
}

pub fn hex_lower_char(d: u32) -> (c: char)
    requires
        d < 16,
    ensures
        c == hex_lower(d as int),
        is_hex_lower(c),
{
    if d < 10 {
        ((0x30 + d) as u8) as char
    } else {
        ((0x61 + d - 10) as u8) as char
    }
}

/// Forty-eight random lower-case hex digits: a session token.
pub fn gen_token() -> (r: String)
    ensures
        r@.len() == 48,
        forall|i: int| 0 <= i < 48 ==> is_hex_lower(#[trigger] r@[i]),
{
    let mut v: Vec<char> = Vec::new();
    let mut i: usize = 0;
    while i < 48
        invariant
            i <= 48,
            v@.len() == i,
            forall|j: int| 0 <= j < i ==> is_hex_lower(#[trigger] v@[j]),
        decreases 48 - i,
    {
        let d = random_below(16);
        let c = hex_lower_char(d);
        v.push(c);
        i = i + 1;
    }
    string_of(v.as_slice())
}

/// A contact with most of it hidden: up to three characters keep the first
/// one; a mail address keeps the first character before '@' and the whole
/// domain part; anything else keeps the first three and the last character.
pub open spec fn masked_contact(s: Seq<char>) -> Seq<char> {
    if s.len() <= 3 {
        s.take(if s.len() > 0 {
            1int
        } else {
            0int
        }) + "***"@
    } else if s.contains('@') {
        let at = crate::money::idx_of(s, '@') as int;
        s.take(if at > 0 {
            1int
        } else {
            0int
        }) + "***"@ + s.skip(at)
    } else {
        s.take(3) + "***"@ + seq![s.last()]
    }
}

/// Masks a contact for display, e.g. "foo@bar.com" as "f***@bar.com".
pub fn mask_contact(s: &str) -> (r: String)
    ensures
        r@ == masked_contact(s@),
{
    let v = crate::text::chars_of(s);
    let mut out: Vec<char> = Vec::new();
    if v.len() <= 3 {
        if v.len() > 0 {
            out.push(v[0]);
        }
        crate::text::push_str(&mut out, "***");
        proof {
            if v@.len() > 0 {
                assert(out@ =~= v@.take(1) + "***"@);
            } else {
                assert(out@ =~= v@.take(0) + "***"@);
            }
        }
        return string_of(out.as_slice());
    }
    let at = crate::money::find_char(v.as_slice(), '@');
    if at < v.len() {
        if at > 0 {
            out.push(v[0]);
        }
        crate::text::push_str(&mut out, "***");
        let rest = crate::text::slice_range(v.as_slice(), at, v.len());
        push_all(&mut out, rest.as_slice());
        proof {
            assert(v@.contains('@')) by {
                assert(v@[at as int] == '@');
            }
            assert(rest@ =~= v@.skip(at as int));
            if at > 0 {
                assert(out@ =~= v@.take(1) + "***"@ + v@.skip(at as int));
            } else {
                assert(out@ =~= v@.take(0) + "***"@ + v@.skip(at as int));
            }
        }
        string_of(out.as_slice())
    } else {
        out.push(v[0]);
        out.push(v[1]);
        out.push(v[2]);
        crate::text::push_str(&mut out, "***");
        out.push(v[v.len() - 1]);
        proof {
            assert(!v@.contains('@')) by {
                if v@.contains('@') {
                    let j = choose|j: int| 0 <= j < v@.len() && v@[j] == '@';
                    assert(v@[j] != '@');
                }
            }
            assert(out@ =~= v@.take(3) + "***"@ + seq![v@.last()]);
        }
        string_of(out.as_slice())
    }
}

} // verus!
