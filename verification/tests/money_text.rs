use card::money::{cents_str, yuan_to_cents};
use card::text::{trim_str, chars_of, str_lt, strip_end_str};
use card::like::{like_match, eq_ignore_ascii_case};
use card::util::{enc, order_no_from, pad_digits, mask_contact, gen_token, gen_order_no};

#[test]
fn cents_render_with_two_decimals() {
    assert_eq!(cents_str(1250), "12.50");
    assert_eq!(cents_str(5), "0.05");
    assert_eq!(cents_str(0), "0.00");
    assert_eq!(cents_str(-5), "-0.05");
    assert_eq!(cents_str(-1999), "-19.99");
    assert_eq!(cents_str(100000000099), "1000000000.99");
}

#[test]
fn yuan_amounts_parse_to_cents() {
    assert_eq!(yuan_to_cents("12.5"), Some(1250));
    assert_eq!(yuan_to_cents("12.50"), Some(1250));
    assert_eq!(yuan_to_cents("12"), Some(1200));
    assert_eq!(yuan_to_cents("12."), Some(1200));
    assert_eq!(yuan_to_cents("  19.90 "), Some(1990));
    assert_eq!(yuan_to_cents("+3"), Some(300));
    assert_eq!(yuan_to_cents("0.01"), Some(1));
    assert_eq!(yuan_to_cents("10000000.99"), Some(1000000099));
}

#[test]
fn malformed_amounts_are_refused() {
    assert_eq!(yuan_to_cents(""), None);
    assert_eq!(yuan_to_cents("   "), None);
    assert_eq!(yuan_to_cents("-1"), None);
    assert_eq!(yuan_to_cents("1.234"), None);
    assert_eq!(yuan_to_cents("1.2a"), None);
    assert_eq!(yuan_to_cents("abc"), None);
    assert_eq!(yuan_to_cents(".5"), None);
    assert_eq!(yuan_to_cents("10000001"), None);
    assert_eq!(yuan_to_cents("1 2"), None);
}

#[test]
fn rendered_amounts_read_back() {
    for c in [0i64, 1, 9, 10, 99, 100, 1250, 1999, 123456, 1000000099] {
        assert_eq!(yuan_to_cents(&cents_str(c)), Some(c));
    }
    for c in [-1i64, -100, -1250] {
        assert_eq!(yuan_to_cents(&cents_str(c)), None);
    }
}

#[test]
fn text_helpers() {
    assert_eq!(trim_str("  a b \n"), "a b");
    assert_eq!(trim_str("\u{3000}全角\u{3000}"), "全角");
    assert_eq!(chars_of("中a"), vec!['中', 'a']);
    assert!(str_lt("abc", "abd"));
    assert!(str_lt("ab", "abc"));
    assert!(!str_lt("abc", "abc"));
    assert!(!str_lt("b", "abc"));
    assert_eq!(strip_end_str("http://x.com///", '/'), "http://x.com");
    assert_eq!(strip_end_str("///", '/'), "");
}

fn lk(p: &str, t: &str) -> bool {
    like_match(&chars_of(p), &chars_of(t))
}

#[test]
fn like_patterns_match_as_sqlite_does() {
    assert!(lk("%abc%", "xxABCyy"));
    assert!(lk("a_c", "abc"));
    assert!(!lk("a_c", "ac"));
    assert!(lk("%", ""));
    assert!(!lk("abc", "abcd"));
    assert!(lk("ab%", "ab"));
    assert!(lk("%卡%", "游戏点卡"));
    assert!(!lk("%Ä%", "ä"));
}

#[test]
fn ascii_case_is_ignored_only_for_ascii() {
    assert!(eq_ignore_ascii_case("AbC", "aBc"));
    assert!(!eq_ignore_ascii_case("abc", "abcd"));
    assert!(!eq_ignore_ascii_case("Ä", "ä"));
}

#[test]
fn url_encoding_of_query_values() {
    assert_eq!(enc("a b"), "a%20b");
    assert_eq!(enc("a-b_c.d~e"), "a-b_c.d~e");
    assert_eq!(enc("中"), "%E4%B8%AD");
    assert_eq!(enc("x@y.com&z=1"), "x%40y.com%26z%3D1");
}

#[test]
fn order_numbers_have_six_padded_digits() {
    assert_eq!(order_no_from("20260726120000", 42), "20260726120000000042");
    assert_eq!(order_no_from("20260726120000", 999999), "20260726120000999999");
    assert_eq!(pad_digits(7, 3), vec!['0', '0', '7']);
    assert_eq!(pad_digits(12345, 3), vec!['1', '2', '3', '4', '5']);
    let n = gen_order_no();
    assert_eq!(n.len(), 20);
    assert!(n.chars().all(|c| c.is_ascii_digit()));
}

#[test]
fn tokens_are_forty_eight_hex_digits() {
    let t = gen_token();
    assert_eq!(t.len(), 48);
    assert!(t.chars().all(|c| c.is_ascii_digit() || ('a'..='f').contains(&c)));
}

#[test]
fn contacts_are_masked() {
    assert_eq!(mask_contact("foo@bar.com"), "f***@bar.com");
    assert_eq!(mask_contact("@bar.com"), "***@bar.com");
    assert_eq!(mask_contact("13800138000"), "138***0");
    assert_eq!(mask_contact("abc"), "a***");
    assert_eq!(mask_contact(""), "***");
    assert_eq!(mask_contact("张三丰收"), "张三丰***收");
}
