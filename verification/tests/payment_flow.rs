use card::models::{Order, Store};
use card::payment::{
    Params, PayConfig, epay_sign, verify_epay_notify, check_epay_notify, epay_form_fields, pay_config,
    sign_entries, hex_of,
};

fn order(total: i64) -> Order {
    Order {
        id: 1,
        order_no: "20260726120000000042".to_string(),
        product_id: 3,
        product_name: "视频会员 · 月卡".to_string(),
        quantity: 1,
        unit_cents: total,
        total_cents: total,
        contact: "a b@x.com".to_string(),
        status: 0,
        pay_method: String::new(),
        created_at: "2026-07-26 12:00:00".to_string(),
        paid_at: None,
    }
}

fn cfg(alipay: bool, wxpay: bool) -> PayConfig {
    PayConfig {
        mode: "epay".to_string(),
        gateway: "https://pay.example.com/submit.php".to_string(),
        pid: "1001".to_string(),
        key: "KEY".to_string(),
        site_url: "https://shop.example.com".to_string(),
        alipay,
        wxpay,
    }
}

fn md5_hex(s: &str) -> String {
    format!("{:x}", md5::compute(s.as_bytes()))
}

#[test]
fn params_stay_in_key_order() {
    let mut p = Params::new();
    p.insert("b", "2");
    p.insert("a", "1");
    p.insert("c", "3");
    p.insert("b", "22");
    assert_eq!(p.get("b"), Some("22".to_string()));
    assert_eq!(p.get("a"), Some("1".to_string()));
    assert_eq!(p.get("zz"), None);
    // the signature sees them in key order
    assert_eq!(epay_sign(&p, "K"), md5_hex("a=1&b=22&c=3K"));
}

#[test]
fn signature_skips_empty_values_and_signature_fields() {
    let mut p = Params::new();
    p.insert("pid", "1001");
    p.insert("name", "x");
    p.insert("money", "1.00");
    p.insert("sign", "zzz");
    p.insert("sign_type", "MD5");
    p.insert("empty", "");
    assert_eq!(epay_sign(&p, "KEY"), md5_hex("money=1.00&name=x&pid=1001KEY"));
    // a different key gives a different signature
    assert_ne!(epay_sign(&p, "KEY2"), epay_sign(&p, "KEY"));
}

#[test]
fn digests_print_as_lower_hex() {
    assert_eq!(hex_of(&[0x00, 0x0f, 0xa0, 0xff]), "000fa0ff");
    let e = vec![("a".to_string(), "1".to_string())];
    assert_eq!(sign_entries(&e, "k"), md5_hex("a=1k"));
    assert_eq!(sign_entries(&[], "k"), md5_hex("k"));
}

fn notify(total: &str, status: &str, key: &str) -> Params {
    let mut p = Params::new();
    p.insert("pid", "1001");
    p.insert("trade_no", "T1");
    p.insert("out_trade_no", "20260726120000000042");
    p.insert("type", "alipay");
    p.insert("name", "视频会员 · 月卡");
    p.insert("money", total);
    p.insert("trade_status", status);
    let s = epay_sign(&p, key);
    p.insert("sign", &s);
    p.insert("sign_type", "MD5");
    p
}

#[test]
fn a_correct_notification_is_accepted() {
    let p = notify("12.50", "TRADE_SUCCESS", "KEY");
    assert_eq!(verify_epay_notify(&p, &cfg(true, true), &order(1250)), Ok(()));
}

#[test]
fn the_signature_is_compared_ignoring_case() {
    let mut p = notify("12.50", "TRADE_SUCCESS", "KEY");
    let s = p.get("sign").unwrap().to_ascii_uppercase();
    p.insert("sign", &s);
    assert_eq!(verify_epay_notify(&p, &cfg(true, true), &order(1250)), Ok(()));
}

#[test]
fn notification_errors() {
    let c = cfg(true, true);
    let mut p = notify("12.50", "TRADE_SUCCESS", "KEY");
    p.insert("sign", "");
    assert_eq!(verify_epay_notify(&p, &c, &order(1250)), Err("缺少签名".to_string()));

    let p = notify("12.50", "TRADE_SUCCESS", "OTHER");
    assert_eq!(verify_epay_notify(&p, &c, &order(1250)), Err("签名校验失败".to_string()));

    let p = notify("12.50", "WAIT_BUYER_PAY", "KEY");
    assert_eq!(verify_epay_notify(&p, &c, &order(1250)), Err("交易状态非成功".to_string()));

    let p = notify("12.00", "TRADE_SUCCESS", "KEY");
    assert_eq!(
        verify_epay_notify(&p, &c, &order(1250)),
        Err("金额不一致：应付 12.50 实付 12.00".to_string())
    );

    let p = notify("abc", "TRADE_SUCCESS", "KEY");
    assert_eq!(
        verify_epay_notify(&p, &c, &order(1250)),
        Err("金额不一致：应付 12.50 实付 abc".to_string())
    );
}

#[test]
fn a_notification_without_signature_field_is_refused() {
    let mut p = Params::new();
    p.insert("money", "1.00");
    assert_eq!(check_epay_notify(&p, "abc", 100), Err("缺少签名".to_string()));
    p.insert("sign", "ABC");
    p.insert("trade_status", "TRADE_SUCCESS");
    assert_eq!(check_epay_notify(&p, "abc", 100), Ok(()));
    assert_eq!(check_epay_notify(&p, "abc", 101), Err("金额不一致：应付 1.01 实付 1.00".to_string()));
}

#[test]
fn the_checkout_form_is_signed_in_key_order() {
    let c = cfg(true, true);
    let f = epay_form_fields(&order(1250), &c, "alipay");
    let keys: Vec<&str> = f.iter().map(|(k, _)| k.as_str()).collect();
    assert_eq!(
        keys,
        vec!["money", "name", "notify_url", "out_trade_no", "pid", "return_url", "sign", "sign_type", "type"]
    );
    assert_eq!(f[0].1, "12.50");
    assert_eq!(f[2].1, "https://shop.example.com/api/pay/epay/notify");
    assert_eq!(f[5].1, "https://shop.example.com/order/20260726120000000042?c=a%20b%40x.com");
    assert_eq!(f[7].1, "MD5");
    // the form verifies against its own signature
    let mut p = Params::new();
    for (k, v) in &f {
        p.insert(k, v);
    }
    assert_eq!(epay_sign(&p, "KEY"), f[6].1);
    let base = format!(
        "money=12.50&name={}&notify_url={}&out_trade_no={}&pid=1001&return_url={}&type=alipayKEY",
        "视频会员 · 月卡", f[2].1, "20260726120000000042", f[5].1
    );
    assert_eq!(f[6].1, md5_hex(&base));
}

#[test]
fn without_a_channel_the_form_has_no_type() {
    let f = epay_form_fields(&order(1250), &cfg(false, false), "");
    assert_eq!(f.len(), 8);
    assert!(f.iter().all(|(k, _)| k != "type"));
}

#[test]
fn checkout_channels_follow_the_switches() {
    let o = order(1250);
    let both = cfg(true, true).channels(&o);
    assert_eq!(both.len(), 2);
    assert_eq!(both[0].pay_type, "alipay");
    assert_eq!(both[0].label, "支付宝");
    assert_eq!(both[1].pay_type, "wxpay");
    assert_eq!(both[1].label, "微信支付");
    assert_eq!(both[1].fields, epay_form_fields(&o, &cfg(true, true), "wxpay"));
    let wx = cfg(false, true).channels(&o);
    assert_eq!(wx.len(), 1);
    assert_eq!(wx[0].pay_type, "wxpay");
    let none = cfg(false, false).channels(&o);
    assert_eq!(none.len(), 1);
    assert_eq!(none[0].pay_type, "");
    assert_eq!(none[0].label, "其他方式");
}

#[test]
fn payment_settings_come_from_the_shop() {
    let mut s = Store::new();
    let c = pay_config(&s);
    assert_eq!(c.mode, "mock");
    assert!(!c.epay_ready());
    assert!(!c.alipay && !c.wxpay);
    s.seed_settings();
    s.set_setting("pay_mode", "epay");
    s.set_setting("site_url", "https://shop.example.com//");
    let c = pay_config(&s);
    assert_eq!(c.mode, "epay");
    assert_eq!(c.site_url, "https://shop.example.com");
    assert!(c.alipay && c.wxpay);
    assert!(!c.epay_ready());
    s.set_setting("epay_gateway", "https://pay.example.com");
    s.set_setting("epay_pid", "1001");
    s.set_setting("epay_key", "KEY");
    assert!(pay_config(&s).epay_ready());
    s.set_setting("pay_mode", "EPAY");
    assert_eq!(pay_config(&s).mode, "mock");
}

#[test]
fn unsigned_parameters_leave_the_signature() {
    let mut p = Params::new();
    p.insert("pid", "1001");
    p.insert("money", "1.00");
    let before = epay_sign(&p, "KEY");
    p.insert("sign", "abc");
    p.insert("sign_type", "MD5");
    p.insert("empty", "");
    assert_eq!(epay_sign(&p, "KEY"), before);
    p.insert("sign", "changed");
    assert_eq!(epay_sign(&p, "KEY"), before);
    // a signed value does change it
    p.insert("name", "x");
    assert_ne!(epay_sign(&p, "KEY"), before);
}
