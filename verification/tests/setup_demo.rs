use card::models::{Store, Card, Order};
use card::pages::{SettingsForm, MailForm, IndexQ, CardsQ, remain_at, remain_secs};
use card::payment::pay_config;
use card::mailer::mail_cfg;
use card::demo::demo_code;

fn codes(n: usize) -> Vec<Vec<char>> {
    (0..n).map(|i| format!("XS-AAAA-BBBB-{:04}", i).chars().collect()).collect()
}

#[test]
fn default_settings_fill_only_the_gaps() {
    let mut s = Store::new();
    s.set_setting("site_name", "我的店");
    s.seed_settings();
    assert_eq!(s.settings.len(), 21);
    assert_eq!(s.get_setting("site_name"), "我的店");
    assert_eq!(s.get_setting("pay_mode"), "mock");
    assert_eq!(s.get_setting("smtp_port"), "465");
    assert_eq!(s.get_setting("epay_alipay"), "1");
    assert_eq!(s.get_setting("nonexistent"), "");
    s.seed_settings();
    assert_eq!(s.settings.len(), 21);
    assert!(s.check_wf());
}

#[test]
fn a_setting_reads_back_as_written() {
    let mut s = Store::new();
    s.set_setting("k", "1");
    s.set_setting("j", "2");
    s.set_setting("k", "3");
    assert_eq!(s.get_setting("k"), "3");
    assert_eq!(s.get_setting("j"), "2");
    assert_eq!(s.settings.len(), 2);
    s.set_default("k", "9");
    assert_eq!(s.get_setting("k"), "3");
}

#[test]
fn the_site_context() {
    let mut s = Store::new();
    s.seed_settings();
    let c = s.site_ctx();
    assert_eq!(c.name, "潇洒哥的卡台");
    assert_eq!(c.mark, "XSG·CARDS");
    assert_eq!(c.theme, "dark");
    s.set_setting("default_theme", "light");
    assert_eq!(s.site_ctx().theme, "light");
    s.set_setting("default_theme", "blue");
    assert_eq!(s.site_ctx().theme, "dark");
}

#[test]
fn saving_the_settings_form() {
    let mut s = Store::new();
    s.seed_settings();
    let f = SettingsForm {
        site_name: " 新店 ".to_string(),
        site_mark: "M".to_string(),
        site_subtitle: "".to_string(),
        announcement: " 公告 ".to_string(),
        default_theme: "light".to_string(),
        site_url: " https://a.example.com// ".to_string(),
        pay_mode: "something".to_string(),
        epay_gateway: " g ".to_string(),
        epay_pid: "p".to_string(),
        epay_key: " k ".to_string(),
    };
    s.save_settings(&f);
    assert_eq!(s.get_setting("site_name"), "新店");
    assert_eq!(s.get_setting("announcement"), "公告");
    assert_eq!(s.get_setting("default_theme"), "light");
    assert_eq!(s.get_setting("site_url"), "https://a.example.com");
    assert_eq!(s.get_setting("pay_mode"), "mock");
    assert_eq!(s.get_setting("epay_key"), "k");
    assert_eq!(s.settings.len(), 21);
    let f2 = SettingsForm { default_theme: "LIGHT".to_string(), pay_mode: "epay".to_string(), ..f };
    s.save_settings(&f2);
    assert_eq!(s.get_setting("default_theme"), "dark");
    assert_eq!(s.get_setting("pay_mode"), "epay");
}

#[test]
fn saving_the_mail_form_keeps_an_unchanged_password() {
    let mut s = Store::new();
    s.seed_settings();
    let f = MailForm {
        enabled: true,
        host: " smtp.x.com ".to_string(),
        port: " 587 ".to_string(),
        security: "starttls".to_string(),
        user: "u".to_string(),
        pass: " secret ".to_string(),
        from: "a@x.com".to_string(),
        from_name: "".to_string(),
        admin_to: "o@x.com".to_string(),
    };
    s.save_mail_settings(&f);
    assert_eq!(s.get_setting("smtp_pass"), " secret ");
    let c = mail_cfg(&s);
    assert!(c.enabled && c.ready());
    assert_eq!(c.port, 587);
    assert_eq!(c.security, "starttls");
    let f2 = MailForm { pass: "".to_string(), security: "weird".to_string(), enabled: false, ..f };
    s.save_mail_settings(&f2);
    assert_eq!(s.get_setting("smtp_pass"), " secret ");
    assert_eq!(s.get_setting("smtp_security"), "ssl");
    assert_eq!(s.get_setting("mail_enabled"), "0");
}

#[test]
fn checkout_channels_can_be_switched() {
    let mut s = Store::new();
    s.seed_settings();
    s.save_pay_channels(false, true);
    let c = pay_config(&s);
    assert!(!c.alipay && c.wxpay);
    assert_eq!(s.get_setting("epay_alipay"), "0");
    s.save_pay_channels(true, false);
    let c = pay_config(&s);
    assert!(c.alipay && !c.wxpay);
}

#[test]
fn damaged_tables_are_detected() {
    let mut s = Store::new();
    assert!(s.check_wf());
    s.settings.push(("a".to_string(), "1".to_string()));
    s.settings.push(("a".to_string(), "2".to_string()));
    assert!(!s.check_wf());
    let mut s = Store::new();
    s.card_seq = 1;
    s.cards.push(Card {
        id: 1,
        product_id: 1,
        code: "X".to_string(),
        status: 0,
        order_id: Some(1),
        created_at: String::new(),
        sold_at: None,
    });
    assert!(!s.check_wf());
    s.cards[0].order_id = None;
    assert!(s.check_wf());
    s.cards[0].id = 2;
    assert!(!s.check_wf());
    let mut s = Store::new();
    s.order_seq = 5;
    let o = |id: i64, no: &str| Order {
        id,
        order_no: no.to_string(),
        product_id: 1,
        product_name: String::new(),
        quantity: 1,
        unit_cents: 1,
        total_cents: 1,
        contact: String::new(),
        status: 0,
        pay_method: String::new(),
        created_at: String::new(),
        paid_at: None,
    };
    s.orders.push(o(2, "A"));
    s.orders.push(o(3, "B"));
    assert!(s.check_wf());
    s.orders.push(o(4, "A"));
    assert!(!s.check_wf());
    s.orders.pop();
    s.orders.push(o(3, "C"));
    assert!(!s.check_wf());
}

#[test]
fn demonstration_data() {
    let mut s = Store::new();
    s.seed_settings();
    assert_eq!(s.seed_demo(), Ok(()));
    assert!(s.check_wf());
    let cats = s.list_categories();
    assert_eq!(cats.len(), 3);
    assert_eq!(cats[0].name, "游戏点卡");
    assert_eq!(cats[0].product_count, 3);
    assert_eq!(s.products.len(), 8);
    assert_eq!(s.cards.len(), 155);
    let stocks: Vec<usize> = (1..=8).map(|pid| s.count_avail_for(pid)).collect();
    assert_eq!(stocks, vec![35, 18, 6, 42, 9, 27, 15, 3]);
    assert_eq!(s.get_product_view(5).unwrap().p.price_cents, 12800);
    assert!(s.cards.iter().all(|c| c.code.len() == 17 && c.code.starts_with("XS-")));
    // a shop with products is left alone
    assert_eq!(s.seed_demo(), Ok(()));
    assert_eq!(s.cards.len(), 155);
}

#[test]
fn demonstration_codes() {
    let c: String = demo_code().into_iter().collect();
    assert_eq!(c.len(), 17);
    let parts: Vec<&str> = c.split('-').collect();
    assert_eq!(parts.len(), 4);
    assert_eq!(parts[0], "XS");
    assert!(parts[1..].iter().all(|p| p.len() == 4 && p.chars().all(|x| "ABCDEFGHJKLMNPQRSTUVWXYZ23456789".contains(x))));
}

#[test]
fn seconds_left_to_pay() {
    // an order placed at second 1000, looked at later (milliseconds)
    assert_eq!(remain_at(None, 0), 0);
    assert_eq!(remain_at(Some(1000), 1_000_000), 900);
    assert_eq!(remain_at(Some(1000), 1_000_999), 900);
    assert_eq!(remain_at(Some(1000), 1_899_000), 1);
    assert_eq!(remain_at(Some(1000), 1_900_000), 0);
    assert_eq!(remain_at(Some(1000), 5_000_000), 0);
    // a time ahead of the clock: the seconds are rounded toward zero
    assert_eq!(remain_at(Some(1000), 990_000), 910);
    assert_eq!(remain_at(Some(1000), 999_500), 900);
    assert_eq!(remain_at(Some(i64::MAX), 0), i64::MAX);
}

#[test]
fn query_defaults() {
    assert_eq!(IndexQ { cat: None }.active_cat(), 0);
    assert_eq!(IndexQ { cat: Some(3) }.active_cat(), 3);
    let (p, st, q) = CardsQ { product: None, status: None, q: None }.selection();
    assert_eq!((p, st, q.as_str()), (0, -1, ""));
}

#[test]
fn demonstration_data_from_given_codes() {
    let mut s = Store::new();
    s.seed_settings();
    // a repeated code is passed over; 155 distinct codes fill every product
    let mut draws = codes(155);
    draws.insert(3, draws[0].clone());
    assert_eq!(s.seed_demo_with(&draws, "2026-07-26 10:00:00"), Ok(()));
    assert!(s.check_wf());
    assert_eq!(s.cards.len(), 155);
    let stocks: Vec<usize> = (1..=8).map(|pid| s.count_avail_for(pid)).collect();
    assert_eq!(stocks, vec![35, 18, 6, 42, 9, 27, 15, 3]);
    assert_eq!(s.cards[3].code, "XS-AAAA-BBBB-0003");
    assert_eq!(s.cards[154].id, 155);
    assert!(s.cards.iter().all(|c| c.created_at == "2026-07-26 10:00:00"));
}

#[test]
fn demonstration_data_when_codes_run_out() {
    let mut s = Store::new();
    s.seed_settings();
    assert_eq!(s.seed_demo_with(&codes(40), "2026-07-26 10:00:00"), Err("演示卡密生成失败".to_string()));
    // the rows and the cards made so far stay
    assert_eq!(s.products.len(), 8);
    assert_eq!(s.cards.len(), 40);
    assert_eq!(s.count_avail_for(1), 35);
    assert_eq!(s.count_avail_for(2), 5);
    assert!(s.check_wf());
}

#[test]
fn seconds_left_for_an_order() {
    let at = |created: &str| Order {
        id: 1,
        order_no: "N".to_string(),
        product_id: 1,
        product_name: String::new(),
        quantity: 1,
        unit_cents: 1,
        total_cents: 1,
        contact: String::new(),
        status: 0,
        pay_method: String::new(),
        created_at: created.to_string(),
        paid_at: None,
    };
    // a time that does not read leaves no time; one long past, none either
    assert_eq!(remain_secs(&at("soon")), 0);
    assert_eq!(remain_secs(&at("2000-01-01 00:00:00")), 0);
    // a time far ahead leaves far more than the fifteen minutes
    assert!(remain_secs(&at("2999-01-01 00:00:00")) > 900);
}
