use card::models::{Order, Store};
use card::config::{sanitize_slug, gen_slug, RuntimeConfig};
use card::upload::{sniff_ext, valid_image_ref, local_image_name, new_image_name, upload_url, MAX_IMAGE_BYTES};
use card::mailer::{
    is_email, esc, mail_cfg, wrap_html, build_deliver_mail, build_restock_mail, notify_after_deliver,
    mail_addresses, test_mail, MailCfg, SmtpSecurity,
};

#[test]
fn admin_paths_are_normalised() {
    assert_eq!(sanitize_slug("  /Secret-Door/ "), Some("secret-door".to_string()));
    assert_eq!(sanitize_slug("abc"), None);
    assert_eq!(sanitize_slug("abcd"), Some("abcd".to_string()));
    assert_eq!(sanitize_slug(&"a".repeat(32)), Some("a".repeat(32)));
    assert_eq!(sanitize_slug(&"a".repeat(33)), None);
    assert_eq!(sanitize_slug("ad min"), None);
    assert_eq!(sanitize_slug("admin"), None);
    assert_eq!(sanitize_slug("/STATIC/"), None);
    assert_eq!(sanitize_slug("favicon.ico"), None);
    assert_eq!(sanitize_slug("uploads"), None);
    assert_eq!(sanitize_slug("管理后台后台"), None);
    assert_eq!(sanitize_slug("my_panel_01"), Some("my_panel_01".to_string()));
    // normalising twice changes nothing
    let once = sanitize_slug(" //Back_Office// ").unwrap();
    assert_eq!(sanitize_slug(&once), Some(once.clone()));
}

#[test]
fn generated_admin_paths() {
    for _ in 0..20 {
        let s = gen_slug();
        assert_eq!(s.len(), 6);
        assert!(s.chars().all(|c| "abcdefghijkmnpqrstuvwxyz23456789".contains(c)));
        assert_ne!(s, "static");
        assert_eq!(sanitize_slug(&s), Some(s.clone()));
    }
}

#[test]
fn the_admin_path_is_chosen_once() {
    let mut s = Store::new();
    s.seed_settings();
    // the environment wins, and is not stored
    assert_eq!(s.init_admin_path(Some(" /Door1/ ")), "door1");
    assert_eq!(s.get_setting("admin_path"), "");
    // otherwise a path is generated and stored
    let g = s.init_admin_path(Some("x"));
    assert_eq!(g.len(), 6);
    assert_eq!(s.get_setting("admin_path"), g);
    // and found again next time
    assert_eq!(s.init_admin_path(None), g);
    s.set_setting("admin_path", "Chosen_Path");
    assert_eq!(s.init_admin_path(None), "chosen_path");
}

#[test]
fn runtime_paths_have_defaults() {
    let c = RuntimeConfig::new(None, None);
    assert_eq!(c.admin_slug(), "console");
    assert_eq!(c.admin_base(), "/console");
    assert_eq!(c.upload_dir(), "uploads");
    let c = RuntimeConfig::new(Some("k7q2xd".to_string()), Some("/data/img".to_string()));
    assert_eq!(c.admin_base(), "/k7q2xd");
    assert_eq!(c.upload_dir(), "/data/img");
}

#[test]
fn runtime_paths_take_only_accepted_admin_paths() {
    // a path with a slash, or one that is not in its normal form, is not taken
    let c = RuntimeConfig::new(Some("a/b/c".to_string()), None);
    assert_eq!(c.admin_slug(), "console");
    assert_eq!(c.admin_base(), "/console");
    let c = RuntimeConfig::new(Some("Door1".to_string()), None);
    assert_eq!(c.admin_slug(), "console");
    let c = RuntimeConfig::new(Some("static".to_string()), None);
    assert_eq!(c.admin_slug(), "console");
    let c = RuntimeConfig::new(Some("door1".to_string()), None);
    assert_eq!(c.admin_base(), "/door1");
}

fn with_head(head: &[u8]) -> Vec<u8> {
    let mut v = head.to_vec();
    v.resize(16, 0);
    v
}

#[test]
fn images_are_recognised_by_their_first_bytes() {
    assert_eq!(sniff_ext(&with_head(&[0x89, b'P', b'N', b'G', 0x0D, 0x0A, 0x1A, 0x0A])), Some("png"));
    assert_eq!(sniff_ext(&with_head(&[0xFF, 0xD8, 0xFF, 0xE0])), Some("jpg"));
    assert_eq!(sniff_ext(&with_head(b"GIF87a")), Some("gif"));
    assert_eq!(sniff_ext(&with_head(b"GIF89a")), Some("gif"));
    assert_eq!(sniff_ext(&with_head(b"RIFF\0\0\0\0WEBP")), Some("webp"));
    assert_eq!(sniff_ext(&with_head(b"RIFF\0\0\0\0WAVE")), None);
    assert_eq!(sniff_ext(&with_head(b"<svg")), None);
    assert_eq!(sniff_ext(&[0x89, b'P', b'N', b'G', 0x0D, 0x0A, 0x1A, 0x0A]), None);
}

#[test]
fn uploads_are_named_afresh_and_checked() {
    let png = with_head(&[0x89, b'P', b'N', b'G', 0x0D, 0x0A, 0x1A, 0x0A]);
    let name = new_image_name(&png).unwrap();
    assert!(name.ends_with(".png"));
    let dash = name.rfind('-').unwrap();
    assert_eq!(name.len() - dash, 1 + 8 + 4);
    assert!(name[dash + 1..dash + 9].chars().all(|c| c.is_ascii_lowercase() || c.is_ascii_digit()));
    // the stamp in front is fourteen digits
    assert_eq!(dash, 14);
    assert!(name[..dash].chars().all(|c| c.is_ascii_digit()));
    assert!(!name.contains('/') && !name.contains('\\') && !name.contains(".."));
    assert_eq!(new_image_name(b"hello world, no image"), Err("只支持 PNG / JPG / WEBP / GIF 格式的图片".to_string()));
    let mut big = png.clone();
    big.resize(MAX_IMAGE_BYTES + 1, 0);
    assert_eq!(new_image_name(&big), Err("图片过大，请压缩到 2MB 以内".to_string()));
    let url = upload_url(&name);
    assert!(valid_image_ref(&url));
    assert_eq!(local_image_name(&url), Some(name));
}

#[test]
fn image_references() {
    assert!(valid_image_ref("/uploads/a.png"));
    assert!(valid_image_ref("https://cdn.example.com/a.png"));
    assert!(valid_image_ref("http://x"));
    assert!(!valid_image_ref(""));
    assert!(!valid_image_ref("/uploads/"));
    assert!(!valid_image_ref("/uploads/../etc/passwd"));
    assert!(!valid_image_ref("/uploads/a/b.png"));
    assert!(!valid_image_ref("/uploads/a\\b.png"));
    assert!(!valid_image_ref("ftp://x/a.png"));
    assert!(!valid_image_ref(&format!("https://x/{}", "a".repeat(300))));
    assert!(valid_image_ref(&format!("https://x/{}", "a".repeat(290))));
    assert_eq!(local_image_name("https://x/a.png"), None);
    assert_eq!(local_image_name("/uploads/a..png"), None);
    assert_eq!(local_image_name("/uploads/a.png"), Some("a.png".to_string()));
}

#[test]
fn mail_addresses_are_recognised_loosely() {
    assert!(is_email("buyer@example.com"));
    assert!(is_email("  a@b.co  "));
    assert!(!is_email("12345678"));
    assert!(!is_email("a@b.c"));
    assert!(!is_email("a@@b.com"));
    assert!(!is_email("@b.com.cn"));
    assert!(!is_email("a@.bcom"));
    assert!(!is_email("a@bcom."));
    assert!(!is_email("a b@c.com"));
    assert!(!is_email("ab@com"));
}

#[test]
fn html_escaping() {
    assert_eq!(esc("a<b>&c"), "a&lt;b&gt;&amp;c");
    assert_eq!(esc("&amp;"), "&amp;amp;");
    assert_eq!(esc("普通"), "普通");
}

fn mail_shop() -> Store {
    let mut s = Store::new();
    s.seed_settings();
    s.set_setting("mail_enabled", "1");
    s.set_setting("smtp_host", "smtp.example.com");
    s.set_setting("mail_from", "shop@example.com");
    s.set_setting("site_url", "https://shop.example.com/");
    s.set_setting("site_name", "A<B");
    assert_eq!(s.create_category("c", 0), Ok(()));
    assert_eq!(s.create_product_at(1, "月卡", "", "", 1000, 0, "2026-07-26 10:00:00"), Ok(()));
    assert_eq!(s.import_cards_at(1, "K1\nK<2>", "2026-07-26 10:00:00"), Ok((2, 0)));
    s
}

#[test]
fn mail_settings_come_from_the_shop() {
    let mut s = Store::new();
    s.seed_settings();
    let c = mail_cfg(&s);
    assert!(!c.enabled);
    assert_eq!(c.port, 465);
    assert_eq!(c.security, "ssl");
    assert!(!c.ready());
    s.set_setting("smtp_port", "587");
    s.set_setting("smtp_security", "starttls");
    s.set_setting("mail_from_name", "");
    s.set_setting("site_name", "小店");
    let c = mail_cfg(&s);
    assert_eq!(c.port, 587);
    assert_eq!(c.from_name, "小店");
    assert!(matches!(c.smtp_security(), SmtpSecurity::StartTls));
    s.set_setting("smtp_port", "70000");
    assert_eq!(mail_cfg(&s).port, 465);
    s.set_setting("smtp_port", "x");
    assert_eq!(mail_cfg(&s).port, 465);
    let m = mail_shop();
    let c = mail_cfg(&m);
    assert!(c.ready());
    assert_eq!(c.site_url, "https://shop.example.com");
    assert!(matches!(c.smtp_security(), SmtpSecurity::Tls));
}

fn sample_order() -> Order {
    Order {
        id: 1,
        order_no: "NO1".to_string(),
        product_id: 1,
        product_name: "月卡".to_string(),
        quantity: 2,
        unit_cents: 1000,
        total_cents: 2000,
        contact: "b@x.com".to_string(),
        status: 1,
        pay_method: "mock".to_string(),
        created_at: "2026-07-26 10:00:00".to_string(),
        paid_at: Some("2026-07-26 10:01:00".to_string()),
    }
}

#[test]
fn the_delivery_mail() {
    let c = mail_cfg(&mail_shop());
    let (subject, text, html) = build_deliver_mail(&c, &sample_order(), &["K1".to_string(), "K<2>".to_string()]);
    assert_eq!(subject, "【A<B】卡密已发货 · 订单 NO1");
    assert_eq!(
        text,
        "感谢购买！以下是你的卡密。\n\n商品：月卡\n数量：2\n订单号：NO1\n实付：¥20.00\n\nK1\nK<2>\n\n随时可在此页面重新取卡：https://shop.example.com/order/NO1?c=b%40x.com\n"
    );
    assert!(html.contains("A&lt;B"));
    assert!(html.contains("K&lt;2&gt;"));
    assert!(html.contains("发货通知"));
    assert!(html.contains("月卡 × 2"));
    assert!(html.starts_with("<!DOCTYPE html>"));
    assert!(html.ends_with("</html>"));
}

#[test]
fn the_restock_alert_and_the_test_mail() {
    let c = mail_cfg(&mail_shop());
    let (subject, text, html) = build_restock_mail(&c, &sample_order());
    assert_eq!(subject, "【A<B】库存告急：订单 NO1 已付款但无卡可发");
    assert!(text.starts_with("订单 NO1 已付款，但「月卡」库存不足"));
    assert!(text.contains("买家：b@x.com\n数量：2\n金额：¥20.00"));
    assert!(html.contains("缺货告警"));
    let (s2, t2, h2) = test_mail(&c);
    assert_eq!(s2, "【A<B】SMTP 配置测试");
    assert_eq!(t2, "这是一封测试邮件，能收到说明 SMTP 配置正确。");
    assert_eq!(h2, wrap_html(&c, "测试邮件", card::mailer::TEST_BODY));
}

#[test]
fn who_gets_mail_after_delivery() {
    let mut s = mail_shop();
    assert!(s.create_order_at(1, 1, "buyer@x.com", "2026-07-26 09:00:00", "NO1", "2026-07-26 10:00:00").is_ok());
    assert_eq!(s.deliver_order_at("NO1", "mock", "2026-07-26 10:01:00"), Ok(1));
    let m = notify_after_deliver(&s, "NO1", 1).unwrap();
    assert_eq!(m.to, "buyer@x.com");
    assert!(m.text.contains("K1"));
    // an owner alert needs an owner address
    assert!(notify_after_deliver(&s, "NO1", 3).is_none());
    s.set_setting("mail_admin_to", "owner@x.com");
    assert_eq!(notify_after_deliver(&s, "NO1", 3).unwrap().to, "owner@x.com");
    assert!(notify_after_deliver(&s, "NOPE", 1).is_none());
    // a contact that is no mail address gets nothing
    assert!(s.create_order_at(1, 1, "13800138000", "2026-07-26 09:00:00", "NO2", "2026-07-26 10:00:00").is_ok());
    assert_eq!(s.deliver_order_at("NO2", "mock", "2026-07-26 10:01:00"), Ok(1));
    assert!(notify_after_deliver(&s, "NO2", 1).is_none());
    // nothing at all while mail is off
    s.set_setting("mail_enabled", "0");
    assert!(notify_after_deliver(&s, "NO1", 1).is_none());
}

#[test]
fn sender_and_recipient_are_checked() {
    let c = mail_cfg(&mail_shop());
    let (from, to) = mail_addresses(&c, " buyer@x.com ").unwrap();
    assert_eq!(to, "buyer@x.com");
    assert!(from == "A<B <shop@example.com>" || from == "shop@example.com");
    assert_eq!(mail_addresses(&c, "not a mailbox"), Err("收件人地址不合法：not a mailbox".to_string()));
    let mut off = mail_cfg(&Store::new());
    assert_eq!(mail_addresses(&off, "a@b.com"), Err("邮件功能未启用或配置不完整".to_string()));
    off = MailCfg { enabled: true, host: "h".to_string(), from: "bad".to_string(), from_name: "".to_string(), ..off };
    assert_eq!(mail_addresses(&off, "a@b.com"), Err("发件人地址不合法：bad".to_string()));
    let named = MailCfg { from_name: "Shop".to_string(), from: "shop@example.com".to_string(), ..off };
    assert_eq!(mail_addresses(&named, "a@b.com"), Ok(("Shop <shop@example.com>".to_string(), "a@b.com".to_string())));
}
