//! Mail notices: the buyer gets the card codes after delivery, the owner
//! gets an alert when a paid order could not be served.  This module holds
//! the settings, the address check and the mails' contents; sending is done
//! by the application, in the background, and never holds up delivery.

use vstd::prelude::*;
use crate::text::{
    trim, is_ws, strip_end, split_on, chars_of, trim_chars, string_of, push_str, push_all,
    str_eq, copy_str, strip_end_str, split_chars, int_chars, dec_int, char_is_ws,
};
use crate::money::{parse_plus_digits, parse_digits_capped, cents_text};
use crate::models::{Order, OrderV, Store, StoreV, CardV, CARD_SOLD, has_order_no};
use crate::catalog::setting_value;
use crate::orders::view_link_text;

verus! {

// ---------- settings ----------

/// Mail settings of the shop.
pub struct MailCfg {
    pub enabled: bool,
    pub host: String,
    pub port: u16,
    /// "ssl" (implicit TLS, usually port 465), "starttls" (usually 587) or
    /// "none" (plain, for a relay on the local network).
    pub security: String,
    pub user: String,
    pub pass: String,
    pub from: String,
    pub from_name: String,
    pub admin_to: String,
    pub site_name: String,
    pub site_url: String,
}

pub struct MailCfgV {
    pub enabled: bool,
    pub host: Seq<char>,
    pub port: u16,
    pub security: Seq<char>,
    pub user: Seq<char>,
    pub pass: Seq<char>,
    pub from: Seq<char>,
    pub from_name: Seq<char>,
    pub admin_to: Seq<char>,
    pub site_name: Seq<char>,
    pub site_url: Seq<char>,
}

impl View for MailCfg {
    type V = MailCfgV;

    open spec fn view(&self) -> MailCfgV {
        MailCfgV {
            enabled: self.enabled,
            host: self.host@,
            port: self.port,
            security: self.security@,
            user: self.user@,
            pass: self.pass@,
            from: self.from@,
            from_name: self.from_name@,
            admin_to: self.admin_to@,
            site_name: self.site_name@,
            site_url: self.site_url@,
        }
    }
}

/// The SMTP port setting read as `u16`, 465 when it does not read as one.
pub open spec fn port_setting(v: Seq<char>) -> u16 {
    match parse_plus_digits(v) {
        Some(n) => if n <= 65535 {
            n as u16
        } else {
            465
        },
        None => 465,
    }
}

/// The mail settings held in `st`: mail on when "mail_enabled" is "1",
/// security "ssl" unless set, sender name the site name unless set, site
/// address without trailing slashes.
pub open spec fn mail_cfg_view(st: Seq<(Seq<char>, Seq<char>)>) -> MailCfgV {
    MailCfgV {
        enabled: setting_value(st, "mail_enabled"@) == "1"@,
        host: setting_value(st, "smtp_host"@),
        port: port_setting(setting_value(st, "smtp_port"@)),
        security: if setting_value(st, "smtp_security"@).len() == 0 {
            "ssl"@
        } else {
            setting_value(st, "smtp_security"@)
        },
        user: setting_value(st, "smtp_user"@),
        pass: setting_value(st, "smtp_pass"@),
        from: setting_value(st, "mail_from"@),
        from_name: if setting_value(st, "mail_from_name"@).len() == 0 {
            setting_value(st, "site_name"@)
        } else {
            setting_value(st, "mail_from_name"@)
        },
        admin_to: setting_value(st, "mail_admin_to"@),
        site_name: setting_value(st, "site_name"@),
        site_url: strip_end(setting_value(st, "site_url"@), '/'),
    }
}

/// Complete enough to send: enabled, with host, sender and a port.
pub open spec fn cfg_ready(c: MailCfgV) -> bool {
    c.enabled && c.host.len() > 0 && c.from.len() > 0 && c.port > 0
}

impl MailCfg {
    /// The settings are complete enough to send mail.
    pub fn ready(&self) -> (r: bool)
        ensures
            r == cfg_ready(self@),
    {
        self.enabled && self.host.unicode_len() > 0 && self.from.unicode_len() > 0 && self.port > 0
    }
}

fn parse_port(s: &str) -> (r: u16)
    ensures
        r == port_setting(s@),
{
    let v = chars_of(s);
    assert(v@.subrange(0, v@.len() as int) =~= v@);
    match parse_digits_capped(v.as_slice(), 0, v.len(), 65535) {
        Some(n) => n as u16,
        None => 465,
    }
}

/// The mail settings stored in the shop (see `mail_cfg_view`).
pub fn mail_cfg(store: &Store) -> (r: MailCfg)
    requires
        store@.wf(),
    ensures
        r@ == mail_cfg_view(store@.settings),
{
    let sec = store.get_setting("smtp_security");
    let security = if sec.unicode_len() == 0 {
        copy_str("ssl")
    } else {
        sec
    };
    let fname = store.get_setting("mail_from_name");
    let from_name = if fname.unicode_len() == 0 {
        store.get_setting("site_name")
    } else {
        fname
    };
    let en = store.get_setting("mail_enabled");
    let port = store.get_setting("smtp_port");
    let url = store.get_setting("site_url");
    MailCfg {
        enabled: str_eq(en.as_str(), "1"),
        host: store.get_setting("smtp_host"),
        port: parse_port(port.as_str()),
        security,
        user: store.get_setting("smtp_user"),
        pass: store.get_setting("smtp_pass"),
        from: store.get_setting("mail_from"),
        from_name,
        admin_to: store.get_setting("mail_admin_to"),
        site_name: store.get_setting("site_name"),
        site_url: strip_end_str(url.as_str(), '/'),
    }
}

// ---------- addresses ----------

/// A plausible mail address (contacts may also be other numbers, which get
/// no mail): once trimmed, 6 to 254 bytes without whitespace, exactly one
/// '@' with something before it, and a domain of at least 3 bytes that
/// contains a '.' but neither starts nor ends with one.
pub open spec fn email_ok(s0: Seq<char>) -> bool {
    let s = trim(s0);
    let parts = split_on(s, '@');
    &&& 6 <= vstd::utf8::encode_utf8(s).len() <= 254
    &&& forall|i: int| 0 <= i < s.len() ==> !is_ws(#[trigger] s[i])
    &&& parts.len() == 2
    &&& parts[0].len() > 0
    &&& parts[1].contains('.')
    &&& parts[1][0] != '.'
    &&& parts[1].last() != '.'
    &&& vstd::utf8::encode_utf8(parts[1]).len() >= 3
}

/// Whether a contact is a mail address (see `email_ok`).
pub fn is_email(s: &str) -> (r: bool)
    ensures
        r == email_ok(s@),
{
    let v = chars_of(s);
    let t = trim_chars(v.as_slice());
    let ts = string_of(t.as_slice());
    let n = ts.as_str().as_bytes().len();
    if n < 6 || n > 254 {
        return false;
    }
    let mut i: usize = 0;
    while i < t.len()
        invariant
            i <= t@.len(),
            t@ == trim(s@),
            forall|j: int| 0 <= j < i ==> !is_ws(#[trigger] t@[j]),
        decreases t@.len() - i,
    {
        if char_is_ws(t[i]) {
            assert(is_ws(t@[i as int]));
            return false;
        }
        i = i + 1;
    }
    let parts = split_chars(t.as_slice(), '@');
    if parts.len() != 2 {
        return false;
    }
    if parts[0].len() == 0 {
        return false;
    }
    let d = &parts[1];
    let mut has_dot = false;
    let mut k: usize = 0;
    while k < d.len()
        invariant
            k <= d@.len(),
            has_dot == exists|j: int| 0 <= j < k && d@[j] == '.',
        decreases d@.len() - k,
    {
        if d[k] == '.' {
            has_dot = true;
        }
        k = k + 1;
    }
    if !has_dot {
        return false;
    }
    if d[0] == '.' || d[d.len() - 1] == '.' {
        return false;
    }
    let ds = string_of(d.as_slice());
    ds.as_str().as_bytes().len() >= 3
}

// ---------- contents ----------

/// Mail page up to the site name.
pub const PAGE_A: &'static str = "<!DOCTYPE html><html><head><meta charset=\"utf-8\"></head>\n<body style=\"margin:0;padding:24px;background:#f4f2ee;font-family:-apple-system,'Segoe UI','Microsoft YaHei',sans-serif;color:#23201c;\">\n<div style=\"max-width:560px;margin:0 auto;background:#fffdf9;border:1px solid #e2ddd3;border-radius:12px;overflow:hidden;\">\n  <div style=\"padding:18px 24px;border-bottom:2px dashed #e2ddd3;\">\n    <span style=\"font-weight:700;font-size:16px;\">";

/// Mail page between the site name and the title.
pub const PAGE_B: &'static str = "</span>\n    <span style=\"float:right;color:#8a8178;font-size:12px;letter-spacing:.08em;\">";

/// Mail page between the title and the body.
pub const PAGE_C: &'static str = "</span>\n  </div>\n  <div style=\"padding:24px;line-height:1.7;font-size:14px;\">";

/// Mail page after the body.
pub const PAGE_D: &'static str = "</div>\n  <div style=\"padding:14px 24px;border-top:1px solid #eee7dc;color:#8a8178;font-size:12px;\">\n    本邮件由系统自动发出，请勿直接回复。\n  </div>\n</div></body></html>";

/// Box around one card code: opening.
pub const CODE_A: &'static str = "<div style=\"font-family:'SFMono-Regular',Consolas,monospace;font-size:15px;letter-spacing:.06em;background:#fff;border:1px solid #e2ddd3;border-radius:8px;padding:11px 14px;margin:8px 0;word-break:break-all;\">";

/// Box around one card code: closing.
pub const CODE_B: &'static str = "</div>";

/// Pick-up link paragraph: up to the address.
pub const LINK_A: &'static str = "<p style=\"margin:20px 0 0;color:#6b635a;font-size:13px;\">卡密也可随时在这里取回：<br><a href=\"";

/// Pick-up link paragraph: between the address and its text.
pub const LINK_B: &'static str = "\" style=\"color:#b07c12;word-break:break-all;\">";

/// Pick-up link paragraph: closing.
pub const LINK_C: &'static str = "</a></p>";

/// Delivery mail body: up to the product name.
pub const DELIVER_0: &'static str = "<p style=\"margin:0 0 4px;\">付款成功，以下是你购买的卡密：</p>\n<p style=\"margin:0 0 16px;color:#8a8178;font-size:13px;\">";

/// Delivery mail body: between name and quantity.
pub const DELIVER_1: &'static str = " × ";

/// Delivery mail body: between quantity and order number.
pub const DELIVER_2: &'static str = "　订单号 ";

/// Delivery mail body: between order number and total.
pub const DELIVER_3: &'static str = "　实付 ¥";

/// Delivery mail body: between total and the codes.
pub const DELIVER_4: &'static str = "</p>\n";

/// Delivery mail body: between the codes and the link.
pub const DELIVER_5: &'static str = "\n<p style=\"margin:18px 0 0;color:#6b635a;font-size:13px;\">请尽快兑换并妥善保管，卡密属虚拟商品，售出后不支持退换。</p>\n";

/// Restock alert body: up to the order number.
pub const RESTOCK_0: &'static str = "<p style=\"margin:0 0 12px;\"><b>有一笔订单收了钱但发不出卡。</b></p>\n<p style=\"margin:0 0 12px;color:#6b635a;font-size:13px;\">订单号 ";

/// Restock alert body: between order number and product name.
pub const RESTOCK_1: &'static str = "　商品「";

/// Restock alert body: between product name and quantity.
pub const RESTOCK_2: &'static str = "」× ";

/// Restock alert body: between quantity and total.
pub const RESTOCK_3: &'static str = "　金额 ¥";

/// Restock alert body: between total and contact.
pub const RESTOCK_4: &'static str = "<br>买家联系方式：";

/// Restock alert body: after the contact.
pub const RESTOCK_5: &'static str = "</p>\n<p style=\"margin:0;\">请尽快为该商品导入卡密，然后到后台订单页点「补发」。买家此刻看到的是「已付待补发」状态。</p>";

/// Body of the test mail.
pub const TEST_BODY: &'static str = "<p style=\"margin:0 0 12px;\">这是一封测试邮件。</p>\n<p style=\"margin:0;color:#6b635a;font-size:13px;\">你能读到它，说明 SMTP 配置正确，买家付款后就能自动收到卡密了。</p>";

/// HTML text of one character: `&`, `<` and `>` escaped.
pub open spec fn esc_char(c: char) -> Seq<char> {
    if c == '&' {
        "&amp;"@
    } else if c == '<' {
        "&lt;"@
    } else if c == '>' {
        "&gt;"@
    } else {
        seq![c]
    }
}

pub open spec fn esc_text(s: Seq<char>) -> Seq<char>
    decreases s.len(),
{
    if s.len() == 0 {
        Seq::empty()
    } else {
        esc_text(s.drop_last()) + esc_char(s.last())
    }
}

/// Escapes `&`, `<` and `>` for HTML.
pub fn esc(s: &str) -> (r: String)
    ensures
        r@ == esc_text(s@),
{
    let v = chars_of(s);
    let mut out: Vec<char> = Vec::new();
    let mut i: usize = 0;
    assert(v@.take(0) =~= Seq::<char>::empty());
    while i < v.len()
        invariant
            i <= v@.len(),
            out@ == esc_text(v@.take(i as int)),
        decreases v@.len() - i,
    {
        let c = v[i];
        proof {
            assert(v@.take(i + 1).drop_last() =~= v@.take(i as int));
            assert(v@.take(i + 1).last() == c);
        }
        if c == '&' {
            push_str(&mut out, "&amp;");
        } else if c == '<' {
            push_str(&mut out, "&lt;");
        } else if c == '>' {
            push_str(&mut out, "&gt;");
        } else {
            out.push(c);
        }
        i = i + 1;
    }
    assert(v@.take(v@.len() as int) =~= v@);
    string_of(out.as_slice())
}

/// The HTML page of a mail: site name and title escaped, body as given.
pub open spec fn page_html(site: Seq<char>, title: Seq<char>, body: Seq<char>) -> Seq<char> {
    PAGE_A@ + esc_text(site) + PAGE_B@ + esc_text(title) + PAGE_C@ + body + PAGE_D@
}

/// Puts `body` into the shop's mail page under `title`.
pub fn wrap_html(cfg: &MailCfg, title: &str, body: &str) -> (r: String)
    ensures
        r@ == page_html(cfg.site_name@, title@, body@),
{
    let mut v: Vec<char> = Vec::new();
    push_str(&mut v, PAGE_A);
    let a = esc(cfg.site_name.as_str());
    push_str(&mut v, a.as_str());
    push_str(&mut v, PAGE_B);
    let b = esc(title);
    push_str(&mut v, b.as_str());
    push_str(&mut v, PAGE_C);
    push_str(&mut v, body);
    push_str(&mut v, PAGE_D);
    string_of(v.as_slice())
}

pub open spec fn strs(v: Seq<String>) -> Seq<Seq<char>> {
    v.map_values(|c: String| c@)
}

/// Where the buyer can fetch the codes again: the site address and the
/// order's link, or nothing when the site address is not set.
pub open spec fn pickup_link(site_url: Seq<char>, o: OrderV) -> Seq<char> {
    if site_url.len() == 0 {
        Seq::empty()
    } else {
        site_url + view_link_text(o)
    }
}

/// The codes, one per line.
pub open spec fn code_lines(codes: Seq<Seq<char>>) -> Seq<char>
    decreases codes.len(),
{
    if codes.len() == 0 {
        Seq::empty()
    } else {
        code_lines(codes.drop_last()) + codes.last() + seq!['\n']
    }
}

/// The codes, each in its box.
pub open spec fn code_boxes(codes: Seq<Seq<char>>) -> Seq<char>
    decreases codes.len(),
{
    if codes.len() == 0 {
        Seq::empty()
    } else {
        code_boxes(codes.drop_last()) + CODE_A@ + esc_text(codes.last()) + CODE_B@
    }
}

pub open spec fn deliver_subject(site_name: Seq<char>, o: OrderV) -> Seq<char> {
    "【"@ + site_name + "】卡密已发货 · 订单 "@ + o.order_no
}

pub open spec fn deliver_text(link: Seq<char>, o: OrderV, codes: Seq<Seq<char>>) -> Seq<char> {
    "感谢购买！以下是你的卡密。\n\n商品："@ + o.product_name + "\n数量："@ + dec_int(o.quantity as int)
        + "\n订单号："@ + o.order_no + "\n实付：¥"@ + cents_text(o.total_cents as int) + "\n\n"@
        + code_lines(codes) + if link.len() == 0 {
        Seq::empty()
    } else {
        "\n随时可在此页面重新取卡："@ + link + "\n"@
    }
}

pub open spec fn link_html(link: Seq<char>) -> Seq<char> {
    if link.len() == 0 {
        Seq::empty()
    } else {
        LINK_A@ + esc_text(link) + LINK_B@ + esc_text(link) + LINK_C@
    }
}

pub open spec fn deliver_body(link: Seq<char>, o: OrderV, codes: Seq<Seq<char>>) -> Seq<char> {
    DELIVER_0@ + esc_text(o.product_name) + DELIVER_1@ + dec_int(o.quantity as int) + DELIVER_2@
        + esc_text(o.order_no) + DELIVER_3@ + cents_text(o.total_cents as int) + DELIVER_4@
        + code_boxes(codes) + DELIVER_5@ + link_html(link)
}

fn push_code_lines(v: &mut Vec<char>, codes: &[String])
    ensures
        final(v)@ == old(v)@ + code_lines(strs(codes@)),
{
    let ghost v0 = v@;
    let ghost cs = strs(codes@);
    let mut i: usize = 0;
    assert(cs.take(0) =~= Seq::<Seq<char>>::empty());
    assert(v0 + code_lines(cs.take(0)) =~= v0);
    while i < codes.len()
        invariant
            i <= codes@.len(),
            cs == strs(codes@),
            v@ == v0 + code_lines(cs.take(i as int)),
        decreases codes@.len() - i,
    {
        proof {
            assert(cs.take(i + 1).drop_last() =~= cs.take(i as int));
            assert(cs.take(i + 1).last() == codes@[i as int]@);
        }
        push_str(v, codes[i].as_str());
        v.push('\n');
        i = i + 1;
        assert(v@ =~= v0 + code_lines(cs.take(i as int)));
    }
    assert(cs.take(codes@.len() as int) =~= cs);
}

fn push_code_boxes(v: &mut Vec<char>, codes: &[String])
    ensures
        final(v)@ == old(v)@ + code_boxes(strs(codes@)),
{
    let ghost v0 = v@;
    let ghost cs = strs(codes@);
    let mut i: usize = 0;
    assert(cs.take(0) =~= Seq::<Seq<char>>::empty());
    assert(v0 + code_boxes(cs.take(0)) =~= v0);
    while i < codes.len()
        invariant
            i <= codes@.len(),
            cs == strs(codes@),
            v@ == v0 + code_boxes(cs.take(i as int)),
        decreases codes@.len() - i,
    {
        proof {
            assert(cs.take(i + 1).drop_last() =~= cs.take(i as int));
            assert(cs.take(i + 1).last() == codes@[i as int]@);
        }
        push_str(v, CODE_A);
        let e = esc(codes[i].as_str());
        push_str(v, e.as_str());
        push_str(v, CODE_B);
        i = i + 1;
        assert(v@ =~= v0 + code_boxes(cs.take(i as int)));
    }
    assert(cs.take(codes@.len() as int) =~= cs);
}

/// The buyer's delivery mail for `order` with its `codes`: subject, plain
/// text and HTML.
pub fn build_deliver_mail(cfg: &MailCfg, order: &Order, codes: &[String]) -> (r: (String, String, String))
    ensures
        r.0@ == deliver_subject(cfg.site_name@, order@),
        r.1@ == deliver_text(pickup_link(cfg.site_url@, order@), order@, strs(codes@)),
        r.2@ == page_html(
            cfg.site_name@,
            "发货通知"@,
            deliver_body(pickup_link(cfg.site_url@, order@), order@, strs(codes@)),
        ),
{
    let mut sv: Vec<char> = Vec::new();
    push_str(&mut sv, "【");
    push_str(&mut sv, cfg.site_name.as_str());
    push_str(&mut sv, "】卡密已发货 · 订单 ");
    push_str(&mut sv, order.order_no.as_str());
    let subject = string_of(sv.as_slice());

    let link = if cfg.site_url.unicode_len() == 0 {
        String::new()
    } else {
        let l = order.view_link();
        crate::text::str_cat(cfg.site_url.as_str(), l.as_str())
    };
    let ghost lk = pickup_link(cfg.site_url@, order@);
    assert(link@ == lk);
    let qty = int_chars(order.quantity);
    let total = order.total_str();

    let mut tv: Vec<char> = Vec::new();
    push_str(&mut tv, "感谢购买！以下是你的卡密。\n\n商品：");
    push_str(&mut tv, order.product_name.as_str());
    push_str(&mut tv, "\n数量：");
    push_all(&mut tv, qty.as_slice());
    push_str(&mut tv, "\n订单号：");
    push_str(&mut tv, order.order_no.as_str());
    push_str(&mut tv, "\n实付：¥");
    push_str(&mut tv, total.as_str());
    push_str(&mut tv, "\n\n");
    push_code_lines(&mut tv, codes);
    if link.unicode_len() > 0 {
        push_str(&mut tv, "\n随时可在此页面重新取卡：");
        push_str(&mut tv, link.as_str());
        push_str(&mut tv, "\n");
    }
    let text = string_of(tv.as_slice());

    let mut bv: Vec<char> = Vec::new();
    push_str(&mut bv, DELIVER_0);
    let en = esc(order.product_name.as_str());
    push_str(&mut bv, en.as_str());
    push_str(&mut bv, DELIVER_1);
    push_all(&mut bv, qty.as_slice());
    push_str(&mut bv, DELIVER_2);
    let eo = esc(order.order_no.as_str());
    push_str(&mut bv, eo.as_str());
    push_str(&mut bv, DELIVER_3);
    push_str(&mut bv, total.as_str());
    push_str(&mut bv, DELIVER_4);
    push_code_boxes(&mut bv, codes);
    push_str(&mut bv, DELIVER_5);
    if link.unicode_len() > 0 {
        push_str(&mut bv, LINK_A);
        let el = esc(link.as_str());
        push_str(&mut bv, el.as_str());
        push_str(&mut bv, LINK_B);
        push_str(&mut bv, el.as_str());
        push_str(&mut bv, LINK_C);
    }
    let body = string_of(bv.as_slice());
    let html = wrap_html(cfg, "发货通知", body.as_str());
    (subject, text, html)
}

pub open spec fn restock_subject(site_name: Seq<char>, o: OrderV) -> Seq<char> {
    "【"@ + site_name + "】库存告急：订单 "@ + o.order_no + " 已付款但无卡可发"@
}

pub open spec fn restock_text(o: OrderV) -> Seq<char> {
    "订单 "@ + o.order_no + " 已付款，但「"@ + o.product_name + "」库存不足，系统已标记为「已付待补发」。\n\n买家："@
        + o.contact + "\n数量："@ + dec_int(o.quantity as int) + "\n金额：¥"@ + cents_text(
        o.total_cents as int,
    ) + "\n\n请尽快导入卡密后到后台订单页手动补发。\n"@
}

pub open spec fn restock_body(o: OrderV) -> Seq<char> {
    RESTOCK_0@ + esc_text(o.order_no) + RESTOCK_1@ + esc_text(o.product_name) + RESTOCK_2@ + dec_int(
        o.quantity as int,
    ) + RESTOCK_3@ + cents_text(o.total_cents as int) + RESTOCK_4@ + esc_text(o.contact) + RESTOCK_5@
}

/// The owner's alert for a paid order that found no cards: subject, plain
/// text and HTML.
pub fn build_restock_mail(cfg: &MailCfg, order: &Order) -> (r: (String, String, String))
    ensures
        r.0@ == restock_subject(cfg.site_name@, order@),
        r.1@ == restock_text(order@),
        r.2@ == page_html(cfg.site_name@, "缺货告警"@, restock_body(order@)),
{
    let mut sv: Vec<char> = Vec::new();
    push_str(&mut sv, "【");
    push_str(&mut sv, cfg.site_name.as_str());
    push_str(&mut sv, "】库存告急：订单 ");
    push_str(&mut sv, order.order_no.as_str());
    push_str(&mut sv, " 已付款但无卡可发");
    let subject = string_of(sv.as_slice());
    let qty = int_chars(order.quantity);
    let total = order.total_str();

    let mut tv: Vec<char> = Vec::new();
    push_str(&mut tv, "订单 ");
    push_str(&mut tv, order.order_no.as_str());
    push_str(&mut tv, " 已付款，但「");
    push_str(&mut tv, order.product_name.as_str());
    push_str(&mut tv, "」库存不足，系统已标记为「已付待补发」。\n\n买家：");
    push_str(&mut tv, order.contact.as_str());
    push_str(&mut tv, "\n数量：");
    push_all(&mut tv, qty.as_slice());
    push_str(&mut tv, "\n金额：¥");
    push_str(&mut tv, total.as_str());
    push_str(&mut tv, "\n\n请尽快导入卡密后到后台订单页手动补发。\n");
    let text = string_of(tv.as_slice());

    let mut bv: Vec<char> = Vec::new();
    push_str(&mut bv, RESTOCK_0);
    let eo = esc(order.order_no.as_str());
    push_str(&mut bv, eo.as_str());
    push_str(&mut bv, RESTOCK_1);
    let en = esc(order.product_name.as_str());
    push_str(&mut bv, en.as_str());
    push_str(&mut bv, RESTOCK_2);
    push_all(&mut bv, qty.as_slice());
    push_str(&mut bv, RESTOCK_3);
    push_str(&mut bv, total.as_str());
    push_str(&mut bv, RESTOCK_4);
    let ec = esc(order.contact.as_str());
    push_str(&mut bv, ec.as_str());
    push_str(&mut bv, RESTOCK_5);
    let body = string_of(bv.as_slice());
    let html = wrap_html(cfg, "缺货告警", body.as_str());
    (subject, text, html)
}

/// The test mail sent from the settings page: subject, plain text, HTML.
pub fn test_mail(cfg: &MailCfg) -> (r: (String, String, String))
    ensures
        r.0@ == "【"@ + cfg.site_name@ + "】SMTP 配置测试"@,
        r.1@ == "这是一封测试邮件，能收到说明 SMTP 配置正确。"@,
        r.2@ == page_html(cfg.site_name@, "测试邮件"@, TEST_BODY@),
{
    let mut sv: Vec<char> = Vec::new();
    push_str(&mut sv, "【");
    push_str(&mut sv, cfg.site_name.as_str());
    push_str(&mut sv, "】SMTP 配置测试");
    (string_of(sv.as_slice()), copy_str("这是一封测试邮件，能收到说明 SMTP 配置正确。"), wrap_html(cfg, "测试邮件", TEST_BODY))
}

// ---------- after delivery ----------

/// A mail to send.
pub struct Mail {
    pub to: String,
    pub subject: String,
    pub text: String,
    pub html: String,
}

/// The order with number `no` (order numbers are unique).
pub open spec fn order_by_no(st: StoreV, no: Seq<char>) -> OrderV {
    st.orders[choose|i: int| 0 <= i < st.orders.len() && st.orders[i].order_no == no]
}

/// Codes of the cards sold to order `oid`, in card order.
pub open spec fn sold_codes(st: StoreV, oid: i64) -> Seq<Seq<char>> {
    st.cards.filter(|c: CardV| c.order_id == Some(oid) && c.status == CARD_SOLD).map_values(
        |c: CardV| c.code,
    )
}

/// The mail due after order `no` was delivered with outcome `status`, as
/// (recipient, subject, text, HTML): none unless mail is set up and the
/// order exists; for a completed delivery the codes go to the buyer when
/// the contact is a mail address and there are codes; for a paid order that
/// found no cards the owner is alerted when an owner address is set.
pub open spec fn mail_after(st: StoreV, no: Seq<char>, status: i64) -> Option<
    (Seq<char>, Seq<char>, Seq<char>, Seq<char>),
> {
    let c = mail_cfg_view(st.settings);
    if !cfg_ready(c) || !has_order_no(st.orders, no) {
        None
    } else {
        let o = order_by_no(st, no);
        if status == 1 {
            let codes = sold_codes(st, o.id);
            if email_ok(o.contact) && codes.len() > 0 {
                let link = pickup_link(c.site_url, o);
                Some(
                    (
                        o.contact,
                        deliver_subject(c.site_name, o),
                        deliver_text(link, o, codes),
                        page_html(c.site_name, "发货通知"@, deliver_body(link, o, codes)),
                    ),
                )
            } else {
                None
            }
        } else if status == 3 && c.admin_to.len() > 0 {
            Some(
                (
                    c.admin_to,
                    restock_subject(c.site_name, o),
                    restock_text(o),
                    page_html(c.site_name, "缺货告警"@, restock_body(o)),
                ),
            )
        } else {
            None
        }
    }
}

/// The mail to send after `deliver_order` returned `status` for order
/// `order_no` (1: delivered, 3: paid but waiting for cards); see
/// `mail_after`.
pub fn notify_after_deliver(store: &Store, order_no: &str, status: i64) -> (r: Option<Mail>)
    requires
        store@.wf(),
    ensures
        match r {
            Some(m) => mail_after(store@, order_no@, status) == Some(
                (m.to@, m.subject@, m.text@, m.html@),
            ),
            None => mail_after(store@, order_no@, status) is None,
        },
{
    let cfg = mail_cfg(store);
    if !cfg.ready() {
        return None;
    }
    let order = match store.get_order_by_no(order_no) {
        Some(o) => o,
        None => {
            return None;
        },
    };
    proof {
        let st = store@;
        let i = choose|i: int| 0 <= i < st.orders.len() && st.orders[i] == order@ && order@.order_no == order_no@;
        let j = choose|j: int| 0 <= j < st.orders.len() && st.orders[j].order_no == order_no@;
        if i < j {
            assert(st.orders[i].order_no != st.orders[j].order_no);
        } else if j < i {
            assert(st.orders[j].order_no != st.orders[i].order_no);
        }
        assert(order@ == order_by_no(st, order_no@));
    }
    if status == 1 {
        if !is_email(order.contact.as_str()) {
            return None;
        }
        let codes = store.order_codes(order.id);
        assert(strs(codes@) == sold_codes(store@, order.id));
        if codes.len() == 0 {
            return None;
        }
        let (subject, text, html) = build_deliver_mail(&cfg, &order, codes.as_slice());
        Some(Mail { to: copy_str(order.contact.as_str()), subject, text, html })
    } else if status == 3 && cfg.admin_to.unicode_len() > 0 {
        let (subject, text, html) = build_restock_mail(&cfg, &order);
        Some(Mail { to: copy_str(cfg.admin_to.as_str()), subject, text, html })
    } else {
        None
    }
}

// ---------- sending ----------

/// Whether lettre reads a text as a mailbox ("Name <user@domain>" or a bare
/// address): what `<lettre::message::Mailbox as FromStr>::from_str` accepts.
pub uninterp spec fn mailbox_parses(s: Seq<char>) -> bool;

/// Whether `s` parses as a `lettre::message::Mailbox`; which texts do is
/// named by `mailbox_parses`, not stated (it depends on the text alone).
#[verifier::external_body]
fn mailbox_ok(s: &str) -> (r: bool)
    ensures
        r == mailbox_parses(s@),
{
    s.parse::<lettre::message::Mailbox>().is_ok()
}

/// How the SMTP connection is secured.
pub enum SmtpSecurity {
    /// Implicit TLS (usually port 465).
    Tls,
    /// STARTTLS (usually port 587).
    StartTls,
    /// No encryption.
    Plain,
}

impl MailCfg {
    /// "starttls" and "none" as set; anything else is implicit TLS.
    pub fn smtp_security(&self) -> (r: SmtpSecurity)
        ensures
            r == (if self.security@ == "starttls"@ {
                SmtpSecurity::StartTls
            } else if self.security@ == "none"@ {
                SmtpSecurity::Plain
            } else {
                SmtpSecurity::Tls
            }),
    {
        if str_eq(self.security.as_str(), "starttls") {
            SmtpSecurity::StartTls
        } else if str_eq(self.security.as_str(), "none") {
            SmtpSecurity::Plain
        } else {
            SmtpSecurity::Tls
        }
    }
}

/// The sender as "Name <address>".
pub open spec fn sender_text(c: MailCfgV) -> Seq<char> {
    c.from_name + " <"@ + c.from + ">"@
}

/// The sender and recipient mailboxes of a mail to `to`, or the reason it
/// cannot be sent: settings incomplete, or sender or recipient not a
/// mailbox (the sender with its name, else the bare sender address; the
/// recipient trimmed).
pub open spec fn send_plan(c: MailCfgV, to: Seq<char>) -> Result<(Seq<char>, Seq<char>), Seq<char>> {
    if !cfg_ready(c) {
        Err("邮件功能未启用或配置不完整"@)
    } else if !mailbox_parses(sender_text(c)) && !mailbox_parses(c.from) {
        Err("发件人地址不合法："@ + c.from)
    } else if !mailbox_parses(trim(to)) {
        Err("收件人地址不合法："@ + to)
    } else {
        Ok(
            (
                if mailbox_parses(sender_text(c)) {
                    sender_text(c)
                } else {
                    c.from
                },
                trim(to),
            ),
        )
    }
}

/// Checks a mail to `to` before it is handed to SMTP (see `send_plan`);
/// gives the sender and recipient texts to use.
pub fn mail_addresses(cfg: &MailCfg, to: &str) -> (r: Result<(String, String), String>)
    ensures
        match r {
            Ok((a, b)) => send_plan(cfg@, to@) == Ok::<(Seq<char>, Seq<char>), Seq<char>>((a@, b@)),
            Err(e) => send_plan(cfg@, to@) == Err::<(Seq<char>, Seq<char>), Seq<char>>(e@),
        },
{
    if !cfg.ready() {
        return Err(copy_str("邮件功能未启用或配置不完整"));
    }
    let mut sv: Vec<char> = Vec::new();
    push_str(&mut sv, cfg.from_name.as_str());
    push_str(&mut sv, " <");
    push_str(&mut sv, cfg.from.as_str());
    push_str(&mut sv, ">");
    let named = string_of(sv.as_slice());
    let from = if mailbox_ok(named.as_str()) {
        named
    } else if mailbox_ok(cfg.from.as_str()) {
        copy_str(cfg.from.as_str())
    } else {
        return Err(crate::text::str_cat("发件人地址不合法：", cfg.from.as_str()));
    };
    let t = crate::text::trim_str(to);
    if !mailbox_ok(t.as_str()) {
        return Err(crate::text::str_cat("收件人地址不合法：", to));
    }
    Ok((from, t))
}

} // verus!
