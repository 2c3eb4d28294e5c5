use card::models::{Store, Order};
use card::payment::{Params, epay_sign};
use card::pages::{
    ResultQ, ResultPage, PayPage, QueryQ, CreateOrderForm, CategoryForm, ProductForm, CardsQ, OrdersQ,
    ImportForm, DeleteUnsoldForm, parse_product_form, deliver_notice, import_notice, cleared_notice,
};

const T0: &str = "2026-07-26 10:00:00";

/// A shop with one category, one product at 10.00 and three cards.
fn shop() -> Store {
    let mut s = Store::new();
    s.seed_settings();
    assert_eq!(s.create_category("游戏", 1), Ok(()));
    assert_eq!(s.create_product_at(1, "月卡", "说明", "", 1000, 0, T0), Ok(()));
    assert_eq!(s.import_cards_at(1, "A1\nA2\n A3 \n\nA1\n", T0), Ok((3, 1)));
    assert!(s.check_wf());
    s
}

fn place(s: &mut Store, q: i64, contact: &str, no: &str, now: &str) -> Result<Order, String> {
    s.create_order_at(1, q, contact, "2026-07-26 09:00:00", no, now)
}

#[test]
fn import_skips_duplicates_and_blank_lines() {
    let mut s = shop();
    assert_eq!(s.count_avail_for(1), 3);
    // importing the same text again adds nothing
    assert_eq!(s.import_cards_at(1, "A1\nA2\n A3 \n\nA1\n", T0), Ok((0, 4)));
    assert_eq!(s.count_avail_for(1), 3);
    assert_eq!(import_notice(3, 1), "导入 3 张，跳过重复 1 张");
    assert_eq!(import_notice(2, 0), "导入 2 张");
    let msg = s.import_from(&ImportForm { product_id: 1, codes: "B1\r\nB2".to_string() });
    assert_eq!(msg, Ok("导入 2 张".to_string()));
    assert_eq!(s.count_avail_for(1), 5);
}

#[test]
fn an_order_locks_its_cards_and_delivery_sells_them() {
    let mut s = shop();
    let o = match place(&mut s, 2, " buyer@x.com ", "NO1", T0) {
        Ok(o) => o,
        Err(e) => panic!("{e}"),
    };
    assert_eq!(o.total_cents, 2000);
    assert_eq!(o.contact, "buyer@x.com");
    assert_eq!(o.status, 0);
    assert_eq!(o.total_str(), "20.00");
    assert_eq!(o.unit_str(), "10.00");
    assert_eq!(s.count_locked_for(o.id), 2);
    assert_eq!(s.count_avail_for(1), 1);
    // demonstration payment
    assert_eq!(s.mock_pay("NO1"), Ok(1));
    let codes = s.order_codes(o.id);
    assert_eq!(codes, vec!["A1".to_string(), "A2".to_string()]);
    assert_eq!(s.count_locked_for(o.id), 0);
    // paying again changes nothing
    assert_eq!(s.deliver_order_at("NO1", "manual", "2026-07-26 11:00:00"), Ok(1));
    assert_eq!(s.order_codes(o.id).len(), 2);
    let again = s.get_order_by_no("NO1").unwrap();
    assert_eq!(again.status, 1);
    assert_eq!(again.pay_method, "mock");
    assert_eq!(again.pay_method_label(), "模拟支付");
    assert_eq!(again.status_label(), "已完成");
    assert!(s.check_wf());
}

#[test]
fn order_refusals() {
    let mut s = shop();
    assert_eq!(place(&mut s, 0, "buyer@x.com", "N0", T0).err(), Some("购买数量需在 1 - 100 之间".to_string()));
    assert_eq!(place(&mut s, 101, "buyer@x.com", "N0", T0).err(), Some("购买数量需在 1 - 100 之间".to_string()));
    assert_eq!(place(&mut s, 1, " abc ", "N0", T0).err(), Some("请填写有效的联系方式（至少 4 个字符）".to_string()));
    assert_eq!(place(&mut s, 4, "buyer@x.com", "N0", T0).err(), Some("库存不足，请减少数量或稍后再试".to_string()));
    assert!(place(&mut s, 1, "buyer@x.com", "N1", T0).is_ok());
    assert_eq!(place(&mut s, 1, "buyer@x.com", "N1", T0).err(), Some("UNIQUE constraint failed: orders.order_no".to_string()));
    assert_eq!(
        s.create_order_at(9, 1, "buyer@x.com", "2026-07-26 09:00:00", "N2", T0).err(),
        Some("商品不存在".to_string())
    );
    s.toggle_product(1);
    assert_eq!(place(&mut s, 1, "buyer@x.com", "N3", T0).err(), Some("商品已下架".to_string()));
}

#[test]
fn stale_orders_expire_and_release_their_cards() {
    let mut s = shop();
    assert!(place(&mut s, 3, "buyer@x.com", "NO1", T0).is_ok());
    assert_eq!(s.count_avail_for(1), 0);
    assert_eq!(s.expire_stale_orders_at("2026-07-26 09:59:59"), 0);
    assert_eq!(s.expire_stale_orders_at("2026-07-26 10:15:01"), 1);
    assert_eq!(s.count_avail_for(1), 3);
    let o = s.get_order_by_no("NO1").unwrap();
    assert_eq!(o.status, 2);
    assert_eq!(o.status_label(), "已过期");
}

#[test]
fn a_paid_order_without_stock_waits() {
    let mut s = shop();
    assert!(place(&mut s, 3, "first@x.com", "NO1", T0).is_ok());
    assert_eq!(s.expire_stale_orders_at("2026-07-26 10:20:00"), 1);
    assert!(place(&mut s, 2, "second@x.com", "NO2", "2026-07-26 10:21:00").is_ok());
    // the first buyer pays late: only one card is left for three
    assert_eq!(s.deliver_order_at("NO1", "alipay", "2026-07-26 10:22:00"), Ok(3));
    let o = s.get_order_by_no("NO1").unwrap();
    assert_eq!(o.status, 3);
    assert_eq!(s.count_avail_for(1), 0);
    assert_eq!(deliver_notice(&Ok(3)), Err("库存不足，已标记待补发，请先导入卡密再重试".to_string()));
    // after restocking the delivery goes through
    assert_eq!(s.import_cards_at(1, "C1\nC2", T0), Ok((2, 0)));
    assert_eq!(s.deliver_order_at("NO1", "manual", "2026-07-26 10:30:00"), Ok(1));
    assert_eq!(s.order_codes(o.id).len(), 3);
    assert_eq!(deliver_notice(&Ok(1)), Ok("已发货".to_string()));
    assert_eq!(deliver_notice(&Ok(2)), Ok("处理完成".to_string()));
    assert_eq!(deliver_notice(&Err("订单不存在".to_string())), Err("订单不存在".to_string()));
    assert_eq!(s.deliver_order_at("NOPE", "manual", T0), Err("订单不存在".to_string()));
}

#[test]
fn the_result_page_shows_codes_only_to_the_buyer() {
    let mut s = shop();
    assert!(place(&mut s, 1, "buyer@x.com", "NO1", T0).is_ok());
    match s.order_result("NO1", &ResultQ { c: Some("buyer@x.com".to_string()) }) {
        ResultPage::ToPay(no) => assert_eq!(no, "NO1"),
        _ => panic!("the unpaid order should send its buyer to payment"),
    }
    assert_eq!(s.mock_pay("NO1"), Ok(1));
    match s.order_result("NO1", &ResultQ { c: Some("buyer@x.com".to_string()) }) {
        ResultPage::Show { codes, verified, masked, .. } => {
            assert!(verified);
            assert_eq!(codes, vec!["A1".to_string()]);
            assert_eq!(masked, "b***@x.com");
        }
        _ => panic!("the result page should show"),
    }
    match s.order_result("NO1", &ResultQ { c: Some("other@x.com".to_string()) }) {
        ResultPage::Show { codes, verified, .. } => {
            assert!(!verified);
            assert!(codes.is_empty());
        }
        _ => panic!("the result page should show"),
    }
    assert!(matches!(s.order_result("NOPE", &ResultQ { c: None }), ResultPage::Missing));
}

#[test]
fn the_lookup_needs_both_number_and_contact() {
    let mut s = shop();
    assert!(place(&mut s, 1, "buyer@x.com", "NO1", T0).is_ok());
    let q = |no: Option<&str>, c: Option<&str>| QueryQ {
        order_no: no.map(|x| x.to_string()),
        contact: c.map(|x| x.to_string()),
    };
    let (orders, searched, no, contact) = s.query_page(&q(Some(" NO1 "), Some(" buyer@x.com ")));
    assert_eq!(orders.len(), 1);
    assert!(searched);
    assert_eq!(no, "NO1");
    assert_eq!(contact, "buyer@x.com");
    let (orders, searched, _, _) = s.query_page(&q(None, Some("buyer@x.com")));
    assert!(orders.is_empty());
    assert!(searched);
    let (orders, searched, _, _) = s.query_page(&q(Some("NO1"), None));
    assert!(orders.is_empty());
    assert!(!searched);
    let (orders, _, _, _) = s.query_page(&q(Some("NO1"), Some("someone@x.com")));
    assert!(orders.is_empty());
}

#[test]
fn the_payment_page() {
    let mut s = shop();
    assert!(place(&mut s, 1, "buyer@x.com", "NO1", T0).is_ok());
    match s.pay_page("NO1") {
        PayPage::Pay(o, channels) => {
            assert_eq!(o.order_no, "NO1");
            assert!(channels.is_empty());
        }
        _ => panic!("the order waits for payment"),
    }
    s.set_setting("pay_mode", "epay");
    s.set_setting("epay_gateway", "https://pay.example.com");
    s.set_setting("epay_pid", "1001");
    s.set_setting("epay_key", "KEY");
    match s.pay_page("NO1") {
        PayPage::Pay(_, channels) => assert_eq!(channels.len(), 2),
        _ => panic!("the order waits for payment"),
    }
    // not in demonstration mode any more
    assert_eq!(s.mock_pay("NO1"), Err("当前不是演示支付模式".to_string()));
    assert_eq!(s.deliver_order_at("NO1", "alipay", T0), Ok(1));
    match s.pay_page("NO1") {
        PayPage::Paid(link) => assert_eq!(link, "/order/NO1?c=buyer%40x.com"),
        _ => panic!("a paid order goes to its result"),
    }
    assert!(matches!(s.pay_page("NOPE"), PayPage::Missing));
    assert_eq!(s.order_status("NO1"), Some((1, "/order/NO1?c=buyer%40x.com".to_string())));
    assert_eq!(s.order_status("NOPE"), None);
}

#[test]
fn the_gateway_notification_delivers_once() {
    let mut s = shop();
    s.set_setting("pay_mode", "epay");
    s.set_setting("epay_key", "KEY");
    assert!(place(&mut s, 1, "buyer@x.com", "NO1", T0).is_ok());
    let mut p = Params::new();
    p.insert("out_trade_no", "NO1");
    p.insert("money", "10.00");
    p.insert("trade_status", "TRADE_SUCCESS");
    p.insert("type", "wxpay");
    let sign = epay_sign(&p, "KEY");
    p.insert("sign", &sign);
    let (reply, st) = s.epay_notify(&p);
    assert_eq!(reply, "success");
    assert_eq!(st, Some(1));
    assert_eq!(s.get_order_by_no("NO1").unwrap().pay_method, "wxpay");
    // a repeated notification is answered without delivering again
    let (reply, st) = s.epay_notify(&p);
    assert_eq!(reply, "success");
    assert_eq!(st, None);
    // unknown order and bad signature
    let mut q = Params::new();
    q.insert("out_trade_no", "NOPE");
    assert_eq!(s.epay_notify(&q).0, "fail: order not found");
    assert!(place(&mut s, 1, "buyer@x.com", "NO2", T0).is_ok());
    let mut b = Params::new();
    b.insert("out_trade_no", "NO2");
    b.insert("money", "10.00");
    b.insert("trade_status", "TRADE_SUCCESS");
    b.insert("sign", "0123");
    assert_eq!(s.epay_notify(&b).0, "fail: 签名校验失败");
    assert_eq!(s.get_order_by_no("NO2").unwrap().status, 0);
}

#[test]
fn placing_an_order_from_the_form() {
    let mut s = shop();
    let to = s.place_order(&CreateOrderForm { product_id: 1, quantity: 1, contact: "buyer@x.com".to_string() });
    assert!(to.starts_with("/pay/"));
    assert_eq!(to.len(), "/pay/".len() + 20);
    let back = s.place_order(&CreateOrderForm { product_id: 1, quantity: 0, contact: "buyer@x.com".to_string() });
    assert_eq!(back, "/p/1?err=%E8%B4%AD%E4%B9%B0%E6%95%B0%E9%87%8F%E9%9C%80%E5%9C%A8%201%20-%20100%20%E4%B9%8B%E9%97%B4");
}

#[test]
fn a_product_with_locked_cards_cannot_be_deleted() {
    let mut s = shop();
    assert!(place(&mut s, 1, "buyer@x.com", "NO1", T0).is_ok());
    assert_eq!(s.delete_product(1), Err("该商品有被订单锁定的卡密，请先处理相关订单".to_string()));
    assert_eq!(s.expire_stale_orders_at("2026-07-26 11:00:00"), 1);
    assert_eq!(s.delete_product(1), Ok(()));
    assert!(s.get_product_view(1).is_none());
    // the category is free again
    assert_eq!(s.delete_category(1), Ok(()));
}

#[test]
fn a_category_with_products_cannot_be_deleted() {
    let mut s = shop();
    assert_eq!(s.delete_category(1), Err("该分类下还有 1 个商品，请先移除商品".to_string()));
    let cats = s.list_categories();
    assert_eq!(cats.len(), 1);
    assert_eq!(cats[0].product_count, 1);
    assert_eq!(s.create_category_from(&CategoryForm { name: "  ".to_string(), sort: None }), Err("分类名不能为空".to_string()));
    assert_eq!(s.create_category_from(&CategoryForm { name: " 会员 ".to_string(), sort: Some(5) }), Ok(()));
    let cats = s.list_categories();
    assert_eq!(cats[0].name, "会员");
    assert_eq!(cats[0].sort, 5);
}

#[test]
fn product_forms() {
    let f = |name: &str, price: &str| ProductForm {
        category_id: 1,
        name: name.to_string(),
        description: " d ".to_string(),
        price: price.to_string(),
        sort: None,
    };
    assert_eq!(parse_product_form(&f(" 卡 ", "19.9")), Ok(("卡".to_string(), 1990)));
    assert_eq!(parse_product_form(&f("  ", "19.9")), Err("商品名不能为空".to_string()));
    assert_eq!(parse_product_form(&f("卡", "x")), Err("价格格式不正确，示例：19.90".to_string()));
    assert_eq!(parse_product_form(&f("卡", "0")), Err("价格必须大于 0".to_string()));
    let mut s = shop();
    assert_eq!(s.save_product(None, &f("新品", "5"), "/uploads/a.png"), Ok(()));
    let v = s.get_product_view(2).unwrap();
    assert_eq!(v.p.name, "新品");
    assert_eq!(v.p.description, "d");
    assert_eq!(v.p.price_cents, 500);
    assert!(v.p.has_image());
    assert_eq!(v.price_str, "5.00");
    assert_eq!(s.save_product(Some(2), &f("新品二", "6"), ""), Ok(()));
    let v = s.get_product_view(2).unwrap();
    assert_eq!(v.p.name, "新品二");
    assert!(!v.p.has_image());
    assert_eq!(s.save_product(Some(2), &f("", "6"), ""), Err("商品名不能为空".to_string()));
}

#[test]
fn product_listings() {
    let mut s = shop();
    assert_eq!(s.create_product_at(1, "年卡", "", "", 9900, 5, T0), Ok(()));
    let list = s.list_products_public(None);
    assert_eq!(list.len(), 2);
    assert_eq!(list[0].p.name, "年卡");
    assert_eq!(list[1].stock, 3);
    assert_eq!(list[1].category_name, "游戏");
    assert_eq!(s.low_stock_products().len(), 2);
    s.toggle_product(2);
    assert_eq!(s.list_products_public(None).len(), 1);
    assert_eq!(s.list_products_admin().len(), 2);
    assert!(s.product_page(2).is_none());
    assert!(s.product_page(1).is_some());
    assert_eq!(s.public_stats(), (1, 0));
}

#[test]
fn card_and_order_pages() {
    let mut s = shop();
    assert!(place(&mut s, 1, "buyer@x.com", "NO1", T0).is_ok());
    let all = s.cards_page(&CardsQ { product: None, status: None, q: None });
    assert_eq!(all.len(), 3);
    let locked = s.cards_page(&CardsQ { product: Some(1), status: Some(2), q: Some(" a1 ".to_string()) });
    assert_eq!(locked.len(), 1);
    assert_eq!(locked[0].status_label(), "锁定");
    assert_eq!(locked[0].order_id_str(), "1");
    let orders = s.orders_page(&OrdersQ { status: Some(0), q: Some("buyer".to_string()) });
    assert_eq!(orders.len(), 1);
    let none = s.orders_page(&OrdersQ { status: Some(1), q: None });
    assert!(none.is_empty());
    assert_eq!(s.clear_unsold(&DeleteUnsoldForm { product_id: 1 }), "已清空 2 张未售卡密");
    assert_eq!(cleared_notice(0), "已清空 0 张未售卡密");
    assert_eq!(s.count_avail_for(1), 0);
}

#[test]
fn dashboard_counts() {
    let mut s = shop();
    assert!(place(&mut s, 1, "buyer@x.com", "NO1", T0).is_ok());
    assert_eq!(s.deliver_order_at("NO1", "mock", "2026-07-26 10:05:00"), Ok(1));
    let d = match s.dash_stats_on("2026-07-26") {
        Ok(d) => d,
        Err(e) => panic!("{e}"),
    };
    assert_eq!(d.today_orders, 1);
    assert_eq!(d.today_revenue_str, "10.00");
    assert_eq!(d.total_sold, 1);
    assert_eq!(d.stock_total, 2);
    let d2 = s.dash_stats_on("2026-07-27").ok().unwrap();
    assert_eq!(d2.today_orders, 0);
    assert_eq!(d2.today_revenue_str, "0.00");
}

#[test]
fn refusals_before_the_total_need_no_fitting_price() {
    let mut s = Store::new();
    s.seed_settings();
    assert_eq!(s.create_category("游戏", 1), Ok(()));
    assert_eq!(s.create_product_at(1, "巨额", "说明", "", i64::MAX / 2, 0, T0), Ok(()));
    // too short a contact is refused before the total is computed
    assert_eq!(
        s.create_order_at(1, 3, "abc", "2026-07-26 09:00:00", "N1", T0).err(),
        Some("请填写有效的联系方式（至少 4 个字符）".to_string())
    );
    // so is a product off the shelf
    s.toggle_product(1);
    assert_eq!(
        s.create_order_at(1, 3, "buyer@x.com", "2026-07-26 09:00:00", "N1", T0).err(),
        Some("商品已下架".to_string())
    );
    assert!(s.orders.is_empty());
}
