//! Orders as shown to buyers and administrators, the order queries, the
//! dashboard figures, and the entry points of the order lifecycle that
//! read the clock.

use vstd::prelude::*;
use crate::cards::limit;
use crate::catalog::{lemma_cards_len, lemma_orders_len};
use crate::like::{contains_pattern, like_contains, like_prefix, prefix_pattern};
use crate::models::{count_stale, create_outcome, deliver_status, deliver_view, expired, has_order_no, order_result_is, order_priced, total_fits, CardV, Order, OrderV, Store, CARD_ON_SALE, CARD_SOLD, ORDER_DONE, ORDER_PAID_WAITING, ORDER_TTL_MIN, msg_no_order};
use crate::money::{cents_str, cents_text};
use crate::text::{chars_of, copy_str, str_eq, string_of};
use crate::util::{enc, now_str, today_str, gen_order_no, url_encoded};

use crate::clock::{clock_text, order_cutoff, order_cutoff_at};

verus! {

pub open spec fn order_status_label(st: i64) -> Seq<char> {
    if st == 0 {
        "待支付"@
    } else if st == 1 {
        "已完成"@
    } else if st == 2 {
        "已过期"@
    } else if st == 3 {
        "已付待补发"@
    } else {
        "未知"@
    }
}

pub open spec fn order_status_class(st: i64) -> Seq<char> {
    if st == 0 {
        "pending"@
    } else if st == 1 {
        "done"@
    } else if st == 2 {
        "expired"@
    } else if st == 3 {
        "warn"@
    } else {
        "expired"@
    }
}

pub open spec fn pay_method_text(m: Seq<char>) -> Seq<char> {
    if m == "mock"@ {
        "模拟支付"@
    } else if m == "manual"@ {
        "人工补单"@
    } else if m == "alipay"@ {
        "支付宝"@
    } else if m == "wxpay"@ {
        "微信支付"@
    } else if m.len() == 0 {
        "—"@
    } else {
        "在线支付"@
    }
}

/// Link to an order's result page, carrying the contact for verification.
pub open spec fn view_link_text(o: OrderV) -> Seq<char> {
    "/order/"@ + o.order_no + "?c="@ + url_encoded(vstd::utf8::encode_utf8(o.contact))
}

impl Order {
    /// The total as "12.50".
    pub fn total_str(&self) -> (r: String)
        ensures
            r@ == cents_text(self.total_cents as int),
    {
        cents_str(self.total_cents)
    }

    /// The unit price as "12.50".
    pub fn unit_str(&self) -> (r: String)
        ensures
            r@ == cents_text(self.unit_cents as int),
    {
        cents_str(self.unit_cents)
    }

    /// Label of the order's status.
    pub fn status_label(&self) -> (r: &'static str)
        ensures
            r@ == order_status_label(self.status),
    {
        if self.status == 0 {
            "待支付"
        } else if self.status == 1 {
            "已完成"
        } else if self.status == 2 {
            "已过期"
        } else if self.status == 3 {
            "已付待补发"
        } else {
            "未知"
        }
    }

    /// Style class of the order's status.
    pub fn status_class(&self) -> (r: &'static str)
        ensures
            r@ == order_status_class(self.status),
    {
        if self.status == 0 {
            "pending"
        } else if self.status == 1 {
            "done"
        } else if self.status == 2 {
            "expired"
        } else if self.status == 3 {
            "warn"
        } else {
            "expired"
        }
    }

    /// When the order was paid, or "—".
    pub fn paid_at_str(&self) -> (r: String)
        ensures
            r@ == match opt_paid(self) {
                Some(t) => t,
                None => "—"@,
            },
    {
        match &self.paid_at {
            Some(t) => t.clone(),
            None => copy_str("—"),
        }
    }

    /// Link to the order's result page with the contact as check.
    pub fn view_link(&self) -> (r: String)
        ensures
            r@ == view_link_text(self@),
    {
        let c = enc(self.contact.as_str());
        let mut v: Vec<char> = Vec::new();
        crate::text::push_str(&mut v, "/order/");
        crate::text::push_str(&mut v, self.order_no.as_str());
        crate::text::push_str(&mut v, "?c=");
        crate::text::push_str(&mut v, c.as_str());
        string_of(v.as_slice())
    }

    /// Label of the payment method.
    pub fn pay_method_label(&self) -> (r: &'static str)
        ensures
            r@ == pay_method_text(self.pay_method@),
    {
        let m = self.pay_method.as_str();
        if str_eq(m, "mock") {
            "模拟支付"
        } else if str_eq(m, "manual") {
            "人工补单"
        } else if str_eq(m, "alipay") {
            "支付宝"
        } else if str_eq(m, "wxpay") {
            "微信支付"
        } else if m.unicode_len() == 0 {
            "—"
        } else {
            "在线支付"
        }
    }
}

pub open spec fn opt_paid(o: &Order) -> Option<Seq<char>> {
    crate::text::opt_view(o.paid_at)
}

// ---------- queries ----------

/// Does order `o` pass the administrators' filter?  Status when given, and
/// the pattern `%q%` on its number, contact or product name when `q` is
/// not empty.
pub open spec fn order_listed(o: OrderV, st: Option<i64>, q: Seq<char>) -> bool {
    &&& (st matches Some(x) ==> o.status == x)
    &&& (q.len() > 0 ==> like_contains(o.order_no, q) || like_contains(o.contact, q) || like_contains(o.product_name, q))
}

/// The listed orders among `os`, newest (last) first.
pub open spec fn orders_desc(os: Seq<OrderV>, st: Option<i64>, q: Seq<char>) -> Seq<OrderV>
    decreases os.len(),
{
    if os.len() == 0 {
        Seq::empty()
    } else {
        orders_desc(os.drop_first(), st, q) + if order_listed(os[0], st, q) {
            seq![os[0]]
        } else {
            Seq::<OrderV>::empty()
        }
    }
}

/// Most rows the administrators' order list shows.
pub const ORDER_LIST_LIMIT: usize = 300;

/// A completed order paid today (its payment time starts with `today`).
pub open spec fn paid_today(o: OrderV, today: Seq<char>) -> bool {
    o.status == ORDER_DONE && (o.paid_at matches Some(p) && like_prefix(p, today))
}

pub open spec fn count_paid_today(os: Seq<OrderV>, today: Seq<char>) -> nat
    decreases os.len(),
{
    if os.len() == 0 {
        0
    } else {
        count_paid_today(os.drop_last(), today) + if paid_today(os.last(), today) { 1nat } else { 0nat }
    }
}

pub open spec fn revenue_today(os: Seq<OrderV>, today: Seq<char>) -> int
    decreases os.len(),
{
    if os.len() == 0 {
        0
    } else {
        revenue_today(os.drop_last(), today) + if paid_today(os.last(), today) { os.last().total_cents as int } else { 0 }
    }
}

/// Every running sum of today's revenue fits in an `i64` (SQLite's `SUM`
/// reports an integer overflow otherwise).
pub open spec fn revenue_fits(os: Seq<OrderV>, today: Seq<char>) -> bool {
    forall|k: int| 0 <= k <= os.len() ==> i64::MIN <= #[trigger] revenue_today(os.take(k), today) <= i64::MAX
}

pub open spec fn count_status_cards(cs: Seq<CardV>, st: i64) -> nat
    decreases cs.len(),
{
    if cs.len() == 0 {
        0
    } else {
        count_status_cards(cs.drop_last(), st) + if cs.last().status == st { 1nat } else { 0nat }
    }
}

pub open spec fn count_status_orders(os: Seq<OrderV>, st: i64) -> nat
    decreases os.len(),
{
    if os.len() == 0 {
        0
    } else {
        count_status_orders(os.drop_last(), st) + if os.last().status == st { 1nat } else { 0nat }
    }
}

/// Figures of the administrators' dashboard.
pub struct DashStats {
    pub today_orders: i64,
    pub today_revenue_str: String,
    pub total_sold: i64,
    pub stock_total: i64,
    pub pending_resend: i64,
}

pub open spec fn msg_overflow() -> Seq<char> {
    "integer overflow"@
}

impl Store {
    /// The order with number `order_no`.
    pub fn get_order_by_no(&self, order_no: &str) -> (r: Option<Order>)
        requires
            self@.wf(),
        ensures
            r is Some <==> has_order_no(self@.orders, order_no@),
            r matches Some(o) ==> exists|i: int| 0 <= i < self@.orders.len() && self@.orders[i] == o@ && o@.order_no == order_no@,
    {
        match self.find_order(order_no) {
            Some(i) => Some(self.orders[i].copy()),
            None => None,
        }
    }

    /// The codes of the cards sold to order `order_id`, in card order.
    pub fn order_codes(&self, order_id: i64) -> (r: Vec<String>)
        ensures
            r@.map_values(|c: String| c@) == self@.cards.filter(|c: CardV| c.order_id == Some(order_id) && c.status == CARD_SOLD).map_values(|c: CardV| c.code),
    {
        let ghost s = self@.cards;
        let ghost kp = |c: CardV| c.order_id == Some(order_id) && c.status == CARD_SOLD;
        let mut out: Vec<String> = Vec::new();
        let mut i: usize = 0;
        while i < self.cards.len()
            invariant
                s == self@.cards,
                kp == (|c: CardV| c.order_id == Some(order_id) && c.status == CARD_SOLD),
                i <= s.len(),
                out@.map_values(|c: String| c@) == s.take(i as int).filter(kp).map_values(|c: CardV| c.code),
            decreases s.len() - i,
        {
            let c = &self.cards[i];
            proof {
                assert(s.take(i + 1).drop_last() =~= s.take(i as int));
                assert(s.take(i + 1).last() == c@);
                assert(s.take(i + 1).filter(kp) == if kp(c@) {
                    s.take(i as int).filter(kp).push(c@)
                } else {
                    s.take(i as int).filter(kp)
                }) by {
                    reveal(Seq::filter);
                }
            }
            if c.order_id == Some(order_id) && c.status == CARD_SOLD {
                let ghost o = out@.map_values(|c: String| c@);
                out.push(c.code.clone());
                assert(out@.map_values(|c: String| c@) =~= o.push(c@.code));
                assert(s.take(i + 1).filter(kp).map_values(|c: CardV| c.code) =~= s.take(i as int).filter(kp).map_values(|c: CardV| c.code).push(c@.code));
            }
            i = i + 1;
        }
        assert(s.take(s.len() as int) =~= s);
        out
    }

    /// The buyer's order lookup: both the order number and the contact are
    /// needed, and both must match (an empty one finds nothing).
    pub fn query_orders_by_contact(&self, order_no: &str, contact: &str) -> (r: Vec<Order>)
        ensures
            r@.map_values(|o: Order| o@) == if order_no@.len() == 0 || contact@.len() == 0 {
                Seq::empty()
            } else {
                self@.orders.filter(|o: OrderV| o.order_no == order_no@ && o.contact == contact@)
            },
    {
        let ghost s = self@.orders;
        let mut out: Vec<Order> = Vec::new();
        if order_no.unicode_len() == 0 || contact.unicode_len() == 0 {
            assert(out@.map_values(|o: Order| o@) =~= Seq::<OrderV>::empty());
            return out;
        }
        let ghost kp = |o: OrderV| o.order_no == order_no@ && o.contact == contact@;
        let mut i: usize = 0;
        while i < self.orders.len()
            invariant
                s == self@.orders,
                kp == (|o: OrderV| o.order_no == order_no@ && o.contact == contact@),
                i <= s.len(),
                out@.map_values(|o: Order| o@) == s.take(i as int).filter(kp),
            decreases s.len() - i,
        {
            let o = &self.orders[i];
            proof {
                assert(s.take(i + 1).drop_last() =~= s.take(i as int));
                assert(s.take(i + 1).last() == o@);
                assert(s.take(i + 1).filter(kp) == if kp(o@) {
                    s.take(i as int).filter(kp).push(o@)
                } else {
                    s.take(i as int).filter(kp)
                }) by {
                    reveal(Seq::filter);
                }
            }
            if str_eq(o.order_no.as_str(), order_no) && str_eq(o.contact.as_str(), contact) {
                let ghost v = out@.map_values(|o: Order| o@);
                out.push(o.copy());
                assert(out@.map_values(|o: Order| o@) =~= v.push(o@));
            }
            i = i + 1;
        }
        assert(s.take(s.len() as int) =~= s);
        out
    }

    /// Orders filtered by status and a pattern on number, contact or product
    /// name, newest first, at most 300.
    pub fn list_orders_admin(&self, status: Option<i64>, q: &str) -> (r: Vec<Order>)
        ensures
            r@.map_values(|o: Order| o@) == limit(orders_desc(self@.orders, status, q@), ORDER_LIST_LIMIT as int),
    {
        let ghost s = self@.orders;
        let qv = chars_of(q);
        let mut out: Vec<Order> = Vec::new();
        let n = self.orders.len();
        let mut i: usize = n;
        proof {
            assert(s.subrange(n as int, n as int) =~= Seq::<OrderV>::empty());
        }
        while i > 0
            invariant
                s == self@.orders,
                n == s.len(),
                i <= n,
                qv@ == q@,
                out@.map_values(|o: Order| o@) == orders_desc(s.subrange(i as int, n as int), status, q@),
            decreases i,
        {
            let j = i - 1;
            let o = &self.orders[j];
            proof {
                let sub = s.subrange(j as int, n as int);
                assert(sub[0] == o@);
                assert(sub.drop_first() =~= s.subrange(i as int, n as int));
            }
            let st_ok = match status {
                Some(x) => o.status == x,
                None => true,
            };
            let keep = st_ok && (qv.len() == 0
                || contains_pattern(chars_of(o.order_no.as_str()).as_slice(), qv.as_slice())
                || contains_pattern(chars_of(o.contact.as_str()).as_slice(), qv.as_slice())
                || contains_pattern(chars_of(o.product_name.as_str()).as_slice(), qv.as_slice()));
            if keep {
                let ghost v = out@.map_values(|o: Order| o@);
                out.push(o.copy());
                assert(out@.map_values(|o: Order| o@) =~= v.push(o@));
            }
            i = j;
        }
        assert(s.subrange(0, n as int) =~= s);
        let ghost full = out@.map_values(|o: Order| o@);
        if out.len() > ORDER_LIST_LIMIT {
            out.truncate(ORDER_LIST_LIMIT);
            assert(out@.map_values(|o: Order| o@) =~= full.take(ORDER_LIST_LIMIT as int));
        }
        out
    }

    /// The dashboard figures for the day whose date is `today`: completed
    /// orders paid that day and their revenue, sold cards, cards on sale,
    /// and orders paid but waiting for stock.
    pub fn dash_stats_on(&self, today: &str) -> (r: Result<DashStats, String>)
        requires
            self@.wf(),
        ensures
            !revenue_fits(self@.orders, today@) ==> (r matches Err(m) && m@ == msg_overflow()),
            revenue_fits(self@.orders, today@) ==> (r matches Ok(d) && {
                &&& d.today_orders == count_paid_today(self@.orders, today@)
                &&& d.today_revenue_str@ == cents_text(revenue_today(self@.orders, today@))
                &&& d.total_sold == count_status_cards(self@.cards, CARD_SOLD)
                &&& d.stock_total == count_status_cards(self@.cards, CARD_ON_SALE)
                &&& d.pending_resend == count_status_orders(self@.orders, ORDER_PAID_WAITING)
            }),
    {
        let ghost s = self@;
        proof {
            lemma_cards_len(s);
            lemma_orders_len(s);
        }
        let tv = chars_of(today);
        let mut cnt: i64 = 0;
        let mut rev: i64 = 0;
        let mut waiting: i64 = 0;
        let mut i: usize = 0;
        while i < self.orders.len()
            invariant
                s == self@,
                s.orders.len() <= i64::MAX,
                tv@ == today@,
                i <= s.orders.len(),
                cnt == count_paid_today(s.orders.take(i as int), today@),
                cnt <= i,
                waiting == count_status_orders(s.orders.take(i as int), ORDER_PAID_WAITING),
                waiting <= i,
                rev == revenue_today(s.orders.take(i as int), today@),
                forall|k: int| 0 <= k <= i ==> i64::MIN <= #[trigger] revenue_today(s.orders.take(k), today@) <= i64::MAX,
            decreases s.orders.len() - i,
        {
            let o = &self.orders[i];
            proof {
                assert(s.orders.take(i + 1).drop_last() =~= s.orders.take(i as int));
                assert(s.orders.take(i + 1).last() == o@);
            }
            let today_paid = o.status == ORDER_DONE && match &o.paid_at {
                Some(p) => prefix_pattern(chars_of(p.as_str()).as_slice(), tv.as_slice()),
                None => false,
            };
            if today_paid {
                cnt = cnt + 1;
                match rev.checked_add(o.total_cents) {
                    Some(v) => {
                        rev = v;
                    },
                    None => {
                        proof {
                            assert(!(i64::MIN <= revenue_today(s.orders.take(i + 1), today@) <= i64::MAX));
                        }
                        return Err(copy_str("integer overflow"));
                    },
                }
            }
            if o.status == ORDER_PAID_WAITING {
                waiting = waiting + 1;
            }
            i = i + 1;
        }
        assert(s.orders.take(s.orders.len() as int) =~= s.orders);
        let mut sold: i64 = 0;
        let mut stock: i64 = 0;
        let mut k: usize = 0;
        while k < self.cards.len()
            invariant
                s == self@,
                s.cards.len() <= i64::MAX,
                k <= s.cards.len(),
                sold == count_status_cards(s.cards.take(k as int), CARD_SOLD),
                stock == count_status_cards(s.cards.take(k as int), CARD_ON_SALE),
                sold <= k,
                stock <= k,
            decreases s.cards.len() - k,
        {
            proof {
                assert(s.cards.take(k + 1).drop_last() =~= s.cards.take(k as int));
            }
            if self.cards[k].status == CARD_SOLD {
                sold = sold + 1;
            }
            if self.cards[k].status == CARD_ON_SALE {
                stock = stock + 1;
            }
            k = k + 1;
        }
        assert(s.cards.take(s.cards.len() as int) =~= s.cards);
        Ok(DashStats {
            today_orders: cnt,
            today_revenue_str: cents_str(rev),
            total_sold: sold,
            stock_total: stock,
            pending_resend: waiting,
        })
    }

    /// The dashboard figures for the current day.
    pub fn dash_stats(&self) -> (r: Result<DashStats, String>)
        requires
            self@.wf(),
        ensures
            exists|today: Seq<char>| {
                &&& !revenue_fits(self@.orders, today) ==> (r matches Err(m) && m@ == msg_overflow())
                &&& revenue_fits(self@.orders, today) ==> (r matches Ok(d) && {
                    &&& d.today_orders == count_paid_today(self@.orders, today)
                    &&& d.today_revenue_str@ == cents_text(revenue_today(self@.orders, today))
                    &&& d.total_sold == count_status_cards(self@.cards, CARD_SOLD)
                    &&& d.stock_total == count_status_cards(self@.cards, CARD_ON_SALE)
                    &&& d.pending_resend == count_status_orders(self@.orders, ORDER_PAID_WAITING)
                })
            },
    {
        let today = today_str();
        let r = self.dash_stats_on(today.as_str());
        assert(revenue_fits(self@.orders, today@) || !revenue_fits(self@.orders, today@));
        r
    }

    /// Expires the orders left unpaid longer than `ORDER_TTL_MIN` minutes
    /// (the cutoff is read from the clock); returns how many expired.
    pub fn expire_stale_orders(&mut self) -> (n: usize)
        requires
            old(self)@.wf(),
        ensures
            final(self)@.wf(),
            exists|cutoff: Seq<char>| final(self)@ == #[trigger] expired(old(self)@, cutoff) && n == count_stale(old(self)@.orders, cutoff),
            exists|now: Seq<char>|
                clock_text(now) && final(self)@ == #[trigger] expired(old(self)@, order_cutoff(now)) && n
                    == count_stale(old(self)@.orders, order_cutoff(now)),
    {
        let now = now_str();
        let cutoff = order_cutoff_at(now.as_str());
        let n = self.expire_stale_orders_at(cutoff.as_str());
        assert(self@ == expired(old(self)@, order_cutoff(now@)));
        n
    }

    /// Places an order; the cutoff for expiry, the order number and the
    /// creation time come from the clock and the random source.
    pub fn create_order(&mut self, product_id: i64, quantity: i64, contact: &str) -> (r: Result<Order, String>)
        requires
            old(self)@.wf(),
            order_priced(old(self)@, product_id, quantity, contact@) ==> total_fits(old(self)@, product_id, quantity),
        ensures
            final(self)@.wf(),
            exists|cutoff: Seq<char>, no: Seq<char>, now: Seq<char>| {
                &&& final(self)@ == #[trigger] create_outcome(old(self)@, product_id, quantity, contact@, cutoff, no, now).0
                &&& order_result_is(r, create_outcome(old(self)@, product_id, quantity, contact@, cutoff, no, now).1)
            },
            exists|no: Seq<char>, now: Seq<char>| {
                &&& clock_text(now)
                &&& final(self)@ == #[trigger] create_outcome(old(self)@, product_id, quantity, contact@, order_cutoff(now), no, now).0
                &&& order_result_is(r, create_outcome(old(self)@, product_id, quantity, contact@, order_cutoff(now), no, now).1)
            },
    {
        let now = now_str();
        let cutoff = order_cutoff_at(now.as_str());
        let no = gen_order_no();
        let r = self.create_order_at(product_id, quantity, contact, cutoff.as_str(), no.as_str(), now.as_str());
        assert(self@ == create_outcome(old(self)@, product_id, quantity, contact@, order_cutoff(now@), no@, now@).0);
        r
    }

    /// Delivers a paid order (see `deliver_order_at`); the time of payment
    /// is read from the clock.
    pub fn deliver_order(&mut self, order_no: &str, pay_method: &str) -> (r: Result<i64, String>)
        requires
            old(self)@.wf(),
        ensures
            final(self)@.wf(),
            !has_order_no(old(self)@.orders, order_no@) ==> (final(self)@ == old(self)@ && (r matches Err(m) && m@ == msg_no_order())),
            forall|i: int|
                #![trigger old(self)@.orders[i]]
                0 <= i < old(self)@.orders.len() && old(self)@.orders[i].order_no == order_no@ ==> {
                    &&& exists|t: Seq<char>| final(self)@ == #[trigger] deliver_view(old(self)@, i, pay_method@, t)
                    &&& exists|t: Seq<char>| clock_text(t) && final(self)@ == #[trigger] deliver_view(old(self)@, i, pay_method@, t)
                    &&& r == Ok::<i64, String>(deliver_status(old(self)@, i))
                },
    {
        let ghost s = self@;
        let now = now_str();
        let r = self.deliver_order_at(order_no, pay_method, now.as_str());
        proof {
            assert forall|i: int|
                #![trigger s.orders[i]]
                0 <= i < s.orders.len() && s.orders[i].order_no == order_no@ implies {
                    &&& exists|t: Seq<char>| self@ == #[trigger] deliver_view(s, i, pay_method@, t)
                    &&& exists|t: Seq<char>| clock_text(t) && self@ == #[trigger] deliver_view(s, i, pay_method@, t)
                    &&& r == Ok::<i64, String>(deliver_status(s, i))
                } by {
                assert(self@ == deliver_view(s, i, pay_method@, now@));
            }
        }
        r
    }
}

} // verus!
