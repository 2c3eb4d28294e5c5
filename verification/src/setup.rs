//! A new, empty shop; the check that tables read back from storage hold
//! the shop's invariant; and what a new shop starts with (default settings
//! and the first administrator).

use vstd::prelude::*;
use crate::models::{Store, StoreV, Card, CardV, Order, Admin, AdminV, Session, CategoryRow, ProductRecord, cards_wf, card_orders_wf, orders_wf, products_wf, categories_wf, admins_wf, sessions_wf, settings_wf, CARD_ON_SALE, CARD_SOLD, CARD_LOCKED};
use crate::catalog::{has_key};
use crate::text::{str_eq, copy_str};
use crate::auth::{bcrypt_hash, bcrypt_verdict, has_admin_named, admin_named};

verus! {

impl Store {
    /// A shop with no rows at all.
    pub fn new() -> (r: Store)
        ensures
            r@.wf(),
            r@.settings.len() == 0,
            r@.admins.len() == 0,
            r@.sessions.len() == 0,
            r@.categories.len() == 0,
            r@.products.len() == 0,
            r@.cards.len() == 0,
            r@.orders.len() == 0,
            r@.admin_seq == 0 && r@.category_seq == 0 && r@.product_seq == 0 && r@.card_seq == 0
                && r@.order_seq == 0,
    {
        Store {
            settings: Vec::new(),
            admins: Vec::new(),
            sessions: Vec::new(),
            categories: Vec::new(),
            products: Vec::new(),
            cards: Vec::new(),
            orders: Vec::new(),
            admin_seq: 0,
            category_seq: 0,
            product_seq: 0,
            card_seq: 0,
            order_seq: 0,
        }
    }
}

// ---------- checking loaded tables ----------

/// Ids strictly increasing, each between 1 and `seq`, and `seq` not
/// negative.
pub open spec fn ids_ok(ids: Seq<i64>, seq: i64) -> bool {
    &&& seq >= 0
    &&& forall|i: int, j: int| 0 <= i < j < ids.len() ==> ids[i] < ids[j]
    &&& forall|i: int| 0 <= i < ids.len() ==> 1 <= #[trigger] ids[i] <= seq
}

fn check_ids(ids: &[i64], seq: i64) -> (r: bool)
    ensures
        r == ids_ok(ids@, seq),
{
    if seq < 0 {
        return false;
    }
    let mut i: usize = 0;
    while i < ids.len()
        invariant
            seq >= 0,
            i <= ids@.len(),
            forall|a: int, b: int| 0 <= a < b < i ==> ids@[a] < ids@[b],
            forall|a: int| 0 <= a < i ==> 1 <= #[trigger] ids@[a] <= seq,
        decreases ids@.len() - i,
    {
        if ids[i] < 1 || ids[i] > seq {
            return false;
        }
        if i > 0 && ids[i - 1] >= ids[i] {
            return false;
        }
        proof {
            assert forall|a: int, b: int| 0 <= a < b < i + 1 implies ids@[a] < ids@[b] by {
                if b == i && a < i - 1 {
                    assert(ids@[a] < ids@[i - 1]);
                }
            }
        }
        i = i + 1;
    }
    true
}

/// No two of the strings are equal.
fn check_distinct(v: &[String]) -> (r: bool)
    ensures
        r == forall|i: int, j: int| 0 <= i < j < v@.len() ==> v@[i]@ != v@[j]@,
{
    let mut i: usize = 0;
    while i < v.len()
        invariant
            i <= v@.len(),
            forall|a: int, b: int| 0 <= a < i && a < b < v@.len() ==> v@[a]@ != v@[b]@,
        decreases v@.len() - i,
    {
        let mut j: usize = i + 1;
        while j < v.len()
            invariant
                i < v@.len(),
                i + 1 <= j <= v@.len(),
                forall|a: int, b: int| 0 <= a < i && a < b < v@.len() ==> v@[a]@ != v@[b]@,
                forall|b: int| i < b < j ==> v@[i as int]@ != v@[b]@,
            decreases v@.len() - j,
        {
            if str_eq(v[i].as_str(), v[j].as_str()) {
                return false;
            }
            j = j + 1;
        }
        i = i + 1;
    }
    true
}

fn card_ids(cs: &[Card]) -> (r: Vec<i64>)
    ensures
        r@.len() == cs@.len(),
        forall|i: int| 0 <= i < cs@.len() ==> r@[i] == (#[trigger] cs@[i]).id,
{
    let mut r: Vec<i64> = Vec::new();
    let mut i: usize = 0;
    while i < cs.len()
        invariant
            i <= cs@.len(),
            r@.len() == i,
            forall|j: int| 0 <= j < i ==> r@[j] == (#[trigger] cs@[j]).id,
        decreases cs@.len() - i,
    {
        r.push(cs[i].id);
        i = i + 1;
    }
    r
}

fn order_ids(os: &[Order]) -> (r: Vec<i64>)
    ensures
        r@.len() == os@.len(),
        forall|i: int| 0 <= i < os@.len() ==> r@[i] == (#[trigger] os@[i]).id,
{
    let mut r: Vec<i64> = Vec::new();
    let mut i: usize = 0;
    while i < os.len()
        invariant
            i <= os@.len(),
            r@.len() == i,
            forall|j: int| 0 <= j < i ==> r@[j] == (#[trigger] os@[j]).id,
        decreases os@.len() - i,
    {
        r.push(os[i].id);
        i = i + 1;
    }
    r
}

fn product_ids(ps: &[ProductRecord]) -> (r: Vec<i64>)
    ensures
        r@.len() == ps@.len(),
        forall|i: int| 0 <= i < ps@.len() ==> r@[i] == (#[trigger] ps@[i]).product.id,
{
    let mut r: Vec<i64> = Vec::new();
    let mut i: usize = 0;
    while i < ps.len()
        invariant
            i <= ps@.len(),
            r@.len() == i,
            forall|j: int| 0 <= j < i ==> r@[j] == (#[trigger] ps@[j]).product.id,
        decreases ps@.len() - i,
    {
        r.push(ps[i].product.id);
        i = i + 1;
    }
    r
}

fn category_ids(cs: &[CategoryRow]) -> (r: Vec<i64>)
    ensures
        r@.len() == cs@.len(),
        forall|i: int| 0 <= i < cs@.len() ==> r@[i] == (#[trigger] cs@[i]).id,
{
    let mut r: Vec<i64> = Vec::new();
    let mut i: usize = 0;
    while i < cs.len()
        invariant
            i <= cs@.len(),
            r@.len() == i,
            forall|j: int| 0 <= j < i ==> r@[j] == (#[trigger] cs@[j]).id,
        decreases cs@.len() - i,
    {
        r.push(cs[i].id);
        i = i + 1;
    }
    r
}

fn admin_ids(cs: &[Admin]) -> (r: Vec<i64>)
    ensures
        r@.len() == cs@.len(),
        forall|i: int| 0 <= i < cs@.len() ==> r@[i] == (#[trigger] cs@[i]).id,
{
    let mut r: Vec<i64> = Vec::new();
    let mut i: usize = 0;
    while i < cs.len()
        invariant
            i <= cs@.len(),
            r@.len() == i,
            forall|j: int| 0 <= j < i ==> r@[j] == (#[trigger] cs@[j]).id,
        decreases cs@.len() - i,
    {
        r.push(cs[i].id);
        i = i + 1;
    }
    r
}

/// No product has the same code twice.
fn check_card_keys(cs: &[Card]) -> (r: bool)
    ensures
        r == forall|i: int, j: int|
            0 <= i < j < cs@.len() ==> !(cs@[i].product_id == cs@[j].product_id && cs@[i].code@
                == cs@[j].code@),
{
    let mut i: usize = 0;
    while i < cs.len()
        invariant
            i <= cs@.len(),
            forall|a: int, b: int|
                0 <= a < i && a < b < cs@.len() ==> !(cs@[a].product_id == cs@[b].product_id
                    && cs@[a].code@ == cs@[b].code@),
        decreases cs@.len() - i,
    {
        let mut j: usize = i + 1;
        while j < cs.len()
            invariant
                i < cs@.len(),
                i + 1 <= j <= cs@.len(),
                forall|a: int, b: int|
                    0 <= a < i && a < b < cs@.len() ==> !(cs@[a].product_id == cs@[b].product_id
                        && cs@[a].code@ == cs@[b].code@),
                forall|b: int|
                    i < b < j ==> !(cs@[i as int].product_id == cs@[b].product_id && cs@[i as int].code@
                        == cs@[b].code@),
            decreases cs@.len() - j,
        {
            if cs[j].product_id == cs[i].product_id && str_eq(cs[j].code.as_str(), cs[i].code.as_str()) {
                return false;
            }
            j = j + 1;
        }
        i = i + 1;
    }
    true
}

pub open spec fn card_state_ok(c: CardV) -> bool {
    (c.status == CARD_ON_SALE && c.order_id is None) || ((c.status == CARD_SOLD || c.status
        == CARD_LOCKED) && c.order_id is Some)
}

/// Every card is on sale and in no order, or sold or locked and in one.
fn check_card_states(cs: &[Card]) -> (r: bool)
    ensures
        r == forall|i: int| 0 <= i < cs@.len() ==> card_state_ok(#[trigger] cs@[i]@),
{
    let mut i: usize = 0;
    while i < cs.len()
        invariant
            i <= cs@.len(),
            forall|a: int| 0 <= a < i ==> card_state_ok(#[trigger] cs@[a]@),
        decreases cs@.len() - i,
    {
        let c = &cs[i];
        let ok = (c.status == CARD_ON_SALE && c.order_id.is_none()) || ((c.status == CARD_SOLD
            || c.status == CARD_LOCKED) && c.order_id.is_some());
        if !ok {
            assert(!card_state_ok(cs@[i as int]@));
            return false;
        }
        i = i + 1;
    }
    true
}

/// Every card's order id, if any, was handed out.
fn check_card_orders(cs: &[Card], order_seq: i64) -> (r: bool)
    ensures
        r == forall|i: int|
            0 <= i < cs@.len() ==> ((#[trigger] cs@[i]).order_id matches Some(x) ==> 1 <= x
                <= order_seq),
{
    let mut i: usize = 0;
    while i < cs.len()
        invariant
            i <= cs@.len(),
            forall|a: int|
                0 <= a < i ==> ((#[trigger] cs@[a]).order_id matches Some(x) ==> 1 <= x <= order_seq),
        decreases cs@.len() - i,
    {
        match cs[i].order_id {
            Some(x) => {
                if x < 1 || x > order_seq {
                    return false;
                }
            },
            None => {},
        }
        i = i + 1;
    }
    true
}

fn order_numbers(os: &[Order]) -> (r: Vec<String>)
    ensures
        r@.len() == os@.len(),
        forall|i: int| 0 <= i < os@.len() ==> r@[i]@ == (#[trigger] os@[i]).order_no@,
{
    let mut r: Vec<String> = Vec::new();
    let mut i: usize = 0;
    while i < os.len()
        invariant
            i <= os@.len(),
            r@.len() == i,
            forall|j: int| 0 <= j < i ==> r@[j]@ == (#[trigger] os@[j]).order_no@,
        decreases os@.len() - i,
    {
        r.push(copy_str(os[i].order_no.as_str()));
        i = i + 1;
    }
    r
}

fn admin_names(xs: &[Admin]) -> (r: Vec<String>)
    ensures
        r@.len() == xs@.len(),
        forall|i: int| 0 <= i < xs@.len() ==> r@[i]@ == (#[trigger] xs@[i]).username@,
{
    let mut r: Vec<String> = Vec::new();
    let mut i: usize = 0;
    while i < xs.len()
        invariant
            i <= xs@.len(),
            r@.len() == i,
            forall|j: int| 0 <= j < i ==> r@[j]@ == (#[trigger] xs@[j]).username@,
        decreases xs@.len() - i,
    {
        r.push(copy_str(xs[i].username.as_str()));
        i = i + 1;
    }
    r
}

fn session_tokens(xs: &[Session]) -> (r: Vec<String>)
    ensures
        r@.len() == xs@.len(),
        forall|i: int| 0 <= i < xs@.len() ==> r@[i]@ == (#[trigger] xs@[i]).token@,
{
    let mut r: Vec<String> = Vec::new();
    let mut i: usize = 0;
    while i < xs.len()
        invariant
            i <= xs@.len(),
            r@.len() == i,
            forall|j: int| 0 <= j < i ==> r@[j]@ == (#[trigger] xs@[j]).token@,
        decreases xs@.len() - i,
    {
        r.push(copy_str(xs[i].token.as_str()));
        i = i + 1;
    }
    r
}

fn setting_keys(xs: &[(String, String)]) -> (r: Vec<String>)
    ensures
        r@.len() == xs@.len(),
        forall|i: int| 0 <= i < xs@.len() ==> r@[i]@ == (#[trigger] xs@[i]).0@,
{
    let mut r: Vec<String> = Vec::new();
    let mut i: usize = 0;
    while i < xs.len()
        invariant
            i <= xs@.len(),
            r@.len() == i,
            forall|j: int| 0 <= j < i ==> r@[j]@ == (#[trigger] xs@[j]).0@,
        decreases xs@.len() - i,
    {
        r.push(copy_str(xs[i].0.as_str()));
        i = i + 1;
    }
    r
}

impl Store {
    /// Whether the tables hold the shop's invariant (`StoreV::wf`): to be
    /// checked on tables read back from storage before any other use.
    pub fn check_wf(&self) -> (r: bool)
        ensures
            r == self@.wf(),
    {
        let ci = card_ids(self.cards.as_slice());
        let c1 = check_ids(ci.as_slice(), self.card_seq);
        let c2 = check_card_keys(self.cards.as_slice());
        let c3 = check_card_states(self.cards.as_slice());
        let c4 = check_card_orders(self.cards.as_slice(), self.order_seq);
        let oi = order_ids(self.orders.as_slice());
        let c5 = check_ids(oi.as_slice(), self.order_seq);
        let on = order_numbers(self.orders.as_slice());
        let c6 = check_distinct(on.as_slice());
        let pi = product_ids(self.products.as_slice());
        let c7 = check_ids(pi.as_slice(), self.product_seq);
        let ki = category_ids(self.categories.as_slice());
        let c8 = check_ids(ki.as_slice(), self.category_seq);
        let ai = admin_ids(self.admins.as_slice());
        let c9 = check_ids(ai.as_slice(), self.admin_seq);
        let an = admin_names(self.admins.as_slice());
        let c10 = check_distinct(an.as_slice());
        let st = session_tokens(self.sessions.as_slice());
        let c11 = check_distinct(st.as_slice());
        let sk = setting_keys(self.settings.as_slice());
        let c12 = check_distinct(sk.as_slice());
        proof {
            let v = self@;
            assert(c1 && c2 && c3 <==> cards_wf(v.cards, v.card_seq)) by {
                if c1 && c2 && c3 {
                    assert forall|i: int, j: int| 0 <= i < j < v.cards.len() implies v.cards[i].id < v.cards[j].id by {
                        assert(ci@[i] == self.cards@[i].id && ci@[j] == self.cards@[j].id);
                    }
                    assert forall|i: int| 0 <= i < v.cards.len() implies 1 <= #[trigger] v.cards[i].id <= v.card_seq by {
                        assert(ci@[i] == self.cards@[i].id);
                    }
                    assert forall|i: int| 0 <= i < v.cards.len() implies card_state_ok(#[trigger] v.cards[i]) by {
                        assert(v.cards[i] == self.cards@[i]@);
                    }
                }
                if cards_wf(v.cards, v.card_seq) {
                    assert forall|i: int, j: int| 0 <= i < j < ci@.len() implies ci@[i] < ci@[j] by {
                        assert(ci@[i] == self.cards@[i].id && ci@[j] == self.cards@[j].id);
                        assert(v.cards[i].id < v.cards[j].id);
                    }
                    assert forall|i: int| 0 <= i < ci@.len() implies 1 <= #[trigger] ci@[i] <= v.card_seq by {
                        assert(ci@[i] == self.cards@[i].id);
                        assert(1 <= v.cards[i].id <= v.card_seq);
                    }
                    assert forall|i: int, j: int| 0 <= i < j < self.cards@.len() implies !(self.cards@[i].product_id == self.cards@[j].product_id && self.cards@[i].code@ == self.cards@[j].code@) by {
                        assert(v.cards[i] == self.cards@[i]@ && v.cards[j] == self.cards@[j]@);
                    }
                    assert forall|i: int| 0 <= i < self.cards@.len() implies card_state_ok(#[trigger] self.cards@[i]@) by {
                        assert(v.cards[i] == self.cards@[i]@);
                    }
                }
            }
            assert(c4 <==> card_orders_wf(v.cards, v.order_seq)) by {
                if c4 {
                    assert forall|i: int| 0 <= i < v.cards.len() implies ((#[trigger] v.cards[i]).order_id matches Some(x) ==> 1 <= x <= v.order_seq) by {
                        assert(v.cards[i] == self.cards@[i]@);
                    }
                }
                if card_orders_wf(v.cards, v.order_seq) {
                    assert forall|i: int| 0 <= i < self.cards@.len() implies ((#[trigger] self.cards@[i]).order_id matches Some(x) ==> 1 <= x <= v.order_seq) by {
                        assert(v.cards[i] == self.cards@[i]@);
                    }
                }
            }
            assert(c5 && c6 <==> orders_wf(v.orders, v.order_seq)) by {
                if c5 && c6 {
                    assert forall|i: int, j: int| 0 <= i < j < v.orders.len() implies v.orders[i].id < v.orders[j].id by {
                        assert(oi@[i] == self.orders@[i].id && oi@[j] == self.orders@[j].id);
                    }
                    assert forall|i: int| 0 <= i < v.orders.len() implies 1 <= #[trigger] v.orders[i].id <= v.order_seq by {
                        assert(oi@[i] == self.orders@[i].id);
                    }
                    assert forall|i: int, j: int| 0 <= i < j < v.orders.len() implies v.orders[i].order_no != v.orders[j].order_no by {
                        assert(on@[i]@ == self.orders@[i].order_no@ && on@[j]@ == self.orders@[j].order_no@);
                    }
                }
                if orders_wf(v.orders, v.order_seq) {
                    assert forall|i: int, j: int| 0 <= i < j < oi@.len() implies oi@[i] < oi@[j] by {
                        assert(oi@[i] == self.orders@[i].id && oi@[j] == self.orders@[j].id);
                        assert(v.orders[i].id < v.orders[j].id);
                    }
                    assert forall|i: int| 0 <= i < oi@.len() implies 1 <= #[trigger] oi@[i] <= v.order_seq by {
                        assert(oi@[i] == self.orders@[i].id);
                        assert(1 <= v.orders[i].id <= v.order_seq);
                    }
                    assert forall|i: int, j: int| 0 <= i < j < on@.len() implies on@[i]@ != on@[j]@ by {
                        assert(on@[i]@ == self.orders@[i].order_no@ && on@[j]@ == self.orders@[j].order_no@);
                        assert(v.orders[i].order_no != v.orders[j].order_no);
                    }
                }
            }
            assert(c7 <==> products_wf(v.products, v.product_seq)) by {
                if c7 {
                    assert forall|i: int, j: int| 0 <= i < j < v.products.len() implies v.products[i].product.id < v.products[j].product.id by {
                        assert(pi@[i] == self.products@[i].product.id && pi@[j] == self.products@[j].product.id);
                    }
                    assert forall|i: int| 0 <= i < v.products.len() implies 1 <= #[trigger] v.products[i].product.id <= v.product_seq by {
                        assert(pi@[i] == self.products@[i].product.id);
                    }
                }
                if products_wf(v.products, v.product_seq) {
                    assert forall|i: int, j: int| 0 <= i < j < pi@.len() implies pi@[i] < pi@[j] by {
                        assert(pi@[i] == self.products@[i].product.id && pi@[j] == self.products@[j].product.id);
                        assert(v.products[i].product.id < v.products[j].product.id);
                    }
                    assert forall|i: int| 0 <= i < pi@.len() implies 1 <= #[trigger] pi@[i] <= v.product_seq by {
                        assert(pi@[i] == self.products@[i].product.id);
                        assert(1 <= v.products[i].product.id <= v.product_seq);
                    }
                }
            }
            assert(c8 <==> categories_wf(v.categories, v.category_seq)) by {
                if c8 {
                    assert forall|i: int, j: int| 0 <= i < j < v.categories.len() implies v.categories[i].id < v.categories[j].id by {
                        assert(ki@[i] == self.categories@[i].id && ki@[j] == self.categories@[j].id);
                    }
                    assert forall|i: int| 0 <= i < v.categories.len() implies 1 <= #[trigger] v.categories[i].id <= v.category_seq by {
                        assert(ki@[i] == self.categories@[i].id);
                    }
                }
                if categories_wf(v.categories, v.category_seq) {
                    assert forall|i: int, j: int| 0 <= i < j < ki@.len() implies ki@[i] < ki@[j] by {
                        assert(ki@[i] == self.categories@[i].id && ki@[j] == self.categories@[j].id);
                        assert(v.categories[i].id < v.categories[j].id);
                    }
                    assert forall|i: int| 0 <= i < ki@.len() implies 1 <= #[trigger] ki@[i] <= v.category_seq by {
                        assert(ki@[i] == self.categories@[i].id);
                        assert(1 <= v.categories[i].id <= v.category_seq);
                    }
                }
            }
            assert(c9 && c10 <==> admins_wf(v.admins, v.admin_seq)) by {
                if c9 && c10 {
                    assert forall|i: int, j: int| 0 <= i < j < v.admins.len() implies v.admins[i].id < v.admins[j].id by {
                        assert(ai@[i] == self.admins@[i].id && ai@[j] == self.admins@[j].id);
                    }
                    assert forall|i: int| 0 <= i < v.admins.len() implies 1 <= #[trigger] v.admins[i].id <= v.admin_seq by {
                        assert(ai@[i] == self.admins@[i].id);
                    }
                    assert forall|i: int, j: int| 0 <= i < j < v.admins.len() implies v.admins[i].username != v.admins[j].username by {
                        assert(an@[i]@ == self.admins@[i].username@ && an@[j]@ == self.admins@[j].username@);
                    }
                }
                if admins_wf(v.admins, v.admin_seq) {
                    assert forall|i: int, j: int| 0 <= i < j < ai@.len() implies ai@[i] < ai@[j] by {
                        assert(ai@[i] == self.admins@[i].id && ai@[j] == self.admins@[j].id);
                        assert(v.admins[i].id < v.admins[j].id);
                    }
                    assert forall|i: int| 0 <= i < ai@.len() implies 1 <= #[trigger] ai@[i] <= v.admin_seq by {
                        assert(ai@[i] == self.admins@[i].id);
                        assert(1 <= v.admins[i].id <= v.admin_seq);
                    }
                    assert forall|i: int, j: int| 0 <= i < j < an@.len() implies an@[i]@ != an@[j]@ by {
                        assert(an@[i]@ == self.admins@[i].username@ && an@[j]@ == self.admins@[j].username@);
                        assert(v.admins[i].username != v.admins[j].username);
                    }
                }
            }
            assert(c11 <==> sessions_wf(v.sessions)) by {
                assert forall|i: int| 0 <= i < st@.len() implies st@[i]@ == v.sessions[i].token by {
                    assert(st@[i]@ == self.sessions@[i].token@);
                }
            }
            assert(c12 <==> settings_wf(v.settings)) by {
                assert forall|i: int| 0 <= i < sk@.len() implies sk@[i]@ == v.settings[i].0 by {
                    assert(sk@[i]@ == self.settings@[i].0@);
                }
            }
        }
        c1 && c2 && c3 && c4 && c5 && c6 && c7 && c8 && c9 && c10 && c11 && c12
    }
}

// ---------- what a new shop starts with ----------

/// The default settings, in the order they are put.
pub open spec fn default_settings() -> Seq<(Seq<char>, Seq<char>)> {
    seq![
        ("site_name"@, "潇洒哥的卡台"@),
        ("site_mark"@, "XSG·CARDS"@),
        ("site_subtitle"@, "全自动发卡 · 付款秒到 · 24 小时在线"@),
        ("announcement"@, "本站全自动发卡：付款成功后卡密立即显示，也可随时在「订单查询」页凭订单号取回。当前为演示模式，支付页点击「模拟支付」即可体验完整流程。"@),
        ("default_theme"@, "dark"@),
        ("site_url"@, "http://localhost:8080"@),
        ("pay_mode"@, "mock"@),
        ("epay_gateway"@, ""@),
        ("epay_pid"@, ""@),
        ("epay_key"@, ""@),
        ("epay_alipay"@, "1"@),
        ("epay_wxpay"@, "1"@),
        ("mail_enabled"@, "0"@),
        ("smtp_host"@, ""@),
        ("smtp_port"@, "465"@),
        ("smtp_security"@, "ssl"@),
        ("smtp_user"@, ""@),
        ("smtp_pass"@, ""@),
        ("mail_from"@, ""@),
        ("mail_from_name"@, ""@),
        ("mail_admin_to"@, ""@),
    ]
}

/// Settings `st` with each of `ds` added where its key is not set yet.
pub open spec fn with_defaults(st: Seq<(Seq<char>, Seq<char>)>, ds: Seq<(Seq<char>, Seq<char>)>) -> Seq<
    (Seq<char>, Seq<char>),
>
    decreases ds.len(),
{
    if ds.len() == 0 {
        st
    } else {
        let s = with_defaults(st, ds.drop_last());
        if has_key(s, ds.last().0) {
            s
        } else {
            s.push(ds.last())
        }
    }
}

impl Store {
    /// Puts every default setting whose key is not set yet; settings
    /// already present keep their values.
    pub fn seed_settings(&mut self)
        requires
            old(self)@.wf(),
        ensures
            final(self)@.wf(),
            final(self)@ == (StoreV {
                settings: with_defaults(old(self)@.settings, default_settings()),
                ..old(self)@
            }),
    {
        let ds: [(&str, &str); 21] = [
        ("site_name", "潇洒哥的卡台"),
        ("site_mark", "XSG·CARDS"),
        ("site_subtitle", "全自动发卡 · 付款秒到 · 24 小时在线"),
        ("announcement", "本站全自动发卡：付款成功后卡密立即显示，也可随时在「订单查询」页凭订单号取回。当前为演示模式，支付页点击「模拟支付」即可体验完整流程。"),
        ("default_theme", "dark"),
        ("site_url", "http://localhost:8080"),
        ("pay_mode", "mock"),
        ("epay_gateway", ""),
        ("epay_pid", ""),
        ("epay_key", ""),
        ("epay_alipay", "1"),
        ("epay_wxpay", "1"),
        ("mail_enabled", "0"),
        ("smtp_host", ""),
        ("smtp_port", "465"),
        ("smtp_security", "ssl"),
        ("smtp_user", ""),
        ("smtp_pass", ""),
        ("mail_from", ""),
        ("mail_from_name", ""),
        ("mail_admin_to", ""),
        ];
        let ghost d = default_settings();
        assert(ds@.map_values(|p: (&str, &str)| (p.0@, p.1@)) =~= d);
        let ghost s0 = self@;
        let mut i: usize = 0;
        assert(d.take(0) =~= Seq::<(Seq<char>, Seq<char>)>::empty());
        while i < 21
            invariant
                i <= 21,
                d == default_settings(),
                d.len() == 21,
                ds@.map_values(|p: (&str, &str)| (p.0@, p.1@)) == d,
                self@.wf(),
                self@ == (StoreV { settings: with_defaults(s0.settings, d.take(i as int)), ..s0 }),
            decreases 21 - i,
        {
            let (k, v) = ds[i];
            proof {
                assert(d.take(i + 1).drop_last() =~= d.take(i as int));
                assert(d.take(i + 1).last() == d[i as int]);
                assert(d[i as int] == (k@, v@));
            }
            self.set_default(k, v);
            i = i + 1;
        }
        assert(d.take(21) =~= d);
    }
}

/// The first administrator's row.
pub open spec fn first_admin(id: i64, hash: Seq<char>, created_at: Seq<char>) -> AdminV {
    AdminV { id, username: "admin"@, password_hash: hash, created_at }
}

pub open spec fn msg_seed_full() -> Seq<char> {
    "database or disk is full"@
}

impl Store {
    /// Creates the first administrator, "admin" with password "admin123",
    /// when there is none (the password is meant to be changed at once).
    pub fn seed_admin(&mut self) -> (r: Result<(), String>)
        requires
            old(self)@.wf(),
        ensures
            final(self)@.wf(),
            old(self)@.admins.len() > 0 ==> final(self)@ == old(self)@ && r is Ok,
            r is Err ==> final(self)@ == old(self)@,
            old(self)@.admins.len() == 0 && old(self)@.admin_seq == i64::MAX ==> (r matches Err(m)
                && m@ == msg_seed_full()),
            old(self)@.admins.len() == 0 && r is Ok ==> exists|h: Seq<char>, t: Seq<char>|
                {
                    &&& bcrypt_verdict("admin123"@, h) == Some(true)
                    &&& final(self)@ == (StoreV {
                        admins: seq![#[trigger] first_admin((old(self)@.admin_seq + 1) as i64, h, t)],
                        admin_seq: (old(self)@.admin_seq + 1) as i64,
                        ..old(self)@
                    })
                },
            old(self)@.admins.len() == 0 && r is Ok ==> has_admin_named(final(self)@.admins, "admin"@)
                && bcrypt_verdict("admin123"@, admin_named(final(self)@.admins, "admin"@).password_hash)
                == Some(true),
    {
        if self.admins.len() > 0 {
            return Ok(());
        }
        if self.admin_seq == i64::MAX {
            return Err(copy_str("database or disk is full"));
        }
        let h = match bcrypt_hash("admin123") {
            Ok(h) => h,
            Err(e) => {
                return Err(e);
            },
        };
        let now = crate::util::now_str();
        let id = self.admin_seq + 1;
        let ghost s = self@;
        let a = Admin { id, username: copy_str("admin"), password_hash: h, created_at: now };
        self.admins.push(a);
        self.admin_seq = id;
        proof {
            let na = first_admin(id, h@, now@);
            assert(self@.admins =~= seq![na]);
            assert(self@ =~= (StoreV { admins: seq![na], admin_seq: id, ..s }));
            assert(has_admin_named(self@.admins, "admin"@)) by {
                assert(self@.admins[0].username == "admin"@);
            }
        }
        Ok(())
    }
}

} // verus!
