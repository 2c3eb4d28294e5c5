//! The shop's tables and the operations on them: categories, products, the
//! stock of card keys, orders with stock locking, settings, administrators
//! and their sessions.
//!
//! Card status: 0 on sale, 1 sold, 2 locked by an order.
//! Order status: 0 awaiting payment, 1 completed, 2 expired, 3 paid but
//! waiting for stock.

use vstd::prelude::*;
use crate::text::{copy_opt, copy_str, opt_view, str_eq, str_lt, text_lt, trim, trim_str};

verus! {

/// Minutes an unpaid order keeps its cards locked.
pub const ORDER_TTL_MIN: i64 = 15;

pub const CARD_ON_SALE: i64 = 0;
pub const CARD_SOLD: i64 = 1;
pub const CARD_LOCKED: i64 = 2;

pub const ORDER_PENDING: i64 = 0;
pub const ORDER_DONE: i64 = 1;
pub const ORDER_EXPIRED: i64 = 2;
pub const ORDER_PAID_WAITING: i64 = 3;

// ---------- rows ----------

/// A card key in stock.
pub struct Card {
    pub id: i64,
    pub product_id: i64,
    pub code: String,
    pub status: i64,
    pub order_id: Option<i64>,
    pub created_at: String,
    pub sold_at: Option<String>,
}

#[verifier::ext_equal]
pub struct CardV {
    pub id: i64,
    pub product_id: i64,
    pub code: Seq<char>,
    pub status: i64,
    pub order_id: Option<i64>,
    pub created_at: Seq<char>,
    pub sold_at: Option<Seq<char>>,
}

impl View for Card {
    type V = CardV;

    open spec fn view(&self) -> CardV {
        CardV {
            id: self.id,
            product_id: self.product_id,
            code: self.code@,
            status: self.status,
            order_id: self.order_id,
            created_at: self.created_at@,
            sold_at: opt_view(self.sold_at),
        }
    }
}

impl Card {
    /// The same card with a new status, order and sale time.
    pub fn relabel(&self, status: i64, order_id: Option<i64>, sold_at: Option<String>) -> (r: Card)
        ensures
            r@ == (CardV { status, order_id, sold_at: opt_view(sold_at), ..self@ }),
    {
        Card {
            id: self.id,
            product_id: self.product_id,
            code: self.code.clone(),
            status,
            order_id,
            created_at: self.created_at.clone(),
            sold_at,
        }
    }

    pub fn copy(&self) -> (r: Card)
        ensures
            r@ == self@,
    {
        Card {
            id: self.id,
            product_id: self.product_id,
            code: self.code.clone(),
            status: self.status,
            order_id: self.order_id,
            created_at: self.created_at.clone(),
            sold_at: copy_opt(&self.sold_at),
        }
    }
}

/// An order, with a snapshot of the product's name and price.
pub struct Order {
    pub id: i64,
    pub order_no: String,
    pub product_id: i64,
    pub product_name: String,
    pub quantity: i64,
    pub unit_cents: i64,
    pub total_cents: i64,
    pub contact: String,
    pub status: i64,
    pub pay_method: String,
    pub created_at: String,
    pub paid_at: Option<String>,
}

#[verifier::ext_equal]
pub struct OrderV {
    pub id: i64,
    pub order_no: Seq<char>,
    pub product_id: i64,
    pub product_name: Seq<char>,
    pub quantity: i64,
    pub unit_cents: i64,
    pub total_cents: i64,
    pub contact: Seq<char>,
    pub status: i64,
    pub pay_method: Seq<char>,
    pub created_at: Seq<char>,
    pub paid_at: Option<Seq<char>>,
}

impl View for Order {
    type V = OrderV;

    open spec fn view(&self) -> OrderV {
        OrderV {
            id: self.id,
            order_no: self.order_no@,
            product_id: self.product_id,
            product_name: self.product_name@,
            quantity: self.quantity,
            unit_cents: self.unit_cents,
            total_cents: self.total_cents,
            contact: self.contact@,
            status: self.status,
            pay_method: self.pay_method@,
            created_at: self.created_at@,
            paid_at: opt_view(self.paid_at),
        }
    }
}

impl Order {
    pub fn copy(&self) -> (r: Order)
        ensures
            r@ == self@,
    {
        Order {
            id: self.id,
            order_no: self.order_no.clone(),
            product_id: self.product_id,
            product_name: self.product_name.clone(),
            quantity: self.quantity,
            unit_cents: self.unit_cents,
            total_cents: self.total_cents,
            contact: self.contact.clone(),
            status: self.status,
            pay_method: self.pay_method.clone(),
            created_at: self.created_at.clone(),
            paid_at: copy_opt(&self.paid_at),
        }
    }

    /// The same order with a new status, payment method and payment time.
    pub fn settle(&self, status: i64, pay_method: &str, paid_at: &str) -> (r: Order)
        ensures
            r@ == (OrderV {
                status,
                pay_method: pay_method@,
                paid_at: Some(paid_at@),
                ..self@
            }),
    {
        Order {
            id: self.id,
            order_no: self.order_no.clone(),
            product_id: self.product_id,
            product_name: self.product_name.clone(),
            quantity: self.quantity,
            unit_cents: self.unit_cents,
            total_cents: self.total_cents,
            contact: self.contact.clone(),
            status,
            pay_method: copy_str(pay_method),
            created_at: self.created_at.clone(),
            paid_at: Some(copy_str(paid_at)),
        }
    }

    /// The same order with a new status.
    pub fn with_status(&self, status: i64) -> (r: Order)
        ensures
            r@ == (OrderV { status, ..self@ }),
    {
        Order {
            id: self.id,
            order_no: self.order_no.clone(),
            product_id: self.product_id,
            product_name: self.product_name.clone(),
            quantity: self.quantity,
            unit_cents: self.unit_cents,
            total_cents: self.total_cents,
            contact: self.contact.clone(),
            status,
            pay_method: self.pay_method.clone(),
            created_at: self.created_at.clone(),
            paid_at: copy_opt(&self.paid_at),
        }
    }
}

/// A product of the catalogue.
pub struct Product {
    pub id: i64,
    pub category_id: i64,
    pub name: String,
    pub description: String,
    pub image: String,
    pub price_cents: i64,
    pub status: i64,
    pub sort: i64,
}

#[verifier::ext_equal]
pub struct ProductV {
    pub id: i64,
    pub category_id: i64,
    pub name: Seq<char>,
    pub description: Seq<char>,
    pub image: Seq<char>,
    pub price_cents: i64,
    pub status: i64,
    pub sort: i64,
}

impl View for Product {
    type V = ProductV;

    open spec fn view(&self) -> ProductV {
        ProductV {
            id: self.id,
            category_id: self.category_id,
            name: self.name@,
            description: self.description@,
            image: self.image@,
            price_cents: self.price_cents,
            status: self.status,
            sort: self.sort,
        }
    }
}

impl Product {
    /// Whether the product has a picture.
    pub fn has_image(&self) -> (b: bool)
        ensures
            b == (self.image@.len() > 0),
    {
        self.image.unicode_len() > 0
    }

    pub fn copy(&self) -> (r: Product)
        ensures
            r@ == self@,
    {
        Product {
            id: self.id,
            category_id: self.category_id,
            name: self.name.clone(),
            description: self.description.clone(),
            image: self.image.clone(),
            price_cents: self.price_cents,
            status: self.status,
            sort: self.sort,
        }
    }
}

/// A product row: the product and when it was created.
pub struct ProductRecord {
    pub product: Product,
    pub created_at: String,
}

#[verifier::ext_equal]
pub struct ProductRecordV {
    pub product: ProductV,
    pub created_at: Seq<char>,
}

impl View for ProductRecord {
    type V = ProductRecordV;

    open spec fn view(&self) -> ProductRecordV {
        ProductRecordV { product: self.product@, created_at: self.created_at@ }
    }
}

/// A category row.
pub struct CategoryRow {
    pub id: i64,
    pub name: String,
    pub sort: i64,
}

#[verifier::ext_equal]
pub struct CategoryRowV {
    pub id: i64,
    pub name: Seq<char>,
    pub sort: i64,
}

impl View for CategoryRow {
    type V = CategoryRowV;

    open spec fn view(&self) -> CategoryRowV {
        CategoryRowV { id: self.id, name: self.name@, sort: self.sort }
    }
}

/// An administrator account.
pub struct Admin {
    pub id: i64,
    pub username: String,
    pub password_hash: String,
    pub created_at: String,
}

#[verifier::ext_equal]
pub struct AdminV {
    pub id: i64,
    pub username: Seq<char>,
    pub password_hash: Seq<char>,
    pub created_at: Seq<char>,
}

impl View for Admin {
    type V = AdminV;

    open spec fn view(&self) -> AdminV {
        AdminV {
            id: self.id,
            username: self.username@,
            password_hash: self.password_hash@,
            created_at: self.created_at@,
        }
    }
}

/// A login session of an administrator.
pub struct Session {
    pub token: String,
    pub admin_id: i64,
    pub expires_at: String,
}

#[verifier::ext_equal]
pub struct SessionV {
    pub token: Seq<char>,
    pub admin_id: i64,
    pub expires_at: Seq<char>,
}

impl View for Session {
    type V = SessionV;

    open spec fn view(&self) -> SessionV {
        SessionV { token: self.token@, admin_id: self.admin_id, expires_at: self.expires_at@ }
    }
}

// ---------- the store ----------

/// All tables of the shop.  The `*_seq` fields hold the largest id ever
/// handed out in each table; new rows get the next one.
pub struct Store {
    pub settings: Vec<(String, String)>,
    pub admins: Vec<Admin>,
    pub sessions: Vec<Session>,
    pub categories: Vec<CategoryRow>,
    pub products: Vec<ProductRecord>,
    pub cards: Vec<Card>,
    pub orders: Vec<Order>,
    pub admin_seq: i64,
    pub category_seq: i64,
    pub product_seq: i64,
    pub card_seq: i64,
    pub order_seq: i64,
}

#[verifier::ext_equal]
pub struct StoreV {
    pub settings: Seq<(Seq<char>, Seq<char>)>,
    pub admins: Seq<AdminV>,
    pub sessions: Seq<SessionV>,
    pub categories: Seq<CategoryRowV>,
    pub products: Seq<ProductRecordV>,
    pub cards: Seq<CardV>,
    pub orders: Seq<OrderV>,
    pub admin_seq: i64,
    pub category_seq: i64,
    pub product_seq: i64,
    pub card_seq: i64,
    pub order_seq: i64,
}

impl View for Store {
    type V = StoreV;

    open spec fn view(&self) -> StoreV {
        StoreV {
            settings: self.settings@.map_values(|p: (String, String)| (p.0@, p.1@)),
            admins: self.admins@.map_values(|a: Admin| a@),
            sessions: self.sessions@.map_values(|s: Session| s@),
            categories: self.categories@.map_values(|c: CategoryRow| c@),
            products: self.products@.map_values(|p: ProductRecord| p@),
            cards: self.cards@.map_values(|c: Card| c@),
            orders: self.orders@.map_values(|o: Order| o@),
            admin_seq: self.admin_seq,
            category_seq: self.category_seq,
            product_seq: self.product_seq,
            card_seq: self.card_seq,
            order_seq: self.order_seq,
        }
    }
}

// ---------- the tables' invariant ----------

pub open spec fn cards_wf(cards: Seq<CardV>, seq: i64) -> bool {
    &&& seq >= 0
    &&& forall|i: int, j: int| 0 <= i < j < cards.len() ==> cards[i].id < cards[j].id
    &&& forall|i: int| 0 <= i < cards.len() ==> 1 <= #[trigger] cards[i].id <= seq
    &&& forall|i: int, j: int|
        0 <= i < j < cards.len() ==> !(cards[i].product_id == cards[j].product_id
            && cards[i].code == cards[j].code)
    &&& forall|i: int|
        0 <= i < cards.len() ==> {
            let c = #[trigger] cards[i];
            (c.status == CARD_ON_SALE && c.order_id is None) || ((c.status == CARD_SOLD
                || c.status == CARD_LOCKED) && c.order_id is Some)
        }
}

/// Cards belong only to orders whose ids have been handed out.
pub open spec fn card_orders_wf(cards: Seq<CardV>, order_seq: i64) -> bool {
    forall|i: int|
        0 <= i < cards.len() ==> ((#[trigger] cards[i]).order_id matches Some(x) ==> 1 <= x
            <= order_seq)
}

pub open spec fn orders_wf(orders: Seq<OrderV>, seq: i64) -> bool {
    &&& seq >= 0
    &&& forall|i: int, j: int| 0 <= i < j < orders.len() ==> orders[i].id < orders[j].id
    &&& forall|i: int| 0 <= i < orders.len() ==> 1 <= #[trigger] orders[i].id <= seq
    &&& forall|i: int, j: int|
        0 <= i < j < orders.len() ==> orders[i].order_no != orders[j].order_no
}

pub open spec fn products_wf(products: Seq<ProductRecordV>, seq: i64) -> bool {
    &&& seq >= 0
    &&& forall|i: int, j: int|
        0 <= i < j < products.len() ==> products[i].product.id < products[j].product.id
    &&& forall|i: int| 0 <= i < products.len() ==> 1 <= #[trigger] products[i].product.id <= seq
}

pub open spec fn categories_wf(categories: Seq<CategoryRowV>, seq: i64) -> bool {
    &&& seq >= 0
    &&& forall|i: int, j: int| 0 <= i < j < categories.len() ==> categories[i].id < categories[j].id
    &&& forall|i: int| 0 <= i < categories.len() ==> 1 <= #[trigger] categories[i].id <= seq
}

pub open spec fn admins_wf(admins: Seq<AdminV>, seq: i64) -> bool {
    &&& seq >= 0
    &&& forall|i: int, j: int| 0 <= i < j < admins.len() ==> admins[i].id < admins[j].id
    &&& forall|i: int| 0 <= i < admins.len() ==> 1 <= #[trigger] admins[i].id <= seq
    &&& forall|i: int, j: int|
        0 <= i < j < admins.len() ==> admins[i].username != admins[j].username
}

pub open spec fn sessions_wf(sessions: Seq<SessionV>) -> bool {
    forall|i: int, j: int| 0 <= i < j < sessions.len() ==> sessions[i].token != sessions[j].token
}

pub open spec fn settings_wf(settings: Seq<(Seq<char>, Seq<char>)>) -> bool {
    forall|i: int, j: int| 0 <= i < j < settings.len() ==> settings[i].0 != settings[j].0
}

impl StoreV {
    /// Ids increase along each table and never exceed the table's counter;
    /// order numbers, (product, code) pairs of cards, user names, session
    /// tokens and setting keys are unique; a card is on sale exactly when it
    /// belongs to no order.
    pub open spec fn wf(self) -> bool {
        &&& cards_wf(self.cards, self.card_seq)
        &&& card_orders_wf(self.cards, self.order_seq)
        &&& orders_wf(self.orders, self.order_seq)
        &&& products_wf(self.products, self.product_seq)
        &&& categories_wf(self.categories, self.category_seq)
        &&& admins_wf(self.admins, self.admin_seq)
        &&& sessions_wf(self.sessions)
        &&& settings_wf(self.settings)
    }
}

// ---------- card locking ----------

/// A card of product `pid` that is on sale.
pub open spec fn avail(c: CardV, pid: i64) -> bool {
    c.product_id == pid && c.status == CARD_ON_SALE
}

/// Number of cards of product `pid` on sale.
pub open spec fn count_avail(s: Seq<CardV>, pid: i64) -> nat
    decreases s.len(),
{
    if s.len() == 0 {
        0
    } else {
        count_avail(s.drop_last(), pid) + if avail(s.last(), pid) {
            1nat
        } else {
            0nat
        }
    }
}

pub open spec fn lock(c: CardV, oid: i64) -> CardV {
    CardV { status: CARD_LOCKED, order_id: Some(oid), ..c }
}

/// The first `k` cards of product `pid` on sale (in table order, which is id
/// order) locked for order `oid`.
pub open spec fn lock_cards(s: Seq<CardV>, pid: i64, oid: i64, k: int) -> Seq<CardV> {
    Seq::new(
        s.len(),
        |j: int|
            if avail(s[j], pid) && count_avail(s.take(j), pid) < k {
                lock(s[j], oid)
            } else {
                s[j]
            },
    )
}

/// A card locked for order `oid`.
pub open spec fn locked_for(c: CardV, oid: i64) -> bool {
    c.status == CARD_LOCKED && c.order_id == Some(oid)
}

/// Number of cards locked for order `oid`.
pub open spec fn count_locked(s: Seq<CardV>, oid: i64) -> nat
    decreases s.len(),
{
    if s.len() == 0 {
        0
    } else {
        count_locked(s.drop_last(), oid) + if locked_for(s.last(), oid) {
            1nat
        } else {
            0nat
        }
    }
}

/// The cards locked for order `oid` marked sold at `now`.
pub open spec fn sell_cards(s: Seq<CardV>, oid: i64, now: Seq<char>) -> Seq<CardV> {
    Seq::new(
        s.len(),
        |j: int|
            if locked_for(s[j], oid) {
                CardV { status: CARD_SOLD, sold_at: Some(now), ..s[j] }
            } else {
                s[j]
            },
    )
}

pub proof fn lemma_count_step(s: Seq<CardV>, pid: i64, j: int)
    requires
        0 <= j < s.len(),
    ensures
        count_avail(s.take(j + 1), pid) == count_avail(s.take(j), pid) + if avail(s[j], pid) {
            1nat
        } else {
            0nat
        },
{
    assert(s.take(j + 1).drop_last() =~= s.take(j));
    assert(s.take(j + 1).last() == s[j]);
}

pub proof fn lemma_count_locked_step(s: Seq<CardV>, oid: i64, j: int)
    requires
        0 <= j < s.len(),
    ensures
        count_locked(s.take(j + 1), oid) == count_locked(s.take(j), oid) + if locked_for(
            s[j],
            oid,
        ) {
            1nat
        } else {
            0nat
        },
{
    assert(s.take(j + 1).drop_last() =~= s.take(j));
    assert(s.take(j + 1).last() == s[j]);
}

pub proof fn lemma_count_avail_le(s: Seq<CardV>, pid: i64)
    ensures
        count_avail(s, pid) <= s.len(),
    decreases s.len(),
{
    if s.len() > 0 {
        lemma_count_avail_le(s.drop_last(), pid);
    }
}

pub proof fn lemma_count_locked_le(s: Seq<CardV>, oid: i64)
    ensures
        count_locked(s, oid) <= s.len(),
    decreases s.len(),
{
    if s.len() > 0 {
        lemma_count_locked_le(s.drop_last(), oid);
    }
}

/// Cards that keep id, product and code keep the card invariant when their
/// new status and order agree.
pub proof fn lemma_cards_wf_relabel(a: Seq<CardV>, b: Seq<CardV>, seq: i64)
    requires
        cards_wf(a, seq),
        a.len() == b.len(),
        forall|i: int|
            0 <= i < a.len() ==> (#[trigger] b[i]).id == a[i].id && b[i].product_id
                == a[i].product_id && b[i].code == a[i].code,
        forall|i: int|
            0 <= i < b.len() ==> {
                let c = #[trigger] b[i];
                (c.status == CARD_ON_SALE && c.order_id is None) || ((c.status == CARD_SOLD
                    || c.status == CARD_LOCKED) && c.order_id is Some)
            },
    ensures
        cards_wf(b, seq),
{
    assert forall|i: int, j: int| 0 <= i < j < b.len() implies b[i].id < b[j].id by {
        assert(a[i].id < a[j].id);
    }
    assert forall|i: int, j: int| 0 <= i < j < b.len() implies !(b[i].product_id
        == b[j].product_id && b[i].code == b[j].code) by {
        assert(!(a[i].product_id == a[j].product_id && a[i].code == a[j].code));
    }
    assert forall|i: int| 0 <= i < b.len() implies 1 <= #[trigger] b[i].id <= seq by {
        assert(1 <= a[i].id <= seq);
    }
}

impl Store {
    /// Locks the first `k` cards of product `pid` on sale for order `oid`;
    /// returns how many were locked.
    pub fn lock_first(&mut self, pid: i64, oid: i64, k: i64) -> (got: i64)
        requires
            k >= 0,
        ensures
            final(self)@ == (StoreV { cards: lock_cards(old(self)@.cards, pid, oid, k as int), ..old(self)@ }),
            got == if count_avail(old(self)@.cards, pid) < k {
                count_avail(old(self)@.cards, pid) as int
            } else {
                k as int
            },
    {
        let ghost s = self@.cards;
        let n = self.cards.len();
        let mut out: Vec<Card> = Vec::new();
        let mut got: i64 = 0;
        let mut i: usize = 0;
        while i < n
            invariant
                n == self.cards@.len(),
                s == self@.cards,
                s.len() == n,
                0 <= i <= n,
                k >= 0,
                out@.len() == i,
                forall|j: int| 0 <= j < i ==> (#[trigger] out@[j])@ == lock_cards(s, pid, oid, k as int)[j],
                got == if count_avail(s.take(i as int), pid) < k {
                    count_avail(s.take(i as int), pid) as int
                } else {
                    k as int
                },
            decreases n - i,
        {
            proof {
                lemma_count_step(s, pid, i as int);
            }
            let c = &self.cards[i];
            assert(s[i as int] == c@);
            if c.product_id == pid && c.status == CARD_ON_SALE && got < k {
                out.push(c.relabel(CARD_LOCKED, Some(oid), copy_opt(&c.sold_at)));
                got = got + 1;
            } else {
                out.push(c.copy());
            }
            i = i + 1;
        }
        assert(s.take(n as int) =~= s);
        self.cards = out;
        assert(self@.cards =~= lock_cards(s, pid, oid, k as int));
        got
    }
}


// ---------- expiry of unpaid orders ----------

/// An order still awaiting payment that was created before `cutoff`.
pub open spec fn stale(o: OrderV, cutoff: Seq<char>) -> bool {
    o.status == ORDER_PENDING && text_lt(o.created_at, cutoff)
}

pub open spec fn stale_id(orders: Seq<OrderV>, oid: i64, cutoff: Seq<char>) -> bool {
    exists|i: int| 0 <= i < orders.len() && orders[i].id == oid && stale(orders[i], cutoff)
}

pub open spec fn release(c: CardV) -> CardV {
    CardV { status: CARD_ON_SALE, order_id: None, ..c }
}

/// Cards locked by stale orders go back on sale.
pub open spec fn expire_cards(cards: Seq<CardV>, orders: Seq<OrderV>, cutoff: Seq<char>) -> Seq<
    CardV,
> {
    Seq::new(
        cards.len(),
        |j: int|
            if cards[j].status == CARD_LOCKED && cards[j].order_id is Some && stale_id(
                orders,
                cards[j].order_id->0,
                cutoff,
            ) {
                release(cards[j])
            } else {
                cards[j]
            },
    )
}

/// Stale orders become expired.
pub open spec fn expire_orders(orders: Seq<OrderV>, cutoff: Seq<char>) -> Seq<OrderV> {
    Seq::new(
        orders.len(),
        |j: int|
            if stale(orders[j], cutoff) {
                OrderV { status: ORDER_EXPIRED, ..orders[j] }
            } else {
                orders[j]
            },
    )
}

pub open spec fn count_stale(orders: Seq<OrderV>, cutoff: Seq<char>) -> nat
    decreases orders.len(),
{
    if orders.len() == 0 {
        0
    } else {
        count_stale(orders.drop_last(), cutoff) + if stale(orders.last(), cutoff) {
            1nat
        } else {
            0nat
        }
    }
}

/// The tables after expiring the orders that were created before `cutoff`.
pub open spec fn expired(s: StoreV, cutoff: Seq<char>) -> StoreV {
    StoreV {
        cards: expire_cards(s.cards, s.orders, cutoff),
        orders: expire_orders(s.orders, cutoff),
        ..s
    }
}

pub fn vec_has(v: &Vec<i64>, x: i64) -> (r: bool)
    ensures
        r == v@.contains(x),
{
    let mut i: usize = 0;
    while i < v.len()
        invariant
            i <= v@.len(),
            forall|j: int| 0 <= j < i ==> v@[j] != x,
        decreases v@.len() - i,
    {
        if v[i] == x {
            assert(v@[i as int] == x);
            return true;
        }
        i = i + 1;
    }
    false
}

pub proof fn lemma_orders_wf_same_keys(a: Seq<OrderV>, b: Seq<OrderV>, seq: i64)
    requires
        orders_wf(a, seq),
        a.len() == b.len(),
        forall|i: int|
            0 <= i < a.len() ==> (#[trigger] b[i]).id == a[i].id && b[i].order_no == a[i].order_no,
    ensures
        orders_wf(b, seq),
{
    assert forall|i: int, j: int| 0 <= i < j < b.len() implies b[i].id < b[j].id by {
        assert(a[i].id < a[j].id);
    }
    assert forall|i: int| 0 <= i < b.len() implies 1 <= #[trigger] b[i].id <= seq by {
        assert(1 <= a[i].id <= seq);
    }
    assert forall|i: int, j: int| 0 <= i < j < b.len() implies b[i].order_no
        != b[j].order_no by {
        assert(a[i].order_no != a[j].order_no);
    }
}

pub proof fn lemma_count_stale_step(s: Seq<OrderV>, cutoff: Seq<char>, j: int)
    requires
        0 <= j < s.len(),
    ensures
        count_stale(s.take(j + 1), cutoff) == count_stale(s.take(j), cutoff) + if stale(
            s[j],
            cutoff,
        ) {
            1nat
        } else {
            0nat
        },
{
    assert(s.take(j + 1).drop_last() =~= s.take(j));
    assert(s.take(j + 1).last() == s[j]);
}

pub proof fn lemma_count_stale_le(s: Seq<OrderV>, cutoff: Seq<char>)
    ensures
        count_stale(s, cutoff) <= s.len(),
    decreases s.len(),
{
    if s.len() > 0 {
        lemma_count_stale_le(s.drop_last(), cutoff);
    }
}

impl Store {
    /// Expires the unpaid orders created before `cutoff` and puts the cards
    /// they had locked back on sale; returns how many orders expired.
    pub fn expire_stale_orders_at(&mut self, cutoff: &str) -> (n: usize)
        requires
            old(self)@.wf(),
        ensures
            final(self)@ == expired(old(self)@, cutoff@),
            final(self)@.wf(),
            n == count_stale(old(self)@.orders, cutoff@),
    {
        let ghost s = self@;
        let no = self.orders.len();
        let mut ids: Vec<i64> = Vec::new();
        let mut new_orders: Vec<Order> = Vec::new();
        let mut i: usize = 0;
        while i < no
            invariant
                no == self.orders@.len(),
                s == self@,
                s.orders.len() == no,
                0 <= i <= no,
                new_orders@.len() == i,
                forall|j: int|
                    0 <= j < i ==> (#[trigger] new_orders@[j])@ == expire_orders(s.orders, cutoff@)[j],
                forall|x: i64|
                    ids@.contains(x) <==> exists|j: int|
                        0 <= j < i && s.orders[j].id == x && stale(s.orders[j], cutoff@),
                ids@.len() == count_stale(s.orders.take(i as int), cutoff@),
            decreases no - i,
        {
            proof {
                lemma_count_stale_step(s.orders, cutoff@, i as int);
            }
            let o = &self.orders[i];
            assert(s.orders[i as int] == o@);
            if o.status == ORDER_PENDING && str_lt(o.created_at.as_str(), cutoff) {
                let ghost old_ids = ids@;
                ids.push(o.id);
                new_orders.push(o.with_status(ORDER_EXPIRED));
                proof {
                    assert(ids@ == old_ids.push(o.id));
                    assert forall|x: i64| ids@.contains(x) <==> (old_ids.contains(x) || x == o.id) by {
                        if ids@.contains(x) {
                            let k = choose|k: int| 0 <= k < ids@.len() && ids@[k] == x;
                            if k < old_ids.len() {
                                assert(old_ids[k] == x);
                            }
                        }
                        if old_ids.contains(x) {
                            let k = choose|k: int| 0 <= k < old_ids.len() && old_ids[k] == x;
                            assert(ids@[k] == x);
                        }
                        if x == o.id {
                            assert(ids@[old_ids.len() as int] == x);
                        }
                    }
                    assert forall|x: i64| ids@.contains(x) <==> exists|j: int|
                        0 <= j < i + 1 && s.orders[j].id == x && stale(s.orders[j], cutoff@) by {
                        if x == o.id {
                            assert(s.orders[i as int].id == x && stale(s.orders[i as int], cutoff@));
                        }
                        if exists|j: int|
                            0 <= j < i + 1 && s.orders[j].id == x && stale(s.orders[j], cutoff@) {
                            let j = choose|j: int|
                                0 <= j < i + 1 && s.orders[j].id == x && stale(s.orders[j], cutoff@);
                            if j < i {
                                assert(old_ids.contains(x));
                            }
                        }
                    }
                }
            } else {
                new_orders.push(o.copy());
            }
            i = i + 1;
        }
        assert(s.orders.take(no as int) =~= s.orders);
        let nc = self.cards.len();
        let mut new_cards: Vec<Card> = Vec::new();
        let mut k: usize = 0;
        while k < nc
            invariant
                nc == self.cards@.len(),
                s == self@,
                s.cards.len() == nc,
                0 <= k <= nc,
                new_cards@.len() == k,
                forall|x: i64| ids@.contains(x) <==> stale_id(s.orders, x, cutoff@),
                forall|j: int|
                    0 <= j < k ==> (#[trigger] new_cards@[j])@ == expire_cards(
                        s.cards,
                        s.orders,
                        cutoff@,
                    )[j],
            decreases nc - k,
        {
            let c = &self.cards[k];
            assert(s.cards[k as int] == c@);
            let hit = match c.order_id {
                Some(oid) => c.status == CARD_LOCKED && vec_has(&ids, oid),
                None => false,
            };
            if hit {
                new_cards.push(c.relabel(CARD_ON_SALE, None, copy_opt(&c.sold_at)));
            } else {
                new_cards.push(c.copy());
            }
            k = k + 1;
        }
        self.orders = new_orders;
        self.cards = new_cards;
        proof {
            assert(self@.orders =~= expire_orders(s.orders, cutoff@));
            assert(self@.cards =~= expire_cards(s.cards, s.orders, cutoff@));
            assert(self@ =~= expired(s, cutoff@));
            lemma_orders_wf_same_keys(s.orders, self@.orders, s.order_seq);
            lemma_cards_wf_relabel(s.cards, self@.cards, s.card_seq);
        }
        ids.len()
    }
}


// ---------- delivery ----------

/// What `deliver_order` reports for the order at index `i`: 1 when the
/// order ends completed, 3 when it was paid but too few cards could be
/// locked for it.
pub open spec fn deliver_status(s: StoreV, i: int) -> i64 {
    let o = s.orders[i];
    if o.status == ORDER_DONE {
        ORDER_DONE
    } else {
        let lk = count_locked(s.cards, o.id);
        if lk < o.quantity && count_avail(s.cards, o.product_id) < o.quantity - lk {
            ORDER_PAID_WAITING
        } else {
            ORDER_DONE
        }
    }
}

/// The tables after delivering the order at index `i`, paid by `pm` at
/// `now`: a completed order is left alone; otherwise the cards it lacks are
/// locked first, and then either all its cards are sold and the order
/// completed, or, when too few could be locked, the order is marked paid and
/// waiting for stock.
pub open spec fn deliver_view(s: StoreV, i: int, pm: Seq<char>, now: Seq<char>) -> StoreV {
    let o = s.orders[i];
    if o.status == ORDER_DONE {
        s
    } else {
        let lk = count_locked(s.cards, o.id);
        let c1 = if lk < o.quantity {
            lock_cards(s.cards, o.product_id, o.id, o.quantity - lk)
        } else {
            s.cards
        };
        if lk < o.quantity && count_avail(s.cards, o.product_id) < o.quantity - lk {
            StoreV {
                cards: c1,
                orders: s.orders.update(
                    i,
                    OrderV { status: ORDER_PAID_WAITING, pay_method: pm, paid_at: Some(now), ..o },
                ),
                ..s
            }
        } else {
            StoreV {
                cards: sell_cards(c1, o.id, now),
                orders: s.orders.update(
                    i,
                    OrderV { status: ORDER_DONE, pay_method: pm, paid_at: Some(now), ..o },
                ),
                ..s
            }
        }
    }
}

pub open spec fn has_order_no(orders: Seq<OrderV>, no: Seq<char>) -> bool {
    exists|i: int| 0 <= i < orders.len() && orders[i].order_no == no
}

pub open spec fn msg_no_order() -> Seq<char> {
    "订单不存在"@
}

pub proof fn lemma_lock_keeps_keys(s: Seq<CardV>, pid: i64, oid: i64, k: int, seq: i64)
    requires
        cards_wf(s, seq),
    ensures
        cards_wf(lock_cards(s, pid, oid, k), seq),
        lock_cards(s, pid, oid, k).len() == s.len(),
{
    let t = lock_cards(s, pid, oid, k);
    assert forall|i: int| 0 <= i < s.len() implies (#[trigger] t[i]).id == s[i].id
        && t[i].product_id == s[i].product_id && t[i].code == s[i].code by {}
    assert forall|i: int| 0 <= i < t.len() implies {
        let c = #[trigger] t[i];
        (c.status == CARD_ON_SALE && c.order_id is None) || ((c.status == CARD_SOLD || c.status
            == CARD_LOCKED) && c.order_id is Some)
    } by {
        assert(s[i] == s[i]);
    }
    lemma_cards_wf_relabel(s, t, seq);
}

pub proof fn lemma_sell_keeps_keys(s: Seq<CardV>, oid: i64, now: Seq<char>, seq: i64)
    requires
        cards_wf(s, seq),
    ensures
        cards_wf(sell_cards(s, oid, now), seq),
{
    let t = sell_cards(s, oid, now);
    assert forall|i: int| 0 <= i < s.len() implies (#[trigger] t[i]).id == s[i].id
        && t[i].product_id == s[i].product_id && t[i].code == s[i].code by {}
    assert forall|i: int| 0 <= i < t.len() implies {
        let c = #[trigger] t[i];
        (c.status == CARD_ON_SALE && c.order_id is None) || ((c.status == CARD_SOLD || c.status
            == CARD_LOCKED) && c.order_id is Some)
    } by {
        assert(s[i] == s[i]);
    }
    lemma_cards_wf_relabel(s, t, seq);
}

impl Store {
    /// Index of the order with number `no`.
    pub fn find_order(&self, no: &str) -> (r: Option<usize>)
        requires
            self@.wf(),
        ensures
            r matches Some(i) ==> i < self@.orders.len() && self@.orders[i as int].order_no == no@,
            r is None ==> !has_order_no(self@.orders, no@),
    {
        let mut i: usize = 0;
        while i < self.orders.len()
            invariant
                i <= self@.orders.len(),
                forall|j: int| 0 <= j < i ==> self@.orders[j].order_no != no@,
            decreases self@.orders.len() - i,
        {
            if str_eq(self.orders[i].order_no.as_str(), no) {
                return Some(i);
            }
            i = i + 1;
        }
        None
    }

    /// Number of cards locked for order `oid`.
    pub fn count_locked_for(&self, oid: i64) -> (n: usize)
        ensures
            n == count_locked(self@.cards, oid),
    {
        let ghost s = self@.cards;
        let mut n: usize = 0;
        let mut i: usize = 0;
        while i < self.cards.len()
            invariant
                s == self@.cards,
                i <= s.len(),
                n == count_locked(s.take(i as int), oid),
                n <= i,
            decreases s.len() - i,
        {
            proof {
                lemma_count_locked_step(s, oid, i as int);
            }
            let c = &self.cards[i];
            assert(s[i as int] == c@);
            if c.status == CARD_LOCKED && c.order_id == Some(oid) {
                n = n + 1;
            }
            i = i + 1;
        }
        assert(s.take(s.len() as int) =~= s);
        n
    }

    /// Number of cards of product `pid` on sale.
    pub fn count_avail_for(&self, pid: i64) -> (n: usize)
        ensures
            n == count_avail(self@.cards, pid),
    {
        let ghost s = self@.cards;
        let mut n: usize = 0;
        let mut i: usize = 0;
        while i < self.cards.len()
            invariant
                s == self@.cards,
                i <= s.len(),
                n == count_avail(s.take(i as int), pid),
                n <= i,
            decreases s.len() - i,
        {
            proof {
                lemma_count_step(s, pid, i as int);
            }
            let c = &self.cards[i];
            assert(s[i as int] == c@);
            if c.product_id == pid && c.status == CARD_ON_SALE {
                n = n + 1;
            }
            i = i + 1;
        }
        assert(s.take(s.len() as int) =~= s);
        n
    }

    /// Marks the cards locked for order `oid` sold at `now`.
    pub fn sell_locked(&mut self, oid: i64, now: &str)
        ensures
            final(self)@ == (StoreV { cards: sell_cards(old(self)@.cards, oid, now@), ..old(self)@ }),
    {
        let ghost s = self@.cards;
        let n = self.cards.len();
        let mut out: Vec<Card> = Vec::new();
        let mut i: usize = 0;
        while i < n
            invariant
                n == self.cards@.len(),
                s == self@.cards,
                i <= n,
                out@.len() == i,
                forall|j: int| 0 <= j < i ==> (#[trigger] out@[j])@ == sell_cards(s, oid, now@)[j],
            decreases n - i,
        {
            let c = &self.cards[i];
            assert(s[i as int] == c@);
            if c.status == CARD_LOCKED && c.order_id == Some(oid) {
                out.push(c.relabel(CARD_SOLD, c.order_id, Some(copy_str(now))));
            } else {
                out.push(c.copy());
            }
            i = i + 1;
        }
        self.cards = out;
        assert(self@.cards =~= sell_cards(s, oid, now@));
    }

    /// Delivers an order once it is paid (by `pay_method`, at `now`): its
    /// locked cards become sold and the order completed.  An order that
    /// expired in the meantime first locks cards again; when too few are on
    /// sale, the order is marked paid and waiting for stock (3).  Delivering
    /// a completed order again changes nothing.
    pub fn deliver_order_at(&mut self, order_no: &str, pay_method: &str, now: &str) -> (r: Result<i64, String>)
        requires
            old(self)@.wf(),
        ensures
            final(self)@.wf(),
            !has_order_no(old(self)@.orders, order_no@) ==> (final(self)@ == old(self)@ && (r matches Err(m) && m@ == msg_no_order())),
            forall|i: int|
                0 <= i < old(self)@.orders.len() && old(self)@.orders[i].order_no == order_no@ ==> {
                    &&& final(self)@ == deliver_view(old(self)@, i, pay_method@, now@)
                    &&& r == Ok::<i64, String>(deliver_status(old(self)@, i))
                },
    {
        let ghost s = self@;
        let idx = match self.find_order(order_no) {
            Some(i) => i,
            None => {
                return Err(copy_str("订单不存在"));
            },
        };
        proof {
            assert forall|i: int|
                0 <= i < s.orders.len() && s.orders[i].order_no == order_no@ implies i == idx by {
                if i != idx {
                    if i < idx {
                        assert(s.orders[i].order_no != s.orders[idx as int].order_no);
                    } else {
                        assert(s.orders[idx as int].order_no != s.orders[i].order_no);
                    }
                }
            }
        }
        let o = self.orders[idx].copy();
        if o.status == ORDER_DONE {
            return Ok(ORDER_DONE);
        }
        let locked = self.count_locked_for(o.id);
        proof {
            lemma_count_locked_le(s.cards, o.id);
        }
        if o.quantity > 0 && (locked as u64) < (o.quantity as u64) {
            let need = o.quantity - (locked as i64);
            let got = self.lock_first(o.product_id, o.id, need);
            proof {
                lemma_lock_keeps_keys(s.cards, o.product_id, o.id, need as int, s.card_seq);
            }
            if got < need {
                self.orders.set(idx, o.settle(ORDER_PAID_WAITING, pay_method, now));
                proof {
                    assert(self@.orders =~= s.orders.update(
                        idx as int,
                        OrderV { status: ORDER_PAID_WAITING, pay_method: pay_method@, paid_at: Some(now@), ..s.orders[idx as int] },
                    ));
                    lemma_orders_wf_same_keys(s.orders, self@.orders, s.order_seq);
                    assert(self@ =~= deliver_view(s, idx as int, pay_method@, now@));
                }
                return Ok(ORDER_PAID_WAITING);
            }
        }
        let ghost mid = self@.cards;
        proof {
            lemma_lock_keeps_keys(s.cards, o.product_id, o.id, 0, s.card_seq);
        }
        self.sell_locked(o.id, now);
        self.orders.set(idx, o.settle(ORDER_DONE, pay_method, now));
        proof {
            lemma_sell_keeps_keys(mid, o.id, now@, s.card_seq);
            assert(self@.orders =~= s.orders.update(
                idx as int,
                OrderV { status: ORDER_DONE, pay_method: pay_method@, paid_at: Some(now@), ..s.orders[idx as int] },
            ));
            lemma_orders_wf_same_keys(s.orders, self@.orders, s.order_seq);
            assert(self@ =~= deliver_view(s, idx as int, pay_method@, now@));
        }
        Ok(ORDER_DONE)
    }
}


// ---------- placing an order ----------

pub open spec fn msg_quantity() -> Seq<char> {
    "购买数量需在 1 - 100 之间"@
}

pub open spec fn msg_contact() -> Seq<char> {
    "请填写有效的联系方式（至少 4 个字符）"@
}

pub open spec fn msg_no_product() -> Seq<char> {
    "商品不存在"@
}

pub open spec fn msg_off_shelf() -> Seq<char> {
    "商品已下架"@
}

pub open spec fn msg_stock() -> Seq<char> {
    "库存不足，请减少数量或稍后再试"@
}

pub open spec fn msg_dup_order_no() -> Seq<char> {
    "UNIQUE constraint failed: orders.order_no"@
}

pub open spec fn msg_full() -> Seq<char> {
    "database or disk is full"@
}

pub open spec fn has_product(products: Seq<ProductRecordV>, pid: i64) -> bool {
    exists|i: int| 0 <= i < products.len() && products[i].product.id == pid
}

/// The product with id `pid` (meaningful when there is one).
pub open spec fn product_of(products: Seq<ProductRecordV>, pid: i64) -> ProductV {
    products[choose|i: int| 0 <= i < products.len() && products[i].product.id == pid].product
}

/// The order that `create_order` inserts.
pub open spec fn new_order(
    id: i64,
    no: Seq<char>,
    p: ProductV,
    q: i64,
    contact: Seq<char>,
    now: Seq<char>,
) -> OrderV {
    OrderV {
        id,
        order_no: no,
        product_id: p.id,
        product_name: p.name,
        quantity: q,
        unit_cents: p.price_cents,
        total_cents: (p.price_cents * q) as i64,
        contact,
        status: ORDER_PENDING,
        pay_method: Seq::empty(),
        created_at: now,
        paid_at: None,
    }
}

/// What placing an order does: the tables afterwards and the order placed or
/// the reason it was refused.  The quantity must be 1 to 100 and the trimmed
/// contact at least 4 characters; then stale orders expire; the product must
/// exist and be on sale, the order number be new, and enough cards be on
/// sale; the order then locks the first `q` of them.  A refusal after the
/// expiry keeps the expiry and nothing else.
pub open spec fn create_outcome(
    s: StoreV,
    pid: i64,
    q: i64,
    contact: Seq<char>,
    cutoff: Seq<char>,
    no: Seq<char>,
    now: Seq<char>,
) -> (StoreV, Result<OrderV, Seq<char>>) {
    let c = trim(contact);
    if q < 1 || q > 100 {
        (s, Err(msg_quantity()))
    } else if c.len() < 4 {
        (s, Err(msg_contact()))
    } else {
        let e = expired(s, cutoff);
        if !has_product(e.products, pid) {
            (e, Err(msg_no_product()))
        } else {
            let p = product_of(e.products, pid);
            if p.status != 1 {
                (e, Err(msg_off_shelf()))
            } else if has_order_no(e.orders, no) {
                (e, Err(msg_dup_order_no()))
            } else if e.order_seq == i64::MAX {
                (e, Err(msg_full()))
            } else if count_avail(e.cards, pid) < q {
                (e, Err(msg_stock()))
            } else {
                let oid = (e.order_seq + 1) as i64;
                let o = new_order(oid, no, p, q, c, now);
                (
                    StoreV {
                        orders: e.orders.push(o),
                        order_seq: oid,
                        cards: lock_cards(e.cards, pid, oid, q as int),
                        ..e
                    },
                    Ok(o),
                )
            }
        }
    }
}

/// An executable result agrees with a result of views.
pub open spec fn order_result_is(r: Result<Order, String>, v: Result<OrderV, Seq<char>>) -> bool {
    match (r, v) {
        (Ok(o), Ok(ov)) => o@ == ov,
        (Err(m), Err(mv)) => m@ == mv,
        _ => false,
    }
}

/// An order for `q` of product `pid` with contact `contact` gets as far as
/// its total: the quantity is in range, the trimmed contact has at least
/// four characters, and a product with that id is on sale.
pub open spec fn order_priced(s: StoreV, pid: i64, q: i64, contact: Seq<char>) -> bool {
    &&& 1 <= q <= 100
    &&& trim(contact).len() >= 4
    &&& has_product(s.products, pid)
    &&& product_of(s.products, pid).status == 1
}

/// The price of product `pid` times `q` fits in an `i64` (the total is
/// computed in `i64`, which must not overflow).
pub open spec fn total_fits(s: StoreV, pid: i64, q: i64) -> bool {
    forall|i: int|
        0 <= i < s.products.len() && s.products[i].product.id == pid ==> i64::MIN
            <= s.products[i].product.price_cents * q <= i64::MAX
}

impl Store {
    /// Index of the product with id `pid`.
    pub fn find_product(&self, pid: i64) -> (r: Option<usize>)
        requires
            self@.wf(),
        ensures
            r matches Some(i) ==> i < self@.products.len() && self@.products[i as int].product.id == pid
                && product_of(self@.products, pid) == self@.products[i as int].product,
            r is None ==> !has_product(self@.products, pid),
    {
        let mut i: usize = 0;
        while i < self.products.len()
            invariant
                self@.wf(),
                i <= self@.products.len(),
                forall|j: int| 0 <= j < i ==> self@.products[j].product.id != pid,
            decreases self@.products.len() - i,
        {
            if self.products[i].product.id == pid {
                proof {
                    let ps = self@.products;
                    assert(ps[i as int].product.id == pid);
                    assert(has_product(ps, pid));
                    let k = choose|k: int| 0 <= k < ps.len() && ps[k].product.id == pid;
                    if k != i {
                        if k < i {
                            assert(ps[k].product.id < ps[i as int].product.id);
                        } else {
                            assert(ps[i as int].product.id < ps[k].product.id);
                        }
                    }
                }
                return Some(i);
            }
            i = i + 1;
        }
        None
    }

    /// Places an order for `quantity` cards of product `product_id`, first
    /// expiring unpaid orders created before `cutoff`; the new order gets
    /// number `order_no` and creation time `now`.
    pub fn create_order_at(
        &mut self,
        product_id: i64,
        quantity: i64,
        contact: &str,
        cutoff: &str,
        order_no: &str,
        now: &str,
    ) -> (r: Result<Order, String>)
        requires
            old(self)@.wf(),
            order_priced(old(self)@, product_id, quantity, contact@) ==> total_fits(old(self)@, product_id, quantity),
        ensures
            final(self)@.wf(),
            final(self)@ == create_outcome(old(self)@, product_id, quantity, contact@, cutoff@, order_no@, now@).0,
            order_result_is(r, create_outcome(old(self)@, product_id, quantity, contact@, cutoff@, order_no@, now@).1),
    {
        if quantity < 1 || quantity > 100 {
            return Err(copy_str("购买数量需在 1 - 100 之间"));
        }
        let c = trim_str(contact);
        if c.unicode_len() < 4 {
            return Err(copy_str("请填写有效的联系方式（至少 4 个字符）"));
        }
        let _ = self.expire_stale_orders_at(cutoff);
        let ghost e = self@;
        let pi = match self.find_product(product_id) {
            Some(i) => i,
            None => {
                return Err(copy_str("商品不存在"));
            },
        };
        if self.products[pi].product.status != 1 {
            return Err(copy_str("商品已下架"));
        }
        match self.find_order(order_no) {
            Some(_) => {
                return Err(copy_str("UNIQUE constraint failed: orders.order_no"));
            },
            None => {},
        }
        if self.order_seq == i64::MAX {
            return Err(copy_str("database or disk is full"));
        }
        let oid = self.order_seq + 1;
        let price = self.products[pi].product.price_cents;
        assert(i64::MIN <= price * quantity <= i64::MAX);
        let order = Order {
            id: oid,
            order_no: copy_str(order_no),
            product_id,
            product_name: self.products[pi].product.name.clone(),
            quantity,
            unit_cents: price,
            total_cents: price * quantity,
            contact: c,
            status: ORDER_PENDING,
            pay_method: String::new(),
            created_at: copy_str(now),
            paid_at: None,
        };
        let avail = self.count_avail_for(product_id);
        if (avail as u64) < (quantity as u64) {
            return Err(copy_str("库存不足，请减少数量或稍后再试"));
        }
        let _ = self.lock_first(product_id, oid, quantity);
        let result = order.copy();
        self.orders.push(order);
        self.order_seq = oid;
        proof {
            let o = new_order(oid, order_no@, e.products[pi as int].product, quantity, trim(contact@), now@);
            assert(result@ == o);
            lemma_lock_keeps_keys(e.cards, product_id, oid, quantity as int, e.card_seq);
            let os = self@.orders;
            assert(os =~= e.orders.push(o));
            assert forall|i: int, j: int| 0 <= i < j < os.len() implies os[i].id < os[j].id by {
                if j == os.len() - 1 {
                    assert(e.orders[i].id <= e.order_seq);
                }
            }
            assert forall|i: int, j: int| 0 <= i < j < os.len() implies os[i].order_no
                != os[j].order_no by {
                if j == os.len() - 1 {
                    assert(e.orders[i].order_no != order_no@);
                }
            }
            assert forall|i: int| 0 <= i < os.len() implies 1 <= #[trigger] os[i].id <= oid by {
                if i < os.len() - 1 {
                    assert(e.orders[i].id <= e.order_seq);
                }
            }
        }
        Ok(result)
    }
}

} // verus!
