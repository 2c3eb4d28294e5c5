//! What the order lifecycle and the bulk import guarantee about the stock
//! of card keys.

use vstd::prelude::*;
use crate::models::{avail, count_avail, count_locked, create_outcome, deliver_status, deliver_view, expired, lock, lock_cards, locked_for, stale, CardV, StoreV, CARD_SOLD, ORDER_DONE, ORDER_EXPIRED};

use crate::cards::{import_fold, import_step, has_code, limit};
use crate::models::{OrderV, stale_id, ORDER_PENDING};
use crate::orders::{order_listed, orders_desc, paid_today, count_paid_today, revenue_today, ORDER_LIST_LIMIT};
use crate::like::{like_contains, like_prefix};
use crate::clock::order_cutoff;

verus! {

pub open spec fn min(a: int, b: int) -> int {
    if a < b { a } else { b }
}

proof fn lemma_lock_last(s: Seq<CardV>, pid: i64, oid: i64, k: int)
    requires
        s.len() > 0,
    ensures
        lock_cards(s, pid, oid, k).drop_last() == lock_cards(s.drop_last(), pid, oid, k),
        lock_cards(s, pid, oid, k).last() == if avail(s.last(), pid) && count_avail(
            s.drop_last(),
            pid,
        ) < k {
            lock(s.last(), oid)
        } else {
            s.last()
        },
{
    let t = lock_cards(s, pid, oid, k);
    let u = lock_cards(s.drop_last(), pid, oid, k);
    assert forall|j: int| 0 <= j < u.len() implies t.drop_last()[j] == u[j] by {
        assert(s.take(j) =~= s.drop_last().take(j));
    }
    assert(t.drop_last() =~= u);
    assert(s.take(s.len() - 1) =~= s.drop_last());
}

/// Locking takes `min(k, on sale)` cards off sale and locks them for `oid`.
pub proof fn lemma_lock_counts(s: Seq<CardV>, pid: i64, oid: i64, k: int)
    requires
        k >= 0,
    ensures
        count_locked(lock_cards(s, pid, oid, k), oid) == count_locked(s, oid) + min(
            k,
            count_avail(s, pid) as int,
        ),
        count_avail(lock_cards(s, pid, oid, k), pid) == count_avail(s, pid) - min(
            k,
            count_avail(s, pid) as int,
        ),
    decreases s.len(),
{
    if s.len() > 0 {
        lemma_lock_counts(s.drop_last(), pid, oid, k);
        lemma_lock_last(s, pid, oid, k);
    } else {
        assert(lock_cards(s, pid, oid, k) =~= s);
    }
}

/// No card is locked for `oid` when no card belongs to it.
pub proof fn lemma_no_locks(s: Seq<CardV>, oid: i64)
    requires
        forall|j: int| 0 <= j < s.len() ==> !locked_for(#[trigger] s[j], oid),
    ensures
        count_locked(s, oid) == 0,
    decreases s.len(),
{
    if s.len() > 0 {
        assert(!locked_for(s[s.len() - 1], oid));
        lemma_no_locks(s.drop_last(), oid);
    }
}

/// Placing an order locks exactly the ordered quantity for it, taken from
/// the cards of that product on sale: the stock cannot be oversold.
pub proof fn law_order_locks_its_quantity(
    s: StoreV,
    pid: i64,
    q: i64,
    contact: Seq<char>,
    cutoff: Seq<char>,
    no: Seq<char>,
    now: Seq<char>,
)
    requires
        s.wf(),
    ensures
        ({
            let (t, r) = create_outcome(s, pid, q, contact, cutoff, no, now);
            r matches Ok(o) ==> {
                &&& count_locked(t.cards, o.id) == q
                &&& count_avail(t.cards, pid) + q == count_avail(expired(s, cutoff).cards, pid)
                &&& t.orders.last() == o
            }
        }),
{
    let (t, r) = create_outcome(s, pid, q, contact, cutoff, no, now);
    if let Ok(o) = r {
        let e = expired(s, cutoff);
        assert forall|j: int| 0 <= j < e.cards.len() implies !locked_for(#[trigger] e.cards[j], o.id) by {
            if e.cards[j] == s.cards[j] {
                assert(s.cards[j].order_id matches Some(x) ==> x <= s.order_seq);
            }
        }
        lemma_no_locks(e.cards, o.id);
        lemma_lock_counts(e.cards, pid, o.id, q as int);
    }
}

/// The three steps of the lifecycle leave every sold card exactly as it
/// was, and keep every card's id, product and code.
pub open spec fn keeps_sold_cards(a: Seq<CardV>, b: Seq<CardV>) -> bool {
    &&& a.len() == b.len()
    &&& forall|j: int| 0 <= j < a.len() && a[j].status == CARD_SOLD ==> #[trigger] b[j] == a[j]
    &&& forall|j: int|
        0 <= j < a.len() ==> (#[trigger] b[j]).id == a[j].id && b[j].product_id == a[j].product_id
            && b[j].code == a[j].code
}

/// Placing an order, expiring orders and delivering one never take back a
/// sold card nor change which cards exist.
pub proof fn law_sold_cards_stay_sold(
    s: StoreV,
    pid: i64,
    q: i64,
    contact: Seq<char>,
    cutoff: Seq<char>,
    no: Seq<char>,
    now: Seq<char>,
    i: int,
    pm: Seq<char>,
)
    requires
        s.wf(),
    ensures
        keeps_sold_cards(s.cards, expired(s, cutoff).cards),
        keeps_sold_cards(s.cards, create_outcome(s, pid, q, contact, cutoff, no, now).0.cards),
        0 <= i < s.orders.len() ==> keeps_sold_cards(s.cards, deliver_view(s, i, pm, now).cards),
{
}

/// Delivering an order that comes out completed, and delivering it again,
/// is the same as delivering it once; the second delivery reports it
/// completed too.
pub proof fn law_deliver_idempotent(s: StoreV, i: int, pm: Seq<char>, now: Seq<char>, pm2: Seq<char>, now2: Seq<char>)
    requires
        s.wf(),
        0 <= i < s.orders.len(),
        deliver_status(s, i) == ORDER_DONE,
    ensures
        deliver_view(s, i, pm, now).orders[i].status == ORDER_DONE,
        deliver_status(deliver_view(s, i, pm, now), i) == ORDER_DONE,
        deliver_view(deliver_view(s, i, pm, now), i, pm2, now2) == deliver_view(s, i, pm, now),
{
}

/// A delivered order keeps no locked card: all of its cards are sold.
pub proof fn law_delivered_order_holds_no_lock(s: StoreV, i: int, pm: Seq<char>, now: Seq<char>)
    requires
        s.wf(),
        0 <= i < s.orders.len(),
        s.orders[i].status != ORDER_DONE,
        deliver_status(s, i) == ORDER_DONE,
    ensures
        count_locked(deliver_view(s, i, pm, now).cards, s.orders[i].id) == 0,
{
    let t = deliver_view(s, i, pm, now).cards;
    assert forall|j: int| 0 <= j < t.len() implies !locked_for(#[trigger] t[j], s.orders[i].id) by {}
    lemma_no_locks(t, s.orders[i].id);
}

/// After expiry, every order that was stale is expired and holds no locked
/// card.
pub proof fn law_expiry_releases(s: StoreV, cutoff: Seq<char>, i: int)
    requires
        s.wf(),
        0 <= i < s.orders.len(),
        stale(s.orders[i], cutoff),
    ensures
        expired(s, cutoff).orders[i].status == ORDER_EXPIRED,
        count_locked(expired(s, cutoff).cards, s.orders[i].id) == 0,
{
    let e = expired(s, cutoff);
    let oid = s.orders[i].id;
    assert forall|j: int| 0 <= j < e.cards.len() implies !locked_for(#[trigger] e.cards[j], oid) by {
        if s.cards[j].status == 2 && s.cards[j].order_id == Some(oid) {
            assert(s.orders[i].id == oid);
        }
    }
    lemma_no_locks(e.cards, oid);
}

/// A successful import keeps the cards there were (as a prefix) and leaves
/// every imported code present for the product.
pub proof fn lemma_import_grows(cs: Seq<CardV>, seq: i64, pid: i64, codes: Seq<Seq<char>>, now: Seq<char>)
    ensures
        import_fold(cs, seq, pid, codes, now) matches Some(st) ==> {
            &&& st.0.len() >= cs.len()
            &&& forall|i: int| 0 <= i < cs.len() ==> st.0[i] == cs[i]
            &&& forall|k: int| 0 <= k < codes.len() ==> has_code(st.0, pid, #[trigger] codes[k])
        },
    decreases codes.len(),
{
    if codes.len() > 0 {
        let pre = codes.drop_last();
        lemma_import_grows(cs, seq, pid, pre, now);
        if let Some(p) = import_fold(cs, seq, pid, pre, now) {
            if let Some(st) = import_step(p, pid, codes.last(), now) {
                assert forall|k: int| 0 <= k < codes.len() implies has_code(st.0, pid, #[trigger] codes[k]) by {
                    if k < codes.len() - 1 {
                        assert(codes[k] == pre[k]);
                        assert(has_code(p.0, pid, pre[k]));
                        let j = choose|j: int| 0 <= j < p.0.len() && p.0[j].product_id == pid && p.0[j].code == pre[k];
                        if !has_code(p.0, pid, codes.last()) {
                            assert(st.0[j] == p.0[j]);
                        }
                    } else if !has_code(p.0, pid, codes.last()) {
                        assert(st.0[p.0.len() as int].code == codes.last());
                    }
                }
            }
        }
    }
}

/// Importing codes that are all present already skips every one of them
/// and changes nothing.
pub proof fn lemma_present_codes_skipped(cs: Seq<CardV>, seq: i64, pid: i64, codes: Seq<Seq<char>>, now: Seq<char>)
    requires
        forall|k: int| 0 <= k < codes.len() ==> has_code(cs, pid, #[trigger] codes[k]),
    ensures
        import_fold(cs, seq, pid, codes, now) == Some((cs, seq, 0nat, codes.len())),
    decreases codes.len(),
{
    if codes.len() > 0 {
        let pre = codes.drop_last();
        assert forall|k: int| 0 <= k < pre.len() implies has_code(cs, pid, #[trigger] pre[k]) by {
            assert(pre[k] == codes[k]);
        }
        lemma_present_codes_skipped(cs, seq, pid, pre, now);
        assert(has_code(cs, pid, codes[codes.len() - 1]));
    }
}

/// Importing the same codes again, once an import of them succeeded,
/// imports nothing: every code is skipped as a duplicate.
pub proof fn law_reimport_skips_all(
    cs: Seq<CardV>,
    seq: i64,
    pid: i64,
    codes: Seq<Seq<char>>,
    now: Seq<char>,
    later: Seq<char>,
)
    ensures
        import_fold(cs, seq, pid, codes, now) matches Some(st) ==> import_fold(st.0, st.1, pid, codes, later)
            == Some((st.0, st.1, 0nat, codes.len())),
{
    lemma_import_grows(cs, seq, pid, codes, now);
    if let Some(st) = import_fold(cs, seq, pid, codes, now) {
        lemma_present_codes_skipped(st.0, st.1, pid, codes, later);
    }
}

// ---------- expiry, listing, dashboard ----------

/// Expiring with the cutoff of time `now` (`ORDER_TTL_MIN` minutes before
/// it, see `law_order_cutoff`) leaves every order created at or after that
/// cutoff as it was, and every card that belongs to it too: an order
/// younger than the time to pay is never expired.
pub proof fn law_recent_orders_stay(s: StoreV, now: Seq<char>, i: int)
    requires
        s.wf(),
        0 <= i < s.orders.len(),
        !crate::text::text_lt(s.orders[i].created_at, order_cutoff(now)),
    ensures
        expired(s, order_cutoff(now)).orders[i] == s.orders[i],
        forall|j: int|
            0 <= j < s.cards.len() && s.cards[j].order_id == Some(s.orders[i].id) ==> #[trigger] expired(
                s,
                order_cutoff(now),
            ).cards[j] == s.cards[j],
{
    let c = order_cutoff(now);
    assert(!stale(s.orders[i], c));
    assert forall|j: int|
        0 <= j < s.cards.len() && s.cards[j].order_id == Some(s.orders[i].id) implies #[trigger] expired(
            s,
            c,
        ).cards[j] == s.cards[j] by {
        if stale_id(s.orders, s.orders[i].id, c) {
            let k = choose|k: int| 0 <= k < s.orders.len() && s.orders[k].id == s.orders[i].id && stale(s.orders[k], c);
            if k < i {
                assert(s.orders[k].id < s.orders[i].id);
            } else if k > i {
                assert(s.orders[i].id < s.orders[k].id);
            }
        }
    }
}

proof fn lemma_listed_in_desc(os: Seq<OrderV>, st: Option<i64>, q: Seq<char>, i: int)
    requires
        0 <= i < os.len(),
        order_listed(os[i], st, q),
    ensures
        orders_desc(os, st, q).contains(os[i]),
    decreases os.len(),
{
    let d = orders_desc(os, st, q);
    if i == 0 {
        assert(d[d.len() - 1] == os[0]);
    } else {
        lemma_listed_in_desc(os.drop_first(), st, q, i - 1);
        let r = orders_desc(os.drop_first(), st, q);
        let k = choose|k: int| 0 <= k < r.len() && r[k] == os[i];
        assert(d[k] == r[k]);
    }
}

proof fn lemma_desc_from(os: Seq<OrderV>, st: Option<i64>, q: Seq<char>, k: int)
    requires
        0 <= k < orders_desc(os, st, q).len(),
    ensures
        exists|i: int| 0 <= i < os.len() && os[i] == #[trigger] orders_desc(os, st, q)[k] && order_listed(os[i], st, q),
    decreases os.len(),
{
    let r = orders_desc(os.drop_first(), st, q);
    if k < r.len() {
        lemma_desc_from(os.drop_first(), st, q, k);
        let i = choose|i: int| 0 <= i < os.drop_first().len() && os.drop_first()[i] == #[trigger] r[k] && order_listed(
            os.drop_first()[i],
            st,
            q,
        );
        assert(os[i + 1] == os.drop_first()[i]);
    } else {
        assert(orders_desc(os, st, q)[k] == os[0]);
    }
}

/// The administrators' order search lists exactly the orders of the status
/// asked for (any, when none is) that, for a non-empty search text, hold it
/// in their number, their contact or their product name.
pub proof fn law_search_lists_matches(os: Seq<OrderV>, st: Option<i64>, q: Seq<char>, i: int, k: int)
    ensures
        0 <= i < os.len() && (st matches Some(x) ==> os[i].status == x) && (q.len() == 0 || like_contains(
            os[i].order_no,
            q,
        ) || like_contains(os[i].contact, q) || like_contains(os[i].product_name, q)) ==> orders_desc(
            os,
            st,
            q,
        ).contains(os[i]),
        0 <= k < orders_desc(os, st, q).len() ==> exists|j: int|
            0 <= j < os.len() && os[j] == #[trigger] orders_desc(os, st, q)[k] && (st matches Some(x) ==> os[j].status
                == x) && (q.len() == 0 || like_contains(os[j].order_no, q) || like_contains(os[j].contact, q)
                || like_contains(os[j].product_name, q)),
{
    if 0 <= i < os.len() && (st matches Some(x) ==> os[i].status == x) && (q.len() == 0 || like_contains(
        os[i].order_no,
        q,
    ) || like_contains(os[i].contact, q) || like_contains(os[i].product_name, q)) {
        lemma_listed_in_desc(os, st, q, i);
    }
    if 0 <= k < orders_desc(os, st, q).len() {
        lemma_desc_from(os, st, q, k);
    }
}

/// Every order of the status asked for whose product name holds the
/// search text is listed by the administrators' order search (which shows
/// the newest 300): the search looks at the product name as well as the
/// number and the contact.
pub proof fn law_search_finds_product_name(os: Seq<OrderV>, st: Option<i64>, q: Seq<char>, i: int)
    requires
        0 <= i < os.len(),
        st matches Some(x) ==> os[i].status == x,
        like_contains(os[i].product_name, q),
    ensures
        orders_desc(os, st, q).contains(os[i]),
        orders_desc(os, st, q).len() <= ORDER_LIST_LIMIT ==> limit(orders_desc(os, st, q), ORDER_LIST_LIMIT as int).contains(
            os[i],
        ),
{
    lemma_listed_in_desc(os, st, q, i);
}

/// Today's revenue adds up over a split of the orders.
pub proof fn law_revenue_adds_up(a: Seq<OrderV>, b: Seq<OrderV>, today: Seq<char>)
    ensures
        revenue_today(a + b, today) == revenue_today(a, today) + revenue_today(b, today),
        count_paid_today(a + b, today) == count_paid_today(a, today) + count_paid_today(b, today),
    decreases b.len(),
{
    if b.len() > 0 {
        assert((a + b).drop_last() =~= a + b.drop_last());
        assert((a + b).last() == b.last());
        law_revenue_adds_up(a, b.drop_last(), today);
    } else {
        assert(a + b =~= a);
    }
}

/// One order brings to today's revenue its whole total (all its units at
/// their price, as placed) when it was completed and paid today, and
/// nothing otherwise; so today's revenue is the sum of the totals of the
/// orders completed and paid today.
pub proof fn law_revenue_of_one_order(o: OrderV, today: Seq<char>)
    ensures
        revenue_today(seq![o], today) == if o.status == ORDER_DONE && (o.paid_at matches Some(p) && like_prefix(p, today)) {
            o.total_cents as int
        } else {
            0
        },
        count_paid_today(seq![o], today) == if o.status == ORDER_DONE && (o.paid_at matches Some(p) && like_prefix(p, today)) {
            1int
        } else {
            0
        },
{
    let one = seq![o];
    assert(one.drop_last() =~= Seq::<OrderV>::empty());
    assert(one.last() == o);
    assert(revenue_today(Seq::<OrderV>::empty(), today) == 0);
    assert(count_paid_today(Seq::<OrderV>::empty(), today) == 0);
    assert(revenue_today(one, today) == revenue_today(one.drop_last(), today) + if paid_today(one.last(), today) {
        one.last().total_cents as int
    } else {
        0
    });
    assert(count_paid_today(one, today) == count_paid_today(one.drop_last(), today) + if paid_today(one.last(), today) {
        1nat
    } else {
        0nat
    });
}

/// A placed order's total is its quantity times the unit price.
pub proof fn law_order_total(
    s: StoreV,
    pid: i64,
    q: i64,
    contact: Seq<char>,
    cutoff: Seq<char>,
    no: Seq<char>,
    now: Seq<char>,
)
    requires
        s.wf(),
        crate::models::order_priced(s, pid, q, contact) ==> crate::models::total_fits(s, pid, q),
    ensures
        create_outcome(s, pid, q, contact, cutoff, no, now).1 matches Ok(o) ==> o.total_cents == o.unit_cents
            * o.quantity && o.created_at == now,
{
    if let Ok(o) = create_outcome(s, pid, q, contact, cutoff, no, now).1 {
        let e = expired(s, cutoff);
        assert(e.products == s.products);
        assert(crate::models::has_product(s.products, pid));
        let k = choose|k: int| 0 <= k < s.products.len() && s.products[k].product.id == pid;
        assert(crate::models::product_of(s.products, pid) == s.products[k].product);
        assert(crate::models::order_priced(s, pid, q, contact));
        assert(i64::MIN <= s.products[k].product.price_cents * q <= i64::MAX);
        let pr = crate::models::product_of(e.products, pid);
        assert(o == crate::models::new_order((e.order_seq + 1) as i64, no, pr, q, crate::text::trim(contact), now));
        assert(o.unit_cents == pr.price_cents && o.quantity == q);
        assert(o.total_cents == pr.price_cents * q);
    }
}

proof fn lemma_update_counts(os: Seq<OrderV>, i: int, o: OrderV, today: Seq<char>)
    requires
        0 <= i < os.len(),
    ensures
        count_paid_today(os.update(i, o), today) == count_paid_today(os, today) - (if paid_today(os[i], today) {
            1int
        } else {
            0
        }) + (if paid_today(o, today) { 1int } else { 0 }),
        revenue_today(os.update(i, o), today) == revenue_today(os, today) - (if paid_today(os[i], today) {
            os[i].total_cents as int
        } else {
            0
        }) + (if paid_today(o, today) { o.total_cents as int } else { 0 }),
    decreases os.len(),
{
    let u = os.update(i, o);
    if i == os.len() - 1 {
        assert(u.drop_last() =~= os.drop_last());
    } else {
        assert(u.drop_last() =~= os.drop_last().update(i, o));
        lemma_update_counts(os.drop_last(), i, o, today);
    }
}

/// Delivering an order that then completes, paid at `now` on day `today`,
/// gives it the payment time `now`, and the dashboard of that day counts
/// one more completed order and its whole total more revenue.
pub proof fn law_delivery_counts_today(s: StoreV, i: int, pm: Seq<char>, now: Seq<char>, today: Seq<char>)
    requires
        s.wf(),
        0 <= i < s.orders.len(),
        s.orders[i].status != ORDER_DONE,
        deliver_status(s, i) == ORDER_DONE,
        like_prefix(now, today),
    ensures
        deliver_view(s, i, pm, now).orders[i].paid_at == Some(now),
        deliver_view(s, i, pm, now).orders[i].status == ORDER_DONE,
        count_paid_today(deliver_view(s, i, pm, now).orders, today) == count_paid_today(s.orders, today) + 1,
        revenue_today(deliver_view(s, i, pm, now).orders, today) == revenue_today(s.orders, today)
            + s.orders[i].total_cents,
        forall|j: int|
            0 <= j < s.cards.len() && #[trigger] deliver_view(s, i, pm, now).cards[j].status == CARD_SOLD
                && s.cards[j].status != CARD_SOLD ==> deliver_view(s, i, pm, now).cards[j].sold_at == Some(now)
                && deliver_view(s, i, pm, now).cards[j].order_id == Some(s.orders[i].id),
{
    let o = s.orders[i];
    let f = deliver_view(s, i, pm, now);
    let o2 = OrderV { status: ORDER_DONE, pay_method: pm, paid_at: Some(now), ..o };
    assert(f.orders == s.orders.update(i, o2));
    lemma_update_counts(s.orders, i, o2, today);
}

} // verus!
