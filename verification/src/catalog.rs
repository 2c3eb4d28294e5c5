//! Settings, categories and products of the shop, and the catalogue views
//! that list them with their stock.

use vstd::prelude::*;
use crate::models::{count_avail, products_wf, settings_wf, CategoryRow, CategoryRowV, Product, ProductRecord, ProductRecordV, ProductV, Store, StoreV, Card, CardV, CARD_SOLD, CARD_LOCKED, msg_full};
use crate::money::{cents_str, cents_text};
use crate::text::{copy_str, str_eq};

verus! {

// ---------- settings ----------

pub open spec fn has_key(st: Seq<(Seq<char>, Seq<char>)>, key: Seq<char>) -> bool {
    exists|i: int| 0 <= i < st.len() && st[i].0 == key
}

/// The value stored under `key`, or the empty text.
pub open spec fn setting_value(st: Seq<(Seq<char>, Seq<char>)>, key: Seq<char>) -> Seq<char> {
    if has_key(st, key) {
        st[choose|i: int| 0 <= i < st.len() && st[i].0 == key].1
    } else {
        Seq::empty()
    }
}

/// The settings after storing `value` under `key`.
pub open spec fn settings_put(
    st: Seq<(Seq<char>, Seq<char>)>,
    key: Seq<char>,
    value: Seq<char>,
) -> Seq<(Seq<char>, Seq<char>)> {
    if has_key(st, key) {
        st.update(choose|i: int| 0 <= i < st.len() && st[i].0 == key, (key, value))
    } else {
        st.push((key, value))
    }
}

/// A setting reads back as the value last stored under its key; the other
/// keys keep their values, and no key occurs twice.
pub proof fn law_setting_read_back(
    st: Seq<(Seq<char>, Seq<char>)>,
    k: Seq<char>,
    v: Seq<char>,
    other: Seq<char>,
)
    requires
        settings_wf(st),
    ensures
        settings_wf(settings_put(st, k, v)),
        setting_value(settings_put(st, k, v), k) == v,
        other != k ==> setting_value(settings_put(st, k, v), other) == setting_value(st, other),
{
    let n = settings_put(st, k, v);
    let p = if has_key(st, k) {
        choose|i: int| 0 <= i < st.len() && st[i].0 == k
    } else {
        st.len() as int
    };
    assert(n[p] == (k, v));
    assert forall|i: int| 0 <= i < n.len() && i != p implies n[i] == st[i] by {}
    assert forall|i: int, j: int| 0 <= i < j < n.len() implies n[i].0 != n[j].0 by {
        if i != p && j != p {
            assert(st[i].0 != st[j].0);
        } else if i == p {
            assert(n[j] == st[j]);
            if has_key(st, k) {
                assert(st[p].0 != st[j].0);
            }
        } else {
            assert(n[i] == st[i]);
            if has_key(st, k) {
                assert(st[i].0 != st[p].0);
            }
        }
    }
    assert(has_key(n, k));
    let c = choose|i: int| 0 <= i < n.len() && n[i].0 == k;
    if c != p {
        assert(n[c].0 != n[p].0);
    }
    if other != k {
        if has_key(st, other) {
            let a = choose|i: int| 0 <= i < st.len() && st[i].0 == other;
            assert(n[a] == st[a]);
            assert(has_key(n, other));
            let b = choose|i: int| 0 <= i < n.len() && n[i].0 == other;
            if b != a {
                assert(n[b].0 != n[a].0);
            }
        } else {
            if has_key(n, other) {
                let b = choose|i: int| 0 <= i < n.len() && n[i].0 == other;
                assert(b != p);
                assert(n[b] == st[b]);
            }
        }
    }
}

/// Display context of the public pages.
pub struct SiteCtx {
    pub name: String,
    pub mark: String,
    pub subtitle: String,
    pub announcement: String,
    pub theme: String,
}

impl Store {
    /// Index of the setting `key`.
    pub fn find_setting(&self, key: &str) -> (r: Option<usize>)
        requires
            self@.wf(),
        ensures
            r matches Some(i) ==> i < self@.settings.len() && self@.settings[i as int].0 == key@
                && (choose|j: int| 0 <= j < self@.settings.len() && self@.settings[j].0 == key@)
                == i,
            r is None ==> !has_key(self@.settings, key@),
    {
        let mut i: usize = 0;
        while i < self.settings.len()
            invariant
                self@.wf(),
                i <= self@.settings.len(),
                forall|j: int| 0 <= j < i ==> self@.settings[j].0 != key@,
            decreases self@.settings.len() - i,
        {
            if str_eq(self.settings[i].0.as_str(), key) {
                proof {
                    let st = self@.settings;
                    assert(st[i as int].0 == key@);
                    let k = choose|k: int| 0 <= k < st.len() && st[k].0 == key@;
                    if k != i {
                        if k < i {
                            assert(st[k].0 != st[i as int].0);
                        } else {
                            assert(st[i as int].0 != st[k].0);
                        }
                    }
                }
                return Some(i);
            }
            i = i + 1;
        }
        None
    }

    /// The value of setting `key`, or the empty string when it is not set.
    pub fn get_setting(&self, key: &str) -> (r: String)
        requires
            self@.wf(),
        ensures
            r@ == setting_value(self@.settings, key@),
    {
        match self.find_setting(key) {
            Some(i) => self.settings[i].1.clone(),
            None => String::new(),
        }
    }

    /// Stores `value` under `key`, replacing any earlier value.
    pub fn set_setting(&mut self, key: &str, value: &str)
        requires
            old(self)@.wf(),
        ensures
            final(self)@.wf(),
            final(self)@ == (StoreV { settings: settings_put(old(self)@.settings, key@, value@), ..old(self)@ }),
    {
        let ghost s = self@;
        match self.find_setting(key) {
            Some(i) => {
                self.settings.set(i, (copy_str(key), copy_str(value)));
                proof {
                    assert(self@.settings =~= settings_put(s.settings, key@, value@));
                    assert(self@ =~= (StoreV { settings: settings_put(s.settings, key@, value@), ..s }));
                }
            },
            None => {
                self.settings.push((copy_str(key), copy_str(value)));
                proof {
                    assert(self@.settings =~= settings_put(s.settings, key@, value@));
                    assert(self@ =~= (StoreV { settings: settings_put(s.settings, key@, value@), ..s }));
                }
            },
        }
    }

    /// Stores `value` under `key` unless `key` already has a value.
    pub fn set_default(&mut self, key: &str, value: &str)
        requires
            old(self)@.wf(),
        ensures
            final(self)@.wf(),
            has_key(old(self)@.settings, key@) ==> final(self)@ == old(self)@,
            !has_key(old(self)@.settings, key@) ==> final(self)@ == (StoreV {
                settings: old(self)@.settings.push((key@, value@)),
                ..old(self)@
            }),
    {
        if self.find_setting(key).is_none() {
            self.set_setting(key, value);
        }
    }

    /// The public pages' context: the site's texts, and its theme ("light"
    /// when so configured, "dark" otherwise).
    pub fn site_ctx(&self) -> (r: SiteCtx)
        requires
            self@.wf(),
        ensures
            r.name@ == setting_value(self@.settings, "site_name"@),
            r.mark@ == setting_value(self@.settings, "site_mark"@),
            r.subtitle@ == setting_value(self@.settings, "site_subtitle"@),
            r.announcement@ == setting_value(self@.settings, "announcement"@),
            r.theme@ == if setting_value(self@.settings, "default_theme"@) == "light"@ {
                "light"@
            } else {
                "dark"@
            },
    {
        let t = self.get_setting("default_theme");
        let theme = if str_eq(t.as_str(), "light") {
            t
        } else {
            copy_str("dark")
        };
        SiteCtx {
            name: self.get_setting("site_name"),
            mark: self.get_setting("site_mark"),
            subtitle: self.get_setting("site_subtitle"),
            announcement: self.get_setting("announcement"),
            theme,
        }
    }
}


// ---------- categories ----------

/// A category as listed: with the number of products in it.
pub struct Category {
    pub id: i64,
    pub name: String,
    pub sort: i64,
    pub product_count: i64,
}

pub struct CategoryV {
    pub id: i64,
    pub name: Seq<char>,
    pub sort: i64,
    pub product_count: i64,
}

impl View for Category {
    type V = CategoryV;

    open spec fn view(&self) -> CategoryV {
        CategoryV { id: self.id, name: self.name@, sort: self.sort, product_count: self.product_count }
    }
}

/// Number of products in category `cid`.
pub open spec fn count_in_category(ps: Seq<ProductRecordV>, cid: i64) -> nat
    decreases ps.len(),
{
    if ps.len() == 0 {
        0
    } else {
        count_in_category(ps.drop_last(), cid) + if ps.last().product.category_id == cid {
            1nat
        } else {
            0nat
        }
    }
}

/// Listing order of categories: larger `sort` first, then smaller id.
pub open spec fn cat_before(a: CategoryV, b: CategoryV) -> bool {
    a.sort > b.sort || (a.sort == b.sort && a.id < b.id)
}

/// How category row `c` is listed.
pub open spec fn category_view(s: StoreV, c: CategoryRowV) -> CategoryV {
    CategoryV {
        id: c.id,
        name: c.name,
        sort: c.sort,
        product_count: count_in_category(s.products, c.id) as i64,
    }
}

/// `r` lists the categories of `s` in listing order: as many entries as
/// categories, each one the listing of some category, strictly ordered
/// (category ids are unique, so this is exactly one sequence).
pub open spec fn lists_categories(s: StoreV, r: Seq<CategoryV>) -> bool {
    &&& r.len() == s.categories.len()
    &&& forall|i: int, j: int| 0 <= i < j < r.len() ==> cat_before(r[i], r[j])
    &&& drawn_from(r, s.categories.map_values(|c: CategoryRowV| category_view(s, c)))
}

pub proof fn lemma_count_in_category_step(ps: Seq<ProductRecordV>, cid: i64, j: int)
    requires
        0 <= j < ps.len(),
    ensures
        count_in_category(ps.take(j + 1), cid) == count_in_category(ps.take(j), cid) + if ps[j].product.category_id == cid {
            1nat
        } else {
            0nat
        },
{
    assert(ps.take(j + 1).drop_last() =~= ps.take(j));
    assert(ps.take(j + 1).last() == ps[j]);
}

pub proof fn lemma_count_in_category_le(ps: Seq<ProductRecordV>, cid: i64)
    ensures
        count_in_category(ps, cid) <= ps.len(),
    decreases ps.len(),
{
    if ps.len() > 0 {
        lemma_count_in_category_le(ps.drop_last(), cid);
    }
}

/// Strictly increasing ids between 1 and `seq` are at most `seq` many.
pub proof fn lemma_ids_len(ids: Seq<i64>, seq: i64)
    requires
        seq >= 0,
        forall|i: int, j: int| 0 <= i < j < ids.len() ==> ids[i] < ids[j],
        forall|i: int| 0 <= i < ids.len() ==> 1 <= #[trigger] ids[i] <= seq,
    ensures
        ids.len() <= seq,
{
    if ids.len() > 0 {
        assert forall|i: int| 0 <= i < ids.len() implies ids[i] >= i + 1 by {
            lemma_ids_grow(ids, i);
        }
        assert(ids[ids.len() - 1] >= ids.len());
        assert(ids[ids.len() - 1] <= seq);
    }
}

proof fn lemma_ids_grow(ids: Seq<i64>, i: int)
    requires
        forall|a: int, b: int| 0 <= a < b < ids.len() ==> ids[a] < ids[b],
        forall|a: int| 0 <= a < ids.len() ==> 1 <= #[trigger] ids[a],
        0 <= i < ids.len(),
    ensures
        ids[i] >= i + 1,
    decreases i,
{
    if i > 0 {
        lemma_ids_grow(ids, i - 1);
    }
}

pub proof fn lemma_products_len(s: StoreV)
    requires
        s.wf(),
    ensures
        s.products.len() <= s.product_seq,
{
    let ids = s.products.map_values(|p: ProductRecordV| p.product.id);
    assert forall|i: int| 0 <= i < ids.len() implies 1 <= #[trigger] ids[i] <= s.product_seq by {
        assert(1 <= s.products[i].product.id <= s.product_seq);
    }
    lemma_ids_len(ids, s.product_seq);
}

pub proof fn lemma_cards_len(s: StoreV)
    requires
        s.wf(),
    ensures
        s.cards.len() <= s.card_seq,
{
    let ids = s.cards.map_values(|c: CardV| c.id);
    assert forall|i: int| 0 <= i < ids.len() implies 1 <= #[trigger] ids[i] <= s.card_seq by {
        assert(1 <= s.cards[i].id <= s.card_seq);
    }
    lemma_ids_len(ids, s.card_seq);
}

pub proof fn lemma_orders_len(s: StoreV)
    requires
        s.wf(),
    ensures
        s.orders.len() <= s.order_seq,
{
    let ids = s.orders.map_values(|o: crate::models::OrderV| o.id);
    assert forall|i: int| 0 <= i < ids.len() implies 1 <= #[trigger] ids[i] <= s.order_seq by {
        assert(1 <= s.orders[i].id <= s.order_seq);
    }
    lemma_ids_len(ids, s.order_seq);
}

/// Inserting `x` into a list ordered by `cat_before` at the first place
/// where it goes before the element there keeps the list ordered.
pub fn insert_category(out: &mut Vec<Category>, x: Category) -> (p: usize)
    requires
        forall|i: int, j: int| 0 <= i < j < old(out)@.len() ==> cat_before(old(out)@[i]@, old(out)@[j]@),
        forall|i: int| 0 <= i < old(out)@.len() ==> old(out)@[i]@.id != x@.id,
    ensures
        forall|i: int, j: int| 0 <= i < j < final(out)@.len() ==> cat_before(final(out)@[i]@, final(out)@[j]@),
        p <= old(out)@.len(),
        final(out)@ == old(out)@.insert(p as int, x),
{
    let mut p: usize = 0;
    while p < out.len() && !(x.sort > out[p].sort || (x.sort == out[p].sort && x.id < out[p].id))
        invariant
            p <= out@.len(),
            forall|i: int| 0 <= i < p ==> !cat_before(x@, out@[i]@),
        decreases out@.len() - p,
    {
        p = p + 1;
    }
    let ghost o = out@;
    out.insert(p, x);
    proof {
        assert forall|i: int, j: int| 0 <= i < j < out@.len() implies cat_before(out@[i]@, out@[j]@) by {
            if j < p {
            } else if i < p && j == p {
                assert(!cat_before(x@, o[i]@));
            } else if i < p && j > p {
                assert(!cat_before(x@, o[i]@));
                assert(out@[j] == o[j - 1]);
                if j - 1 > p {
                    assert(cat_before(o[p as int]@, o[j - 1]@));
                }
            } else if i == p {
                assert(out@[j] == o[j - 1]);
                if j - 1 > p {
                    assert(cat_before(o[p as int]@, o[j - 1]@));
                }
            } else {
                assert(out@[i] == o[i - 1]);
                assert(out@[j] == o[j - 1]);
            }
        }
    }
    p
}

/// `x` is an element of `b`.
pub open spec fn occurs_in<A>(x: A, b: Seq<A>) -> bool {
    exists|m: int| 0 <= m < b.len() && b[m] == x
}

/// Every element of `a` occurs in `b`.
pub open spec fn drawn_from<A>(a: Seq<A>, b: Seq<A>) -> bool {
    forall|i: int| 0 <= i < a.len() ==> occurs_in(#[trigger] a[i], b)
}

pub proof fn lemma_insert_drawn<A>(o: Seq<A>, p: int, x: A, b: Seq<A>)
    requires
        0 <= p <= o.len(),
        drawn_from(o, b),
    ensures
        drawn_from(o.insert(p, x), b.push(x)),
{
    let n = o.insert(p, x);
    let c = b.push(x);
    assert forall|i: int| 0 <= i < n.len() implies occurs_in(#[trigger] n[i], c) by {
        if i < p {
            assert(n[i] == o[i]);
            assert(occurs_in(o[i], b));
            let m = choose|m: int| 0 <= m < b.len() && b[m] == o[i];
            assert(c[m] == b[m]);
        } else if i == p {
            assert(n[i] == x);
            assert(c[b.len() as int] == x);
        } else {
            assert(n[i] == o[i - 1]);
            assert(occurs_in(o[i - 1], b));
            let m = choose|m: int| 0 <= m < b.len() && b[m] == o[i - 1];
            assert(c[m] == b[m]);
        }
    }
}

impl Store {
    /// Number of products in category `cid`.
    pub fn count_products_in(&self, cid: i64) -> (n: i64)
        requires
            self@.wf(),
        ensures
            n == count_in_category(self@.products, cid),
    {
        let ghost ps = self@.products;
        proof {
            lemma_products_len(self@);
        }
        let mut n: i64 = 0;
        let mut i: usize = 0;
        while i < self.products.len()
            invariant
                ps == self@.products,
                ps.len() <= i64::MAX,
                i <= ps.len(),
                n == count_in_category(ps.take(i as int), cid),
                n <= i,
            decreases ps.len() - i,
        {
            proof {
                lemma_count_in_category_step(ps, cid, i as int);
            }
            if self.products[i].product.category_id == cid {
                n = n + 1;
            }
            i = i + 1;
        }
        assert(ps.take(ps.len() as int) =~= ps);
        n
    }

    /// All categories with their product counts, larger `sort` first, then
    /// by id.
    pub fn list_categories(&self) -> (r: Vec<Category>)
        requires
            self@.wf(),
        ensures
            lists_categories(self@, r@.map_values(|c: Category| c@)),
    {
        let ghost s = self@;
        let ghost src = s.categories.map_values(|c: CategoryRowV| category_view(s, c));
        let mut out: Vec<Category> = Vec::new();
        let mut k: usize = 0;
        while k < self.categories.len()
            invariant
                s == self@,
                s.wf(),
                src == s.categories.map_values(|c: CategoryRowV| category_view(s, c)),
                k <= s.categories.len(),
                out@.len() == k,
                forall|i: int, j: int| 0 <= i < j < out@.len() ==> cat_before(out@[i]@, out@[j]@),
                drawn_from(out@.map_values(|c: Category| c@), src.take(k as int)),
            decreases s.categories.len() - k,
        {
            let c = &self.categories[k];
            let x = Category {
                id: c.id,
                name: c.name.clone(),
                sort: c.sort,
                product_count: self.count_products_in(c.id),
            };
            let ghost o = out@.map_values(|c: Category| c@);
            proof {
                assert(x@ == src[k as int]);
                assert forall|i: int| 0 <= i < out@.len() implies out@[i]@.id != x@.id by {
                    assert(o[i] == out@[i]@);
                    assert(occurs_in(o[i], src.take(k as int)));
                    let m = choose|m: int| 0 <= m < k && src.take(k as int)[m] == o[i];
                    assert(s.categories[m].id < s.categories[k as int].id);
                }
            }
            let p = insert_category(&mut out, x);
            proof {
                assert(out@.map_values(|c: Category| c@) =~= o.insert(p as int, x@));
                assert(src.take(k + 1) =~= src.take(k as int).push(x@));
                lemma_insert_drawn(o, p as int, x@, src.take(k as int));
            }
            k = k + 1;
        }
        proof {
            assert(src.take(k as int) =~= src);
            let r = out@.map_values(|c: Category| c@);
            assert forall|i: int, j: int| 0 <= i < j < r.len() implies cat_before(r[i], r[j]) by {
                assert(r[i] == out@[i]@ && r[j] == out@[j]@);
            }
            assert(r.len() == s.categories.len());
            assert(lists_categories(s, r));
        }
        out
    }

    /// Adds a category.
    pub fn create_category(&mut self, name: &str, sort: i64) -> (r: Result<(), String>)
        requires
            old(self)@.wf(),
        ensures
            final(self)@.wf(),
            old(self)@.category_seq == i64::MAX ==> (final(self)@ == old(self)@ && (r matches Err(m) && m@ == msg_full())),
            old(self)@.category_seq < i64::MAX ==> r is Ok && final(self)@ == (StoreV {
                categories: old(self)@.categories.push(CategoryRowV { id: (old(self)@.category_seq + 1) as i64, name: name@, sort }),
                category_seq: (old(self)@.category_seq + 1) as i64,
                ..old(self)@
            }),
    {
        if self.category_seq == i64::MAX {
            return Err(copy_str("database or disk is full"));
        }
        let ghost s = self@;
        let id = self.category_seq + 1;
        self.categories.push(CategoryRow { id, name: copy_str(name), sort });
        self.category_seq = id;
        proof {
            let cs = self@.categories;
            assert(cs =~= s.categories.push(CategoryRowV { id, name: name@, sort }));
            assert forall|i: int, j: int| 0 <= i < j < cs.len() implies cs[i].id < cs[j].id by {
                if j == cs.len() - 1 {
                    assert(s.categories[i].id <= s.category_seq);
                }
            }
            assert forall|i: int| 0 <= i < cs.len() implies 1 <= #[trigger] cs[i].id <= id by {
                if i < cs.len() - 1 {
                    assert(s.categories[i].id <= s.category_seq);
                }
            }
        }
        Ok(())
    }

    /// Renames and re-sorts category `id` (nothing happens when there is none).
    pub fn update_category(&mut self, id: i64, name: &str, sort: i64)
        requires
            old(self)@.wf(),
        ensures
            final(self)@.wf(),
            final(self)@ == (StoreV {
                categories: Seq::new(old(self)@.categories.len(), |i: int|
                    if old(self)@.categories[i].id == id {
                        CategoryRowV { id, name: name@, sort }
                    } else {
                        old(self)@.categories[i]
                    }),
                ..old(self)@
            }),
    {
        let ghost s = self@;
        let ghost want = Seq::new(s.categories.len(), |i: int|
            if s.categories[i].id == id {
                CategoryRowV { id, name: name@, sort }
            } else {
                s.categories[i]
            });
        let mut out: Vec<CategoryRow> = Vec::new();
        let mut i: usize = 0;
        while i < self.categories.len()
            invariant
                s == self@,
                want.len() == s.categories.len(),
                want == Seq::new(s.categories.len(), |i: int|
                    if s.categories[i].id == id {
                        CategoryRowV { id, name: name@, sort }
                    } else {
                        s.categories[i]
                    }),
                i <= s.categories.len(),
                out@.len() == i,
                forall|j: int| 0 <= j < i ==> (#[trigger] out@[j])@ == want[j],
            decreases s.categories.len() - i,
        {
            let c = &self.categories[i];
            if c.id == id {
                out.push(CategoryRow { id, name: copy_str(name), sort });
            } else {
                out.push(CategoryRow { id: c.id, name: c.name.clone(), sort: c.sort });
            }
            i = i + 1;
        }
        self.categories = out;
        proof {
            assert(self@.categories =~= want);
            assert(self@ =~= (StoreV { categories: want, ..s }));
        }
    }
}


// ---------- products ----------

/// A product as listed: with its stock, sales, category name and price text.
pub struct ProductView {
    pub p: Product,
    pub stock: i64,
    pub sold: i64,
    pub category_name: String,
    pub price_str: String,
}

pub struct ProductViewV {
    pub p: ProductV,
    pub stock: i64,
    pub sold: i64,
    pub category_name: Seq<char>,
    pub price_str: Seq<char>,
}

impl View for ProductView {
    type V = ProductViewV;

    open spec fn view(&self) -> ProductViewV {
        ProductViewV {
            p: self.p@,
            stock: self.stock,
            sold: self.sold,
            category_name: self.category_name@,
            price_str: self.price_str@,
        }
    }
}

/// A sold card of product `pid`.
pub open spec fn sold_of(c: CardV, pid: i64) -> bool {
    c.product_id == pid && c.status == CARD_SOLD
}

pub open spec fn count_sold(s: Seq<CardV>, pid: i64) -> nat
    decreases s.len(),
{
    if s.len() == 0 {
        0
    } else {
        count_sold(s.drop_last(), pid) + if sold_of(s.last(), pid) {
            1nat
        } else {
            0nat
        }
    }
}

pub open spec fn uncategorized() -> Seq<char> {
    "未分类"@
}

pub open spec fn has_category(cs: Seq<CategoryRowV>, cid: i64) -> bool {
    exists|i: int| 0 <= i < cs.len() && cs[i].id == cid
}

/// Name of category `cid`, or "未分类" when there is no such category.
pub open spec fn category_name(cs: Seq<CategoryRowV>, cid: i64) -> Seq<char> {
    if has_category(cs, cid) {
        cs[choose|i: int| 0 <= i < cs.len() && cs[i].id == cid].name
    } else {
        uncategorized()
    }
}

/// How product `p` is listed.
pub open spec fn product_view(s: StoreV, p: ProductV) -> ProductViewV {
    ProductViewV {
        p,
        stock: count_avail(s.cards, p.id) as i64,
        sold: count_sold(s.cards, p.id) as i64,
        category_name: category_name(s.categories, p.category_id),
        price_str: cents_text(p.price_cents as int),
    }
}

/// Listing order of products: larger `sort` first, then newer (larger id).
pub open spec fn prod_before(a: ProductViewV, b: ProductViewV) -> bool {
    a.p.sort > b.p.sort || (a.p.sort == b.p.sort && a.p.id > b.p.id)
}

/// Which products a listing shows.
pub enum ProductFilter {
    All,
    OnSale,
    OnSaleIn(i64),
    /// On sale with fewer than 10 cards in stock.
    LowStock,
}

pub open spec fn passes(s: StoreV, f: ProductFilter, p: ProductV) -> bool {
    match f {
        ProductFilter::All => true,
        ProductFilter::OnSale => p.status == 1,
        ProductFilter::OnSaleIn(c) => p.status == 1 && p.category_id == c,
        ProductFilter::LowStock => p.status == 1 && count_avail(s.cards, p.id) < 10,
    }
}

pub open spec fn count_passing(s: StoreV, ps: Seq<ProductRecordV>, f: ProductFilter) -> nat
    decreases ps.len(),
{
    if ps.len() == 0 {
        0
    } else {
        count_passing(s, ps.drop_last(), f) + if passes(s, f, ps.last().product) {
            1nat
        } else {
            0nat
        }
    }
}

/// Every product's listing, in table order.
pub open spec fn product_listing(s: StoreV) -> Seq<ProductViewV> {
    s.products.map_values(|p: ProductRecordV| product_view(s, p.product))
}

/// `r` lists the products of `s` that pass `f`, in listing order: as many
/// entries as such products, each the listing of one of them, strictly
/// ordered (product ids are unique, so this is exactly one sequence).
pub open spec fn lists_products(s: StoreV, f: ProductFilter, r: Seq<ProductViewV>) -> bool {
    &&& r.len() == count_passing(s, s.products, f)
    &&& forall|i: int, j: int| 0 <= i < j < r.len() ==> prod_before(r[i], r[j])
    &&& forall|i: int| 0 <= i < r.len() ==> passes(s, f, (#[trigger] r[i]).p)
    &&& drawn_from(r, product_listing(s))
}

pub proof fn lemma_count_sold_step(s: Seq<CardV>, pid: i64, j: int)
    requires
        0 <= j < s.len(),
    ensures
        count_sold(s.take(j + 1), pid) == count_sold(s.take(j), pid) + if sold_of(s[j], pid) {
            1nat
        } else {
            0nat
        },
{
    assert(s.take(j + 1).drop_last() =~= s.take(j));
    assert(s.take(j + 1).last() == s[j]);
}

pub proof fn lemma_count_passing_step(s: StoreV, ps: Seq<ProductRecordV>, f: ProductFilter, j: int)
    requires
        0 <= j < ps.len(),
    ensures
        count_passing(s, ps.take(j + 1), f) == count_passing(s, ps.take(j), f) + if passes(s, f, ps[j].product) {
            1nat
        } else {
            0nat
        },
{
    assert(ps.take(j + 1).drop_last() =~= ps.take(j));
    assert(ps.take(j + 1).last() == ps[j]);
}

pub fn insert_product(out: &mut Vec<ProductView>, x: ProductView) -> (p: usize)
    requires
        forall|i: int, j: int| 0 <= i < j < old(out)@.len() ==> prod_before(old(out)@[i]@, old(out)@[j]@),
        forall|i: int| 0 <= i < old(out)@.len() ==> old(out)@[i]@.p.id != x@.p.id,
    ensures
        forall|i: int, j: int| 0 <= i < j < final(out)@.len() ==> prod_before(final(out)@[i]@, final(out)@[j]@),
        p <= old(out)@.len(),
        final(out)@ == old(out)@.insert(p as int, x),
{
    let mut p: usize = 0;
    while p < out.len() && !(x.p.sort > out[p].p.sort || (x.p.sort == out[p].p.sort && x.p.id > out[p].p.id))
        invariant
            p <= out@.len(),
            forall|i: int| 0 <= i < p ==> !prod_before(x@, out@[i]@),
        decreases out@.len() - p,
    {
        p = p + 1;
    }
    let ghost o = out@;
    out.insert(p, x);
    proof {
        assert forall|i: int, j: int| 0 <= i < j < out@.len() implies prod_before(out@[i]@, out@[j]@) by {
            if j < p {
            } else if i < p && j == p {
                assert(!prod_before(x@, o[i]@));
            } else if i < p && j > p {
                assert(!prod_before(x@, o[i]@));
                assert(out@[j] == o[j - 1]);
                if j - 1 > p {
                    assert(prod_before(o[p as int]@, o[j - 1]@));
                }
            } else if i == p {
                assert(out@[j] == o[j - 1]);
                if j - 1 > p {
                    assert(prod_before(o[p as int]@, o[j - 1]@));
                }
            } else {
                assert(out@[i] == o[i - 1]);
                assert(out@[j] == o[j - 1]);
            }
        }
    }
    p
}

impl Store {
    /// Number of sold cards of product `pid`.
    pub fn count_sold_for(&self, pid: i64) -> (n: usize)
        ensures
            n == count_sold(self@.cards, pid),
    {
        let ghost s = self@.cards;
        let mut n: usize = 0;
        let mut i: usize = 0;
        while i < self.cards.len()
            invariant
                s == self@.cards,
                i <= s.len(),
                n == count_sold(s.take(i as int), pid),
                n <= i,
            decreases s.len() - i,
        {
            proof {
                lemma_count_sold_step(s, pid, i as int);
            }
            let c = &self.cards[i];
            assert(s[i as int] == c@);
            if c.product_id == pid && c.status == CARD_SOLD {
                n = n + 1;
            }
            i = i + 1;
        }
        assert(s.take(s.len() as int) =~= s);
        n
    }

    /// Name of category `cid`, or "未分类".
    pub fn category_name_of(&self, cid: i64) -> (r: String)
        requires
            self@.wf(),
        ensures
            r@ == category_name(self@.categories, cid),
    {
        let mut i: usize = 0;
        while i < self.categories.len()
            invariant
                self@.wf(),
                i <= self@.categories.len(),
                forall|j: int| 0 <= j < i ==> self@.categories[j].id != cid,
            decreases self@.categories.len() - i,
        {
            if self.categories[i].id == cid {
                proof {
                    let cs = self@.categories;
                    assert(cs[i as int].id == cid);
                    let k = choose|k: int| 0 <= k < cs.len() && cs[k].id == cid;
                    if k != i {
                        if k < i {
                            assert(cs[k].id < cs[i as int].id);
                        } else {
                            assert(cs[i as int].id < cs[k].id);
                        }
                    }
                }
                return self.categories[i].name.clone();
            }
            i = i + 1;
        }
        copy_str("未分类")
    }

    /// The listing of product `p`.
    pub fn view_product(&self, p: &Product) -> (r: ProductView)
        requires
            self@.wf(),
        ensures
            r@ == product_view(self@, p@),
    {
        proof {
            lemma_cards_len(self@);
            crate::models::lemma_count_avail_le(self@.cards, p.id);
            lemma_count_sold_le(self@.cards, p.id);
        }
        let stock = self.count_avail_for(p.id);
        let sold = self.count_sold_for(p.id);
        ProductView {
            p: p.copy(),
            stock: stock as i64,
            sold: sold as i64,
            category_name: self.category_name_of(p.category_id),
            price_str: cents_str(p.price_cents),
        }
    }

    /// The products that pass `f`, larger `sort` first, then newer first.
    pub fn list_products_where(&self, f: ProductFilter) -> (r: Vec<ProductView>)
        requires
            self@.wf(),
        ensures
            lists_products(self@, f, r@.map_values(|v: ProductView| v@)),
    {
        let ghost s = self@;
        let ghost src = product_listing(s);
        let mut out: Vec<ProductView> = Vec::new();
        let mut k: usize = 0;
        while k < self.products.len()
            invariant
                s == self@,
                s.wf(),
                src == product_listing(s),
                k <= s.products.len(),
                out@.len() == count_passing(s, s.products.take(k as int), f),
                forall|i: int, j: int| 0 <= i < j < out@.len() ==> prod_before(out@[i]@, out@[j]@),
                forall|i: int| 0 <= i < out@.len() ==> passes(s, f, (#[trigger] out@[i])@.p),
                drawn_from(out@.map_values(|v: ProductView| v@), src.take(k as int)),
            decreases s.products.len() - k,
        {
            proof {
                lemma_count_passing_step(s, s.products, f, k as int);
            }
            let pr = &self.products[k];
            let ok = match f {
                ProductFilter::All => true,
                ProductFilter::OnSale => pr.product.status == 1,
                ProductFilter::OnSaleIn(c) => pr.product.status == 1 && pr.product.category_id == c,
                ProductFilter::LowStock => pr.product.status == 1 && self.count_avail_for(pr.product.id) < 10,
            };
            let ghost o = out@.map_values(|v: ProductView| v@);
            proof {
                assert(src.take(k + 1) =~= src.take(k as int).push(src[k as int]));
            }
            if ok {
                let x = self.view_product(&pr.product);
                proof {
                    assert(x@ == src[k as int]);
                    assert forall|i: int| 0 <= i < out@.len() implies out@[i]@.p.id != x@.p.id by {
                        assert(o[i] == out@[i]@);
                        assert(occurs_in(o[i], src.take(k as int)));
                        let m = choose|m: int| 0 <= m < k && src.take(k as int)[m] == o[i];
                        assert(s.products[m].product.id < s.products[k as int].product.id);
                    }
                }
                let ghost oe = out@;
                let p = insert_product(&mut out, x);
                proof {
                    assert(out@.map_values(|v: ProductView| v@) =~= o.insert(p as int, x@));
                    lemma_insert_drawn(o, p as int, x@, src.take(k as int));
                    assert forall|i: int| 0 <= i < out@.len() implies passes(s, f, (#[trigger] out@[i])@.p) by {
                        if i < p {
                            assert(out@[i] == oe[i]);
                        } else if i > p {
                            assert(out@[i] == oe[i - 1]);
                        }
                    }
                }
            } else {
                proof {
                    assert forall|i: int| 0 <= i < o.len() implies occurs_in(#[trigger] o[i], src.take(k + 1)) by {
                        assert(occurs_in(o[i], src.take(k as int)));
                        let m = choose|m: int| 0 <= m < k && src.take(k as int)[m] == o[i];
                        assert(src.take(k + 1)[m] == o[i]);
                    }
                }
            }
            k = k + 1;
        }
        proof {
            assert(src.take(k as int) =~= src);
            assert(s.products.take(k as int) =~= s.products);
            let r = out@.map_values(|v: ProductView| v@);
            assert forall|i: int, j: int| 0 <= i < j < r.len() implies prod_before(r[i], r[j]) by {
                assert(r[i] == out@[i]@ && r[j] == out@[j]@);
            }
            assert forall|i: int| 0 <= i < r.len() implies passes(s, f, (#[trigger] r[i]).p) by {
                assert(r[i] == out@[i]@);
            }
        }
        out
    }
}

pub proof fn lemma_count_sold_le(s: Seq<CardV>, pid: i64)
    ensures
        count_sold(s, pid) <= s.len(),
    decreases s.len(),
{
    if s.len() > 0 {
        lemma_count_sold_le(s.drop_last(), pid);
    }
}


pub open spec fn msg_product_locked() -> Seq<char> {
    "该商品有被订单锁定的卡密，请先处理相关订单"@
}

/// Cards that survive deleting product `id`: all but its cards on sale.
pub open spec fn keeps_card_of_deleted(c: CardV, id: i64) -> bool {
    !(c.product_id == id && c.status == crate::models::CARD_ON_SALE)
}

pub open spec fn has_locked_card(cs: Seq<CardV>, id: i64) -> bool {
    exists|i: int| 0 <= i < cs.len() && cs[i].product_id == id && cs[i].status == CARD_LOCKED
}

pub open spec fn category_count_msg(n: int) -> Seq<char> {
    "该分类下还有 "@ + crate::text::dec(n as nat) + " 个商品，请先移除商品"@
}

impl Store {
    /// Products on sale (optionally only those of category `cat`), larger
    /// `sort` first, then newer first.
    pub fn list_products_public(&self, cat: Option<i64>) -> (r: Vec<ProductView>)
        requires
            self@.wf(),
        ensures
            lists_products(
                self@,
                match cat {
                    Some(c) => ProductFilter::OnSaleIn(c),
                    None => ProductFilter::OnSale,
                },
                r@.map_values(|v: ProductView| v@),
            ),
    {
        match cat {
            Some(c) => self.list_products_where(ProductFilter::OnSaleIn(c)),
            None => self.list_products_where(ProductFilter::OnSale),
        }
    }

    /// All products, larger `sort` first, then newer first.
    pub fn list_products_admin(&self) -> (r: Vec<ProductView>)
        requires
            self@.wf(),
        ensures
            lists_products(self@, ProductFilter::All, r@.map_values(|v: ProductView| v@)),
    {
        self.list_products_where(ProductFilter::All)
    }

    /// The listing of product `id`, if there is one.
    pub fn get_product_view(&self, id: i64) -> (r: Option<ProductView>)
        requires
            self@.wf(),
        ensures
            r is Some <==> crate::models::has_product(self@.products, id),
            r matches Some(v) ==> v@ == product_view(self@, crate::models::product_of(self@.products, id)),
    {
        match self.find_product(id) {
            Some(i) => Some(self.view_product(&self.products[i].product)),
            None => None,
        }
    }

    /// Products on sale with fewer than 10 cards in stock, in listing order.
    pub fn low_stock_products(&self) -> (r: Vec<ProductView>)
        requires
            self@.wf(),
        ensures
            lists_products(self@, ProductFilter::LowStock, r@.map_values(|v: ProductView| v@)),
    {
        self.list_products_where(ProductFilter::LowStock)
    }
}


/// The product row `p` as stored.
pub open spec fn product_row(id: i64, category_id: i64, name: Seq<char>, description: Seq<char>, image: Seq<char>, price_cents: i64, status: i64, sort: i64) -> ProductV {
    ProductV { id, category_id, name, description, image, price_cents, status, sort }
}

pub open spec fn count_on_sale_products(ps: Seq<ProductRecordV>) -> nat
    decreases ps.len(),
{
    if ps.len() == 0 {
        0
    } else {
        count_on_sale_products(ps.drop_last()) + if ps.last().product.status == 1 {
            1nat
        } else {
            0nat
        }
    }
}

pub open spec fn count_sold_all(cs: Seq<CardV>) -> nat
    decreases cs.len(),
{
    if cs.len() == 0 {
        0
    } else {
        count_sold_all(cs.drop_last()) + if cs.last().status == CARD_SOLD {
            1nat
        } else {
            0nat
        }
    }
}

impl Store {
    /// Adds a product, on sale, created now (see `create_product_at`).
    pub fn create_product(
        &mut self,
        category_id: i64,
        name: &str,
        description: &str,
        image: &str,
        price_cents: i64,
        sort: i64,
    ) -> (r: Result<(), String>)
        requires
            old(self)@.wf(),
        ensures
            final(self)@.wf(),
            old(self)@.product_seq == i64::MAX ==> (final(self)@ == old(self)@ && (r matches Err(m) && m@ == msg_full())),
            old(self)@.product_seq < i64::MAX ==> r is Ok && exists|now: Seq<char>| final(self)@ == (StoreV {
                products: #[trigger] old(self)@.products.push(ProductRecordV {
                    product: product_row((old(self)@.product_seq + 1) as i64, category_id, name@, description@, image@, price_cents, 1, sort),
                    created_at: now,
                }),
                product_seq: (old(self)@.product_seq + 1) as i64,
                ..old(self)@
            }),
    {
        let now = crate::util::now_str();
        self.create_product_at(category_id, name, description, image, price_cents, sort, now.as_str())
    }

    /// Adds a product, on sale, created at `now`.
    pub fn create_product_at(
        &mut self,
        category_id: i64,
        name: &str,
        description: &str,
        image: &str,
        price_cents: i64,
        sort: i64,
        now: &str,
    ) -> (r: Result<(), String>)
        requires
            old(self)@.wf(),
        ensures
            final(self)@.wf(),
            old(self)@.product_seq == i64::MAX ==> (final(self)@ == old(self)@ && (r matches Err(m) && m@ == msg_full())),
            old(self)@.product_seq < i64::MAX ==> r is Ok && final(self)@ == (StoreV {
                products: old(self)@.products.push(ProductRecordV {
                    product: product_row((old(self)@.product_seq + 1) as i64, category_id, name@, description@, image@, price_cents, 1, sort),
                    created_at: now@,
                }),
                product_seq: (old(self)@.product_seq + 1) as i64,
                ..old(self)@
            }),
    {
        if self.product_seq == i64::MAX {
            return Err(copy_str("database or disk is full"));
        }
        let ghost s = self@;
        let id = self.product_seq + 1;
        self.products.push(ProductRecord {
            product: Product {
                id,
                category_id,
                name: copy_str(name),
                description: copy_str(description),
                image: copy_str(image),
                price_cents,
                status: 1,
                sort,
            },
            created_at: copy_str(now),
        });
        self.product_seq = id;
        proof {
            let ps = self@.products;
            assert(ps =~= s.products.push(ProductRecordV {
                product: product_row(id, category_id, name@, description@, image@, price_cents, 1, sort),
                created_at: now@,
            }));
            assert forall|i: int, j: int| 0 <= i < j < ps.len() implies ps[i].product.id < ps[j].product.id by {
                if j == ps.len() - 1 {
                    assert(s.products[i].product.id <= s.product_seq);
                }
            }
            assert forall|i: int| 0 <= i < ps.len() implies 1 <= #[trigger] ps[i].product.id <= id by {
                if i < ps.len() - 1 {
                    assert(s.products[i].product.id <= s.product_seq);
                }
            }
        }
        Ok(())
    }

    /// Rewrites the editable fields of product `id` (status and creation
    /// time are kept; nothing happens when there is no such product).
    pub fn update_product(
        &mut self,
        id: i64,
        category_id: i64,
        name: &str,
        description: &str,
        image: &str,
        price_cents: i64,
        sort: i64,
    )
        requires
            old(self)@.wf(),
        ensures
            final(self)@.wf(),
            final(self)@ == (StoreV {
                products: Seq::new(old(self)@.products.len(), |i: int|
                    if old(self)@.products[i].product.id == id {
                        ProductRecordV {
                            product: product_row(id, category_id, name@, description@, image@, price_cents, old(self)@.products[i].product.status, sort),
                            ..old(self)@.products[i]
                        }
                    } else {
                        old(self)@.products[i]
                    }),
                ..old(self)@
            }),
    {
        let ghost s = self@;
        let ghost want = Seq::new(s.products.len(), |i: int|
            if s.products[i].product.id == id {
                ProductRecordV {
                    product: product_row(id, category_id, name@, description@, image@, price_cents, s.products[i].product.status, sort),
                    ..s.products[i]
                }
            } else {
                s.products[i]
            });
        let mut out: Vec<ProductRecord> = Vec::new();
        let mut i: usize = 0;
        while i < self.products.len()
            invariant
                s == self@,
                want.len() == s.products.len(),
                want == Seq::new(s.products.len(), |i: int|
                    if s.products[i].product.id == id {
                        ProductRecordV {
                            product: product_row(id, category_id, name@, description@, image@, price_cents, s.products[i].product.status, sort),
                            ..s.products[i]
                        }
                    } else {
                        s.products[i]
                    }),
                i <= s.products.len(),
                out@.len() == i,
                forall|j: int| 0 <= j < i ==> (#[trigger] out@[j])@ == want[j],
            decreases s.products.len() - i,
        {
            let r = &self.products[i];
            if r.product.id == id {
                out.push(ProductRecord {
                    product: Product {
                        id,
                        category_id,
                        name: copy_str(name),
                        description: copy_str(description),
                        image: copy_str(image),
                        price_cents,
                        status: r.product.status,
                        sort,
                    },
                    created_at: r.created_at.clone(),
                });
            } else {
                out.push(ProductRecord { product: r.product.copy(), created_at: r.created_at.clone() });
            }
            i = i + 1;
        }
        self.products = out;
        proof {
            assert(self@.products =~= want);
            assert(self@ =~= (StoreV { products: want, ..s }));
        }
    }

    /// The picture of product `id`, or the empty string.
    pub fn product_image(&self, id: i64) -> (r: String)
        requires
            self@.wf(),
        ensures
            r@ == if crate::models::has_product(self@.products, id) {
                crate::models::product_of(self@.products, id).image
            } else {
                Seq::empty()
            },
    {
        match self.find_product(id) {
            Some(i) => self.products[i].product.image.clone(),
            None => String::new(),
        }
    }

    /// Switches product `id` between on sale (1) and off the shelf
    /// (`status = 1 - status`).
    pub fn toggle_product(&mut self, id: i64)
        requires
            old(self)@.wf(),
            forall|i: int| 0 <= i < old(self)@.products.len() && old(self)@.products[i].product.id == id
                ==> old(self)@.products[i].product.status > i64::MIN + 1,
        ensures
            final(self)@.wf(),
            final(self)@ == (StoreV {
                products: Seq::new(old(self)@.products.len(), |i: int|
                    if old(self)@.products[i].product.id == id {
                        ProductRecordV {
                            product: ProductV { status: (1 - old(self)@.products[i].product.status) as i64, ..old(self)@.products[i].product },
                            ..old(self)@.products[i]
                        }
                    } else {
                        old(self)@.products[i]
                    }),
                ..old(self)@
            }),
    {
        let ghost s = self@;
        let ghost want = Seq::new(s.products.len(), |i: int|
            if s.products[i].product.id == id {
                ProductRecordV {
                    product: ProductV { status: (1 - s.products[i].product.status) as i64, ..s.products[i].product },
                    ..s.products[i]
                }
            } else {
                s.products[i]
            });
        let mut out: Vec<ProductRecord> = Vec::new();
        let mut i: usize = 0;
        while i < self.products.len()
            invariant
                s == self@,
                want.len() == s.products.len(),
                want == Seq::new(s.products.len(), |i: int|
                    if s.products[i].product.id == id {
                        ProductRecordV {
                            product: ProductV { status: (1 - s.products[i].product.status) as i64, ..s.products[i].product },
                            ..s.products[i]
                        }
                    } else {
                        s.products[i]
                    }),
                forall|i: int| 0 <= i < s.products.len() && s.products[i].product.id == id
                    ==> s.products[i].product.status > i64::MIN + 1,
                i <= s.products.len(),
                out@.len() == i,
                forall|j: int| 0 <= j < i ==> (#[trigger] out@[j])@ == want[j],
            decreases s.products.len() - i,
        {
            let r = &self.products[i];
            assert(s.products[i as int] == r@);
            let mut p = r.product.copy();
            if p.id == id {
                p.status = 1 - p.status;
            }
            out.push(ProductRecord { product: p, created_at: r.created_at.clone() });
            i = i + 1;
        }
        self.products = out;
        proof {
            assert(self@.products =~= want);
            assert(self@ =~= (StoreV { products: want, ..s }));
        }
    }

    /// On-sale products and sold cards, for the front page.
    pub fn public_stats(&self) -> (r: (i64, i64))
        requires
            self@.wf(),
        ensures
            r.0 == count_on_sale_products(self@.products),
            r.1 == count_sold_all(self@.cards),
    {
        let ghost s = self@;
        proof {
            lemma_products_len(s);
            lemma_cards_len(s);
        }
        let mut a: i64 = 0;
        let mut i: usize = 0;
        while i < self.products.len()
            invariant
                s == self@,
                s.products.len() <= i64::MAX,
                i <= s.products.len(),
                a == count_on_sale_products(s.products.take(i as int)),
                a <= i,
            decreases s.products.len() - i,
        {
            proof {
                assert(s.products.take(i + 1).drop_last() =~= s.products.take(i as int));
            }
            if self.products[i].product.status == 1 {
                a = a + 1;
            }
            i = i + 1;
        }
        let mut b: i64 = 0;
        let mut k: usize = 0;
        while k < self.cards.len()
            invariant
                s == self@,
                s.cards.len() <= i64::MAX,
                k <= s.cards.len(),
                b == count_sold_all(s.cards.take(k as int)),
                b <= k,
            decreases s.cards.len() - k,
        {
            proof {
                assert(s.cards.take(k + 1).drop_last() =~= s.cards.take(k as int));
            }
            if self.cards[k].status == CARD_SOLD {
                b = b + 1;
            }
            k = k + 1;
        }
        assert(s.products.take(s.products.len() as int) =~= s.products);
        assert(s.cards.take(s.cards.len() as int) =~= s.cards);
        (a, b)
    }

    /// Whether some card of product `id` is locked by an order.
    pub fn product_has_locked_card(&self, id: i64) -> (b: bool)
        ensures
            b == has_locked_card(self@.cards, id),
    {
        let mut i: usize = 0;
        while i < self.cards.len()
            invariant
                i <= self@.cards.len(),
                forall|j: int| 0 <= j < i ==> !(self@.cards[j].product_id == id && self@.cards[j].status == CARD_LOCKED),
            decreases self@.cards.len() - i,
        {
            if self.cards[i].product_id == id && self.cards[i].status == CARD_LOCKED {
                assert(self@.cards[i as int].product_id == id);
                return true;
            }
            i = i + 1;
        }
        false
    }

    /// Deletes product `id` together with its cards on sale; its sold
    /// cards stay for the order history.  Refused while an order holds one
    /// of its cards locked.
    pub fn delete_product(&mut self, id: i64) -> (r: Result<(), String>)
        requires
            old(self)@.wf(),
        ensures
            final(self)@.wf(),
            has_locked_card(old(self)@.cards, id) ==> final(self)@ == old(self)@ && (r matches Err(m) && m@ == msg_product_locked()),
            !has_locked_card(old(self)@.cards, id) ==> r is Ok && final(self)@ == (StoreV {
                cards: old(self)@.cards.filter(|c: CardV| keeps_card_of_deleted(c, id)),
                products: old(self)@.products.filter(|p: ProductRecordV| p.product.id != id),
                ..old(self)@
            }),
    {
        if self.product_has_locked_card(id) {
            return Err(copy_str("该商品有被订单锁定的卡密，请先处理相关订单"));
        }
        let ghost s = self@;
        let ghost kp = |c: CardV| keeps_card_of_deleted(c, id);
        let ghost pp = |p: ProductRecordV| p.product.id != id;
        let mut cards: Vec<Card> = Vec::new();
        let mut i: usize = 0;
        while i < self.cards.len()
            invariant
                s == self@,
                kp == (|c: CardV| keeps_card_of_deleted(c, id)),
                i <= s.cards.len(),
                cards@.map_values(|c: Card| c@) == s.cards.take(i as int).filter(kp),
            decreases s.cards.len() - i,
        {
            let c = &self.cards[i];
            proof {
                assert(s.cards.take(i + 1).drop_last() =~= s.cards.take(i as int));
                assert(s.cards.take(i + 1).last() == c@);
                assert(s.cards.take(i + 1).filter(kp) == if kp(c@) {
                    s.cards.take(i as int).filter(kp).push(c@)
                } else {
                    s.cards.take(i as int).filter(kp)
                }) by {
                    reveal(Seq::filter);
                }
            }
            if !(c.product_id == id && c.status == crate::models::CARD_ON_SALE) {
                cards.push(c.copy());
                assert(cards@.map_values(|c: Card| c@) =~= s.cards.take(i as int).filter(kp).push(c@));
            }
            i = i + 1;
        }
        let mut prods: Vec<ProductRecord> = Vec::new();
        let mut k: usize = 0;
        while k < self.products.len()
            invariant
                s == self@,
                pp == (|p: ProductRecordV| p.product.id != id),
                k <= s.products.len(),
                prods@.map_values(|p: ProductRecord| p@) == s.products.take(k as int).filter(pp),
            decreases s.products.len() - k,
        {
            let r = &self.products[k];
            proof {
                assert(s.products.take(k + 1).drop_last() =~= s.products.take(k as int));
                assert(s.products.take(k + 1).last() == r@);
                assert(s.products.take(k + 1).filter(pp) == if pp(r@) {
                    s.products.take(k as int).filter(pp).push(r@)
                } else {
                    s.products.take(k as int).filter(pp)
                }) by {
                    reveal(Seq::filter);
                }
            }
            if r.product.id != id {
                prods.push(ProductRecord { product: r.product.copy(), created_at: r.created_at.clone() });
                assert(prods@.map_values(|p: ProductRecord| p@) =~= s.products.take(k as int).filter(pp).push(r@));
            }
            k = k + 1;
        }
        self.cards = cards;
        self.products = prods;
        proof {
            assert(s.cards.take(s.cards.len() as int) =~= s.cards);
            assert(s.products.take(s.products.len() as int) =~= s.products);
            assert(self@.cards =~= s.cards.filter(kp));
            assert(self@.products =~= s.products.filter(pp));
            lemma_filter_sub(s.cards, kp);
            lemma_filter_sub(s.products, pp);
            lemma_cards_wf_sub(s.cards, self@.cards, s.card_seq, s.order_seq);
            lemma_products_wf_sub(s.products, self@.products, s.product_seq);
        }
        Ok(())
    }
}

/// The elements of `a` appear in `b` in the same order (as those of a
/// filtered sequence do in the unfiltered one): an increasing map of positions.
pub open spec fn embeds<A>(a: Seq<A>, b: Seq<A>, f: Seq<int>) -> bool {
    &&& f.len() == a.len()
    &&& forall|i: int| 0 <= i < a.len() ==> 0 <= #[trigger] f[i] < b.len() && a[i] == b[f[i]]
    &&& forall|i: int, j: int| 0 <= i < j < a.len() ==> f[i] < f[j]
}

pub proof fn lemma_filter_sub<A>(b: Seq<A>, pred: spec_fn(A) -> bool)
    ensures
        exists|f: Seq<int>| embeds(b.filter(pred), b, f),
    decreases b.len(),
{
    reveal(Seq::filter);
    if b.len() == 0 {
        assert(embeds(b.filter(pred), b, Seq::empty()));
    } else {
        lemma_filter_sub(b.drop_last(), pred);
        let g = choose|g: Seq<int>| embeds(b.drop_last().filter(pred), b.drop_last(), g);
        let sub = b.drop_last().filter(pred);
        if pred(b.last()) {
            let f = g.push(b.len() - 1);
            assert forall|i: int| 0 <= i < b.filter(pred).len() implies 0 <= #[trigger] f[i] < b.len() && b.filter(pred)[i] == b[f[i]] by {
                if i < sub.len() {
                    assert(b.filter(pred)[i] == sub[i]);
                    assert(sub[i] == b.drop_last()[g[i]]);
                }
            }
            assert(embeds(b.filter(pred), b, f));
        } else {
            assert forall|i: int| 0 <= i < b.filter(pred).len() implies 0 <= #[trigger] g[i] < b.len() && b.filter(pred)[i] == b[g[i]] by {
                assert(sub[i] == b.drop_last()[g[i]]);
            }
            assert(embeds(b.filter(pred), b, g));
        }
    }
}

pub proof fn lemma_cards_wf_sub(a: Seq<CardV>, b: Seq<CardV>, seq: i64, order_seq: i64)
    requires
        crate::models::cards_wf(a, seq),
        crate::models::card_orders_wf(a, order_seq),
        exists|f: Seq<int>| embeds(b, a, f),
    ensures
        crate::models::cards_wf(b, seq),
        crate::models::card_orders_wf(b, order_seq),
{
    let f = choose|f: Seq<int>| embeds(b, a, f);
    assert forall|i: int, j: int| 0 <= i < j < b.len() implies b[i].id < b[j].id by {
        assert(a[f[i]].id < a[f[j]].id);
    }
    assert forall|i: int, j: int| 0 <= i < j < b.len() implies !(b[i].product_id == b[j].product_id && b[i].code == b[j].code) by {
        assert(!(a[f[i]].product_id == a[f[j]].product_id && a[f[i]].code == a[f[j]].code));
    }
    assert forall|i: int| 0 <= i < b.len() implies 1 <= #[trigger] b[i].id <= seq by {
        assert(b[i] == a[f[i]]);
    }
    assert forall|i: int| 0 <= i < b.len() implies {
        let c = #[trigger] b[i];
        (c.status == crate::models::CARD_ON_SALE && c.order_id is None) || ((c.status == CARD_SOLD
            || c.status == CARD_LOCKED) && c.order_id is Some)
    } by {
        assert(b[i] == a[f[i]]);
    }
    assert forall|i: int| 0 <= i < b.len() implies ((#[trigger] b[i]).order_id matches Some(x) ==> 1 <= x <= order_seq) by {
        assert(b[i] == a[f[i]]);
    }
}

pub proof fn lemma_products_wf_sub(a: Seq<ProductRecordV>, b: Seq<ProductRecordV>, seq: i64)
    requires
        products_wf(a, seq),
        exists|f: Seq<int>| embeds(b, a, f),
    ensures
        products_wf(b, seq),
{
    let f = choose|f: Seq<int>| embeds(b, a, f);
    assert forall|i: int, j: int| 0 <= i < j < b.len() implies b[i].product.id < b[j].product.id by {
        assert(a[f[i]].product.id < a[f[j]].product.id);
    }
    assert forall|i: int| 0 <= i < b.len() implies 1 <= #[trigger] b[i].product.id <= seq by {
        assert(b[i] == a[f[i]]);
    }
}


impl Store {
    /// Deletes category `id`; refused while products remain in it.
    pub fn delete_category(&mut self, id: i64) -> (r: Result<(), String>)
        requires
            old(self)@.wf(),
        ensures
            final(self)@.wf(),
            count_in_category(old(self)@.products, id) > 0 ==> final(self)@ == old(self)@
                && (r matches Err(m) && m@ == category_count_msg(count_in_category(old(self)@.products, id) as int)),
            count_in_category(old(self)@.products, id) == 0 ==> r is Ok && final(self)@ == (StoreV {
                categories: old(self)@.categories.filter(|c: CategoryRowV| c.id != id),
                ..old(self)@
            }),
    {
        let cnt = self.count_products_in(id);
        if cnt > 0 {
            let mut v: Vec<char> = Vec::new();
            crate::text::push_str(&mut v, "该分类下还有 ");
            let d = crate::text::dec_chars(cnt as u64);
            crate::text::push_all(&mut v, d.as_slice());
            crate::text::push_str(&mut v, " 个商品，请先移除商品");
            assert(v@ =~= category_count_msg(cnt as int));
            return Err(crate::text::string_of(v.as_slice()));
        }
        let ghost s = self@;
        let ghost cp = |c: CategoryRowV| c.id != id;
        let mut out: Vec<CategoryRow> = Vec::new();
        let mut k: usize = 0;
        while k < self.categories.len()
            invariant
                s == self@,
                cp == (|c: CategoryRowV| c.id != id),
                k <= s.categories.len(),
                out@.map_values(|c: CategoryRow| c@) == s.categories.take(k as int).filter(cp),
            decreases s.categories.len() - k,
        {
            let c = &self.categories[k];
            proof {
                assert(s.categories.take(k + 1).drop_last() =~= s.categories.take(k as int));
                assert(s.categories.take(k + 1).last() == c@);
                assert(s.categories.take(k + 1).filter(cp) == if cp(c@) {
                    s.categories.take(k as int).filter(cp).push(c@)
                } else {
                    s.categories.take(k as int).filter(cp)
                }) by {
                    reveal(Seq::filter);
                }
            }
            if c.id != id {
                out.push(CategoryRow { id: c.id, name: c.name.clone(), sort: c.sort });
                assert(out@.map_values(|c: CategoryRow| c@) =~= s.categories.take(k as int).filter(cp).push(c@));
            }
            k = k + 1;
        }
        self.categories = out;
        proof {
            assert(s.categories.take(s.categories.len() as int) =~= s.categories);
            assert(self@.categories =~= s.categories.filter(cp));
            lemma_filter_sub(s.categories, cp);
            let b = self@.categories;
            let a = s.categories;
            let f = choose|f: Seq<int>| embeds(b, a, f);
            assert forall|i: int, j: int| 0 <= i < j < b.len() implies b[i].id < b[j].id by {
                assert(a[f[i]].id < a[f[j]].id);
            }
            assert forall|i: int| 0 <= i < b.len() implies 1 <= #[trigger] b[i].id <= s.category_seq by {
                assert(b[i] == a[f[i]]);
            }
        }
        Ok(())
    }
}

} // verus!
