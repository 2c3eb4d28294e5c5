//! What the pages and endpoints decide: the forms and queries as they
//! arrive, and the outcome of each request on the shop's state.  Reading
//! requests and writing responses is left to the application.

use vstd::prelude::*;
use crate::text::{trim, trim_str, copy_str, str_eq, dec, dec_chars, push_str, push_all, string_of, strip_end, strip_end_str, split_on};
use crate::money::{yuan_to_cents, yuan_cents};
use crate::models::{Store, StoreV, Order, OrderV, CategoryRowV, msg_full};
use crate::auth::{AdminUser, has_admin_named, admin_named, bcrypt_verdict, session_admin, cookie_find, get_cookie, SESSION_COOKIE, msg_dup_token, sessions_after_open};
use crate::guard::{LoginGuard, EntryV, guard_wf, locked_outcome, record_outcome, cleared};
use crate::catalog::settings_put;
use crate::cards::{CardView, cards_desc, limit, CARD_LIST_LIMIT, import_fold, codes_of, split_lines, keeps_after_unsold_delete};
use crate::models::count_avail;
use crate::orders::{orders_desc, ORDER_LIST_LIMIT, view_link_text};
use crate::models::{ProductRecordV, expired, create_outcome, order_priced, total_fits, has_order_no, deliver_view, deliver_status, msg_no_order, CardV, ORDER_TTL_MIN};
use crate::payment::{Params, PayChannel, pay_config, pay_cfg_view, epay_usable, channel_list, checkout_fields, pairs_view, param_get, notify_verdict, sign_text, verify_epay_notify};
use crate::mailer::{order_by_no, sold_codes};
use crate::catalog::{ProductView, product_view};
use crate::util::{enc, url_encoded, mask_contact, masked_contact};
use crate::text::{int_chars, dec_int, str_cat};

verus! {

// ---------- login ----------

/// The login form.
pub struct LoginForm {
    pub username: String,
    pub password: String,
}

/// The session token a `Cookie` header carries, if any.
pub open spec fn cookie_token(cookie: Option<Seq<char>>) -> Option<Seq<char>> {
    match cookie {
        Some(raw) => cookie_find(split_on(raw, ';'), SESSION_COOKIE@),
        None => None,
    }
}

/// What a login attempt comes to.
pub enum LoginOutcome {
    /// The address is locked out for this many more minutes.
    Locked(u64),
    /// Wrong user name or password; the failure is counted.
    Refused,
    /// Logged in as this administrator, with the new session's token.
    LoggedIn(AdminUser, String),
    /// The session could not be opened; the message says why.
    Failed(String),
}

/// The user name (trimmed) and the password match an administrator.
pub open spec fn login_ok(s: StoreV, user: Seq<char>, pw: Seq<char>) -> bool {
    has_admin_named(s.admins, trim(user)) && bcrypt_verdict(pw, admin_named(s.admins, trim(user)).password_hash)
        == Some(true)
}

/// Some session already has token `t`.
pub open spec fn token_taken(ss: Seq<crate::models::SessionV>, t: Seq<char>) -> bool {
    exists|k: int| 0 <= k < ss.len() && ss[k].token == t
}

/// A login attempt from `ip` with `user` and `pw` at `secs` seconds takes
/// shop `s` and failure table `g` to `s2` and `g2` with outcome `r`: while
/// the address is locked out nothing else happens; a wrong user name or
/// password is recorded as a failure; a right one clears the failures and
/// opens a session (unless the token is taken).
pub open spec fn login_step(
    s: StoreV,
    g: Seq<EntryV>,
    ip: Seq<char>,
    user: Seq<char>,
    pw: Seq<char>,
    secs: u64,
    token: Seq<char>,
    expires: Seq<char>,
    now: Seq<char>,
    s2: StoreV,
    g2: Seq<EntryV>,
    r: LoginOutcome,
) -> bool {
    let g1 = locked_outcome(g, ip, secs).0;
    match locked_outcome(g, ip, secs).1 {
        Some(m) => s2 == s && g2 == g1 && (r matches LoginOutcome::Locked(x) && x == m),
        None => if !login_ok(s, user, pw) {
            s2 == s && g2 == record_outcome(g1, ip, secs) && r is Refused
        } else {
            let a = admin_named(s.admins, trim(user));
            &&& g2 == cleared(g1, ip)
            &&& if token_taken(s.sessions, token) {
                s2 == s && (r matches LoginOutcome::Failed(e) && e@ == msg_dup_token())
            } else {
                &&& s2 == (StoreV { sessions: sessions_after_open(s.sessions, token, a.id, expires, now), ..s })
                &&& r matches LoginOutcome::LoggedIn(u, t) && u.id == a.id && u.username@ == trim(user) && t@ == token
            }
        },
    }
}

/// The notice of a login refused while the address is locked out.
pub open spec fn locked_notice(minutes: nat) -> Seq<char> {
    "登录失败次数过多，请 "@ + dec(minutes) + " 分钟后再试"@
}

/// The notice of a wrong user name or password.
pub open spec fn refused_notice() -> Seq<char> {
    "账号或密码不正确"@
}

impl LoginOutcome {
    /// The notice to show on the login page; none after a login.
    pub fn notice(&self) -> (r: Option<String>)
        ensures
            match self {
                LoginOutcome::Locked(m) => r matches Some(t) && t@ == locked_notice(*m as nat),
                LoginOutcome::Refused => r matches Some(t) && t@ == refused_notice(),
                LoginOutcome::Failed(e) => r matches Some(t) && t@ == e@,
                LoginOutcome::LoggedIn(_, _) => r is None,
            },
    {
        match self {
            LoginOutcome::Locked(m) => {
                let mut v: Vec<char> = Vec::new();
                push_str(&mut v, "登录失败次数过多，请 ");
                let d = dec_chars(*m);
                push_all(&mut v, d.as_slice());
                push_str(&mut v, " 分钟后再试");
                Some(string_of(v.as_slice()))
            },
            LoginOutcome::Refused => Some(copy_str("账号或密码不正确")),
            LoginOutcome::Failed(e) => Some(copy_str(e.as_str())),
            LoginOutcome::LoggedIn(_, _) => None,
        }
    }
}

impl Store {
    /// A login with the form: the user name is trimmed, the password taken
    /// as typed.
    pub fn login(&self, f: &LoginForm) -> (r: Option<AdminUser>)
        requires
            self@.wf(),
        ensures
            r is Some <==> has_admin_named(self@.admins, trim(f.username@)) && bcrypt_verdict(
                f.password@,
                admin_named(self@.admins, trim(f.username@)).password_hash,
            ) == Some(true),
            r matches Some(u) ==> u.id == admin_named(self@.admins, trim(f.username@)).id
                && u.username@ == trim(f.username@),
    {
        let u = trim_str(f.username.as_str());
        self.verify_login(u.as_str(), f.password.as_str())
    }

    /// A login attempt from address `ip` at `secs` seconds (see
    /// `login_step`): refused at once while the address is locked out; a
    /// wrong user name or password counts as a failure; a right one clears
    /// the failures and opens a session with token `token`, valid until
    /// `expires`, at `now`.
    pub fn login_attempt_at(
        &mut self,
        guard: &mut LoginGuard,
        ip: &str,
        f: &LoginForm,
        secs: u64,
        token: &str,
        expires: &str,
        now: &str,
    ) -> (r: LoginOutcome)
        requires
            old(self)@.wf(),
            guard_wf(old(guard)@),
        ensures
            final(self)@.wf(),
            guard_wf(final(guard)@),
            login_step(
                old(self)@,
                old(guard)@,
                ip@,
                f.username@,
                f.password@,
                secs,
                token@,
                expires@,
                now@,
                final(self)@,
                final(guard)@,
                r,
            ),
    {
        let lock = guard.login_locked_at(ip, secs);
        if let Some(m) = lock {
            return LoginOutcome::Locked(m);
        }
        match self.login(f) {
            None => {
                guard.record_login_fail_at(ip, secs);
                LoginOutcome::Refused
            },
            Some(a) => {
                guard.clear_login_fails(ip);
                match self.create_session_at(a.id, token, expires, now) {
                    Ok(()) => LoginOutcome::LoggedIn(a, copy_str(token)),
                    Err(e) => LoginOutcome::Failed(e),
                }
            },
        }
    }

    /// A login attempt now (see `login_attempt_at`): the time is read from
    /// the clock, the session token is drawn at random and the session
    /// lasts `SESSION_DAYS` days.
    pub fn login_attempt(&mut self, guard: &mut LoginGuard, ip: &str, f: &LoginForm) -> (r: LoginOutcome)
        requires
            old(self)@.wf(),
            guard_wf(old(guard)@),
        ensures
            final(self)@.wf(),
            guard_wf(final(guard)@),
            exists|secs: u64, token: Seq<char>, expires: Seq<char>, now: Seq<char>|
                token.len() == 48 && #[trigger] login_step(
                    old(self)@,
                    old(guard)@,
                    ip@,
                    f.username@,
                    f.password@,
                    secs,
                    token,
                    expires,
                    now,
                    final(self)@,
                    final(guard)@,
                    r,
                ),
    {
        let secs = crate::guard::clock_secs();
        let token = crate::util::gen_token();
        let expires = crate::util::days_later_str(crate::auth::SESSION_DAYS);
        let now = crate::util::now_str();
        self.login_attempt_at(guard, ip, f, secs, token.as_str(), expires.as_str(), now.as_str())
    }

    /// The administrator a request's `Cookie` header is logged in as, if
    /// any: the session named by the cookie, valid now.
    pub fn request_admin(&self, cookie: Option<&str>) -> (r: Option<AdminUser>)
        requires
            self@.wf(),
        ensures
            cookie_admin(
                self@,
                match cookie {
                    Some(c) => Some(c@),
                    None => None,
                },
                r,
            ),
    {
        match cookie {
            Some(raw) => match get_cookie(raw, SESSION_COOKIE) {
                Some(tok) => {
                    let r = self.admin_by_token(tok.as_str());
                    assert(cookie_token(Some(raw@)) == Some(tok@));
                    r
                },
                None => None,
            },
            None => None,
        }
    }
}

/// `r` is who the cookie logs in: nobody without a session token, else
/// the administrator of that session when it is valid at some moment `now`
/// (the time of the request).
pub open spec fn cookie_admin(s: StoreV, cookie: Option<Seq<char>>, r: Option<AdminUser>) -> bool {
    match cookie_token(cookie) {
        None => r is None,
        Some(tok) => exists|now: Seq<char>|
            match #[trigger] session_admin(s, tok, now) {
                Some(a) => r matches Some(u) && u.id == a.id && u.username@ == a.username,
                None => r is None,
            },
    }
}

// ---------- categories and products ----------

/// The category form (name, and an optional sort key).
pub struct CategoryForm {
    pub name: String,
    pub sort: Option<i64>,
}

pub open spec fn or_zero(x: Option<i64>) -> i64 {
    match x {
        Some(v) => v,
        None => 0,
    }
}

pub open spec fn msg_category_name() -> Seq<char> {
    "分类名不能为空"@
}

impl Store {
    /// Adds the category of the form: name trimmed and required, sort 0
    /// unless given.
    pub fn create_category_from(&mut self, f: &CategoryForm) -> (r: Result<(), String>)
        requires
            old(self)@.wf(),
        ensures
            final(self)@.wf(),
            trim(f.name@).len() == 0 ==> final(self)@ == old(self)@ && (r matches Err(m) && m@
                == msg_category_name()),
            trim(f.name@).len() > 0 && old(self)@.category_seq == i64::MAX ==> final(self)@ == old(self)@ && (r matches Err(m) && m@ == msg_full()),
            trim(f.name@).len() > 0 && old(self)@.category_seq < i64::MAX ==> r is Ok && final(self)@ == (StoreV {
                categories: old(self)@.categories.push(
                    CategoryRowV {
                        id: (old(self)@.category_seq + 1) as i64,
                        name: trim(f.name@),
                        sort: or_zero(f.sort),
                    },
                ),
                category_seq: (old(self)@.category_seq + 1) as i64,
                ..old(self)@
            }),
    {
        let name = trim_str(f.name.as_str());
        if name.unicode_len() == 0 {
            return Err(copy_str("分类名不能为空"));
        }
        let sort = match f.sort {
            Some(v) => v,
            None => 0,
        };
        self.create_category(name.as_str(), sort)
    }

    /// Renames and re-sorts category `id` from the form (name trimmed, sort
    /// 0 unless given).
    pub fn update_category_from(&mut self, id: i64, f: &CategoryForm)
        requires
            old(self)@.wf(),
        ensures
            final(self)@.wf(),
            final(self)@ == (StoreV {
                categories: Seq::new(
                    old(self)@.categories.len(),
                    |i: int|
                        if old(self)@.categories[i].id == id {
                            CategoryRowV { id, name: trim(f.name@), sort: or_zero(f.sort) }
                        } else {
                            old(self)@.categories[i]
                        },
                ),
                ..old(self)@
            }),
    {
        let name = trim_str(f.name.as_str());
        let sort = match f.sort {
            Some(v) => v,
            None => 0,
        };
        self.update_category(id, name.as_str(), sort);
    }
}

/// The product form; the price is typed in yuan.
pub struct ProductForm {
    pub category_id: i64,
    pub name: String,
    pub description: String,
    pub price: String,
    pub sort: Option<i64>,
}

/// The product form's name (trimmed, required) and price in cents (a valid
/// amount above zero), or the complaint.
pub open spec fn product_form_result(name: Seq<char>, price: Seq<char>) -> Result<
    (Seq<char>, int),
    Seq<char>,
> {
    if trim(name).len() == 0 {
        Err("商品名不能为空"@)
    } else {
        match yuan_cents(price) {
            None => Err("价格格式不正确，示例：19.90"@),
            Some(c) => if c <= 0 {
                Err("价格必须大于 0"@)
            } else {
                Ok((trim(name), c))
            },
        }
    }
}

/// Reads the product form: the trimmed name and the price in cents.
pub fn parse_product_form(f: &ProductForm) -> (r: Result<(String, i64), String>)
    ensures
        match r {
            Ok((n, c)) => product_form_result(f.name@, f.price@) == Ok::<(Seq<char>, int), Seq<char>>(
                (n@, c as int),
            ),
            Err(e) => product_form_result(f.name@, f.price@) == Err::<(Seq<char>, int), Seq<char>>(e@),
        },
{
    let name = trim_str(f.name.as_str());
    if name.unicode_len() == 0 {
        return Err(copy_str("商品名不能为空"));
    }
    let cents = match yuan_to_cents(f.price.as_str()) {
        Some(c) => c,
        None => {
            return Err(copy_str("价格格式不正确，示例：19.90"));
        },
    };
    if cents <= 0 {
        return Err(copy_str("价格必须大于 0"));
    }
    Ok((name, cents))
}

impl Store {
    /// Saves the product form: a new product (on sale) when `id` is `None`,
    /// else product `id` changed; name and price as `parse_product_form`
    /// reads them, description trimmed, sort 0 unless given, and the image
    /// reference given.  A form that does not read leaves the shop as it
    /// was.
    pub fn save_product(&mut self, id: Option<i64>, f: &ProductForm, image: &str) -> (r: Result<(), String>)
        requires
            old(self)@.wf(),
        ensures
            final(self)@.wf(),
            product_form_result(f.name@, f.price@) matches Err(e) ==> final(self)@ == old(self)@ && (r matches Err(
                m,
            ) && m@ == e),
            product_form_result(f.name@, f.price@) matches Ok((n, c)) ==> match id {
                None => {
                    &&& old(self)@.product_seq == i64::MAX ==> (final(self)@ == old(self)@ && (r matches Err(m) && m@
                        == msg_full()))
                    &&& old(self)@.product_seq < i64::MAX ==> r is Ok && exists|now: Seq<char>|
                        final(self)@ == (StoreV {
                            products: #[trigger] old(self)@.products.push(
                                ProductRecordV {
                                    product: crate::catalog::product_row(
                                        (old(self)@.product_seq + 1) as i64,
                                        f.category_id,
                                        n,
                                        trim(f.description@),
                                        image@,
                                        c as i64,
                                        1,
                                        or_zero(f.sort),
                                    ),
                                    created_at: now,
                                },
                            ),
                            product_seq: (old(self)@.product_seq + 1) as i64,
                            ..old(self)@
                        })
                },
                Some(pid) => r is Ok && final(self)@ == (StoreV {
                    products: Seq::new(
                        old(self)@.products.len(),
                        |i: int|
                            if old(self)@.products[i].product.id == pid {
                                ProductRecordV {
                                    product: crate::catalog::product_row(
                                        pid,
                                        f.category_id,
                                        n,
                                        trim(f.description@),
                                        image@,
                                        c as i64,
                                        old(self)@.products[i].product.status,
                                        or_zero(f.sort),
                                    ),
                                    ..old(self)@.products[i]
                                }
                            } else {
                                old(self)@.products[i]
                            },
                    ),
                    ..old(self)@
                }),
            },
    {
        let (name, cents) = match parse_product_form(f) {
            Ok(v) => v,
            Err(e) => {
                return Err(e);
            },
        };
        let desc = trim_str(f.description.as_str());
        let sort = match f.sort {
            Some(v) => v,
            None => 0,
        };
        match id {
            None => self.create_product(f.category_id, name.as_str(), desc.as_str(), image, cents, sort),
            Some(pid) => {
                self.update_product(pid, f.category_id, name.as_str(), desc.as_str(), image, cents, sort);
                Ok(())
            },
        }
    }
}

// ---------- cards ----------

/// The card page's query: product, status and search text, all optional.
pub struct CardsQ {
    pub product: Option<i64>,
    pub status: Option<i64>,
    pub q: Option<String>,
}

pub open spec fn status_or_all(x: Option<i64>) -> i64 {
    match x {
        Some(s) => s,
        None => -1i64,
    }
}

pub open spec fn positive(x: i64) -> Option<i64> {
    if x > 0 {
        Some(x)
    } else {
        None
    }
}

pub open spec fn non_negative(x: i64) -> Option<i64> {
    if x >= 0 {
        Some(x)
    } else {
        None
    }
}

pub open spec fn or_empty(o: Option<String>) -> Seq<char> {
    match o {
        Some(s) => s@,
        None => Seq::empty(),
    }
}

impl CardsQ {
    /// The selection shown: product (0 for all), status (-1 for all) and
    /// the search text as typed.
    pub fn selection(&self) -> (r: (i64, i64, String))
        ensures
            r.0 == or_zero(self.product),
            r.1 == status_or_all(self.status),
            r.2@ == or_empty(self.q),
    {
        let p = match self.product {
            Some(v) => v,
            None => 0,
        };
        let s = match self.status {
            Some(v) => v,
            None => -1,
        };
        let q = match &self.q {
            Some(v) => copy_str(v.as_str()),
            None => String::new(),
        };
        (p, s, q)
    }
}

impl Store {
    /// The cards listed for the query: filtered by product when a positive
    /// id is chosen, by status when a non-negative one is, and by the
    /// trimmed search text.
    pub fn cards_page(&self, q: &CardsQ) -> (r: Vec<CardView>)
        requires
            self@.wf(),
        ensures
            r@.map_values(|v: CardView| v@) == limit(
                cards_desc(
                    self@,
                    self@.cards,
                    positive(or_zero(q.product)),
                    non_negative(
                        status_or_all(q.status),
                    ),
                    trim(or_empty(q.q)),
                ),
                CARD_LIST_LIMIT as int,
            ),
    {
        let (p, s, text) = q.selection();
        let pf = if p > 0 {
            Some(p)
        } else {
            None
        };
        let sf = if s >= 0 {
            Some(s)
        } else {
            None
        };
        let t = trim_str(text.as_str());
        self.list_cards(pf, sf, t.as_str())
    }
}

/// The card import form: a product and its codes, one per line.
pub struct ImportForm {
    pub product_id: i64,
    pub codes: String,
}

/// The notice after an import of `ok` codes with `skip` duplicates.
pub open spec fn import_notice_text(ok: nat, skip: nat) -> Seq<char> {
    if skip > 0 {
        "导入 "@ + dec(ok) + " 张，跳过重复 "@ + dec(skip) + " 张"@
    } else {
        "导入 "@ + dec(ok) + " 张"@
    }
}

/// The notice after an import.
pub fn import_notice(ok: usize, skip: usize) -> (r: String)
    ensures
        r@ == import_notice_text(ok as nat, skip as nat),
{
    let mut v: Vec<char> = Vec::new();
    push_str(&mut v, "导入 ");
    let a = dec_chars(ok as u64);
    push_all(&mut v, a.as_slice());
    if skip > 0 {
        push_str(&mut v, " 张，跳过重复 ");
        let b = dec_chars(skip as u64);
        push_all(&mut v, b.as_slice());
    }
    push_str(&mut v, " 张");
    string_of(v.as_slice())
}

impl Store {
    /// Imports the form's codes (see `import_cards`) and gives the notice
    /// to show, or the failure.
    pub fn import_from(&mut self, f: &ImportForm) -> (r: Result<String, String>)
        requires
            old(self)@.wf(),
        ensures
            final(self)@.wf(),
            exists|now: Seq<char>|
                match #[trigger] import_fold(
                    old(self)@.cards,
                    old(self)@.card_seq,
                    f.product_id,
                    codes_of(split_lines(f.codes@)),
                    now,
                ) {
                    None => final(self)@ == old(self)@ && (r matches Err(m) && m@ == msg_full()),
                    Some(st) => (r matches Ok(m) && m@ == import_notice_text(st.2 as nat, st.3 as nat))
                        && final(self)@ == (StoreV { cards: st.0, card_seq: st.1, ..old(self)@ }),
                },
    {
        match self.import_cards(f.product_id, f.codes.as_str()) {
            Ok((ok, skip)) => Ok(import_notice(ok, skip)),
            Err(e) => Err(e),
        }
    }
}

/// The form that clears a product's unsold cards.
pub struct DeleteUnsoldForm {
    pub product_id: i64,
}

impl Store {
    /// Removes the unsold cards of the form's product and gives the notice.
    pub fn clear_unsold(&mut self, f: &DeleteUnsoldForm) -> (r: String)
        requires
            old(self)@.wf(),
        ensures
            final(self)@.wf(),
            final(self)@ == (StoreV {
                cards: old(self)@.cards.filter(|c: CardV| keeps_after_unsold_delete(c, f.product_id)),
                ..old(self)@
            }),
            r@ == "已清空 "@ + dec(count_avail(old(self)@.cards, f.product_id)) + " 张未售卡密"@,
    {
        let n = self.delete_unsold_cards(f.product_id);
        cleared_notice(n)
    }
}

/// The notice after `n` unsold cards were removed.
pub fn cleared_notice(n: usize) -> (r: String)
    ensures
        r@ == "已清空 "@ + dec(n as nat) + " 张未售卡密"@,
{
    let mut v: Vec<char> = Vec::new();
    push_str(&mut v, "已清空 ");
    let a = dec_chars(n as u64);
    push_all(&mut v, a.as_slice());
    push_str(&mut v, " 张未售卡密");
    string_of(v.as_slice())
}

// ---------- orders ----------

/// The order page's query: status and search text, both optional.
pub struct OrdersQ {
    pub status: Option<i64>,
    pub q: Option<String>,
}

impl Store {
    /// The orders listed for the query: filtered by status when a
    /// non-negative one is chosen, and by the trimmed search text.
    pub fn orders_page(&self, q: &OrdersQ) -> (r: Vec<Order>)
        ensures
            r@.map_values(|o: Order| o@) == limit(
                orders_desc(
                    self@.orders,
                    non_negative(
                        status_or_all(q.status),
                    ),
                    trim(or_empty(q.q)),
                ),
                ORDER_LIST_LIMIT as int,
            ),
    {
        let s = match q.status {
            Some(v) => v,
            None => -1,
        };
        let sf = if s >= 0 {
            Some(s)
        } else {
            None
        };
        let t = match &q.q {
            Some(v) => trim_str(v.as_str()),
            None => String::new(),
        };
        proof {
            if q.q is None {
                assert(trim(Seq::<char>::empty()) =~= Seq::<char>::empty()) by {
                    crate::text::lemma_lead_ws(Seq::<char>::empty());
                    crate::text::lemma_trail_ws(Seq::<char>::empty());
                }
            }
        }
        self.list_orders_admin(sf, t.as_str())
    }
}

/// What the back office reports after a manual delivery: a notice, or an
/// error when the order was paid but found no cards, or the failure itself.
pub open spec fn deliver_notice_text(r: Result<i64, Seq<char>>) -> Result<Seq<char>, Seq<char>> {
    match r {
        Ok(1) => Ok("已发货"@),
        Ok(3) => Err("库存不足，已标记待补发，请先导入卡密再重试"@),
        Ok(_) => Ok("处理完成"@),
        Err(e) => Err(e),
    }
}

/// The report after a manual delivery (see `deliver_notice_text`).
pub fn deliver_notice(r: &Result<i64, String>) -> (n: Result<String, String>)
    ensures
        match n {
            Ok(m) => deliver_notice_text(
                match r {
                    Ok(x) => Ok(*x),
                    Err(e) => Err(e@),
                },
            ) == Ok::<Seq<char>, Seq<char>>(m@),
            Err(m) => deliver_notice_text(
                match r {
                    Ok(x) => Ok(*x),
                    Err(e) => Err(e@),
                },
            ) == Err::<Seq<char>, Seq<char>>(m@),
        },
{
    match r {
        Ok(1) => Ok(copy_str("已发货")),
        Ok(3) => Err(copy_str("库存不足，已标记待补发，请先导入卡密再重试")),
        Ok(_) => Ok(copy_str("处理完成")),
        Err(e) => Err(copy_str(e.as_str())),
    }
}

// ---------- settings ----------

/// The settings form.
pub struct SettingsForm {
    pub site_name: String,
    pub site_mark: String,
    pub site_subtitle: String,
    pub announcement: String,
    pub default_theme: String,
    pub site_url: String,
    pub pay_mode: String,
    pub epay_gateway: String,
    pub epay_pid: String,
    pub epay_key: String,
}

/// The settings after saving the form: texts trimmed, the theme "light" or
/// else "dark", the pay mode "epay" or else "mock", the site address without
/// trailing slashes; stored in this order.
pub open spec fn saved_settings(st: Seq<(Seq<char>, Seq<char>)>, f: SettingsForm) -> Seq<
    (Seq<char>, Seq<char>),
> {
    let s1 = settings_put(st, "site_name"@, trim(f.site_name@));
    let s2 = settings_put(s1, "site_mark"@, trim(f.site_mark@));
    let s3 = settings_put(s2, "site_subtitle"@, trim(f.site_subtitle@));
    let s4 = settings_put(s3, "announcement"@, trim(f.announcement@));
    let s5 = settings_put(
        s4,
        "default_theme"@,
        if f.default_theme@ == "light"@ {
            "light"@
        } else {
            "dark"@
        },
    );
    let s6 = settings_put(s5, "site_url"@, strip_end(trim(f.site_url@), '/'));
    let s7 = settings_put(
        s6,
        "pay_mode"@,
        if f.pay_mode@ == "epay"@ {
            "epay"@
        } else {
            "mock"@
        },
    );
    let s8 = settings_put(s7, "epay_gateway"@, trim(f.epay_gateway@));
    let s9 = settings_put(s8, "epay_pid"@, trim(f.epay_pid@));
    settings_put(s9, "epay_key"@, trim(f.epay_key@))
}

impl Store {
    fn put_trimmed(&mut self, key: &str, value: &str)
        requires
            old(self)@.wf(),
        ensures
            final(self)@.wf(),
            final(self)@ == (StoreV { settings: settings_put(old(self)@.settings, key@, trim(value@)), ..old(self)@ }),
    {
        let t = trim_str(value);
        self.set_setting(key, t.as_str());
    }

    /// Saves the settings form (see `saved_settings`).
    pub fn save_settings(&mut self, f: &SettingsForm)
        requires
            old(self)@.wf(),
        ensures
            final(self)@.wf(),
            final(self)@ == (StoreV { settings: saved_settings(old(self)@.settings, *f), ..old(self)@ }),
    {
        self.put_trimmed("site_name", f.site_name.as_str());
        self.put_trimmed("site_mark", f.site_mark.as_str());
        self.put_trimmed("site_subtitle", f.site_subtitle.as_str());
        self.put_trimmed("announcement", f.announcement.as_str());
        if str_eq(f.default_theme.as_str(), "light") {
            self.set_setting("default_theme", "light");
        } else {
            self.set_setting("default_theme", "dark");
        }
        let u = trim_str(f.site_url.as_str());
        let u2 = strip_end_str(u.as_str(), '/');
        self.set_setting("site_url", u2.as_str());
        if str_eq(f.pay_mode.as_str(), "epay") {
            self.set_setting("pay_mode", "epay");
        } else {
            self.set_setting("pay_mode", "mock");
        }
        self.put_trimmed("epay_gateway", f.epay_gateway.as_str());
        self.put_trimmed("epay_pid", f.epay_pid.as_str());
        self.put_trimmed("epay_key", f.epay_key.as_str());
    }
}

/// The mail settings form; an empty password keeps the stored one.
pub struct MailForm {
    pub enabled: bool,
    pub host: String,
    pub port: String,
    pub security: String,
    pub user: String,
    pub pass: String,
    pub from: String,
    pub from_name: String,
    pub admin_to: String,
}

/// The settings after saving the mail form: texts trimmed, security one of
/// "starttls" and "none" as chosen or else "ssl", the password stored as
/// typed unless left empty.
pub open spec fn saved_mail_settings(st: Seq<(Seq<char>, Seq<char>)>, f: MailForm) -> Seq<
    (Seq<char>, Seq<char>),
> {
    let s1 = settings_put(
        st,
        "mail_enabled"@,
        if f.enabled {
            "1"@
        } else {
            "0"@
        },
    );
    let s2 = settings_put(s1, "smtp_host"@, trim(f.host@));
    let s3 = settings_put(s2, "smtp_port"@, trim(f.port@));
    let s4 = settings_put(
        s3,
        "smtp_security"@,
        if f.security@ == "starttls"@ {
            "starttls"@
        } else if f.security@ == "none"@ {
            "none"@
        } else {
            "ssl"@
        },
    );
    let s5 = settings_put(s4, "smtp_user"@, trim(f.user@));
    let s6 = if f.pass@.len() == 0 {
        s5
    } else {
        settings_put(s5, "smtp_pass"@, f.pass@)
    };
    let s7 = settings_put(s6, "mail_from"@, trim(f.from@));
    let s8 = settings_put(s7, "mail_from_name"@, trim(f.from_name@));
    settings_put(s8, "mail_admin_to"@, trim(f.admin_to@))
}

impl Store {
    /// Saves the mail settings form (see `saved_mail_settings`); the stored
    /// password is never given back, and an empty one changes nothing.
    pub fn save_mail_settings(&mut self, f: &MailForm)
        requires
            old(self)@.wf(),
        ensures
            final(self)@.wf(),
            final(self)@ == (StoreV { settings: saved_mail_settings(old(self)@.settings, *f), ..old(self)@ }),
            crate::catalog::setting_value(final(self)@.settings, "smtp_pass"@) == if f.pass@.len() == 0 {
                crate::catalog::setting_value(old(self)@.settings, "smtp_pass"@)
            } else {
                f.pass@
            },
    {
        let ghost s0 = self@.settings;
        if f.enabled {
            self.set_setting("mail_enabled", "1");
        } else {
            self.set_setting("mail_enabled", "0");
        }
        self.put_trimmed("smtp_host", f.host.as_str());
        self.put_trimmed("smtp_port", f.port.as_str());
        if str_eq(f.security.as_str(), "starttls") {
            self.set_setting("smtp_security", "starttls");
        } else if str_eq(f.security.as_str(), "none") {
            self.set_setting("smtp_security", "none");
        } else {
            self.set_setting("smtp_security", "ssl");
        }
        self.put_trimmed("smtp_user", f.user.as_str());
        let ghost s5 = self@.settings;
        if f.pass.unicode_len() > 0 {
            self.set_setting("smtp_pass", f.pass.as_str());
        }
        let ghost s6 = self@.settings;
        self.put_trimmed("mail_from", f.from.as_str());
        self.put_trimmed("mail_from_name", f.from_name.as_str());
        self.put_trimmed("mail_admin_to", f.admin_to.as_str());
        proof {
            let k = "smtp_pass"@;
            reveal_strlit("smtp_pass");
            reveal_strlit("mail_enabled");
            reveal_strlit("smtp_host");
            reveal_strlit("smtp_port");
            reveal_strlit("smtp_security");
            reveal_strlit("smtp_user");
            reveal_strlit("mail_from");
            reveal_strlit("mail_from_name");
            reveal_strlit("mail_admin_to");
            assert(k.len() == 9 && k[5] == 'p' && k[6] == 'a' && k[0] == 's');
            assert("mail_enabled"@.len() == 12);
            assert("smtp_host"@[5] == 'h');
            assert("smtp_port"@[6] == 'o');
            assert("smtp_security"@.len() == 13);
            assert("smtp_user"@[5] == 'u');
            assert("mail_from"@[0] == 'm');
            assert("mail_from_name"@.len() == 14);
            assert("mail_admin_to"@.len() == 13);
            lemma_puts_keep(s0, k);
            let s7 = settings_put(s6, "mail_from"@, trim(f.from@));
            let s8 = settings_put(s7, "mail_from_name"@, trim(f.from_name@));
            crate::catalog::law_setting_read_back(s6, "mail_from"@, trim(f.from@), k);
            crate::catalog::law_setting_read_back(s7, "mail_from_name"@, trim(f.from_name@), k);
            crate::catalog::law_setting_read_back(s8, "mail_admin_to"@, trim(f.admin_to@), k);
            if f.pass@.len() > 0 {
                crate::catalog::law_setting_read_back(s5, k, f.pass@, k);
            }
        }
    }
}

/// The first five puts of the mail form leave the stored password alone.
proof fn lemma_puts_keep(s0: Seq<(Seq<char>, Seq<char>)>, k: Seq<char>)
    requires
        crate::models::settings_wf(s0),
        k == "smtp_pass"@,
        k != "mail_enabled"@,
        k != "smtp_host"@,
        k != "smtp_port"@,
        k != "smtp_security"@,
        k != "smtp_user"@,
    ensures
        forall|a: Seq<char>, b: Seq<char>, c: Seq<char>, d: Seq<char>, e: Seq<char>|
            #![trigger settings_put(settings_put(settings_put(settings_put(settings_put(s0, "mail_enabled"@, a), "smtp_host"@, b), "smtp_port"@, c), "smtp_security"@, d), "smtp_user"@, e)]
            {
                let s5 = settings_put(settings_put(settings_put(settings_put(settings_put(s0, "mail_enabled"@, a), "smtp_host"@, b), "smtp_port"@, c), "smtp_security"@, d), "smtp_user"@, e);
                &&& crate::models::settings_wf(s5)
                &&& crate::catalog::setting_value(s5, k) == crate::catalog::setting_value(s0, k)
            },
{
    assert forall|a: Seq<char>, b: Seq<char>, c: Seq<char>, d: Seq<char>, e: Seq<char>|
        #![trigger settings_put(settings_put(settings_put(settings_put(settings_put(s0, "mail_enabled"@, a), "smtp_host"@, b), "smtp_port"@, c), "smtp_security"@, d), "smtp_user"@, e)]
        ({
            let s5 = settings_put(settings_put(settings_put(settings_put(settings_put(s0, "mail_enabled"@, a), "smtp_host"@, b), "smtp_port"@, c), "smtp_security"@, d), "smtp_user"@, e);
            &&& crate::models::settings_wf(s5)
            &&& crate::catalog::setting_value(s5, k) == crate::catalog::setting_value(s0, k)
        }) by {
        let s1 = settings_put(s0, "mail_enabled"@, a);
        let s2 = settings_put(s1, "smtp_host"@, b);
        let s3 = settings_put(s2, "smtp_port"@, c);
        let s4 = settings_put(s3, "smtp_security"@, d);
        crate::catalog::law_setting_read_back(s0, "mail_enabled"@, a, k);
        crate::catalog::law_setting_read_back(s1, "smtp_host"@, b, k);
        crate::catalog::law_setting_read_back(s2, "smtp_port"@, c, k);
        crate::catalog::law_setting_read_back(s3, "smtp_security"@, d, k);
        crate::catalog::law_setting_read_back(s4, "smtp_user"@, e, k);
    }
}

impl Store {
    /// Chooses the checkout channels offered: each setting "1" when on and
    /// "0" when off; the payment settings then offer exactly these.
    pub fn save_pay_channels(&mut self, alipay: bool, wxpay: bool)
        requires
            old(self)@.wf(),
        ensures
            final(self)@.wf(),
            final(self)@ == (StoreV {
                settings: settings_put(
                    settings_put(
                        old(self)@.settings,
                        "epay_alipay"@,
                        if alipay {
                            "1"@
                        } else {
                            "0"@
                        },
                    ),
                    "epay_wxpay"@,
                    if wxpay {
                        "1"@
                    } else {
                        "0"@
                    },
                ),
                ..old(self)@
            }),
            pay_cfg_view(final(self)@.settings).alipay == alipay,
            pay_cfg_view(final(self)@.settings).wxpay == wxpay,
    {
        let ghost s0 = self@.settings;
        if alipay {
            self.set_setting("epay_alipay", "1");
        } else {
            self.set_setting("epay_alipay", "0");
        }
        let ghost s1 = self@.settings;
        if wxpay {
            self.set_setting("epay_wxpay", "1");
        } else {
            self.set_setting("epay_wxpay", "0");
        }
        proof {
            reveal_strlit("epay_alipay");
            reveal_strlit("epay_wxpay");
            reveal_strlit("1");
            reveal_strlit("0");
            assert("epay_alipay"@.len() == 11 && "epay_wxpay"@.len() == 10);
            assert("1"@[0] == '1' && "0"@[0] == '0');
            let va: Seq<char> = if alipay { "1"@ } else { "0"@ };
            let vw: Seq<char> = if wxpay { "1"@ } else { "0"@ };
            crate::catalog::law_setting_read_back(s0, "epay_alipay"@, va, "epay_wxpay"@);
            crate::catalog::law_setting_read_back(s1, "epay_wxpay"@, vw, "epay_alipay"@);
        }
    }
}

/// The password form.
pub struct PasswordForm {
    pub old_password: String,
    pub new_password: String,
}

impl Store {
    /// Changes the password of administrator `admin_id` as the form asks
    /// (see `change_password`).
    pub fn change_password_with(&mut self, admin_id: i64, f: &PasswordForm) -> (r: Result<(), String>)
        requires
            old(self)@.wf(),
        ensures
            final(self)@.wf(),
            f.new_password@.len() < 6 ==> final(self)@ == old(self)@ && (r matches Err(m) && m@
                == crate::auth::msg_short_password()),
            f.new_password@.len() >= 6 && !crate::auth::has_admin_id(old(self)@.admins, admin_id)
                ==> final(self)@ == old(self)@ && (r matches Err(m) && m@ == crate::auth::msg_no_rows()),
            f.new_password@.len() >= 6 && crate::auth::has_admin_id(old(self)@.admins, admin_id)
                && bcrypt_verdict(
                f.old_password@,
                crate::auth::admin_with_id(old(self)@.admins, admin_id).password_hash,
            ) != Some(true) ==> final(self)@ == old(self)@ && (r matches Err(m) && m@
                == crate::auth::msg_wrong_password()),
            r is Err ==> final(self)@ == old(self)@,
            r is Ok ==> {
                &&& f.new_password@.len() >= 6
                &&& crate::auth::has_admin_id(old(self)@.admins, admin_id)
                &&& bcrypt_verdict(
                    f.old_password@,
                    crate::auth::admin_with_id(old(self)@.admins, admin_id).password_hash,
                ) == Some(true)
                &&& final(self)@.admins.len() == old(self)@.admins.len()
                &&& forall|i: int|
                    0 <= i < old(self)@.admins.len() ==> {
                        let a = old(self)@.admins[i];
                        let b = #[trigger] final(self)@.admins[i];
                        &&& b.id == a.id && b.username == a.username && b.created_at == a.created_at
                        &&& a.id != admin_id ==> b == a
                        &&& a.id == admin_id ==> bcrypt_verdict(f.new_password@, b.password_hash) == Some(true)
                    }
                &&& final(self)@.sessions == old(self)@.sessions.filter(
                    |x: crate::models::SessionV| x.admin_id != admin_id,
                )
                &&& final(self)@ == (StoreV {
                    admins: final(self)@.admins,
                    sessions: final(self)@.sessions,
                    ..old(self)@
                })
            },
    {
        self.change_password(admin_id, f.old_password.as_str(), f.new_password.as_str())
    }
}

// ---------- buying ----------

/// The order form of a product page.
pub struct CreateOrderForm {
    pub product_id: i64,
    pub quantity: i64,
    pub contact: String,
}

/// Where the buyer goes after placing an order: to payment, or back to the
/// product with the complaint in the query.
pub open spec fn order_redirect(pid: i64, v: Result<OrderV, Seq<char>>) -> Seq<char> {
    match v {
        Ok(o) => "/pay/"@ + o.order_no,
        Err(e) => "/p/"@ + dec_int(pid as int) + "?err="@ + url_encoded(vstd::utf8::encode_utf8(e)),
    }
}

impl Store {
    /// Places the order of the form (see `create_order`) and gives the
    /// address to go to next.
    pub fn place_order(&mut self, f: &CreateOrderForm) -> (r: String)
        requires
            old(self)@.wf(),
            order_priced(old(self)@, f.product_id, f.quantity, f.contact@) ==> total_fits(old(self)@, f.product_id, f.quantity),
        ensures
            final(self)@.wf(),
            exists|cutoff: Seq<char>, no: Seq<char>, now: Seq<char>|
                {
                    &&& final(self)@ == #[trigger] create_outcome(
                        old(self)@,
                        f.product_id,
                        f.quantity,
                        f.contact@,
                        cutoff,
                        no,
                        now,
                    ).0
                    &&& r@ == order_redirect(
                        f.product_id,
                        create_outcome(old(self)@, f.product_id, f.quantity, f.contact@, cutoff, no, now).1,
                    )
                },
    {
        let r = self.create_order(f.product_id, f.quantity, f.contact.as_str());
        match r {
            Ok(o) => str_cat("/pay/", o.order_no.as_str()),
            Err(e) => {
                let mut v: Vec<char> = Vec::new();
                push_str(&mut v, "/p/");
                let d = int_chars(f.product_id);
                push_all(&mut v, d.as_slice());
                push_str(&mut v, "?err=");
                let x = enc(e.as_str());
                push_str(&mut v, x.as_str());
                string_of(v.as_slice())
            },
        }
    }
}

/// The time written as "YYYY-MM-DD HH:MM:SS", as whole seconds since
/// 1970-01-01 00:00:00 on the same (local) clock face, as chrono's
/// `NaiveDateTime::parse_from_str` reads it; `None` when the text does not
/// parse.  It depends on the text alone.
pub uninterp spec fn local_time_secs(t: Seq<char>) -> Option<i64>;

/// Reads a time written as "YYYY-MM-DD HH:MM:SS" (see `local_time_secs`).
#[verifier::external_body]
fn parse_local_time(t: &str) -> (r: Option<i64>)
    ensures
        r == local_time_secs(t@),
{
    match chrono::NaiveDateTime::parse_from_str(t, "%Y-%m-%d %H:%M:%S") {
        Ok(t) => Some(t.and_utc().timestamp()),
        Err(_) => None,
    }
}

/// The local time now, in milliseconds since 1970-01-01 00:00:00 on the
/// local clock face (`chrono::Local::now().naive_local()`); it depends on
/// the clock, so nothing is claimed of it.
#[verifier::external_body]
fn local_now_millis() -> i64 {
    chrono::Local::now().naive_local().and_utc().timestamp_millis()
}

/// Whole seconds from second `t` to millisecond `now_ms`, rounded toward
/// zero.
pub open spec fn elapsed_secs(t: i64, now_ms: i64) -> int {
    let d = now_ms - t * 1000;
    if d >= 0 {
        d / 1000
    } else {
        -((-d) / 1000)
    }
}

/// Seconds left to pay, at millisecond `now_ms`, for an order placed at
/// second `created` (`None` when its time could not be read, which leaves
/// none): the `ORDER_TTL_MIN` minutes less the seconds since, at least 0.
pub open spec fn remain_value(created: Option<i64>, now_ms: i64) -> int {
    match created {
        None => 0,
        Some(t) => {
            let v = ORDER_TTL_MIN * 60 - elapsed_secs(t, now_ms);
            if v < 0 {
                0
            } else if v > i64::MAX {
                i64::MAX as int
            } else {
                v
            }
        },
    }
}

/// Seconds left to pay (see `remain_value`).
pub fn remain_at(created: Option<i64>, now_ms: i64) -> (r: i64)
    ensures
        r == remain_value(created, now_ms),
{
    match created {
        None => 0,
        Some(t) => {
            let d: i128 = now_ms as i128 - (t as i128) * 1000;
            let e: i128 = if d >= 0 {
                d / 1000
            } else {
                -((-d) / 1000)
            };
            let v: i128 = (ORDER_TTL_MIN as i128) * 60 - e;
            if v < 0 {
                0
            } else if v > i64::MAX as i128 {
                i64::MAX
            } else {
                v as i64
            }
        },
    }
}

/// Seconds the buyer has left to pay for `order`, now: none when its time
/// cannot be read, else as `remain_value` gives at the time read from the
/// clock.
pub fn remain_secs(order: &Order) -> (r: i64)
    ensures
        exists|now_ms: i64| r == #[trigger] remain_value(local_time_secs(order.created_at@), now_ms),
        local_time_secs(order.created_at@) is None ==> r == 0,
{
    let t = parse_local_time(order.created_at.as_str());
    let now_ms = local_now_millis();
    remain_at(t, now_ms)
}

/// What the payment page of an order shows.
pub enum PayPage {
    /// No such order.
    Missing,
    /// Paid already: go to this result page.
    Paid(String),
    /// Waiting for payment, with the checkout channels (none unless the
    /// gateway is usable).
    Pay(Order, Vec<PayChannel>),
}

/// `r` is the payment page of order `no` in `s`: missing, a link to the
/// result of a paid order, or the order with the payment channels that are
/// set up and the checkout form of each.
pub open spec fn pay_page_shows(s: StoreV, no: Seq<char>, r: PayPage) -> bool {
    &&& !has_order_no(s.orders, no) ==> r is Missing
    &&& has_order_no(s.orders, no) ==> {
        let o = order_by_no(s, no);
        let c = pay_cfg_view(s.settings);
        if o.status == 1 || o.status == 3 {
            r matches PayPage::Paid(l) && l@ == view_link_text(o)
        } else {
            r matches PayPage::Pay(x, ch) && x@ == o && (if epay_usable(c) {
                &&& ch@.len() == channel_list(c.alipay, c.wxpay).len()
                &&& forall|i: int|
                    0 <= i < ch@.len() ==> {
                        &&& (#[trigger] ch@[i]).pay_type@ == channel_list(c.alipay, c.wxpay)[i].0
                        &&& ch@[i].label@ == channel_list(c.alipay, c.wxpay)[i].1
                        &&& pairs_view(ch@[i].fields@) == checkout_fields(
                            o,
                            c.pid,
                            c.site_url,
                            channel_list(c.alipay, c.wxpay)[i].0,
                            c.key,
                        )
                    }
            } else {
                ch@.len() == 0
            })
        }
    }
}

impl Store {
    /// The payment page of order `no`.
    pub fn pay_page(&self, no: &str) -> (r: PayPage)
        requires
            self@.wf(),
        ensures
            pay_page_shows(self@, no@, r),
    {
        let order = match self.get_order_by_no(no) {
            Some(o) => o,
            None => {
                return PayPage::Missing;
            },
        };
        proof {
            lemma_order_by_no(self@, no@, order@);
        }
        if order.status == 1 || order.status == 3 {
            return PayPage::Paid(order.view_link());
        }
        let cfg = pay_config(self);
        let channels = if cfg.epay_ready() {
            cfg.channels(&order)
        } else {
            Vec::new()
        };
        PayPage::Pay(order, channels)
    }
}

/// The order found by number is the one `order_by_no` names.
pub proof fn lemma_order_by_no(s: StoreV, no: Seq<char>, o: OrderV)
    requires
        s.wf(),
        exists|i: int| 0 <= i < s.orders.len() && s.orders[i] == o && o.order_no == no,
    ensures
        o == order_by_no(s, no),
        has_order_no(s.orders, no),
{
    let i = choose|i: int| 0 <= i < s.orders.len() && s.orders[i] == o && o.order_no == no;
    assert(has_order_no(s.orders, no));
    let j = choose|j: int| 0 <= j < s.orders.len() && s.orders[j].order_no == no;
    if i < j {
        assert(s.orders[i].order_no != s.orders[j].order_no);
    } else if j < i {
        assert(s.orders[j].order_no != s.orders[i].order_no);
    }
}

pub open spec fn msg_not_mock() -> Seq<char> {
    "当前不是演示支付模式"@
}

impl Store {
    /// Pays order `no` in demonstration mode: refused unless the pay mode
    /// is "mock"; otherwise the order is delivered with method "mock" (see
    /// `deliver_order`).
    pub fn mock_pay(&mut self, no: &str) -> (r: Result<i64, String>)
        requires
            old(self)@.wf(),
        ensures
            final(self)@.wf(),
            pay_cfg_view(old(self)@.settings).mode != "mock"@ ==> final(self)@ == old(self)@ && (r matches Err(m) && m@ == msg_not_mock()),
            pay_cfg_view(old(self)@.settings).mode == "mock"@ && !has_order_no(old(self)@.orders, no@) ==> (final(self)@ == old(self)@ && (r matches Err(m) && m@ == msg_no_order())),
            pay_cfg_view(old(self)@.settings).mode == "mock"@ ==> forall|i: int|
                #![trigger old(self)@.orders[i]]
                0 <= i < old(self)@.orders.len() && old(self)@.orders[i].order_no == no@ ==> {
                    &&& exists|t: Seq<char>| final(self)@ == #[trigger] deliver_view(old(self)@, i, "mock"@, t)
                    &&& r == Ok::<i64, String>(deliver_status(old(self)@, i))
                },
    {
        let cfg = pay_config(self);
        if !str_eq(cfg.mode.as_str(), "mock") {
            return Err(copy_str("当前不是演示支付模式"));
        }
        self.deliver_order(no, "mock")
    }
}

pub open spec fn opt_or(o: Option<Seq<char>>, d: Seq<char>) -> Seq<char> {
    match o {
        Some(v) => v,
        None => d,
    }
}

impl Store {
    /// Handles the gateway's asynchronous notification: the reply to give
    /// it, and the delivery outcome when the order was delivered.  An
    /// unknown order is answered "fail: order not found", an order already
    /// done "success"; a notification that fails the check (see
    /// `verify_epay_notify`) "fail: " and the reason; otherwise the order is
    /// delivered with the notified payment type ("epay" when none) and
    /// "success" answered.
    pub fn epay_notify(&mut self, params: &Params) -> (r: (String, Option<i64>))
        requires
            old(self)@.wf(),
            params.wf(),
        ensures
            final(self)@.wf(),
            ({
                let no = opt_or(param_get(params@, "out_trade_no"@), Seq::empty());
                let s = old(self)@;
                if !has_order_no(s.orders, no) {
                    final(self)@ == s && r.0@ == "fail: order not found"@ && r.1 is None
                } else {
                    let o = order_by_no(s, no);
                    let v = notify_verdict(params@, sign_text(params@, pay_cfg_view(s.settings).key), o.total_cents as int);
                    if o.status == 1 {
                        final(self)@ == s && r.0@ == "success"@ && r.1 is None
                    } else if v is Some {
                        final(self)@ == s && r.0@ == "fail: "@ + v->0 && r.1 is None
                    } else {
                        forall|i: int|
                            #![trigger s.orders[i]]
                            0 <= i < s.orders.len() && s.orders[i].order_no == no ==> {
                                &&& exists|t: Seq<char>|
                                    final(self)@ == #[trigger] deliver_view(
                                        s,
                                        i,
                                        opt_or(param_get(params@, "type"@), "epay"@),
                                        t,
                                    )
                                &&& r.0@ == "success"@
                                &&& r.1 == Some(deliver_status(s, i))
                            }
                    }
                }
            }),
    {
        let no = match params.get("out_trade_no") {
            Some(x) => x,
            None => String::new(),
        };
        let cfg = pay_config(self);
        let order = match self.get_order_by_no(no.as_str()) {
            Some(o) => o,
            None => {
                return (copy_str("fail: order not found"), None);
            },
        };
        proof {
            lemma_order_by_no(self@, no@, order@);
        }
        if order.status == 1 {
            return (copy_str("success"), None);
        }
        match verify_epay_notify(params, &cfg, &order) {
            Err(e) => {
                return (str_cat("fail: ", e.as_str()), None);
            },
            Ok(_) => {},
        }
        let pay_type = match params.get("type") {
            Some(t) => t,
            None => copy_str("epay"),
        };
        let ghost s0 = self@;
        let ghost i = choose|i: int| 0 <= i < s0.orders.len() && s0.orders[i].order_no == no@;
        assert(s0.orders[i].order_no == no@);
        let r = self.deliver_order(no.as_str(), pay_type.as_str());
        match r {
            Ok(st) => {
                assert(pay_type@ == opt_or(param_get(params@, "type"@), "epay"@));
                assert(no@ == opt_or(param_get(params@, "out_trade_no"@), Seq::empty()));
                assert(s0.orders[i].order_no == no@);
                assert(exists|t: Seq<char>| self@ == #[trigger] deliver_view(s0, i, pay_type@, t));
                assert(Some(st) == Some(deliver_status(s0, i)));
                (copy_str("success"), Some(st))
            },
            Err(e) => (str_cat("fail: ", e.as_str()), None),
        }
    }

    /// The state of order `no` for the payment page's polling: its status
    /// and result link, or `None` when there is no such order.
    pub fn order_status(&self, no: &str) -> (r: Option<(i64, String)>)
        requires
            self@.wf(),
        ensures
            !has_order_no(self@.orders, no@) ==> r is None,
            has_order_no(self@.orders, no@) ==> (r matches Some((st, l)) && st == order_by_no(self@, no@).status
                && l@ == view_link_text(order_by_no(self@, no@))),
    {
        match self.get_order_by_no(no) {
            Some(o) => {
                proof {
                    lemma_order_by_no(self@, no@, o@);
                }
                Some((o.status, o.view_link()))
            },
            None => None,
        }
    }
}

/// The result page's query: the contact the buyer proves the order with.
pub struct ResultQ {
    pub c: Option<String>,
}

/// What the result page of an order shows.
pub enum ResultPage {
    /// No such order.
    Missing,
    /// The buyer's own order is still unpaid: go to its payment page.
    ToPay(String),
    /// The order with, for its buyer, the codes of a delivered order; the
    /// contact is shown masked.
    Show { order: Order, codes: Vec<String>, verified: bool, masked: String },
}

impl Store {
    /// The result page of order `no`: the buyer is recognised by giving the
    /// order's contact exactly.
    pub fn order_result(&self, no: &str, q: &ResultQ) -> (r: ResultPage)
        requires
            self@.wf(),
        ensures
            !has_order_no(self@.orders, no@) ==> r is Missing,
            has_order_no(self@.orders, no@) ==> {
                let o = order_by_no(self@, no@);
                let verified = or_empty(q.c).len() > 0 && or_empty(q.c) == o.contact;
                if verified && o.status == 0 {
                    r matches ResultPage::ToPay(n) && n@ == o.order_no
                } else {
                    r matches ResultPage::Show { order, codes, verified: v, masked } && order@ == o
                        && v == verified && masked@ == masked_contact(o.contact) && codes@.map_values(
                        |c: String| c@,
                    ) == if verified && o.status == 1 {
                        sold_codes(self@, o.id)
                    } else {
                        Seq::empty()
                    }
                }
            },
    {
        let order = match self.get_order_by_no(no) {
            Some(o) => o,
            None => {
                return ResultPage::Missing;
            },
        };
        proof {
            lemma_order_by_no(self@, no@, order@);
        }
        let given = match &q.c {
            Some(c) => copy_str(c.as_str()),
            None => String::new(),
        };
        let verified = given.unicode_len() > 0 && str_eq(given.as_str(), order.contact.as_str());
        if verified && order.status == 0 {
            return ResultPage::ToPay(copy_str(order.order_no.as_str()));
        }
        let codes = if verified && order.status == 1 {
            self.order_codes(order.id)
        } else {
            let e: Vec<String> = Vec::new();
            assert(e@.map_values(|c: String| c@) =~= Seq::<Seq<char>>::empty());
            e
        };
        let masked = mask_contact(order.contact.as_str());
        ResultPage::Show { order, codes, verified, masked }
    }
}

// ---------- the public pages ----------

/// The home page's query: the category chosen, if any.
pub struct IndexQ {
    pub cat: Option<i64>,
}

impl IndexQ {
    /// The category shown as active (0 for all).
    pub fn active_cat(&self) -> (r: i64)
        ensures
            r == or_zero(self.cat),
    {
        match self.cat {
            Some(c) => c,
            None => 0,
        }
    }
}

impl Store {
    /// The product page of product `id`: only a product on sale is shown.
    pub fn product_page(&self, id: i64) -> (r: Option<ProductView>)
        requires
            self@.wf(),
        ensures
            match r {
                Some(v) => crate::models::has_product(self@.products, id) && crate::models::product_of(
                    self@.products,
                    id,
                ).status == 1 && v@ == product_view(self@, crate::models::product_of(self@.products, id)),
                None => !crate::models::has_product(self@.products, id) || crate::models::product_of(
                    self@.products,
                    id,
                ).status != 1,
            },
    {
        match self.get_product_view(id) {
            Some(v) => if v.p.status == 1 {
                Some(v)
            } else {
                None
            },
            None => None,
        }
    }
}

/// The order lookup form: order number and contact, both required.
pub struct QueryQ {
    pub order_no: Option<String>,
    pub contact: Option<String>,
}

impl Store {
    /// The order lookup: the orders matching both the trimmed number and
    /// the trimmed contact, whether a search was made (a contact was given),
    /// and the two texts as trimmed.
    pub fn query_page(&self, q: &QueryQ) -> (r: (Vec<Order>, bool, String, String))
        requires
            self@.wf(),
        ensures
            r.2@ == trim(or_empty(q.order_no)),
            r.3@ == trim(or_empty(q.contact)),
            r.1 == (trim(or_empty(q.contact)).len() > 0),
            r.0@.map_values(|o: Order| o@) == if trim(or_empty(q.contact)).len() > 0
                && trim(or_empty(q.order_no)).len() > 0 {
                self@.orders.filter(
                    |o: OrderV|
                        o.order_no == trim(or_empty(q.order_no)) && o.contact == trim(
                            or_empty(q.contact),
                        ),
                )
            } else {
                Seq::empty()
            },
    {
        let no = match &q.order_no {
            Some(x) => trim_str(x.as_str()),
            None => trim_str(""),
        };
        let contact = match &q.contact {
            Some(x) => trim_str(x.as_str()),
            None => trim_str(""),
        };
        proof {
            reveal_strlit("");
        }
        if contact.unicode_len() > 0 {
            let orders = self.query_orders_by_contact(no.as_str(), contact.as_str());
            (orders, true, no, contact)
        } else {
            let e: Vec<Order> = Vec::new();
            assert(e@.map_values(|o: Order| o@) =~= Seq::<OrderV>::empty());
            (e, false, no, contact)
        }
    }
}

impl Store {
    /// The payment page of order `no` once the orders left unpaid longer
    /// than `ORDER_TTL_MIN` minutes have expired (the cutoff is read from
    /// the clock).
    pub fn pay_page_after_expiry(&mut self, no: &str) -> (r: PayPage)
        requires
            old(self)@.wf(),
        ensures
            final(self)@.wf(),
            exists|cutoff: Seq<char>| #[trigger] expired(old(self)@, cutoff) == final(self)@ && pay_page_shows(final(self)@, no@, r),
            exists|now: Seq<char>|
                crate::clock::clock_text(now) && #[trigger] expired(old(self)@, crate::clock::order_cutoff(now))
                    == final(self)@ && pay_page_shows(final(self)@, no@, r),
    {
        let _ = self.expire_stale_orders();
        self.pay_page(no)
    }
}

} // verus!
