//! Payment settings and the epay protocol: parameter sets kept in key
//! order, their MD5 signature, the checkout form, and the check of the
//! gateway's notification.

use vstd::prelude::*;
use crate::text::{
    text_lt, str_lt, str_eq, copy_str, string_of, push_str, lemma_text_lt_irrefl,
    lemma_text_lt_trans, lemma_text_lt_total,
};
use crate::util::{hex_lower, hex_lower_char};
use crate::text::{str_cat, strip_end, strip_end_str, opt_view};
use crate::like::{eq_fold, eq_ignore_ascii_case};
use crate::models::{Order, OrderV, Store};
use crate::catalog::setting_value;
use crate::money::{cents_str, cents_text, yuan_to_cents, yuan_cents, MAX_YUAN};
use crate::orders::view_link_text;

verus! {

// ---------- parameter sets ----------

/// The entries' keys are strictly increasing (so no key occurs twice).
pub open spec fn keys_sorted(s: Seq<(Seq<char>, Seq<char>)>) -> bool {
    forall|i: int, j: int| 0 <= i < j < s.len() ==> text_lt(s[i].0, s[j].0)
}

pub open spec fn has_param(s: Seq<(Seq<char>, Seq<char>)>, k: Seq<char>) -> bool {
    exists|i: int| 0 <= i < s.len() && s[i].0 == k
}

/// The value under key `k`, if any.
pub open spec fn param_get(s: Seq<(Seq<char>, Seq<char>)>, k: Seq<char>) -> Option<Seq<char>> {
    if has_param(s, k) {
        Some(s[choose|i: int| 0 <= i < s.len() && s[i].0 == k].1)
    } else {
        None
    }
}

/// `s` with `v` stored under `k`: the entry replaced where `k` is present,
/// else inserted before the first larger key.
pub open spec fn put_param(s: Seq<(Seq<char>, Seq<char>)>, k: Seq<char>, v: Seq<char>) -> Seq<
    (Seq<char>, Seq<char>),
>
    decreases s.len(),
{
    if s.len() == 0 {
        seq![(k, v)]
    } else if s[0].0 == k {
        seq![(k, v)] + s.drop_first()
    } else if text_lt(k, s[0].0) {
        seq![(k, v)] + s
    } else {
        seq![s[0]] + put_param(s.drop_first(), k, v)
    }
}

/// Character view of a list of string pairs.
pub open spec fn pairs_view(v: Seq<(String, String)>) -> Seq<(Seq<char>, Seq<char>)> {
    v.map_values(|e: (String, String)| (e.0@, e.1@))
}

/// Request parameters in key order, as a `BTreeMap<String, String>` holds
/// them.
pub struct Params {
    entries: Vec<(String, String)>,
}

impl View for Params {
    type V = Seq<(Seq<char>, Seq<char>)>;

    closed spec fn view(&self) -> Seq<(Seq<char>, Seq<char>)> {
        pairs_view(self.entries@)
    }
}

pub proof fn lemma_get_sorted(s: Seq<(Seq<char>, Seq<char>)>, i: int)
    requires
        keys_sorted(s),
        0 <= i < s.len(),
    ensures
        param_get(s, s[i].0) == Some(s[i].1),
{
    assert(has_param(s, s[i].0));
    let j = choose|j: int| 0 <= j < s.len() && s[j].0 == s[i].0;
    if j < i {
        lemma_text_lt_irrefl(s[i].0);
    } else if i < j {
        lemma_text_lt_irrefl(s[i].0);
    }
}

proof fn lemma_put_split(s: Seq<(Seq<char>, Seq<char>)>, k: Seq<char>, v: Seq<char>, p: int)
    requires
        keys_sorted(s),
        0 <= p <= s.len(),
        forall|i: int| 0 <= i < p ==> text_lt(#[trigger] s[i].0, k),
        p == s.len() || !text_lt(s[p].0, k),
    ensures
        put_param(s, k, v) == if p < s.len() && s[p].0 == k {
            s.take(p) + seq![(k, v)] + s.skip(p + 1)
        } else {
            s.take(p) + seq![(k, v)] + s.skip(p)
        },
    decreases p,
{
    if p == 0 {
        if s.len() > 0 && s[0].0 != k {
            lemma_text_lt_total(s[0].0, k);
        }
        assert(s.take(0) + seq![(k, v)] + s.skip(0) =~= seq![(k, v)] + s);
        assert(s.take(0) + seq![(k, v)] + s.skip(1) =~= seq![(k, v)] + s.drop_first());
    } else {
        assert(text_lt(s[0].0, k));
        lemma_text_lt_irrefl(k);
        if text_lt(k, s[0].0) {
            lemma_text_lt_trans(k, s[0].0, k);
        }
        let t = s.drop_first();
        assert forall|i: int| 0 <= i < p - 1 implies text_lt(#[trigger] t[i].0, k) by {
            assert(t[i] == s[i + 1]);
        }
        lemma_put_split(t, k, v, p - 1);
        if p < s.len() && s[p].0 == k {
            assert(seq![s[0]] + (t.take(p - 1) + seq![(k, v)] + t.skip(p)) =~= s.take(p) + seq![(k, v)]
                + s.skip(p + 1));
        } else {
            assert(seq![s[0]] + (t.take(p - 1) + seq![(k, v)] + t.skip(p - 1)) =~= s.take(p) + seq![
                (k, v),
            ] + s.skip(p));
        }
    }
}

impl Params {
    /// Keys in strictly increasing order.
    pub open spec fn wf(&self) -> bool {
        keys_sorted(self@)
    }

    /// An empty parameter set.
    pub fn new() -> (p: Params)
        ensures
            p@ == Seq::<(Seq<char>, Seq<char>)>::empty(),
            p.wf(),
    {
        let p = Params { entries: Vec::new() };
        assert(p@ =~= Seq::<(Seq<char>, Seq<char>)>::empty());
        p
    }

    /// Stores `v` under `k`, in key order, replacing an earlier value.
    pub fn insert(&mut self, k: &str, v: &str)
        requires
            old(self).wf(),
        ensures
            final(self).wf(),
            final(self)@ == put_param(old(self)@, k@, v@),
            param_get(final(self)@, k@) == Some(v@),
    {
        let ghost s = self@;
        let mut p: usize = 0;
        while p < self.entries.len() && str_lt(self.entries[p].0.as_str(), k)
            invariant
                s == self@,
                s.len() == self.entries@.len(),
                p <= s.len(),
                forall|i: int| 0 <= i < p ==> text_lt(#[trigger] s[i].0, k@),
            decreases s.len() - p,
        {
            p = p + 1;
        }
        proof {
            lemma_put_split(s, k@, v@, p as int);
        }
        let e = (copy_str(k), copy_str(v));
        if p < self.entries.len() && str_eq(self.entries[p].0.as_str(), k) {
            self.entries.set(p, e);
            proof {
                assert(self@ =~= s.take(p as int) + seq![(k@, v@)] + s.skip(p + 1));
            }
        } else {
            self.entries.insert(p, e);
            proof {
                assert(self@ =~= s.take(p as int) + seq![(k@, v@)] + s.skip(p as int));
            }
        }
        proof {
            let r = self@;
            assert(r[p as int] == (k@, v@));
            assert forall|i: int, j: int| 0 <= i < j < r.len() implies text_lt(r[i].0, r[j].0) by {
                if j < p {
                    assert(r[i] == s[i] && r[j] == s[j]);
                } else if j == p {
                    assert(r[i] == s[i]);
                } else {
                    // r[j] is an entry of s after the position
                    let sj = if r.len() == s.len() { j } else { j - 1 };
                    assert(r[j] == s[sj]);
                    assert(!text_lt(s[p as int].0, k@));
                    if s[p as int].0 != k@ {
                        lemma_text_lt_total(s[p as int].0, k@);
                    }
                    if sj > p {
                        if s[p as int].0 == k@ {
                        } else {
                            lemma_text_lt_trans(k@, s[p as int].0, s[sj].0);
                        }
                    }
                    if i < p {
                        assert(r[i] == s[i]);
                        lemma_text_lt_trans(s[i].0, k@, r[j].0);
                    } else if i > p {
                        let si = if r.len() == s.len() { i } else { i - 1 };
                        assert(r[i] == s[si]);
                    }
                }
            }
            lemma_get_sorted(r, p as int);
        }
    }

    /// The value under `k`, if any.
    pub fn get(&self, k: &str) -> (r: Option<String>)
        requires
            self.wf(),
        ensures
            crate::text::opt_view(r) == param_get(self@, k@),
    {
        let ghost s = self@;
        let mut i: usize = 0;
        while i < self.entries.len()
            invariant
                s == self@,
                keys_sorted(s),
                s.len() == self.entries@.len(),
                i <= s.len(),
                forall|j: int| 0 <= j < i ==> (#[trigger] s[j]).0 != k@,
            decreases s.len() - i,
        {
            if str_eq(self.entries[i].0.as_str(), k) {
                proof {
                    lemma_get_sorted(s, i as int);
                }
                return Some(copy_str(self.entries[i].1.as_str()));
            }
            i = i + 1;
        }
        None
    }
}

// ---------- signature ----------

/// Whether an entry takes part in the signature: a non-empty value under a
/// key other than `sign` and `sign_type`.
pub open spec fn signed_field(e: (Seq<char>, Seq<char>)) -> bool {
    e.1.len() > 0 && e.0 != "sign"@ && e.0 != "sign_type"@
}

/// The signed entries as "k=v", joined by '&', in the order given.
pub open spec fn sign_pairs(s: Seq<(Seq<char>, Seq<char>)>) -> Seq<char>
    decreases s.len(),
{
    if s.len() == 0 {
        Seq::empty()
    } else {
        let rest = sign_pairs(s.drop_last());
        let e = s.last();
        if !signed_field(e) {
            rest
        } else if rest.len() == 0 {
            e.0 + seq!['='] + e.1
        } else {
            rest + seq!['&'] + e.0 + seq!['='] + e.1
        }
    }
}

/// Lower-case hexadecimal digits of bytes, two per byte.
pub open spec fn hex_text(b: Seq<u8>) -> Seq<char>
    decreases b.len(),
{
    if b.len() == 0 {
        Seq::empty()
    } else {
        hex_text(b.drop_last()) + seq![
            hex_lower((b.last() / 16) as int),
            hex_lower((b.last() % 16) as int),
        ]
    }
}

/// The MD5 digest of bytes, as `md5::compute` returns it.
pub uninterp spec fn md5_digest(data: Seq<u8>) -> Seq<u8>;

/// The epay signature of parameters `s` under the merchant key `key`: the
/// lower-case hex MD5 of the signed pairs followed by the key.
pub open spec fn sign_text(s: Seq<(Seq<char>, Seq<char>)>, key: Seq<char>) -> Seq<char> {
    hex_text(md5_digest(vstd::utf8::encode_utf8(sign_pairs(s) + key)))
}

/// The MD5 digest of `data` (`md5::compute`), as its sixteen bytes; which
/// bytes these are is named by `md5_digest`, not stated.
#[verifier::external_body]
fn md5_bytes(data: &[u8]) -> (r: Vec<u8>)
    ensures
        r@ == md5_digest(data@),
        r@.len() == 16,
{
    md5::compute(data).0.to_vec()
}

/// Bytes as lower-case hex, two digits per byte (`{:02x}` on each).
pub fn hex_of(d: &[u8]) -> (r: String)
    ensures
        r@ == hex_text(d@),
{
    let mut v: Vec<char> = Vec::new();
    let mut i: usize = 0;
    assert(d@.take(0) =~= Seq::<u8>::empty());
    while i < d.len()
        invariant
            i <= d@.len(),
            v@ == hex_text(d@.take(i as int)),
        decreases d@.len() - i,
    {
        let b = d[i];
        proof {
            assert(d@.take(i + 1).drop_last() =~= d@.take(i as int));
            assert(d@.take(i + 1).last() == b);
        }
        v.push(hex_lower_char((b / 16) as u32));
        v.push(hex_lower_char((b % 16) as u32));
        i = i + 1;
    }
    assert(d@.take(d@.len() as int) =~= d@);
    string_of(v.as_slice())
}

/// The epay signature of a list of pairs under `key`.
pub fn sign_entries(entries: &[(String, String)], key: &str) -> (r: String)
    ensures
        r@ == sign_text(pairs_view(entries@), key@),
{
    let ghost s = pairs_view(entries@);
    let mut v: Vec<char> = Vec::new();
    let mut i: usize = 0;
    assert(s.take(0) =~= Seq::<(Seq<char>, Seq<char>)>::empty());
    while i < entries.len()
        invariant
            s == pairs_view(entries@),
            i <= entries@.len(),
            v@ == sign_pairs(s.take(i as int)),
        decreases entries@.len() - i,
    {
        let e = &entries[i];
        proof {
            assert(s.take(i + 1).drop_last() =~= s.take(i as int));
            assert(s.take(i + 1).last() == (e.0@, e.1@));
        }
        if e.1.unicode_len() > 0 && !str_eq(e.0.as_str(), "sign") && !str_eq(e.0.as_str(), "sign_type") {
            if v.len() > 0 {
                v.push('&');
            }
            push_str(&mut v, e.0.as_str());
            v.push('=');
            push_str(&mut v, e.1.as_str());
        }
        i = i + 1;
    }
    assert(s.take(entries@.len() as int) =~= s);
    push_str(&mut v, key);
    let base = string_of(v.as_slice());
    let d = md5_bytes(base.as_str().as_bytes());
    hex_of(d.as_slice())
}

/// The epay signature of a parameter set under `key`: signed pairs in key
/// order, then the key, hashed with MD5 and written in lower-case hex.
pub fn epay_sign(params: &Params, key: &str) -> (r: String)
    ensures
        r@ == sign_text(params@, key@),
{
    sign_entries(params.entries.as_slice(), key)
}

// ---------- configuration ----------

/// Payment settings of the shop.
pub struct PayConfig {
    /// "epay" or "mock".
    pub mode: String,
    pub gateway: String,
    pub pid: String,
    pub key: String,
    /// The site's address without trailing '/'.
    pub site_url: String,
    /// Alipay offered at checkout.
    pub alipay: bool,
    /// WeChat Pay offered at checkout.
    pub wxpay: bool,
}

pub struct PayConfigV {
    pub mode: Seq<char>,
    pub gateway: Seq<char>,
    pub pid: Seq<char>,
    pub key: Seq<char>,
    pub site_url: Seq<char>,
    pub alipay: bool,
    pub wxpay: bool,
}

impl View for PayConfig {
    type V = PayConfigV;

    open spec fn view(&self) -> PayConfigV {
        PayConfigV {
            mode: self.mode@,
            gateway: self.gateway@,
            pid: self.pid@,
            key: self.key@,
            site_url: self.site_url@,
            alipay: self.alipay,
            wxpay: self.wxpay,
        }
    }
}

/// The payment settings held in `st`: mode "epay" when so set and "mock"
/// otherwise, the site address without trailing slashes, and each channel
/// on when its setting is "1".
pub open spec fn pay_cfg_view(st: Seq<(Seq<char>, Seq<char>)>) -> PayConfigV {
    PayConfigV {
        mode: if setting_value(st, "pay_mode"@) == "epay"@ {
            "epay"@
        } else {
            "mock"@
        },
        gateway: setting_value(st, "epay_gateway"@),
        pid: setting_value(st, "epay_pid"@),
        key: setting_value(st, "epay_key"@),
        site_url: strip_end(setting_value(st, "site_url"@), '/'),
        alipay: setting_value(st, "epay_alipay"@) == "1"@,
        wxpay: setting_value(st, "epay_wxpay"@) == "1"@,
    }
}

/// The gateway can be used: epay mode with gateway, merchant id and key all
/// set.
pub open spec fn epay_usable(c: PayConfigV) -> bool {
    c.mode == "epay"@ && c.gateway.len() > 0 && c.pid.len() > 0 && c.key.len() > 0
}

/// The payment settings stored in the shop (see `pay_cfg_view`).
pub fn pay_config(store: &Store) -> (r: PayConfig)
    requires
        store@.wf(),
    ensures
        r@ == pay_cfg_view(store@.settings),
{
    let m = store.get_setting("pay_mode");
    let mode = if str_eq(m.as_str(), "epay") {
        m
    } else {
        copy_str("mock")
    };
    let u = store.get_setting("site_url");
    let a = store.get_setting("epay_alipay");
    let w = store.get_setting("epay_wxpay");
    PayConfig {
        mode,
        gateway: store.get_setting("epay_gateway"),
        pid: store.get_setting("epay_pid"),
        key: store.get_setting("epay_key"),
        site_url: strip_end_str(u.as_str(), '/'),
        alipay: str_eq(a.as_str(), "1"),
        wxpay: str_eq(w.as_str(), "1"),
    }
}

impl PayConfig {
    /// The gateway can be used: epay mode with gateway, merchant id and key
    /// all set.
    pub fn epay_ready(&self) -> (r: bool)
        ensures
            r == epay_usable(self@),
    {
        str_eq(self.mode.as_str(), "epay") && self.gateway.unicode_len() > 0
            && self.pid.unicode_len() > 0 && self.key.unicode_len() > 0
    }
}

// ---------- checkout form ----------

/// The unsigned checkout parameters of order `o`, in key order; `type` only
/// when a channel is chosen.
pub open spec fn checkout_base(o: OrderV, pid: Seq<char>, site: Seq<char>, pay_type: Seq<char>) -> Seq<
    (Seq<char>, Seq<char>),
> {
    seq![
        ("money"@, cents_text(o.total_cents as int)),
        ("name"@, o.product_name),
        ("notify_url"@, site + "/api/pay/epay/notify"@),
        ("out_trade_no"@, o.order_no),
        ("pid"@, pid),
        ("return_url"@, site + view_link_text(o)),
    ] + if pay_type.len() > 0 {
        seq![("type"@, pay_type)]
    } else {
        Seq::empty()
    }
}

/// The checkout form: the parameters with their signature and its type
/// placed in key order.
pub open spec fn checkout_fields(
    o: OrderV,
    pid: Seq<char>,
    site: Seq<char>,
    pay_type: Seq<char>,
    key: Seq<char>,
) -> Seq<(Seq<char>, Seq<char>)> {
    let b = checkout_base(o, pid, site, pay_type);
    b.take(6) + seq![("sign"@, sign_text(b, key)), ("sign_type"@, "MD5"@)] + b.skip(6)
}

fn pair(k: &str, v: String) -> (r: (String, String))
    ensures
        r.0@ == k@,
        r.1@ == v@,
{
    (copy_str(k), v)
}

/// The fields of the form that sends the buyer to the epay checkout
/// (`pay_type` "alipay", "wxpay", or empty for the gateway's own choice).
pub fn epay_form_fields(order: &Order, cfg: &PayConfig, pay_type: &str) -> (r: Vec<(String, String)>)
    ensures
        pairs_view(r@) == checkout_fields(order@, cfg.pid@, cfg.site_url@, pay_type@, cfg.key@),
{
    let mut v: Vec<(String, String)> = Vec::new();
    v.push(pair("money", cents_str(order.total_cents)));
    v.push(pair("name", copy_str(order.product_name.as_str())));
    v.push(pair("notify_url", str_cat(cfg.site_url.as_str(), "/api/pay/epay/notify")));
    v.push(pair("out_trade_no", copy_str(order.order_no.as_str())));
    v.push(pair("pid", copy_str(cfg.pid.as_str())));
    let link = order.view_link();
    v.push(pair("return_url", str_cat(cfg.site_url.as_str(), link.as_str())));
    if pay_type.unicode_len() > 0 {
        v.push(pair("type", copy_str(pay_type)));
    }
    let ghost b = checkout_base(order@, cfg.pid@, cfg.site_url@, pay_type@);
    assert(pairs_view(v@) =~= b);
    let sign = sign_entries(v.as_slice(), cfg.key.as_str());
    v.insert(6, pair("sign", sign));
    v.insert(7, pair("sign_type", copy_str("MD5")));
    assert(pairs_view(v@) =~= checkout_fields(order@, cfg.pid@, cfg.site_url@, pay_type@, cfg.key@));
    v
}

/// A way to pay offered at checkout.
pub struct PayChannel {
    /// The `type` sent to the gateway (empty: the gateway lets the buyer
    /// choose).
    pub pay_type: String,
    pub label: String,
    pub fields: Vec<(String, String)>,
}

/// The channels offered, as (type, label): those switched on, or the
/// gateway's own choice when none is.
pub open spec fn channel_list(alipay: bool, wxpay: bool) -> Seq<(Seq<char>, Seq<char>)> {
    if alipay || wxpay {
        (if alipay {
            seq![("alipay"@, "支付宝"@)]
        } else {
            Seq::empty()
        }) + (if wxpay {
            seq![("wxpay"@, "微信支付"@)]
        } else {
            Seq::empty()
        })
    } else {
        seq![(Seq::<char>::empty(), "其他方式"@)]
    }
}

impl PayConfig {
    fn channel(&self, order: &Order, pay_type: &str, label: &str) -> (r: PayChannel)
        ensures
            r.pay_type@ == pay_type@,
            r.label@ == label@,
            pairs_view(r.fields@) == checkout_fields(order@, self.pid@, self.site_url@, pay_type@, self.key@),
    {
        PayChannel {
            pay_type: copy_str(pay_type),
            label: copy_str(label),
            fields: epay_form_fields(order, self, pay_type),
        }
    }

    /// The checkout channels for `order`, each with its signed form.
    pub fn channels(&self, order: &Order) -> (r: Vec<PayChannel>)
        ensures
            r@.len() == channel_list(self.alipay, self.wxpay).len(),
            forall|i: int|
                0 <= i < r@.len() ==> {
                    &&& (#[trigger] r@[i]).pay_type@ == channel_list(self.alipay, self.wxpay)[i].0
                    &&& r@[i].label@ == channel_list(self.alipay, self.wxpay)[i].1
                    &&& pairs_view(r@[i].fields@) == checkout_fields(
                        order@,
                        self.pid@,
                        self.site_url@,
                        channel_list(self.alipay, self.wxpay)[i].0,
                        self.key@,
                    )
                },
    {
        let mut r: Vec<PayChannel> = Vec::new();
        if self.alipay {
            r.push(self.channel(order, "alipay", "支付宝"));
        }
        if self.wxpay {
            r.push(self.channel(order, "wxpay", "微信支付"));
        }
        if !self.alipay && !self.wxpay {
            let e = String::new();
            r.push(self.channel(order, e.as_str(), "其他方式"));
        }
        proof {
            let l = channel_list(self.alipay, self.wxpay);
            if self.alipay && self.wxpay {
                assert(l =~= seq![("alipay"@, "支付宝"@), ("wxpay"@, "微信支付"@)]);
            } else if self.alipay {
                assert(l =~= seq![("alipay"@, "支付宝"@)]);
            } else if self.wxpay {
                assert(l =~= seq![("wxpay"@, "微信支付"@)]);
            }
        }
        r
    }
}

// ---------- notification ----------

pub open spec fn or_empty(o: Option<Seq<char>>) -> Seq<char> {
    match o {
        Some(v) => v,
        None => Seq::empty(),
    }
}

/// The refusal of a notification with parameters `s`, when the expected
/// signature is `expect` and the order's total `total` cents; `None` when
/// it is accepted.
pub open spec fn notify_verdict(s: Seq<(Seq<char>, Seq<char>)>, expect: Seq<char>, total: int) -> Option<
    Seq<char>,
> {
    let given = or_empty(param_get(s, "sign"@));
    if given.len() == 0 {
        Some("缺少签名"@)
    } else if !eq_fold(expect, given) {
        Some("签名校验失败"@)
    } else if param_get(s, "trade_status"@) != Some("TRADE_SUCCESS"@) {
        Some("交易状态非成功"@)
    } else {
        let money = or_empty(param_get(s, "money"@));
        let paid = match yuan_cents(money) {
            Some(c) => c,
            None => -1,
        };
        if paid != total {
            Some("金额不一致：应付 "@ + cents_text(total) + " 实付 "@ + money)
        } else {
            None
        }
    }
}

fn get_or_empty(params: &Params, k: &str) -> (r: String)
    requires
        params.wf(),
    ensures
        r@ == or_empty(param_get(params@, k@)),
{
    match params.get(k) {
        Some(v) => v,
        None => String::new(),
    }
}

/// Checks a notification against the signature `expect` computed for it
/// and the order's total: a signature must be given and equal `expect`
/// up to ASCII case, the trade must have succeeded, and the amount paid
/// must be the total.
pub fn check_epay_notify(params: &Params, expect: &str, total_cents: i64) -> (r: Result<(), String>)
    requires
        params.wf(),
    ensures
        match r {
            Ok(_) => notify_verdict(params@, expect@, total_cents as int) is None,
            Err(e) => notify_verdict(params@, expect@, total_cents as int) == Some(e@),
        },
{
    let given = get_or_empty(params, "sign");
    if given.unicode_len() == 0 {
        return Err(copy_str("缺少签名"));
    }
    if !eq_ignore_ascii_case(expect, given.as_str()) {
        return Err(copy_str("签名校验失败"));
    }
    let status_ok = match params.get("trade_status") {
        Some(t) => str_eq(t.as_str(), "TRADE_SUCCESS"),
        None => false,
    };
    if !status_ok {
        return Err(copy_str("交易状态非成功"));
    }
    let money = get_or_empty(params, "money");
    let paid: i64 = match yuan_to_cents(money.as_str()) {
        Some(c) => c,
        None => -1,
    };
    if paid != total_cents {
        let t = cents_str(total_cents);
        let a = str_cat("金额不一致：应付 ", t.as_str());
        let b = str_cat(a.as_str(), " 实付 ");
        return Err(str_cat(b.as_str(), money.as_str()));
    }
    Ok(())
}

/// Checks the gateway's asynchronous notification for `order`: the
/// signature recomputed with the merchant key, the trade status and the
/// amount (see `check_epay_notify`).
pub fn verify_epay_notify(params: &Params, cfg: &PayConfig, order: &Order) -> (r: Result<(), String>)
    requires
        params.wf(),
    ensures
        match r {
            Ok(_) => notify_verdict(params@, sign_text(params@, cfg.key@), order.total_cents as int) is None,
            Err(e) => notify_verdict(params@, sign_text(params@, cfg.key@), order.total_cents as int) == Some(e@),
        },
{
    let expect = epay_sign(params, cfg.key.as_str());
    check_epay_notify(params, expect.as_str(), order.total_cents)
}

// ---------- laws ----------

pub proof fn lemma_hex_len(b: Seq<u8>)
    ensures
        hex_text(b).len() == 2 * b.len(),
    decreases b.len(),
{
    if b.len() > 0 {
        lemma_hex_len(b.drop_last());
    }
}

/// An entry that takes no part in the signature (an empty value, or the
/// key `sign` or `sign_type`) leaves the signature unchanged, wherever it
/// stands.
pub proof fn law_sign_ignores_unsigned(
    s: Seq<(Seq<char>, Seq<char>)>,
    i: int,
    e: (Seq<char>, Seq<char>),
    key: Seq<char>,
)
    requires
        0 <= i <= s.len(),
        !signed_field(e),
    ensures
        sign_pairs(s.insert(i, e)) == sign_pairs(s),
        sign_text(s.insert(i, e), key) == sign_text(s, key),
    decreases s.len(),
{
    let t = s.insert(i, e);
    if i == s.len() {
        assert(t.drop_last() =~= s);
        assert(t.last() == e);
    } else {
        assert(t.drop_last() =~= s.drop_last().insert(i, e));
        assert(t.last() == s.last());
        law_sign_ignores_unsigned(s.drop_last(), i, e, key);
    }
}

/// Where a key goes among sorted entries: after those with smaller keys.
spec fn put_pos(s: Seq<(Seq<char>, Seq<char>)>, k: Seq<char>) -> int
    decreases s.len(),
{
    if s.len() == 0 || !text_lt(s[0].0, k) {
        0
    } else {
        1 + put_pos(s.drop_first(), k)
    }
}

proof fn lemma_put_pos(s: Seq<(Seq<char>, Seq<char>)>, k: Seq<char>)
    ensures
        0 <= put_pos(s, k) <= s.len(),
        forall|i: int| 0 <= i < put_pos(s, k) ==> text_lt(#[trigger] s[i].0, k),
        put_pos(s, k) == s.len() || !text_lt(s[put_pos(s, k)].0, k),
    decreases s.len(),
{
    if s.len() > 0 && text_lt(s[0].0, k) {
        let t = s.drop_first();
        lemma_put_pos(t, k);
        assert forall|i: int| 0 <= i < put_pos(s, k) implies text_lt(#[trigger] s[i].0, k) by {
            if i > 0 {
                assert(s[i] == t[i - 1]);
            }
        }
        if put_pos(s, k) < s.len() {
            assert(s[put_pos(s, k)] == t[put_pos(t, k)]);
        }
    }
}

/// Storing a parameter that takes no part in the signature (keyed `sign`
/// or `sign_type`, or with an empty value) in place of none or of another
/// such value leaves the signature as it was: `Params::insert` followed by
/// `epay_sign` gives what `epay_sign` gave before.
pub proof fn law_params_unsigned_insert(
    s: Seq<(Seq<char>, Seq<char>)>,
    k: Seq<char>,
    v: Seq<char>,
    key: Seq<char>,
)
    requires
        keys_sorted(s),
        !signed_field((k, v)),
        param_get(s, k) matches Some(old) ==> !signed_field((k, old)),
    ensures
        sign_text(put_param(s, k, v), key) == sign_text(s, key),
{
    lemma_put_pos(s, k);
    let p = put_pos(s, k);
    lemma_put_split(s, k, v, p);
    if p < s.len() && s[p].0 == k {
        lemma_get_sorted(s, p);
        let r = s.remove(p);
        assert(s.take(p) + seq![(k, v)] + s.skip(p + 1) =~= r.insert(p, (k, v)));
        assert(s =~= r.insert(p, s[p]));
        law_sign_ignores_unsigned(r, p, (k, v), key);
        law_sign_ignores_unsigned(r, p, s[p], key);
    } else {
        assert(s.take(p) + seq![(k, v)] + s.skip(p) =~= s.insert(p, (k, v)));
        law_sign_ignores_unsigned(s, p, (k, v), key);
    }
}

/// The checkout form carries the signature of its own fields: recomputed
/// over the whole form, signature fields included, it is the value under
/// `sign`.
pub proof fn law_checkout_form_verifies(
    o: OrderV,
    pid: Seq<char>,
    site: Seq<char>,
    pay_type: Seq<char>,
    key: Seq<char>,
)
    ensures
        checkout_fields(o, pid, site, pay_type, key)[6] == ("sign"@, sign_text(
            checkout_fields(o, pid, site, pay_type, key),
            key,
        )),
        checkout_fields(o, pid, site, pay_type, key)[7] == ("sign_type"@, "MD5"@),
{
    let b = checkout_base(o, pid, site, pay_type);
    let x = ("sign"@, sign_text(b, key));
    let y = ("sign_type"@, "MD5"@);
    let f = checkout_fields(o, pid, site, pay_type, key);
    assert(f =~= b.insert(6, x).insert(7, y));
    law_sign_ignores_unsigned(b, 6, x, key);
    law_sign_ignores_unsigned(b.insert(6, x), 7, y, key);
}

/// A notification is accepted when it carries the signature computed over
/// its parameters with the merchant key (in any letter case), reports a
/// successful trade, and pays exactly the order's total.
pub proof fn law_signed_notify_accepted(
    s: Seq<(Seq<char>, Seq<char>)>,
    key: Seq<char>,
    given: Seq<char>,
    total: int,
)
    requires
        md5_digest(vstd::utf8::encode_utf8(sign_pairs(s) + key)).len() == 16,
        param_get(s, "sign"@) == Some(given),
        eq_fold(sign_text(s, key), given),
        param_get(s, "trade_status"@) == Some("TRADE_SUCCESS"@),
        param_get(s, "money"@) == Some(cents_text(total)),
        0 <= total <= MAX_YUAN * 100 + 99,
    ensures
        notify_verdict(s, sign_text(s, key), total) is None,
{
    lemma_hex_len(md5_digest(vstd::utf8::encode_utf8(sign_pairs(s) + key)));
    crate::money::law_cents_roundtrip(total);
}

/// A notification whose amount does not read as the order's total is
/// refused, whatever else it carries.
pub proof fn law_wrong_amount_refused(s: Seq<(Seq<char>, Seq<char>)>, expect: Seq<char>, total: int)
    requires
        yuan_cents(or_empty(param_get(s, "money"@))) != Some(total),
        total >= 0,
    ensures
        notify_verdict(s, expect, total) is Some,
{
}

} // verus!
