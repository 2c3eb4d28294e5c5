//! Demonstration data for a new shop: three categories, eight products on
//! sale and a stock of random card codes for each, so that the whole
//! buying flow can be tried at once.

use vstd::prelude::*;
use crate::models::{Store, StoreV, Card, CardV, CategoryRowV, ProductRecordV, CARD_ON_SALE, msg_full};
use crate::catalog::product_row;
use crate::text::{chars_eq, chars_of, copy_str, string_of};

use crate::util::random_below;

verus! {

/// Characters of demonstration codes: capital letters and digits without
/// the easily confused `I`, `O`, `0` and `1`.
pub open spec fn demo_char(c: char) -> bool {
    ('A' <= c && c <= 'Z' && c != 'I' && c != 'O') || ('2' <= c && c <= '9')
}

/// A demonstration code: "XS-" and three groups of four such characters
/// separated by '-'.
pub open spec fn demo_code_ok(s: Seq<char>) -> bool {
    &&& s.len() == 17
    &&& s[0] == 'X' && s[1] == 'S' && s[2] == '-' && s[7] == '-' && s[12] == '-'
    &&& forall|i: int|
        0 <= i < 17 && i != 0 && i != 1 && i != 2 && i != 7 && i != 12 ==> demo_char(#[trigger] s[i])
}

fn demo_char_at(i: u32) -> (c: char)
    requires
        i < 32,
    ensures
        demo_char(c),
{
    if i < 8 {
        ((0x41 + i) as u8) as char
    } else if i < 13 {
        ((0x42 + i) as u8) as char
    } else if i < 24 {
        ((0x43 + i) as u8) as char
    } else {
        ((0x32 + i - 24) as u8) as char
    }
}

fn push_group(v: &mut Vec<char>)
    ensures
        final(v)@.len() == old(v)@.len() + 4,
        forall|i: int| 0 <= i < old(v)@.len() ==> final(v)@[i] == old(v)@[i],
        forall|i: int| old(v)@.len() <= i < final(v)@.len() ==> demo_char(#[trigger] final(v)@[i]),
{
    let mut k: usize = 0;
    let ghost v0 = v@;
    while k < 4
        invariant
            k <= 4,
            v@.len() == v0.len() + k,
            forall|i: int| 0 <= i < v0.len() ==> v@[i] == v0[i],
            forall|i: int| v0.len() <= i < v@.len() ==> demo_char(#[trigger] v@[i]),
        decreases 4 - k,
    {
        let r = random_below(32);
        v.push(demo_char_at(r));
        k = k + 1;
    }
}

/// A random demonstration code.
pub fn demo_code() -> (r: Vec<char>)
    ensures
        demo_code_ok(r@),
{
    let mut v: Vec<char> = Vec::new();
    v.push('X');
    v.push('S');
    v.push('-');
    push_group(&mut v);
    v.push('-');
    push_group(&mut v);
    v.push('-');
    push_group(&mut v);
    v
}

/// The demonstration categories: name and sort key.
pub open spec fn demo_categories() -> Seq<(Seq<char>, i64)> {
    seq![("游戏点卡"@, 30i64), ("视频会员"@, 20i64), ("软件服务"@, 10i64)]
}

/// The demonstration products: category (index into the categories),
/// name, description, price in cents, and number of cards.
pub open spec fn demo_products() -> Seq<(int, Seq<char>, Seq<char>, i64, nat)> {
    seq![
        (0int, "手游月卡 · 直充卡密"@, "适用于主流手游月卡兑换。\n使用方法：游戏内「设置 → 兑换码」输入卡密即可。\n卡密自动发货，售出后不退不换，请确认区服后购买。"@, 2980i64, 35nat),
        (0int, "游戏点卡 100 元面值"@, "通用点卡，面值 100 元。\n充值入口见发货卡密附带说明链接。\n24 小时自动发货。"@, 9500i64, 18nat),
        (0int, "游戏加速器 · 30 天"@, "全平台加速器月卡兑换码。\n支持电脑 / 主机 / 手机三端，一码通用。\n激活后 30 天有效。"@, 1900i64, 6nat),
        (1int, "视频会员 · 月卡"@, "视频平台会员月卡激活码。\n官网「兑换中心」输入卡密激活，即时到账。\n请勿重复兑换。"@, 1500i64, 42nat),
        (1int, "视频会员 · 年卡"@, "视频平台会员年卡激活码，一次到手 12 个月。\n官网「兑换中心」输入卡密激活。\n年卡专属客服通道。"@, 12800i64, 9nat),
        (1int, "音乐会员 · 季卡"@, "音乐平台豪华会员 3 个月兑换码。\n兑换路径：APP → 我的 → 兑换码。"@, 3500i64, 27nat),
        (2int, "系统激活码 · 专业版"@, "操作系统专业版数字许可证。\n联网自动激活，永久有效，支持重装。\n附激活教程，售后 90 天。"@, 2500i64, 15nat),
        (2int, "办公套件 · 年度授权"@, "办公全家桶年度订阅兑换码。\n支持 5 台设备同时使用，含云存储空间。"@, 9900i64, 3nat),
    ]
}

/// Where each product's cards start among the new cards, and (last) how
/// many there are in all.
pub open spec fn demo_offsets() -> Seq<nat> {
    seq![0nat, 35nat, 53nat, 59nat, 101nat, 110nat, 137nat, 152nat, 155nat]
}

/// The category rows added to `s`.
pub open spec fn demo_category_rows(s: StoreV) -> Seq<CategoryRowV> {
    Seq::new(
        3,
        |k: int|
            CategoryRowV {
                id: (s.category_seq + 1 + k) as i64,
                name: demo_categories()[k].0,
                sort: demo_categories()[k].1,
            },
    )
}

/// The product rows added to `s`, created at `now`: on sale, sort key 0,
/// no image.
pub open spec fn demo_product_rows(s: StoreV, now: Seq<char>) -> Seq<ProductRecordV> {
    Seq::new(
        8,
        |k: int|
            ProductRecordV {
                product: product_row(
                    (s.product_seq + 1 + k) as i64,
                    (s.category_seq + 1 + demo_products()[k].0) as i64,
                    demo_products()[k].1,
                    demo_products()[k].2,
                    Seq::empty(),
                    demo_products()[k].3,
                    1,
                    0,
                ),
                created_at: now,
            },
    )
}

/// A new demonstration card of product `pid`.
pub open spec fn demo_card(c: CardV, pid: i64) -> bool {
    c.product_id == pid && c.status == CARD_ON_SALE && c.order_id is None && demo_code_ok(c.code)
}

/// The ids the demonstration data needs are still free.
pub open spec fn demo_fits(s: StoreV) -> bool {
    s.category_seq <= i64::MAX - 3 && s.product_seq <= i64::MAX - 8 && s.card_seq <= i64::MAX - 155
}

/// Which of the eight demonstration products the `j`-th new card belongs
/// to (see `demo_offsets`).
pub open spec fn demo_slot(j: int) -> int {
    if j < 35 {
        0
    } else if j < 53 {
        1
    } else if j < 59 {
        2
    } else if j < 101 {
        3
    } else if j < 110 {
        4
    } else if j < 137 {
        5
    } else if j < 152 {
        6
    } else {
        7
    }
}

/// Some card, of whatever product, has code `code`.
pub open spec fn code_taken(cs: Seq<CardV>, code: Seq<char>) -> bool {
    exists|i: int| 0 <= i < cs.len() && cs[i].code == code
}

/// A demonstration card: id `id`, product `pid`, on sale, created at `now`.
pub open spec fn demo_card_row(id: i64, pid: i64, code: Seq<char>, now: Seq<char>) -> CardV {
    CardV { id, product_id: pid, code, status: CARD_ON_SALE, order_id: None, created_at: now, sold_at: None }
}

/// One drawn code, the new cards being those from index `base` on and the
/// first demonstration product having id `first`: once all 155 cards are
/// there, or when some card already has the code, nothing changes;
/// otherwise the code becomes the next card, of the product whose turn it
/// is, with the next id.
pub open spec fn demo_step(
    cs: Seq<CardV>,
    seq: i64,
    base: int,
    first: i64,
    code: Seq<char>,
    now: Seq<char>,
) -> (Seq<CardV>, i64) {
    let j = cs.len() - base;
    if j >= 155 || code_taken(cs, code) {
        (cs, seq)
    } else {
        let id = (seq + 1) as i64;
        (cs.push(demo_card_row(id, (first + demo_slot(j)) as i64, code, now)), id)
    }
}

/// The drawn codes taken in order, one `demo_step` each.
pub open spec fn demo_fill(
    cs: Seq<CardV>,
    seq: i64,
    base: int,
    first: i64,
    draws: Seq<Seq<char>>,
    now: Seq<char>,
) -> (Seq<CardV>, i64)
    decreases draws.len(),
{
    if draws.len() == 0 {
        (cs, seq)
    } else {
        let (c, q) = demo_fill(cs, seq, base, first, draws.drop_last(), now);
        demo_step(c, q, base, first, draws.last(), now)
    }
}

/// `s` with the demonstration categories and products (created at `now`)
/// added, and no cards yet.
pub open spec fn demo_rows_added(s: StoreV, now: Seq<char>) -> StoreV {
    StoreV {
        categories: s.categories + demo_category_rows(s),
        products: s.products + demo_product_rows(s, now),
        category_seq: (s.category_seq + 3) as i64,
        product_seq: (s.product_seq + 8) as i64,
        ..s
    }
}

/// Seeding `s` at `now` with the codes `draws`: the rows, then the cards
/// the codes give in order; and whether all 155 cards came to be.
pub open spec fn demo_outcome(s: StoreV, draws: Seq<Seq<char>>, now: Seq<char>) -> (StoreV, bool) {
    let f = demo_fill(s.cards, s.card_seq, s.cards.len() as int, (s.product_seq + 1) as i64, draws, now);
    (StoreV { cards: f.0, card_seq: f.1, ..demo_rows_added(s, now) }, f.0.len() == s.cards.len() + 155)
}

/// The codes of `draws`.
pub open spec fn draw_views(draws: Seq<Vec<char>>) -> Seq<Seq<char>> {
    draws.map_values(|d: Vec<char>| d@)
}

/// The error when too few distinct codes could be drawn.
pub open spec fn msg_demo_failed() -> Seq<char> {
    "演示卡密生成失败"@
}

/// How many codes seeding draws at most.
pub const DEMO_DRAWS: usize = 100000;

/// `f` is `s` with the demonstration data added (created at `now`): the
/// categories and products appended, and after the cards there were, the
/// cards of each product in turn, as many as its stock, with consecutive
/// ids and codes that no other card has.
pub open spec fn demo_seeded(s: StoreV, f: StoreV, now: Seq<char>) -> bool {
    &&& f.categories == s.categories + demo_category_rows(s)
    &&& f.products == s.products + demo_product_rows(s, now)
    &&& f.cards.len() == s.cards.len() + 155
    &&& forall|i: int| 0 <= i < s.cards.len() ==> f.cards[i] == s.cards[i]
    &&& forall|k: int, j: int|
        #![trigger f.cards[s.cards.len() + j], demo_offsets()[k]]
        0 <= k < 8 && demo_offsets()[k] <= j < demo_offsets()[k + 1] ==> demo_card(
            f.cards[s.cards.len() + j],
            (s.product_seq + 1 + k) as i64,
        )
    &&& forall|j: int|
        0 <= j < 155 ==> {
            let c = #[trigger] f.cards[s.cards.len() + j];
            c.id == s.card_seq + 1 + j && c.created_at == now && c.sold_at is None
        }
    &&& forall|i: int, j: int|
        0 <= i < j < f.cards.len() && s.cards.len() <= j ==> #[trigger] f.cards[i].code
            != #[trigger] f.cards[j].code
    &&& f == (StoreV {
        categories: f.categories,
        products: f.products,
        cards: f.cards,
        category_seq: (s.category_seq + 3) as i64,
        product_seq: (s.product_seq + 8) as i64,
        card_seq: (s.card_seq + 155) as i64,
        ..s
    })
}

/// What the drawn codes make of the cards: the old cards stay; each new
/// card is a demonstration card of the product whose turn it was, with the
/// next id, and a code that was drawn and that no earlier card has.
pub proof fn lemma_demo_fill(cs: Seq<CardV>, seq: i64, first: i64, draws: Seq<Seq<char>>, now: Seq<char>)
    requires
        seq <= i64::MAX - 155,
    ensures
        ({
            let base = cs.len() as int;
            let (c, q) = demo_fill(cs, seq, base, first, draws, now);
            &&& base <= c.len() <= base + 155
            &&& q == seq + (c.len() - base)
            &&& forall|i: int| 0 <= i < base ==> c[i] == cs[i]
            &&& forall|j: int|
                0 <= j < c.len() - base ==> #[trigger] c[base + j] == demo_card_row(
                    (seq + 1 + j) as i64,
                    (first + demo_slot(j)) as i64,
                    c[base + j].code,
                    now,
                )
            &&& forall|j: int|
                0 <= j < c.len() - base ==> exists|d: int| 0 <= d < draws.len() && #[trigger] draws[d] == (#[trigger] c[base + j]).code
            &&& forall|i: int, j: int| 0 <= i < j < c.len() && base <= j ==> #[trigger] c[i].code != #[trigger] c[j].code
        }),
    decreases draws.len(),
{
    let base = cs.len() as int;
    if draws.len() > 0 {
        let t = draws.drop_last();
        lemma_demo_fill(cs, seq, first, t, now);
        let (c0, q0) = demo_fill(cs, seq, base, first, t, now);
        let (c, q) = demo_fill(cs, seq, base, first, draws, now);
        assert((c, q) == demo_step(c0, q0, base, first, draws.last(), now));
        assert forall|j: int| 0 <= j < c.len() - base implies exists|d: int|
            0 <= d < draws.len() && #[trigger] draws[d] == (#[trigger] c[base + j]).code by {
            if j < c0.len() - base {
                assert(c[base + j] == c0[base + j]);
                let d = choose|d: int| 0 <= d < t.len() && #[trigger] t[d] == c0[base + j].code;
                assert(draws[d] == t[d]);
            } else {
                assert(draws[draws.len() - 1] == c[base + j].code);
            }
        }
        if c.len() > c0.len() {
            assert forall|i: int, j: int| 0 <= i < j < c.len() && base <= j implies #[trigger] c[i].code
                != #[trigger] c[j].code by {
                if j == c.len() - 1 {
                    assert(c[i] == c0[i]);
                    assert(!(0 <= i < c0.len() && c0[i].code == draws.last()));
                } else {
                    assert(c[i] == c0[i] && c[j] == c0[j]);
                }
            }
            assert forall|j: int| 0 <= j < c.len() - base implies #[trigger] c[base + j] == demo_card_row(
                (seq + 1 + j) as i64,
                (first + demo_slot(j)) as i64,
                c[base + j].code,
                now,
            ) by {
                if j < c0.len() - base {
                    assert(c[base + j] == c0[base + j]);
                }
            }
        }
    }
}

/// All drawn codes are demonstration codes.
pub open spec fn demo_draws_ok(draws: Seq<Seq<char>>) -> bool {
    forall|d: int| 0 <= d < draws.len() ==> demo_code_ok(#[trigger] draws[d])
}

/// A seeding that made all 155 cards from demonstration codes is the
/// demonstration data (`demo_seeded`).
pub proof fn lemma_demo_outcome_seeded(s: StoreV, draws: Seq<Seq<char>>, now: Seq<char>)
    requires
        demo_fits(s),
        demo_draws_ok(draws),
        demo_outcome(s, draws, now).1,
    ensures
        demo_seeded(s, demo_outcome(s, draws, now).0, now),
{
    let base = s.cards.len() as int;
    let first = (s.product_seq + 1) as i64;
    lemma_demo_fill(s.cards, s.card_seq, first, draws, now);
    let f = demo_outcome(s, draws, now).0;
    let c = f.cards;
    let o = demo_offsets();
    assert(o[0] == 0 && o[1] == 35 && o[2] == 53 && o[3] == 59 && o[4] == 101 && o[5] == 110 && o[6] == 137
        && o[7] == 152 && o[8] == 155);
    assert forall|k: int, j: int|
        #![trigger c[base + j], o[k]]
        0 <= k < 8 && o[k] <= j < o[k + 1] implies demo_card(c[base + j], (s.product_seq + 1 + k) as i64) by {
        assert(c[base + j] == demo_card_row((s.card_seq + 1 + j) as i64, (first + demo_slot(j)) as i64, c[base + j].code, now));
        assert(demo_slot(j) == k);
        let d = choose|d: int| 0 <= d < draws.len() && #[trigger] draws[d] == c[base + j].code;
        assert(demo_code_ok(draws[d]));
    }
    assert forall|j: int| 0 <= j < 155 implies {
        let x = #[trigger] c[base + j];
        x.id == s.card_seq + 1 + j && x.created_at == now && x.sold_at is None
    } by {
        assert(c[base + j] == demo_card_row((s.card_seq + 1 + j) as i64, (first + demo_slot(j)) as i64, c[base + j].code, now));
    }
}

impl Store {
    /// Whether some card, of whatever product, has code `code`.
    fn code_in_use(&self, code: &[char]) -> (b: bool)
        ensures
            b == code_taken(self@.cards, code@),
    {
        let mut i: usize = 0;
        while i < self.cards.len()
            invariant
                i <= self@.cards.len(),
                forall|j: int| 0 <= j < i ==> self@.cards[j].code != code@,
            decreases self@.cards.len() - i,
        {
            let cv = chars_of(self.cards[i].code.as_str());
            if chars_eq(cv.as_slice(), code) {
                assert(self@.cards[i as int].code == code@);
                return true;
            }
            i = i + 1;
        }
        false
    }

    /// Takes one drawn code (see `demo_step`).
    fn demo_draw(&mut self, base: usize, first: i64, code: &[char], now: &str)
        requires
            old(self)@.wf(),
            base <= old(self)@.cards.len(),
            first <= i64::MAX - 7,
            old(self)@.cards.len() - base >= 155 || old(self)@.card_seq < i64::MAX,
        ensures
            final(self)@.wf(),
            (final(self)@.cards, final(self)@.card_seq) == demo_step(old(self)@.cards, old(self)@.card_seq, base as int, first, code@, now@),
            final(self)@ == (StoreV { cards: final(self)@.cards, card_seq: final(self)@.card_seq, ..old(self)@ }),
    {
        let j = self.cards.len() - base;
        if j >= 155 {
            return;
        }
        if self.code_in_use(code) {
            return;
        }
        let k: i64 = if j < 35 {
            0
        } else if j < 53 {
            1
        } else if j < 59 {
            2
        } else if j < 101 {
            3
        } else if j < 110 {
            4
        } else if j < 137 {
            5
        } else if j < 152 {
            6
        } else {
            7
        };
        let ghost s = self@;
        let id = self.card_seq + 1;
        let pid = first + k;
        self.cards.push(Card {
            id,
            product_id: pid,
            code: string_of(code),
            status: CARD_ON_SALE,
            order_id: None,
            created_at: copy_str(now),
            sold_at: None,
        });
        self.card_seq = id;
        proof {
            let cs = self@.cards;
            assert(cs =~= s.cards.push(demo_card_row(id, pid, code@, now@)));
            assert forall|i: int, j: int| 0 <= i < j < cs.len() implies cs[i].id < cs[j].id by {
                if j == cs.len() - 1 {
                    assert(s.cards[i].id <= s.card_seq);
                }
            }
            assert forall|i: int| 0 <= i < cs.len() implies 1 <= #[trigger] cs[i].id <= id by {
                if i < cs.len() - 1 {
                    assert(s.cards[i].id <= s.card_seq);
                }
            }
            assert forall|i: int, j: int| 0 <= i < j < cs.len() implies !(cs[i].product_id == cs[j].product_id && cs[i].code == cs[j].code) by {
                if j == cs.len() - 1 {
                    assert(s.cards[i].code != code@);
                }
            }
            assert(self@ =~= (StoreV { cards: self@.cards, card_seq: self@.card_seq, ..s }));
        }
    }

    /// Adds the demonstration categories and products, created at `now`.
    fn add_demo_rows(&mut self, now: &str)
        requires
            old(self)@.wf(),
            demo_fits(old(self)@),
        ensures
            final(self)@.wf(),
            final(self)@ == demo_rows_added(old(self)@, now@),
    {
        let ghost s = self@;
        let cats: [(&str, i64); 3] = [("游戏点卡", 30), ("视频会员", 20), ("软件服务", 10)];
        assert(cats@.map_values(|c: (&str, i64)| (c.0@, c.1)) =~= demo_categories());
        let mut k: usize = 0;
        while k < 3
            invariant
                k <= 3,
                s.wf(),
                demo_fits(s),
                cats@.map_values(|c: (&str, i64)| (c.0@, c.1)) == demo_categories(),
                self@.wf(),
                self@ == (StoreV {
                    categories: s.categories + demo_category_rows(s).take(k as int),
                    category_seq: (s.category_seq + k) as i64,
                    ..s
                }),
            decreases 3 - k,
        {
            let (name, sort) = cats[k];
            proof {
                assert((name@, sort) == demo_categories()[k as int]);
            }
            let r = self.create_category(name, sort);
            proof {
                assert(self@.categories =~= s.categories + demo_category_rows(s).take(k + 1));
            }
            k = k + 1;
        }
        let prods: [(usize, &str, &str, i64); 8] = [
            (0, "手游月卡 · 直充卡密", "适用于主流手游月卡兑换。\n使用方法：游戏内「设置 → 兑换码」输入卡密即可。\n卡密自动发货，售出后不退不换，请确认区服后购买。", 2980),
            (0, "游戏点卡 100 元面值", "通用点卡，面值 100 元。\n充值入口见发货卡密附带说明链接。\n24 小时自动发货。", 9500),
            (0, "游戏加速器 · 30 天", "全平台加速器月卡兑换码。\n支持电脑 / 主机 / 手机三端，一码通用。\n激活后 30 天有效。", 1900),
            (1, "视频会员 · 月卡", "视频平台会员月卡激活码。\n官网「兑换中心」输入卡密激活，即时到账。\n请勿重复兑换。", 1500),
            (1, "视频会员 · 年卡", "视频平台会员年卡激活码，一次到手 12 个月。\n官网「兑换中心」输入卡密激活。\n年卡专属客服通道。", 12800),
            (1, "音乐会员 · 季卡", "音乐平台豪华会员 3 个月兑换码。\n兑换路径：APP → 我的 → 兑换码。", 3500),
            (2, "系统激活码 · 专业版", "操作系统专业版数字许可证。\n联网自动激活，永久有效，支持重装。\n附激活教程，售后 90 天。", 2500),
            (2, "办公套件 · 年度授权", "办公全家桶年度订阅兑换码。\n支持 5 台设备同时使用，含云存储空间。", 9900),
        ];
        assert forall|j: int| 0 <= j < 8 implies (prods@[j].0 as int, prods@[j].1@, prods@[j].2@, prods@[j].3) == {
            let d = #[trigger] demo_products()[j];
            (d.0, d.1, d.2, d.3)
        } by {}
        assert forall|j: int| 0 <= j < 8 implies 0 <= (#[trigger] demo_products()[j]).0 < 3 by {}
        let mut p: usize = 0;
        while p < 8
            invariant
                p <= 8,
                s.wf(),
                demo_fits(s),
                forall|j: int| 0 <= j < 8 ==> (prods@[j].0 as int, prods@[j].1@, prods@[j].2@, prods@[j].3) == {
                    let d = #[trigger] demo_products()[j];
                    (d.0, d.1, d.2, d.3)
                },
                forall|j: int| 0 <= j < 8 ==> 0 <= (#[trigger] demo_products()[j]).0 < 3,
                self@.wf(),
                self@ == (StoreV {
                    categories: s.categories + demo_category_rows(s),
                    products: s.products + demo_product_rows(s, now@).take(p as int),
                    category_seq: (s.category_seq + 3) as i64,
                    product_seq: (s.product_seq + p) as i64,
                    ..s
                }),
            decreases 8 - p,
        {
            let (ci, name, desc, price) = prods[p];
            proof {
                let d = demo_products()[p as int];
                assert((ci as int, name@, desc@, price) == (d.0, d.1, d.2, d.3));
            }
            let cid = self.category_seq - 3 + 1 + ci as i64;
            let empty = String::new();
            let r = self.create_product_at(cid, name, desc, empty.as_str(), price, 0, now);
            proof {
                assert(self@.products =~= s.products + demo_product_rows(s, now@).take(p + 1));
            }
            p = p + 1;
        }
        proof {
            assert(demo_category_rows(s).take(3) =~= demo_category_rows(s));
            assert(demo_product_rows(s, now@).take(8) =~= demo_product_rows(s, now@));
        }
    }

    /// Seeds a shop that has no products yet with the demonstration data,
    /// at `now`, taking the card codes from `draws` in order: a code that
    /// some card already has is passed over, and codes after the 155th card
    /// are not needed.  `Err` when the codes run out first; what was added
    /// then stays (see `demo_outcome`).  A shop with products is left
    /// alone; when the ids are nearly used up nothing is added.
    pub fn seed_demo_with(&mut self, draws: &[Vec<char>], now: &str) -> (r: Result<(), String>)
        requires
            old(self)@.wf(),
        ensures
            final(self)@.wf(),
            old(self)@.products.len() > 0 ==> final(self)@ == old(self)@ && r is Ok,
            old(self)@.products.len() == 0 && !demo_fits(old(self)@) ==> final(self)@ == old(self)@
                && (r matches Err(m) && m@ == msg_full()),
            old(self)@.products.len() == 0 && demo_fits(old(self)@) ==> {
                let o = demo_outcome(old(self)@, draw_views(draws@), now@);
                &&& final(self)@ == o.0
                &&& if o.1 { r is Ok } else { r matches Err(m) && m@ == msg_demo_failed() }
                &&& o.1 && demo_draws_ok(draw_views(draws@)) ==> demo_seeded(old(self)@, final(self)@, now@)
            },
    {
        if self.products.len() > 0 {
            return Ok(());
        }
        if self.category_seq > i64::MAX - 3 || self.product_seq > i64::MAX - 8 || self.card_seq > i64::MAX - 155 {
            return Err(copy_str("database or disk is full"));
        }
        let ghost s = self@;
        let ghost dv = draw_views(draws@);
        let first = self.product_seq + 1;
        let base = self.cards.len();
        self.add_demo_rows(now);
        let mut i: usize = 0;
        while i < draws.len()
            invariant
                i <= draws@.len(),
                s.wf(),
                demo_fits(s),
                base == s.cards.len(),
                first == s.product_seq + 1,
                dv == draw_views(draws@),
                self@.wf(),
                (self@.cards, self@.card_seq) == demo_fill(s.cards, s.card_seq, base as int, first, dv.take(i as int), now@),
                self@ == (StoreV { cards: self@.cards, card_seq: self@.card_seq, ..demo_rows_added(s, now@) }),
            decreases draws@.len() - i,
        {
            proof {
                lemma_demo_fill(s.cards, s.card_seq, first, dv.take(i as int), now@);
            }
            self.demo_draw(base, first, draws[i].as_slice(), now);
            proof {
                assert(dv.take(i + 1).drop_last() =~= dv.take(i as int));
                assert(dv.take(i + 1).last() == draws@[i as int]@);
            }
            i = i + 1;
        }
        proof {
            assert(dv.take(draws@.len() as int) =~= dv);
            lemma_demo_fill(s.cards, s.card_seq, first, dv, now@);
            if demo_outcome(s, dv, now@).1 && demo_draws_ok(dv) {
                lemma_demo_outcome_seeded(s, dv, now@);
            }
        }
        if self.cards.len() - base == 155 {
            Ok(())
        } else {
            Err(copy_str("演示卡密生成失败"))
        }
    }

    /// Seeds a shop that has no products yet with the demonstration data,
    /// created now, with random demonstration codes (see `seed_demo_with`):
    /// codes are drawn until all 155 cards are there, at most `DEMO_DRAWS`
    /// of them.  A shop with products is left alone; when the ids are
    /// nearly used up nothing is added.
    pub fn seed_demo(&mut self) -> (r: Result<(), String>)
        requires
            old(self)@.wf(),
        ensures
            final(self)@.wf(),
            old(self)@.products.len() > 0 ==> final(self)@ == old(self)@ && r is Ok,
            old(self)@.products.len() == 0 && !demo_fits(old(self)@) ==> final(self)@ == old(self)@
                && (r matches Err(m) && m@ == msg_full()),
            old(self)@.products.len() == 0 && demo_fits(old(self)@) ==> exists|draws: Seq<Seq<char>>, now: Seq<char>|
                {
                    let o = #[trigger] demo_outcome(old(self)@, draws, now);
                    &&& draws.len() <= DEMO_DRAWS
                    &&& demo_draws_ok(draws)
                    &&& final(self)@ == o.0
                    &&& if o.1 { r is Ok } else { r matches Err(m) && m@ == msg_demo_failed() }
                },
            old(self)@.products.len() == 0 && demo_fits(old(self)@) && r is Ok ==> exists|now: Seq<char>|
                #[trigger] demo_seeded(old(self)@, final(self)@, now),
    {
        if self.products.len() > 0 {
            return Ok(());
        }
        if self.category_seq > i64::MAX - 3 || self.product_seq > i64::MAX - 8 || self.card_seq > i64::MAX - 155 {
            return Err(copy_str("database or disk is full"));
        }
        let ghost s = self@;
        let now = crate::util::now_str();
        let first = self.product_seq + 1;
        let base = self.cards.len();
        self.add_demo_rows(now.as_str());
        let ghost mut dv: Seq<Seq<char>> = Seq::empty();
        let mut attempts: usize = 0;
        while self.cards.len() - base < 155 && attempts < DEMO_DRAWS
            invariant
                s.wf(),
                demo_fits(s),
                base == s.cards.len(),
                first == s.product_seq + 1,
                attempts <= DEMO_DRAWS,
                dv.len() == attempts,
                demo_draws_ok(dv),
                self@.wf(),
                base <= self@.cards.len(),
                (self@.cards, self@.card_seq) == demo_fill(s.cards, s.card_seq, base as int, first, dv, now@),
                self@ == (StoreV { cards: self@.cards, card_seq: self@.card_seq, ..demo_rows_added(s, now@) }),
            decreases DEMO_DRAWS - attempts,
        {
            proof {
                lemma_demo_fill(s.cards, s.card_seq, first, dv, now@);
            }
            let code = demo_code();
            self.demo_draw(base, first, code.as_slice(), now.as_str());
            proof {
                let d2 = dv.push(code@);
                assert(d2.drop_last() =~= dv);
                assert forall|d: int| 0 <= d < d2.len() implies demo_code_ok(#[trigger] d2[d]) by {
                    if d < dv.len() {
                        assert(d2[d] == dv[d]);
                    }
                }
                dv = d2;
                lemma_demo_fill(s.cards, s.card_seq, first, dv, now@);
            }
            attempts = attempts + 1;
        }
        proof {
            lemma_demo_fill(s.cards, s.card_seq, first, dv, now@);
        }
        let r = if self.cards.len() - base == 155 {
            Ok(())
        } else {
            Err(copy_str("演示卡密生成失败"))
        };
        proof {
            let o = demo_outcome(s, dv, now@);
            if o.1 {
                lemma_demo_outcome_seeded(s, dv, now@);
            }
        }
        r
    }
}

} // verus!
