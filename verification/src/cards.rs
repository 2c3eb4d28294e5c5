//! The stock of card keys: listing, bulk import, deletion; and the order
//! queries of the shop.

use vstd::prelude::*;
use crate::catalog::{lemma_cards_wf_sub, lemma_filter_sub};
use crate::like::{contains_pattern, like_contains};
use crate::models::{count_avail, has_product, product_of, Card, CardV, Store, StoreV, CARD_ON_SALE, msg_full};
use crate::text::{chars_of, copy_str, string_of, trim, trim_chars};

verus! {

/// Most rows a card listing shows.
pub const CARD_LIST_LIMIT: usize = 800;

/// A card as listed, with its product's name.
pub struct CardView {
    pub id: i64,
    pub code: String,
    pub status: i64,
    pub order_id: Option<i64>,
    pub created_at: String,
    pub sold_at_str: String,
    pub product_name: String,
}

pub struct CardViewV {
    pub id: i64,
    pub code: Seq<char>,
    pub status: i64,
    pub order_id: Option<i64>,
    pub created_at: Seq<char>,
    pub sold_at_str: Seq<char>,
    pub product_name: Seq<char>,
}

impl View for CardView {
    type V = CardViewV;

    open spec fn view(&self) -> CardViewV {
        CardViewV {
            id: self.id,
            code: self.code@,
            status: self.status,
            order_id: self.order_id,
            created_at: self.created_at@,
            sold_at_str: self.sold_at_str@,
            product_name: self.product_name@,
        }
    }
}

pub open spec fn card_status_label(st: i64) -> Seq<char> {
    if st == 0 {
        "在售"@
    } else if st == 1 {
        "已售"@
    } else if st == 2 {
        "锁定"@
    } else {
        "未知"@
    }
}

pub open spec fn card_status_class(st: i64) -> Seq<char> {
    if st == 0 {
        "done"@
    } else if st == 1 {
        "sold"@
    } else if st == 2 {
        "pending"@
    } else {
        "expired"@
    }
}

impl CardView {
    /// Label of the card's status: 在售 / 已售 / 锁定 / 未知.
    pub fn status_label(&self) -> (r: &'static str)
        ensures
            r@ == card_status_label(self.status),
    {
        if self.status == 0 {
            "在售"
        } else if self.status == 1 {
            "已售"
        } else if self.status == 2 {
            "锁定"
        } else {
            "未知"
        }
    }

    /// Style class of the card's status.
    pub fn status_class(&self) -> (r: &'static str)
        ensures
            r@ == card_status_class(self.status),
    {
        if self.status == 0 {
            "done"
        } else if self.status == 1 {
            "sold"
        } else if self.status == 2 {
            "pending"
        } else {
            "expired"
        }
    }

    /// The order's id in decimal, or "—" when the card belongs to none.
    pub fn order_id_str(&self) -> (r: String)
        ensures
            r@ == match self.order_id {
                Some(v) => crate::text::dec_int(v as int),
                None => "—"@,
            },
    {
        match self.order_id {
            Some(v) => string_of(crate::text::int_chars(v).as_slice()),
            None => copy_str("—"),
        }
    }
}

/// Does card `c` pass the listing's filters?  Its product must exist (the
/// listing joins products), and product, status and code pattern match
/// when given.
pub open spec fn card_listed(s: StoreV, c: CardV, pid: Option<i64>, st: Option<i64>, q: Seq<char>) -> bool {
    &&& has_product(s.products, c.product_id)
    &&& (pid matches Some(p) ==> c.product_id == p)
    &&& (st matches Some(x) ==> c.status == x)
    &&& (q.len() > 0 ==> like_contains(c.code, q))
}

pub open spec fn card_view(s: StoreV, c: CardV) -> CardViewV {
    CardViewV {
        id: c.id,
        code: c.code,
        status: c.status,
        order_id: c.order_id,
        created_at: c.created_at,
        sold_at_str: match c.sold_at {
            Some(t) => t,
            None => Seq::empty(),
        },
        product_name: product_of(s.products, c.product_id).name,
    }
}

/// The listed cards among `cs`, newest (largest id, i.e. last) first.
pub open spec fn cards_desc(s: StoreV, cs: Seq<CardV>, pid: Option<i64>, st: Option<i64>, q: Seq<char>) -> Seq<CardViewV>
    decreases cs.len(),
{
    if cs.len() == 0 {
        Seq::empty()
    } else {
        cards_desc(s, cs.drop_first(), pid, st, q) + if card_listed(s, cs[0], pid, st, q) {
            seq![card_view(s, cs[0])]
        } else {
            Seq::<CardViewV>::empty()
        }
    }
}

pub open spec fn limit<A>(x: Seq<A>, n: int) -> Seq<A> {
    if x.len() > n {
        x.take(n)
    } else {
        x
    }
}

/// The cards that survive deleting card `id`: all but it when it is on sale.
pub open spec fn keeps_after_card_delete(c: CardV, id: i64) -> bool {
    !(c.id == id && c.status == CARD_ON_SALE)
}

pub open spec fn keeps_after_unsold_delete(c: CardV, pid: i64) -> bool {
    !(c.product_id == pid && c.status == CARD_ON_SALE)
}

/// The pieces of `t` between line feeds.
pub open spec fn split_lines(t: Seq<char>) -> Seq<Seq<char>>
    decreases t.len(),
{
    if t.len() == 0 {
        seq![Seq::<char>::empty()]
    } else {
        let p = split_lines(t.drop_last());
        if t.last() == '\n' {
            p.push(Seq::empty())
        } else {
            p.update(p.len() - 1, p.last().push(t.last()))
        }
    }
}

/// The codes of a bulk import: each line trimmed, blank lines dropped.
/// (This is what `str::lines` followed by `trim` gives: a carriage return
/// before a line feed is whitespace, and a trailing empty line is blank.)
pub open spec fn codes_of(lines: Seq<Seq<char>>) -> Seq<Seq<char>>
    decreases lines.len(),
{
    if lines.len() == 0 {
        Seq::empty()
    } else {
        let c = codes_of(lines.drop_last());
        let x = trim(lines.last());
        if x.len() > 0 {
            c.push(x)
        } else {
            c
        }
    }
}

pub open spec fn has_code(cs: Seq<CardV>, pid: i64, code: Seq<char>) -> bool {
    exists|i: int| 0 <= i < cs.len() && cs[i].product_id == pid && cs[i].code == code
}

/// State of a bulk import: cards, card counter, imported, skipped.
pub type ImportState = (Seq<CardV>, i64, nat, nat);

/// Importing `codes` for product `pid` at `now`: a code the product already
/// has is skipped, any other becomes a new card on sale with the next id.
/// `None` when the ids run out (the whole import is then undone).
pub open spec fn import_fold(cs: Seq<CardV>, seq: i64, pid: i64, codes: Seq<Seq<char>>, now: Seq<char>) -> Option<ImportState>
    decreases codes.len(),
{
    if codes.len() == 0 {
        Some((cs, seq, 0nat, 0nat))
    } else {
        match import_fold(cs, seq, pid, codes.drop_last(), now) {
            None => None,
            Some(st) => import_step(st, pid, codes.last(), now),
        }
    }
}

pub open spec fn import_step(st: ImportState, pid: i64, code: Seq<char>, now: Seq<char>) -> Option<ImportState> {
    let (cs, seq, ok, skip) = st;
    if has_code(cs, pid, code) {
        Some((cs, seq, ok, skip + 1))
    } else if seq == i64::MAX {
        None
    } else {
        let id = (seq + 1) as i64;
        Some((
            cs.push(CardV { id, product_id: pid, code, status: CARD_ON_SALE, order_id: None, created_at: now, sold_at: None }),
            id,
            ok + 1,
            skip,
        ))
    }
}

pub proof fn lemma_split_step(t: Seq<char>, i: int)
    requires
        0 <= i < t.len(),
    ensures
        split_lines(t.take(i + 1)) == if t[i] == '\n' {
            split_lines(t.take(i)).push(Seq::empty())
        } else {
            split_lines(t.take(i)).update(split_lines(t.take(i)).len() - 1, split_lines(t.take(i)).last().push(t[i]))
        },
{
    assert(t.take(i + 1).drop_last() =~= t.take(i));
    assert(t.take(i + 1).last() == t[i]);
}

pub proof fn lemma_split_nonempty(t: Seq<char>)
    ensures
        split_lines(t).len() >= 1,
    decreases t.len(),
{
    if t.len() > 0 {
        lemma_split_nonempty(t.drop_last());
    }
}

impl Store {
    /// The product name of card `c` (its product exists).
    fn product_name_of(&self, pid: i64) -> (r: Option<String>)
        requires
            self@.wf(),
        ensures
            r is Some <==> has_product(self@.products, pid),
            r matches Some(n) ==> n@ == product_of(self@.products, pid).name,
    {
        match self.find_product(pid) {
            Some(i) => Some(self.products[i].product.name.clone()),
            None => None,
        }
    }

    /// Cards filtered by product, status and a code pattern (`LIKE
    /// '%q%'`), newest first, at most 800.
    pub fn list_cards(&self, product_id: Option<i64>, status: Option<i64>, q: &str) -> (r: Vec<CardView>)
        requires
            self@.wf(),
        ensures
            r@.map_values(|v: CardView| v@) == limit(cards_desc(self@, self@.cards, product_id, status, q@), CARD_LIST_LIMIT as int),
    {
        let ghost s = self@;
        let qv = chars_of(q);
        let mut out: Vec<CardView> = Vec::new();
        let n = self.cards.len();
        let mut i: usize = n;
        proof {
            assert(s.cards.subrange(n as int, n as int) =~= Seq::<CardV>::empty());
        }
        while i > 0
            invariant
                s == self@,
                s.wf(),
                n == s.cards.len(),
                i <= n,
                qv@ == q@,
                out@.map_values(|v: CardView| v@) == cards_desc(s, s.cards.subrange(i as int, n as int), product_id, status, q@),
            decreases i,
        {
            let j = i - 1;
            let c = &self.cards[j];
            proof {
                let sub = s.cards.subrange(j as int, n as int);
                assert(sub[0] == c@);
                assert(sub.drop_first() =~= s.cards.subrange(i as int, n as int));
            }
            let pname = self.product_name_of(c.product_id);
            let keep = match pname {
                None => false,
                Some(_) => {
                    (match product_id {
                        Some(p) => c.product_id == p,
                        None => true,
                    }) && (match status {
                        Some(x) => c.status == x,
                        None => true,
                    }) && (qv.len() == 0 || contains_pattern(chars_of(c.code.as_str()).as_slice(), qv.as_slice()))
                },
            };
            if keep {
                let v = CardView {
                    id: c.id,
                    code: c.code.clone(),
                    status: c.status,
                    order_id: c.order_id,
                    created_at: c.created_at.clone(),
                    sold_at_str: match &c.sold_at {
                        Some(t) => t.clone(),
                        None => String::new(),
                    },
                    product_name: match pname {
                        Some(nm) => nm,
                        None => String::new(),
                    },
                };
                let ghost o = out@.map_values(|v: CardView| v@);
                out.push(v);
                proof {
                    assert(out@.map_values(|v: CardView| v@) =~= o.push(card_view(s, c@)));
                }
            }
            i = j;
        }
        proof {
            assert(s.cards.subrange(0, n as int) =~= s.cards);
        }
        let ghost full = out@.map_values(|v: CardView| v@);
        if out.len() > CARD_LIST_LIMIT {
            out.truncate(CARD_LIST_LIMIT);
            assert(out@.map_values(|v: CardView| v@) =~= full.take(CARD_LIST_LIMIT as int));
        }
        out
    }

    /// Whether product `pid` already has a card with code `code`.
    fn has_card_code(&self, pid: i64, code: &[char]) -> (b: bool)
        ensures
            b == has_code(self@.cards, pid, code@),
    {
        let mut i: usize = 0;
        while i < self.cards.len()
            invariant
                i <= self@.cards.len(),
                forall|j: int| 0 <= j < i ==> !(self@.cards[j].product_id == pid && self@.cards[j].code == code@),
            decreases self@.cards.len() - i,
        {
            if self.cards[i].product_id == pid {
                let cv = chars_of(self.cards[i].code.as_str());
                if crate::text::chars_eq(cv.as_slice(), code) {
                    assert(self@.cards[i as int].code == code@);
                    return true;
                }
            }
            i = i + 1;
        }
        false
    }

    /// Imports one trimmed, non-empty code.
    pub(crate) fn import_one(&mut self, pid: i64, code: &[char], now: &str, ok: &mut usize, skip: &mut usize) -> (r: bool)
        requires
            old(self)@.wf(),
            *old(ok) + *old(skip) < usize::MAX,
        ensures
            match import_step((old(self)@.cards, old(self)@.card_seq, *old(ok) as nat, *old(skip) as nat), pid, code@, now@) {
                None => !r,
                Some(st) => r && st == (final(self)@.cards, final(self)@.card_seq, *final(ok) as nat, *final(skip) as nat),
            },
            r ==> final(self)@.wf() && final(self)@ == (StoreV { cards: final(self)@.cards, card_seq: final(self)@.card_seq, ..old(self)@ }),
            !r ==> final(self)@ == old(self)@ && *final(ok) == *old(ok) && *final(skip) == *old(skip),
            *final(ok) + *final(skip) == *old(ok) + *old(skip) + 1 || !r,
    {
        if self.has_card_code(pid, code) {
            *skip = *skip + 1;
            return true;
        }
        if self.card_seq == i64::MAX {
            return false;
        }
        let ghost s = self@;
        let id = self.card_seq + 1;
        self.cards.push(Card {
            id,
            product_id: pid,
            code: string_of(code),
            status: CARD_ON_SALE,
            order_id: None,
            created_at: copy_str(now),
            sold_at: None,
        });
        self.card_seq = id;
        *ok = *ok + 1;
        proof {
            let cs = self@.cards;
            assert(cs =~= s.cards.push(CardV { id, product_id: pid, code: code@, status: CARD_ON_SALE, order_id: None, created_at: now@, sold_at: None }));
            assert forall|i: int, j: int| 0 <= i < j < cs.len() implies cs[i].id < cs[j].id by {
                if j == cs.len() - 1 {
                    assert(s.cards[i].id <= s.card_seq);
                }
            }
            assert forall|i: int| 0 <= i < cs.len() implies 1 <= #[trigger] cs[i].id <= id by {
                if i < cs.len() - 1 {
                    assert(s.cards[i].id <= s.card_seq);
                }
            }
            assert forall|i: int, j: int| 0 <= i < j < cs.len() implies !(cs[i].product_id == cs[j].product_id && cs[i].code == cs[j].code) by {
                if j == cs.len() - 1 {
                    assert(!(s.cards[i].product_id == pid && s.cards[i].code == code@));
                }
            }
            assert(self@ =~= (StoreV { cards: self@.cards, card_seq: self@.card_seq, ..s }));
        }
        true
    }
}


/// Which cards a deletion removes.
pub enum CardDeletion {
    /// Card `id`, when it is on sale.
    One(i64),
    /// All cards of product `pid` on sale.
    UnsoldOf(i64),
}

pub open spec fn survives(d: CardDeletion, c: CardV) -> bool {
    match d {
        CardDeletion::One(id) => keeps_after_card_delete(c, id),
        CardDeletion::UnsoldOf(pid) => keeps_after_unsold_delete(c, pid),
    }
}

impl Store {
    /// A copy of the cards.
    fn copy_cards(&self) -> (r: Vec<Card>)
        ensures
            r@.map_values(|c: Card| c@) == self@.cards,
    {
        let mut out: Vec<Card> = Vec::new();
        let mut i: usize = 0;
        while i < self.cards.len()
            invariant
                i <= self@.cards.len(),
                out@.map_values(|c: Card| c@) == self@.cards.take(i as int),
            decreases self@.cards.len() - i,
        {
            let ghost o = out@.map_values(|c: Card| c@);
            out.push(self.cards[i].copy());
            proof {
                assert(self@.cards.take(i + 1) =~= self@.cards.take(i as int).push(self@.cards[i as int]));
                assert(out@.map_values(|c: Card| c@) =~= o.push(self@.cards[i as int]));
            }
            i = i + 1;
        }
        assert(self@.cards.take(i as int) =~= self@.cards);
        out
    }

    /// Imports card codes as `import_cards_at` does, stamped with the
    /// current time.
    pub fn import_cards(&mut self, product_id: i64, text: &str) -> (r: Result<(usize, usize), String>)
        requires
            old(self)@.wf(),
        ensures
            final(self)@.wf(),
            exists|now: Seq<char>|
                match #[trigger] import_fold(old(self)@.cards, old(self)@.card_seq, product_id, codes_of(split_lines(text@)), now) {
                    None => final(self)@ == old(self)@ && (r matches Err(m) && m@ == msg_full()),
                    Some(st) => (r matches Ok(p) && p.0 == st.2 && p.1 == st.3) && final(self)@ == (StoreV {
                        cards: st.0,
                        card_seq: st.1,
                        ..old(self)@
                    }),
                },
    {
        let now = crate::util::now_str();
        self.import_cards_at(product_id, text, now.as_str())
    }

    /// Imports card codes for product `product_id`, one per line of
    /// `text`: lines are trimmed, blank ones ignored, and a code the product
    /// already has is skipped.  Returns (imported, skipped).  All or nothing:
    /// when the ids run out nothing is imported.
    pub fn import_cards_at(&mut self, product_id: i64, text: &str, now: &str) -> (r: Result<(usize, usize), String>)
        requires
            old(self)@.wf(),
        ensures
            final(self)@.wf(),
            match import_fold(old(self)@.cards, old(self)@.card_seq, product_id, codes_of(split_lines(text@)), now@) {
                None => final(self)@ == old(self)@ && (r matches Err(m) && m@ == msg_full()),
                Some(st) => (r matches Ok(p) && p.0 == st.2 && p.1 == st.3) && final(self)@ == (StoreV {
                    cards: st.0,
                    card_seq: st.1,
                    ..old(self)@
                }),
            },
    {
        let ghost s = self@;
        let saved = self.copy_cards();
        let saved_seq = self.card_seq;
        let t = chars_of(text);
        let n = t.len();
        let mut ok: usize = 0;
        let mut skip: usize = 0;
        let mut failed = false;
        let mut cur: Vec<char> = Vec::new();
        let mut i: usize = 0;
        proof {
            assert(t@.take(0) =~= Seq::<char>::empty());
            assert(split_lines(t@.take(0)).drop_last() =~= Seq::<Seq<char>>::empty());
        }
        while i < n
            invariant
                n == t@.len(),
                t@ == text@,
                i <= n,
                saved@.map_values(|c: Card| c@) == s.cards,
                saved_seq == s.card_seq,
                s.wf(),
                self@.wf(),
                self@ == (StoreV { cards: self@.cards, card_seq: self@.card_seq, ..s }),
                cur@ == split_lines(t@.take(i as int)).last(),
                split_lines(t@.take(i as int)).len() >= 1,
                ok + skip <= i - cur@.len(),
                failed ==> import_fold(s.cards, s.card_seq, product_id, codes_of(split_lines(t@.take(i as int)).drop_last()), now@) is None,
                !failed ==> import_fold(s.cards, s.card_seq, product_id, codes_of(split_lines(t@.take(i as int)).drop_last()), now@)
                    == Some((self@.cards, self@.card_seq, ok as nat, skip as nat)),
            decreases n - i,
        {
            let ghost lines = split_lines(t@.take(i as int));
            proof {
                lemma_split_step(t@, i as int);
            }
            if t[i] == '\n' {
                let x = trim_chars(cur.as_slice());
                proof {
                    let nl = split_lines(t@.take(i + 1));
                    assert(nl == lines.push(Seq::empty()));
                    assert(nl.drop_last() =~= lines);
                    assert(lines.drop_last().push(lines.last()) =~= lines);
                    assert(codes_of(lines) == if trim(lines.last()).len() > 0 {
                        codes_of(lines.drop_last()).push(trim(lines.last()))
                    } else {
                        codes_of(lines.drop_last())
                    });
                }
                if x.len() > 0 && !failed {
                    if !self.import_one(product_id, x.as_slice(), now, &mut ok, &mut skip) {
                        failed = true;
                    }
                }
                proof {
                    let codes = codes_of(lines);
                    if x.len() > 0 {
                        assert(codes.drop_last() == codes_of(lines.drop_last()));
                        assert(codes.last() == x@);
                    }
                }
                cur = Vec::new();
            } else {
                cur.push(t[i]);
                proof {
                    let nl = split_lines(t@.take(i + 1));
                    assert(nl.drop_last() =~= lines.drop_last());
                }
            }
            i = i + 1;
        }
        proof {
            assert(t@.take(n as int) =~= t@);
        }
        let ghost lines = split_lines(t@);
        proof {
            assert(lines.drop_last().push(lines.last()) =~= lines);
        }
        let x = trim_chars(cur.as_slice());
        if x.len() > 0 && !failed {
            if !self.import_one(product_id, x.as_slice(), now, &mut ok, &mut skip) {
                failed = true;
            }
        }
        proof {
            let codes = codes_of(lines);
            if x.len() > 0 {
                assert(codes.drop_last() == codes_of(lines.drop_last()));
                assert(codes.last() == x@);
            }
        }
        if failed {
            self.cards = saved;
            self.card_seq = saved_seq;
            proof {
                assert(self@ =~= s);
            }
            return Err(copy_str("database or disk is full"));
        }
        Ok((ok, skip))
    }
}

impl Store {
    /// Removes the cards that `d` deletes; returns how many were removed.
    fn delete_cards(&mut self, d: CardDeletion) -> (n: usize)
        requires
            old(self)@.wf(),
        ensures
            final(self)@.wf(),
            final(self)@ == (StoreV { cards: old(self)@.cards.filter(|c: CardV| survives(d, c)), ..old(self)@ }),
            n == old(self)@.cards.len() - old(self)@.cards.filter(|c: CardV| survives(d, c)).len(),
    {
        let ghost s = self@;
        let ghost kp = |c: CardV| survives(d, c);
        let mut out: Vec<Card> = Vec::new();
        let mut i: usize = 0;
        while i < self.cards.len()
            invariant
                s == self@,
                kp == (|c: CardV| survives(d, c)),
                i <= s.cards.len(),
                out@.map_values(|c: Card| c@) == s.cards.take(i as int).filter(kp),
                out@.len() <= i,
            decreases s.cards.len() - i,
        {
            let c = &self.cards[i];
            proof {
                assert(s.cards.take(i + 1).drop_last() =~= s.cards.take(i as int));
                assert(s.cards.take(i + 1).last() == c@);
                assert(s.cards.take(i + 1).filter(kp) == if kp(c@) {
                    s.cards.take(i as int).filter(kp).push(c@)
                } else {
                    s.cards.take(i as int).filter(kp)
                }) by {
                    reveal(Seq::filter);
                }
            }
            let keep = match d {
                CardDeletion::One(id) => !(c.id == id && c.status == CARD_ON_SALE),
                CardDeletion::UnsoldOf(pid) => !(c.product_id == pid && c.status == CARD_ON_SALE),
            };
            if keep {
                let ghost o = out@.map_values(|c: Card| c@);
                out.push(c.copy());
                assert(out@.map_values(|c: Card| c@) =~= o.push(c@));
            }
            i = i + 1;
        }
        let n = self.cards.len() - out.len();
        self.cards = out;
        proof {
            assert(s.cards.take(s.cards.len() as int) =~= s.cards);
            assert(self@.cards =~= s.cards.filter(kp));
            lemma_filter_sub(s.cards, kp);
            lemma_cards_wf_sub(s.cards, self@.cards, s.card_seq, s.order_seq);
            assert(self@ =~= (StoreV { cards: s.cards.filter(kp), ..s }));
        }
        n
    }

    /// Deletes card `id` if it is on sale (sold and locked cards stay).
    pub fn delete_card(&mut self, id: i64)
        requires
            old(self)@.wf(),
        ensures
            final(self)@.wf(),
            final(self)@ == (StoreV { cards: old(self)@.cards.filter(|c: CardV| keeps_after_card_delete(c, id)), ..old(self)@ }),
    {
        let _ = self.delete_cards(CardDeletion::One(id));
        assert((|c: CardV| survives(CardDeletion::One(id), c)) =~= (|c: CardV| keeps_after_card_delete(c, id)));
    }

    /// Deletes all cards of product `product_id` that are on sale; returns
    /// how many.
    pub fn delete_unsold_cards(&mut self, product_id: i64) -> (n: usize)
        requires
            old(self)@.wf(),
        ensures
            final(self)@.wf(),
            final(self)@ == (StoreV { cards: old(self)@.cards.filter(|c: CardV| keeps_after_unsold_delete(c, product_id)), ..old(self)@ }),
            n == count_avail(old(self)@.cards, product_id),
    {
        let ghost s = self@;
        let n = self.delete_cards(CardDeletion::UnsoldOf(product_id));
        proof {
            assert((|c: CardV| survives(CardDeletion::UnsoldOf(product_id), c)) =~= (|c: CardV| keeps_after_unsold_delete(c, product_id)));
            lemma_filter_count(s.cards, product_id);
        }
        n
    }
}

/// Dropping the cards of `pid` on sale drops exactly `count_avail` of them.
pub proof fn lemma_filter_count(cs: Seq<CardV>, pid: i64)
    ensures
        cs.filter(|c: CardV| keeps_after_unsold_delete(c, pid)).len() + count_avail(cs, pid) == cs.len(),
    decreases cs.len(),
{
    reveal(Seq::filter);
    if cs.len() > 0 {
        lemma_filter_count(cs.drop_last(), pid);
    }
}

} // verus!
