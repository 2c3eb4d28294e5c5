//! The text patterns of SQL `LIKE`: `%` matches any run of characters, `_`
//! any one character, and ASCII letters match regardless of case.

use vstd::prelude::*;

verus! {

/// ASCII lower-casing (other characters unchanged).
pub open spec fn fold(c: char) -> char {
    if 'A' <= c && c <= 'Z' {
        (((c as u32) + 32) as u8) as char
    } else {
        c
    }
}

pub fn fold_char(c: char) -> (r: char)
    ensures
        r == fold(c),
{
    if 'A' <= c && c <= 'Z' {
        (((c as u32) + 32) as u8) as char
    } else {
        c
    }
}

/// Does text `t` match pattern `p`?
pub open spec fn like(p: Seq<char>, t: Seq<char>) -> bool
    decreases p.len(), t.len(),
{
    if p.len() == 0 {
        t.len() == 0
    } else if p[0] == '%' {
        like(p.drop_first(), t) || (t.len() > 0 && like(p, t.drop_first()))
    } else {
        t.len() > 0 && (p[0] == '_' || fold(p[0]) == fold(t[0])) && like(
            p.drop_first(),
            t.drop_first(),
        )
    }
}

proof fn lemma_skip_first(s: Seq<char>, i: int)
    requires
        0 <= i < s.len(),
    ensures
        s.skip(i).drop_first() == s.skip(i + 1),
        s.skip(i)[0] == s[i],
        s.skip(i).len() > 0,
{
    assert(s.skip(i).drop_first() =~= s.skip(i + 1));
}

/// `t LIKE p`, by dynamic programming over suffixes of both.
pub fn like_match(p: &[char], t: &[char]) -> (r: bool)
    ensures
        r == like(p@, t@),
{
    let pn = p.len();
    let tn = t.len();
    // next[j] == like(p[i..], t[j..]) for the row below the one being filled
    let mut next: Vec<bool> = Vec::new();
    let mut j: usize = 0;
    while j < tn
        invariant
            tn == t@.len(),
            pn == p@.len(),
            j <= tn,
            next@.len() == j,
            forall|k: int| 0 <= k < j ==> next@[k] == like(p@.skip(pn as int), t@.skip(k)),
        decreases tn - j,
    {
        proof {
            assert(p@.skip(pn as int).len() == 0);
        }
        next.push(false);
        j = j + 1;
    }
    proof {
        assert(p@.skip(pn as int).len() == 0);
        assert(t@.skip(tn as int).len() == 0);
    }
    next.push(true);
    let mut i: usize = pn;
    while i > 0
        invariant
            tn == t@.len(),
            pn == p@.len(),
            i <= pn,
            next@.len() == tn + 1,
            forall|k: int| 0 <= k <= tn ==> next@[k] == like(p@.skip(i as int), t@.skip(k)),
        decreases i,
    {
        let pi = i - 1;
        let pc = p[pi];
        proof {
            lemma_skip_first(p@, pi as int);
            assert(t@.skip(tn as int).len() == 0);
        }
        let last = pc == '%' && next[tn];
        let mut cur: Vec<bool> = Vec::new();
        let mut k: usize = 0;
        while k < tn
            invariant
                k <= tn,
                cur@.len() == k,
            decreases tn - k,
        {
            cur.push(false);
            k = k + 1;
        }
        cur.push(last);
        let mut jj: usize = tn;
        while jj > 0
            invariant
                tn == t@.len(),
                pn == p@.len(),
                1 <= i <= pn,
                pi == i - 1,
                pc == p@[pi as int],
                jj <= tn,
                cur@.len() == tn + 1,
                next@.len() == tn + 1,
                forall|k: int| 0 <= k <= tn ==> next@[k] == like(p@.skip(i as int), t@.skip(k)),
                forall|k: int|
                    jj <= k <= tn ==> cur@[k] == like(p@.skip(pi as int), t@.skip(k)),
            decreases jj,
        {
            let j = jj - 1;
            proof {
                lemma_skip_first(p@, pi as int);
                lemma_skip_first(t@, j as int);
            }
            let v = if pc == '%' {
                next[j] || cur[j + 1]
            } else {
                (pc == '_' || fold_char(pc) == fold_char(t[j])) && next[j + 1]
            };
            cur.set(j, v);
            jj = j;
        }
        next = cur;
        i = pi;
    }
    assert(p@.skip(0) =~= p@);
    assert(t@.skip(0) =~= t@);
    next[0]
}

/// `t LIKE '%q%'`: does `t` contain `q` as a pattern?
pub open spec fn like_contains(t: Seq<char>, q: Seq<char>) -> bool {
    like(seq!['%'] + q + seq!['%'], t)
}

pub fn contains_pattern(t: &[char], q: &[char]) -> (r: bool)
    ensures
        r == like_contains(t@, q@),
{
    let mut p: Vec<char> = Vec::new();
    p.push('%');
    crate::text::push_all(&mut p, q);
    p.push('%');
    assert(p@ =~= seq!['%'] + q@ + seq!['%']);
    like_match(p.as_slice(), t)
}

/// `t LIKE 'q%'`: does `t` start with `q` as a pattern?
pub open spec fn like_prefix(t: Seq<char>, q: Seq<char>) -> bool {
    like(q + seq!['%'], t)
}

pub fn prefix_pattern(t: &[char], q: &[char]) -> (r: bool)
    ensures
        r == like_prefix(t@, q@),
{
    let mut p: Vec<char> = Vec::new();
    crate::text::push_all(&mut p, q);
    p.push('%');
    assert(p@ =~= q@ + seq!['%']);
    like_match(p.as_slice(), t)
}

/// Equal up to ASCII case (`str::eq_ignore_ascii_case`).
pub open spec fn eq_fold(a: Seq<char>, b: Seq<char>) -> bool {
    a.len() == b.len() && forall|i: int| 0 <= i < a.len() ==> fold(#[trigger] a[i]) == fold(b[i])
}

pub fn eq_ignore_ascii_case(a: &str, b: &str) -> (r: bool)
    ensures
        r == eq_fold(a@, b@),
{
    let x = crate::text::chars_of(a);
    let y = crate::text::chars_of(b);
    if x.len() != y.len() {
        return false;
    }
    let mut i: usize = 0;
    while i < x.len()
        invariant
            x@ == a@,
            y@ == b@,
            x@.len() == y@.len(),
            i <= x@.len(),
            forall|j: int| 0 <= j < i ==> fold(#[trigger] x@[j]) == fold(y@[j]),
        decreases x@.len() - i,
    {
        if fold_char(x[i]) != fold_char(y[i]) {
            return false;
        }
        i = i + 1;
    }
    true
}

} // verus!
