//! Lock-out of addresses after repeated failed logins (five failures lock
//! an address for ten minutes).

use vstd::prelude::*;
use crate::text::{copy_str, str_eq};

verus! {

/// Failed logins from one address before it is locked out.
pub const MAX_LOGIN_FAILS: u32 = 5;

/// Seconds a locked address stays locked.
pub const LOCK_SECS: u64 = 600;

/// Failed logins per address: (address, failures, time of the last failure
/// in seconds).
pub struct LoginGuard {
    pub entries: Vec<(String, u32, u64)>,
}

pub type EntryV = (Seq<char>, u32, u64);

impl View for LoginGuard {
    type V = Seq<EntryV>;

    open spec fn view(&self) -> Seq<EntryV> {
        self.entries@.map_values(|e: (String, u32, u64)| (e.0@, e.1, e.2))
    }
}

/// Seconds from `last` to `now` (zero when the clock went back).
pub open spec fn elapsed(now: u64, last: u64) -> u64 {
    if now >= last { (now - last) as u64 } else { 0 }
}

pub open spec fn guard_wf(es: Seq<EntryV>) -> bool {
    forall|i: int, j: int| 0 <= i < j < es.len() ==> es[i].0 != es[j].0
}

pub open spec fn has_ip(es: Seq<EntryV>, ip: Seq<char>) -> bool {
    exists|i: int| 0 <= i < es.len() && es[i].0 == ip
}

pub open spec fn ip_index(es: Seq<EntryV>, ip: Seq<char>) -> int {
    choose|i: int| 0 <= i < es.len() && es[i].0 == ip
}

/// Minutes left of the lock of `ip` at `now` (rounded up, at least 1), or
/// none; an expired lock is forgotten.
pub open spec fn locked_outcome(es: Seq<EntryV>, ip: Seq<char>, now: u64) -> (Seq<EntryV>, Option<u64>) {
    if !has_ip(es, ip) {
        (es, None)
    } else {
        let i = ip_index(es, ip);
        let e = es[i];
        if e.1 < MAX_LOGIN_FAILS {
            (es, None)
        } else if elapsed(now, e.2) >= LOCK_SECS {
            (es.remove(i), None)
        } else {
            (es, Some((((LOCK_SECS - elapsed(now, e.2)) / 60) + 1) as u64))
        }
    }
}

/// Entries kept when a failure is recorded: those younger than twice the
/// lock time.
pub open spec fn young(e: EntryV, now: u64) -> bool {
    elapsed(now, e.2) < 2 * LOCK_SECS
}

/// The entries after recording a failure of `ip` at `now`: old entries are
/// dropped, a failure after the lock time starts counting afresh.
pub open spec fn record_outcome(es: Seq<EntryV>, ip: Seq<char>, now: u64) -> Seq<EntryV> {
    let kept = es.filter(|e: EntryV| young(e, now));
    if has_ip(kept, ip) {
        let i = ip_index(kept, ip);
        let e = kept[i];
        let base: u32 = if elapsed(now, e.2) >= LOCK_SECS { 0 } else { e.1 };
        kept.update(i, (ip, if base < u32::MAX { (base + 1) as u32 } else { base }, now))
    } else {
        kept.push((ip, 1u32, now))
    }
}

/// Whole seconds since the Unix epoch on the wall clock
/// (`SystemTime::now`), 0 when the clock is set before the epoch; the
/// clock may be set back or forward, and nothing is claimed of its value.
#[verifier::external_body]
pub(crate) fn clock_secs() -> u64 {
    std::time::SystemTime::now().duration_since(std::time::UNIX_EPOCH).map(|d| d.as_secs()).unwrap_or(0)
}

impl LoginGuard {
    pub fn new() -> (r: LoginGuard)
        ensures
            r@ == Seq::<EntryV>::empty(),
    {
        let r = LoginGuard { entries: Vec::new() };
        assert(r@ =~= Seq::<EntryV>::empty());
        r
    }

    fn find(&self, ip: &str) -> (r: Option<usize>)
        requires
            guard_wf(self@),
        ensures
            r matches Some(i) ==> i < self@.len() && self@[i as int].0 == ip@ && ip_index(self@, ip@) == i,
            r is None ==> !has_ip(self@, ip@),
    {
        let mut i: usize = 0;
        while i < self.entries.len()
            invariant
                guard_wf(self@),
                i <= self@.len(),
                forall|j: int| 0 <= j < i ==> self@[j].0 != ip@,
            decreases self@.len() - i,
        {
            if str_eq(self.entries[i].0.as_str(), ip) {
                proof {
                    let es = self@;
                    assert(es[i as int].0 == ip@);
                    let k = choose|k: int| 0 <= k < es.len() && es[k].0 == ip@;
                    if k != i {
                        if k < i {
                            assert(es[k].0 != es[i as int].0);
                        } else {
                            assert(es[i as int].0 != es[k].0);
                        }
                    }
                }
                return Some(i);
            }
            i = i + 1;
        }
        None
    }

    /// Minutes left of the lock of `ip` at time `now`, if it is locked.
    pub fn login_locked_at(&mut self, ip: &str, now: u64) -> (r: Option<u64>)
        requires
            guard_wf(old(self)@),
        ensures
            guard_wf(final(self)@),
            (final(self)@, r) == locked_outcome(old(self)@, ip@, now),
    {
        let ghost es = self@;
        let i = match self.find(ip) {
            Some(i) => i,
            None => return None,
        };
        let fails = self.entries[i].1;
        let last = self.entries[i].2;
        if fails < MAX_LOGIN_FAILS {
            return None;
        }
        let el: u64 = if now >= last { now - last } else { 0 };
        if el >= LOCK_SECS {
            self.entries.remove(i);
            proof {
                assert(self@ =~= es.remove(i as int));
                assert forall|a: int, b: int| 0 <= a < b < self@.len() implies self@[a].0 != self@[b].0 by {
                    let a2 = if a < i { a } else { a + 1 };
                    let b2 = if b < i { b } else { b + 1 };
                    assert(self@[a] == es[a2] && self@[b] == es[b2]);
                }
            }
            return None;
        }
        Some((LOCK_SECS - el) / 60 + 1)
    }

    /// Forgets the failures of `ip`.
    pub fn clear_login_fails(&mut self, ip: &str)
        requires
            guard_wf(old(self)@),
        ensures
            guard_wf(final(self)@),
            !has_ip(old(self)@, ip@) ==> final(self)@ == old(self)@,
            has_ip(old(self)@, ip@) ==> final(self)@ == old(self)@.remove(ip_index(old(self)@, ip@)),
            final(self)@ == cleared(old(self)@, ip@),
    {
        let ghost es = self@;
        match self.find(ip) {
            Some(i) => {
                self.entries.remove(i);
                proof {
                    assert(self@ =~= es.remove(i as int));
                    assert forall|a: int, b: int| 0 <= a < b < self@.len() implies self@[a].0 != self@[b].0 by {
                        let a2 = if a < i { a } else { a + 1 };
                        let b2 = if b < i { b } else { b + 1 };
                        assert(self@[a] == es[a2] && self@[b] == es[b2]);
                    }
                }
            },
            None => {},
        }
    }

    /// Records a failed login of `ip` at time `now`.
    pub fn record_login_fail_at(&mut self, ip: &str, now: u64)
        requires
            guard_wf(old(self)@),
        ensures
            guard_wf(final(self)@),
            final(self)@ == record_outcome(old(self)@, ip@, now),
    {
        let ghost es = self@;
        let ghost kp = |e: EntryV| young(e, now);
        let mut kept: Vec<(String, u32, u64)> = Vec::new();
        let mut i: usize = 0;
        while i < self.entries.len()
            invariant
                es == self@,
                kp == (|e: EntryV| young(e, now)),
                i <= es.len(),
                kept@.map_values(|e: (String, u32, u64)| (e.0@, e.1, e.2)) == es.take(i as int).filter(kp),
            decreases es.len() - i,
        {
            let e = &self.entries[i];
            let ghost ev = (e.0@, e.1, e.2);
            proof {
                assert(es[i as int] == ev);
                assert(es.take(i + 1).drop_last() =~= es.take(i as int));
                assert(es.take(i + 1).last() == ev);
                assert(es.take(i + 1).filter(kp) == if kp(ev) {
                    es.take(i as int).filter(kp).push(ev)
                } else {
                    es.take(i as int).filter(kp)
                }) by {
                    reveal(Seq::filter);
                }
            }
            let el: u64 = if now >= e.2 { now - e.2 } else { 0 };
            if el < 2 * LOCK_SECS {
                let ghost o = kept@.map_values(|e: (String, u32, u64)| (e.0@, e.1, e.2));
                kept.push((e.0.clone(), e.1, e.2));
                assert(kept@.map_values(|e: (String, u32, u64)| (e.0@, e.1, e.2)) =~= o.push(ev));
            }
            i = i + 1;
        }
        self.entries = kept;
        proof {
            assert(es.take(es.len() as int) =~= es);
            assert(self@ =~= es.filter(kp));
            crate::catalog::lemma_filter_sub(es, kp);
            let b = self@;
            let f = choose|f: Seq<int>| crate::catalog::embeds(b, es, f);
            assert forall|x: int, y: int| 0 <= x < y < b.len() implies b[x].0 != b[y].0 by {
                assert(b[x] == es[f[x]] && b[y] == es[f[y]]);
            }
        }
        let ghost kept_v = self@;
        match self.find(ip) {
            Some(j) => {
                let fails = self.entries[j].1;
                let last = self.entries[j].2;
                let el: u64 = if now >= last { now - last } else { 0 };
                let base: u32 = if el >= LOCK_SECS { 0 } else { fails };
                let nf: u32 = if base < u32::MAX { base + 1 } else { base };
                self.entries.set(j, (copy_str(ip), nf, now));
                proof {
                    assert(self@ =~= kept_v.update(j as int, (ip@, nf, now)));
                    assert forall|x: int, y: int| 0 <= x < y < self@.len() implies self@[x].0 != self@[y].0 by {
                        assert(kept_v[x].0 != kept_v[y].0);
                    }
                }
            },
            None => {
                self.entries.push((copy_str(ip), 1, now));
                proof {
                    assert(self@ =~= kept_v.push((ip@, 1u32, now)));
                    assert forall|x: int, y: int| 0 <= x < y < self@.len() implies self@[x].0 != self@[y].0 by {
                        if y == self@.len() - 1 {
                            assert(kept_v[x].0 != ip@);
                        } else {
                            assert(kept_v[x].0 != kept_v[y].0);
                        }
                    }
                }
            },
        }
    }

    /// Minutes left of the lock of `ip`, if it is locked now.
    pub fn login_locked(&mut self, ip: &str) -> (r: Option<u64>)
        requires
            guard_wf(old(self)@),
        ensures
            guard_wf(final(self)@),
            exists|now: u64| (final(self)@, r) == #[trigger] locked_outcome(old(self)@, ip@, now),
    {
        let now = clock_secs();
        self.login_locked_at(ip, now)
    }

    /// Records a failed login of `ip` now.
    pub fn record_login_fail(&mut self, ip: &str)
        requires
            guard_wf(old(self)@),
        ensures
            guard_wf(final(self)@),
            exists|now: u64| final(self)@ == #[trigger] record_outcome(old(self)@, ip@, now),
    {
        let now = clock_secs();
        self.record_login_fail_at(ip, now);
    }
}

// ---------- laws ----------

/// One more failure, unless the count is at its maximum.
pub open spec fn sat_inc(c: u32) -> u32 {
    if c < u32::MAX {
        (c + 1) as u32
    } else {
        c
    }
}

/// The entry of an address in a table whose addresses are distinct.
proof fn lemma_ip_index(es: Seq<EntryV>, j: int)
    requires
        guard_wf(es),
        0 <= j < es.len(),
    ensures
        has_ip(es, es[j].0),
        ip_index(es, es[j].0) == j,
{
    assert(has_ip(es, es[j].0));
    let k = ip_index(es, es[j].0);
    if k < j {
        assert(es[k].0 != es[j].0);
    } else if k > j {
        assert(es[j].0 != es[k].0);
    }
}

/// Recording a failure keeps addresses distinct and leaves the address
/// with an entry stamped `now`; a failure less than the lock time after
/// the last one adds one to its count, and the first failure of an address
/// counts one.
pub proof fn lemma_record_step(es: Seq<EntryV>, ip: Seq<char>, now: u64)
    requires
        guard_wf(es),
    ensures
        guard_wf(record_outcome(es, ip, now)),
        has_ip(record_outcome(es, ip, now), ip),
        record_outcome(es, ip, now)[ip_index(record_outcome(es, ip, now), ip)].0 == ip,
        record_outcome(es, ip, now)[ip_index(record_outcome(es, ip, now), ip)].2 == now,
        record_outcome(es, ip, now)[ip_index(record_outcome(es, ip, now), ip)].1 >= 1,
        has_ip(es, ip) && elapsed(now, es[ip_index(es, ip)].2) < LOCK_SECS ==> record_outcome(es, ip, now)[ip_index(
            record_outcome(es, ip, now),
            ip,
        )].1 == sat_inc(es[ip_index(es, ip)].1),
        !has_ip(es, ip) ==> record_outcome(es, ip, now)[ip_index(record_outcome(es, ip, now), ip)].1 == 1,
{
    let kp = |e: EntryV| young(e, now);
    let kept = es.filter(kp);
    crate::catalog::lemma_filter_sub(es, kp);
    let f = choose|f: Seq<int>| crate::catalog::embeds(kept, es, f);
    assert forall|x: int, y: int| 0 <= x < y < kept.len() implies kept[x].0 != kept[y].0 by {
        assert(kept[x] == es[f[x]] && kept[y] == es[f[y]]);
    }
    let r = record_outcome(es, ip, now);
    if has_ip(kept, ip) {
        let j = ip_index(kept, ip);
        assert(kept[j] == es[f[j]]);
        assert(has_ip(es, ip));
    }
    if has_ip(es, ip) && elapsed(now, es[ip_index(es, ip)].2) < LOCK_SECS {
        let i = ip_index(es, ip);
        assert(kp(es[i]));
        es.lemma_filter_contains(kp, i);
        assert(kept.contains(es[i]));
        let j = choose|j: int| 0 <= j < kept.len() && kept[j] == es[i];
        assert(has_ip(kept, ip));
        lemma_ip_index(kept, j);
    }
    if has_ip(kept, ip) {
        let j = ip_index(kept, ip);
        assert forall|x: int, y: int| 0 <= x < y < r.len() implies r[x].0 != r[y].0 by {
            assert(kept[x].0 != kept[y].0);
        }
        assert(r[j].0 == ip);
        lemma_ip_index(r, j);
    } else {
        assert forall|x: int, y: int| 0 <= x < y < r.len() implies r[x].0 != r[y].0 by {
            if y == r.len() - 1 {
                assert(kept[x].0 != ip);
            } else {
                assert(kept[x].0 != kept[y].0);
            }
        }
        lemma_ip_index(r, r.len() - 1);
    }
}

/// The table after `n` failures of `ip`, all at the moment `now`.
pub open spec fn record_n(es: Seq<EntryV>, ip: Seq<char>, now: u64, n: nat) -> Seq<EntryV>
    decreases n,
{
    if n == 0 {
        es
    } else {
        record_outcome(record_n(es, ip, now, (n - 1) as nat), ip, now)
    }
}

proof fn lemma_record_n(es: Seq<EntryV>, ip: Seq<char>, now: u64, n: nat)
    requires
        guard_wf(es),
        1 <= n,
    ensures
        guard_wf(record_n(es, ip, now, n)),
        has_ip(record_n(es, ip, now, n), ip),
        record_n(es, ip, now, n)[ip_index(record_n(es, ip, now, n), ip)].2 == now,
        record_n(es, ip, now, n)[ip_index(record_n(es, ip, now, n), ip)].1 >= n || record_n(
            es,
            ip,
            now,
            n,
        )[ip_index(record_n(es, ip, now, n), ip)].1 == u32::MAX,
    decreases n,
{
    if n == 1 {
        assert(record_n(es, ip, now, 0) == es);
        assert(record_n(es, ip, now, 1) == record_outcome(es, ip, now));
        lemma_record_step(es, ip, now);
    } else {
        lemma_record_n(es, ip, now, (n - 1) as nat);
        assert(record_n(es, ip, now, n) == record_outcome(record_n(es, ip, now, (n - 1) as nat), ip, now));
        lemma_record_step(record_n(es, ip, now, (n - 1) as nat), ip, now);
    }
}

/// The table after failures of `ip` at the times `ts`, in order.
pub open spec fn record_times(es: Seq<EntryV>, ip: Seq<char>, ts: Seq<u64>) -> Seq<EntryV>
    decreases ts.len(),
{
    if ts.len() == 0 {
        es
    } else {
        record_outcome(record_times(es, ip, ts.drop_last()), ip, ts.last())
    }
}

/// Each time comes less than the lock time after the one before.
pub open spec fn close_together(ts: Seq<u64>) -> bool {
    forall|i: int| 0 <= i < ts.len() - 1 ==> #[trigger] elapsed(ts[i + 1], ts[i]) < LOCK_SECS
}

/// The table once the failures of `ip` are forgotten.
pub open spec fn cleared(es: Seq<EntryV>, ip: Seq<char>) -> Seq<EntryV> {
    if has_ip(es, ip) {
        es.remove(ip_index(es, ip))
    } else {
        es
    }
}

proof fn lemma_record_times(es: Seq<EntryV>, ip: Seq<char>, ts: Seq<u64>)
    requires
        guard_wf(es),
        !has_ip(es, ip),
        ts.len() >= 1,
        close_together(ts),
    ensures
        guard_wf(record_times(es, ip, ts)),
        has_ip(record_times(es, ip, ts), ip),
        record_times(es, ip, ts)[ip_index(record_times(es, ip, ts), ip)].2 == ts.last(),
        record_times(es, ip, ts)[ip_index(record_times(es, ip, ts), ip)].1 == if ts.len() < u32::MAX {
            ts.len()
        } else {
            u32::MAX as nat
        },
    decreases ts.len(),
{
    let t = ts.drop_last();
    if ts.len() == 1 {
        assert(record_times(es, ip, t) == es);
        lemma_record_step(es, ip, ts.last());
    } else {
        assert forall|i: int| 0 <= i < t.len() - 1 implies #[trigger] elapsed(t[i + 1], t[i]) < LOCK_SECS by {
            assert(t[i + 1] == ts[i + 1] && t[i] == ts[i]);
            assert(elapsed(ts[i + 1], ts[i]) < LOCK_SECS);
        }
        lemma_record_times(es, ip, t);
        let k = ts.len() - 2;
        assert(t.last() == ts[k]);
        assert(elapsed(ts[k + 1], ts[k]) < LOCK_SECS);
        lemma_record_step(record_times(es, ip, t), ip, ts.last());
    }
}

/// Failed logins of an address that had none (`record_login_fail_at` at
/// the times `ts`), each less than the lock time after the one before:
/// fewer than five never lock it, whenever it is asked
/// (`login_locked_at`); five or more lock it for the lock time (ten
/// minutes) after the last of them, showing the minutes left, rounded up;
/// after that it is free.
pub proof fn law_failures_lock(es: Seq<EntryV>, ip: Seq<char>, ts: Seq<u64>, now: u64)
    requires
        guard_wf(es),
        !has_ip(es, ip),
        close_together(ts),
    ensures
        ts.len() < MAX_LOGIN_FAILS ==> locked_outcome(record_times(es, ip, ts), ip, now).1 is None,
        ts.len() >= MAX_LOGIN_FAILS && elapsed(now, ts.last()) < LOCK_SECS ==> locked_outcome(
            record_times(es, ip, ts),
            ip,
            now,
        ).1 == Some(((LOCK_SECS - elapsed(now, ts.last())) / 60 + 1) as u64),
        ts.len() >= MAX_LOGIN_FAILS && elapsed(now, ts.last()) >= LOCK_SECS ==> locked_outcome(
            record_times(es, ip, ts),
            ip,
            now,
        ).1 is None,
{
    if ts.len() >= 1 {
        lemma_record_times(es, ip, ts);
    }
}

/// Once its failures are forgotten, an address is not locked.
pub proof fn law_cleared_not_locked(es: Seq<EntryV>, ip: Seq<char>, now: u64)
    requires
        guard_wf(es),
    ensures
        locked_outcome(cleared(es, ip), ip, now).1 is None,
{
    if has_ip(es, ip) {
        let i = ip_index(es, ip);
        let c = es.remove(i);
        if has_ip(c, ip) {
            let k = ip_index(c, ip);
            if k < i {
                assert(c[k] == es[k]);
                assert(es[k].0 != es[i].0);
            } else {
                assert(c[k] == es[k + 1]);
                assert(es[i].0 != es[k + 1].0);
            }
        }
    }
}

/// Five failed logins from one address lock it: right after them the
/// address is refused, for the full lock time (ten minutes, shown as 11
/// started minutes).
pub proof fn law_five_failures_lock(es: Seq<EntryV>, ip: Seq<char>, now: u64)
    requires
        guard_wf(es),
    ensures
        locked_outcome(record_n(es, ip, now, MAX_LOGIN_FAILS as nat), ip, now).1 == Some(
            (LOCK_SECS / 60 + 1) as u64,
        ),
{
    lemma_record_n(es, ip, now, MAX_LOGIN_FAILS as nat);
}

} // verus!
