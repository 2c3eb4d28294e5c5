//! Administrators: password check, sessions, the session cookie, and the
//! lock-out after repeated failed logins.

use vstd::prelude::*;
use crate::catalog::{embeds, lemma_filter_sub};
use crate::models::{Admin, AdminV, Session, SessionV, Store, StoreV};
use crate::money::idx_of;
use crate::money::find_char;
use crate::text::{
    chars_eq, chars_of, copy_str, push_str, split_chars, split_on, str_eq, str_lt, string_of,
    text_lt, trim, trim_chars,
};

verus! {

/// Name of the session cookie.
pub const SESSION_COOKIE: &'static str = "admin_session";

/// Days a session lasts.
pub const SESSION_DAYS: i64 = 7;

/// A logged-in administrator.
pub struct AdminUser {
    pub id: i64,
    pub username: String,
}

// ---------- bcrypt ----------

/// What `bcrypt::verify(password, hash)` returns: `Some(b)` for `Ok(b)`,
/// `None` when the hash cannot be read.  Its value is fixed by the password
/// and the hash (the salt and cost are read from the hash).
pub uninterp spec fn bcrypt_verdict(password: Seq<char>, hash: Seq<char>) -> Option<bool>;

/// `bcrypt::verify`: whether `password` matches `hash` (`None` when the
/// hash is malformed).
#[verifier::external_body]
fn bcrypt_verify(password: &str, hash: &str) -> (r: Option<bool>)
    ensures
        r == bcrypt_verdict(password@, hash@),
{
    bcrypt::verify(password, hash).ok()
}

/// `bcrypt::hash(password, 10)`: a hash with a random salt, or the crate's
/// error text.  Claimed: verifying the same password against the hash it
/// produced succeeds (the crate's `verify` re-hashes with the salt and cost
/// stored in the hash).  The hash itself depends on the random salt and is
/// not otherwise described.
#[verifier::external_body]
pub(crate) fn bcrypt_hash(password: &str) -> (r: Result<String, String>)
    ensures
        r matches Ok(h) ==> bcrypt_verdict(password@, h@) == Some(true),
{
    bcrypt::hash(password, 10).map_err(|e| e.to_string())
}

// ---------- admins and sessions ----------

pub open spec fn has_admin_named(admins: Seq<AdminV>, name: Seq<char>) -> bool {
    exists|i: int| 0 <= i < admins.len() && admins[i].username == name
}

pub open spec fn admin_named(admins: Seq<AdminV>, name: Seq<char>) -> AdminV {
    admins[choose|i: int| 0 <= i < admins.len() && admins[i].username == name]
}

pub open spec fn has_admin_id(admins: Seq<AdminV>, id: i64) -> bool {
    exists|i: int| 0 <= i < admins.len() && admins[i].id == id
}

pub open spec fn admin_with_id(admins: Seq<AdminV>, id: i64) -> AdminV {
    admins[choose|i: int| 0 <= i < admins.len() && admins[i].id == id]
}

/// A session with this token that has not expired at `now`.
pub open spec fn live_session(sessions: Seq<SessionV>, token: Seq<char>, now: Seq<char>, k: int) -> bool {
    0 <= k < sessions.len() && sessions[k].token == token && text_lt(now, sessions[k].expires_at)
}

/// The administrator whose session with this token is valid at `now`.
pub open spec fn session_admin(s: StoreV, token: Seq<char>, now: Seq<char>) -> Option<AdminV> {
    if exists|k: int| live_session(s.sessions, token, now, k) {
        let k = choose|k: int| live_session(s.sessions, token, now, k);
        if has_admin_id(s.admins, s.sessions[k].admin_id) {
            Some(admin_with_id(s.admins, s.sessions[k].admin_id))
        } else {
            None
        }
    } else {
        None
    }
}

pub open spec fn msg_dup_token() -> Seq<char> {
    "UNIQUE constraint failed: sessions.token"@
}

pub open spec fn msg_short_password() -> Seq<char> {
    "新密码至少 6 位"@
}

pub open spec fn msg_no_rows() -> Seq<char> {
    "Query returned no rows"@
}

pub open spec fn msg_wrong_password() -> Seq<char> {
    "原密码不正确"@
}

/// Sessions kept when a new one is created at `now`: the unexpired ones.
pub open spec fn unexpired(s: SessionV, now: Seq<char>) -> bool {
    !text_lt(s.expires_at, now)
}

/// The sessions after opening one with `token` for `admin_id`, expiring at
/// `exp`, at time `now`.
pub open spec fn sessions_after_open(ss: Seq<SessionV>, token: Seq<char>, admin_id: i64, exp: Seq<char>, now: Seq<char>) -> Seq<SessionV> {
    ss.push(SessionV { token, admin_id, expires_at: exp }).filter(|x: SessionV| unexpired(x, now))
}

impl Store {
    fn find_admin_named(&self, name: &str) -> (r: Option<usize>)
        requires
            self@.wf(),
        ensures
            r matches Some(i) ==> i < self@.admins.len() && self@.admins[i as int] == admin_named(self@.admins, name@)
                && self@.admins[i as int].username == name@,
            r is None ==> !has_admin_named(self@.admins, name@),
    {
        let mut i: usize = 0;
        while i < self.admins.len()
            invariant
                self@.wf(),
                i <= self@.admins.len(),
                forall|j: int| 0 <= j < i ==> self@.admins[j].username != name@,
            decreases self@.admins.len() - i,
        {
            if str_eq(self.admins[i].username.as_str(), name) {
                proof {
                    let a = self@.admins;
                    assert(a[i as int].username == name@);
                    let k = choose|k: int| 0 <= k < a.len() && a[k].username == name@;
                    if k != i {
                        if k < i {
                            assert(a[k].username != a[i as int].username);
                        } else {
                            assert(a[i as int].username != a[k].username);
                        }
                    }
                }
                return Some(i);
            }
            i = i + 1;
        }
        None
    }

    fn find_admin_id(&self, id: i64) -> (r: Option<usize>)
        requires
            self@.wf(),
        ensures
            r matches Some(i) ==> i < self@.admins.len() && self@.admins[i as int] == admin_with_id(self@.admins, id)
                && self@.admins[i as int].id == id,
            r is None ==> !has_admin_id(self@.admins, id),
    {
        let mut i: usize = 0;
        while i < self.admins.len()
            invariant
                self@.wf(),
                i <= self@.admins.len(),
                forall|j: int| 0 <= j < i ==> self@.admins[j].id != id,
            decreases self@.admins.len() - i,
        {
            if self.admins[i].id == id {
                proof {
                    let a = self@.admins;
                    assert(a[i as int].id == id);
                    let k = choose|k: int| 0 <= k < a.len() && a[k].id == id;
                    if k != i {
                        if k < i {
                            assert(a[k].id < a[i as int].id);
                        } else {
                            assert(a[i as int].id < a[k].id);
                        }
                    }
                }
                return Some(i);
            }
            i = i + 1;
        }
        None
    }

    /// Checks a login: the administrator named `username` whose password
    /// hash accepts `password`.
    pub fn verify_login(&self, username: &str, password: &str) -> (r: Option<AdminUser>)
        requires
            self@.wf(),
        ensures
            r is Some <==> has_admin_named(self@.admins, username@)
                && bcrypt_verdict(password@, admin_named(self@.admins, username@).password_hash) == Some(true),
            r matches Some(u) ==> u.id == admin_named(self@.admins, username@).id && u.username@ == username@,
    {
        let i = match self.find_admin_named(username) {
            Some(i) => i,
            None => return None,
        };
        let a = &self.admins[i];
        if bcrypt_verify(password, a.password_hash.as_str()).unwrap_or(false) {
            Some(AdminUser { id: a.id, username: a.username.clone() })
        } else {
            None
        }
    }

    /// Opens a session with token `token`, expiring at `expires`, and drops
    /// the sessions that expired before `now`.
    pub fn create_session_at(&mut self, admin_id: i64, token: &str, expires: &str, now: &str) -> (r: Result<(), String>)
        requires
            old(self)@.wf(),
        ensures
            final(self)@.wf(),
            (exists|k: int| 0 <= k < old(self)@.sessions.len() && old(self)@.sessions[k].token == token@)
                ==> final(self)@ == old(self)@ && (r matches Err(m) && m@ == msg_dup_token()),
            !(exists|k: int| 0 <= k < old(self)@.sessions.len() && old(self)@.sessions[k].token == token@)
                ==> r is Ok && final(self)@ == (StoreV {
                    sessions: sessions_after_open(old(self)@.sessions, token@, admin_id, expires@, now@),
                    ..old(self)@
                }),
    {
        let ghost s = self@;
        let mut k: usize = 0;
        while k < self.sessions.len()
            invariant
                s == self@,
                s.wf(),
                k <= s.sessions.len(),
                forall|j: int| 0 <= j < k ==> s.sessions[j].token != token@,
            decreases s.sessions.len() - k,
        {
            if str_eq(self.sessions[k].token.as_str(), token) {
                assert(s.sessions[k as int].token == token@);
                return Err(copy_str("UNIQUE constraint failed: sessions.token"));
            }
            k = k + 1;
        }
        self.sessions.push(Session { token: copy_str(token), admin_id, expires_at: copy_str(expires) });
        let ghost all = self@.sessions;
        proof {
            assert(all =~= s.sessions.push(SessionV { token: token@, admin_id, expires_at: expires@ }));
        }
        let ghost kp = |x: SessionV| unexpired(x, now@);
        let mut out: Vec<Session> = Vec::new();
        let mut i: usize = 0;
        while i < self.sessions.len()
            invariant
                all == self@.sessions,
                kp == (|x: SessionV| unexpired(x, now@)),
                i <= all.len(),
                out@.map_values(|x: Session| x@) == all.take(i as int).filter(kp),
            decreases all.len() - i,
        {
            let x = &self.sessions[i];
            proof {
                assert(all.take(i + 1).drop_last() =~= all.take(i as int));
                assert(all.take(i + 1).last() == x@);
                assert(all.take(i + 1).filter(kp) == if kp(x@) {
                    all.take(i as int).filter(kp).push(x@)
                } else {
                    all.take(i as int).filter(kp)
                }) by {
                    reveal(Seq::filter);
                }
            }
            if !str_lt(x.expires_at.as_str(), now) {
                let ghost o = out@.map_values(|x: Session| x@);
                out.push(Session { token: x.token.clone(), admin_id: x.admin_id, expires_at: x.expires_at.clone() });
                assert(out@.map_values(|x: Session| x@) =~= o.push(x@));
            }
            i = i + 1;
        }
        self.sessions = out;
        proof {
            assert(all.take(all.len() as int) =~= all);
            assert(self@.sessions =~= all.filter(kp));
            lemma_filter_sub(all, kp);
            let b = self@.sessions;
            let f = choose|f: Seq<int>| embeds(b, all, f);
            assert forall|i: int, j: int| 0 <= i < j < b.len() implies b[i].token != b[j].token by {
                assert(b[i] == all[f[i]] && b[j] == all[f[j]]);
                if f[j] == all.len() - 1 {
                    assert(all[f[i]].token == s.sessions[f[i]].token);
                } else {
                    assert(all[f[i]] == s.sessions[f[i]] && all[f[j]] == s.sessions[f[j]]);
                }
            }
            assert(self@ =~= (StoreV { sessions: all.filter(kp), ..s }));
        }
        Ok(())
    }

    /// Opens a session for `admin_id` valid for seven days and returns its
    /// token (48 random hex digits); expired sessions are dropped.
    pub fn create_session(&mut self, admin_id: i64) -> (r: Result<String, String>)
        requires
            old(self)@.wf(),
        ensures
            final(self)@.wf(),
            match r {
                Ok(t) => t@.len() == 48 && exists|exp: Seq<char>, now: Seq<char>| final(self)@ == (StoreV {
                    sessions: #[trigger] sessions_after_open(old(self)@.sessions, t@, admin_id, exp, now),
                    ..old(self)@
                }),
                Err(m) => final(self)@ == old(self)@ && m@ == msg_dup_token(),
            },
    {
        let token = crate::util::gen_token();
        let expires = crate::util::days_later_str(SESSION_DAYS);
        let now = crate::util::now_str();
        let ghost s = self@;
        match self.create_session_at(admin_id, token.as_str(), expires.as_str(), now.as_str()) {
            Ok(()) => {
                assert(self@ == (StoreV { sessions: sessions_after_open(s.sessions, token@, admin_id, expires@, now@), ..s }));
                Ok(token)
            },
            Err(e) => Err(e),
        }
    }
}


impl Store {
    /// Closes the session with this token.
    pub fn destroy_session(&mut self, token: &str)
        requires
            old(self)@.wf(),
        ensures
            final(self)@.wf(),
            final(self)@ == (StoreV { sessions: old(self)@.sessions.filter(|x: SessionV| x.token != token@), ..old(self)@ }),
    {
        let ghost s = self@;
        let ghost kp = |x: SessionV| x.token != token@;
        let mut out: Vec<Session> = Vec::new();
        let mut i: usize = 0;
        while i < self.sessions.len()
            invariant
                s == self@,
                kp == (|x: SessionV| x.token != token@),
                i <= s.sessions.len(),
                out@.map_values(|x: Session| x@) == s.sessions.take(i as int).filter(kp),
            decreases s.sessions.len() - i,
        {
            let x = &self.sessions[i];
            proof {
                assert(s.sessions.take(i + 1).drop_last() =~= s.sessions.take(i as int));
                assert(s.sessions.take(i + 1).last() == x@);
                assert(s.sessions.take(i + 1).filter(kp) == if kp(x@) {
                    s.sessions.take(i as int).filter(kp).push(x@)
                } else {
                    s.sessions.take(i as int).filter(kp)
                }) by {
                    reveal(Seq::filter);
                }
            }
            if !str_eq(x.token.as_str(), token) {
                let ghost o = out@.map_values(|x: Session| x@);
                out.push(Session { token: x.token.clone(), admin_id: x.admin_id, expires_at: x.expires_at.clone() });
                assert(out@.map_values(|x: Session| x@) =~= o.push(x@));
            }
            i = i + 1;
        }
        self.sessions = out;
        proof {
            assert(s.sessions.take(s.sessions.len() as int) =~= s.sessions);
            assert(self@.sessions =~= s.sessions.filter(kp));
            lemma_filter_sub(s.sessions, kp);
            let b = self@.sessions;
            let f = choose|f: Seq<int>| embeds(b, s.sessions, f);
            assert forall|i: int, j: int| 0 <= i < j < b.len() implies b[i].token != b[j].token by {
                assert(b[i] == s.sessions[f[i]] && b[j] == s.sessions[f[j]]);
            }
            assert(self@ =~= (StoreV { sessions: s.sessions.filter(kp), ..s }));
        }
    }

    /// The administrator of the session with this token, if that session
    /// is still valid at `now` and its administrator exists.
    pub fn admin_by_token_at(&self, token: &str, now: &str) -> (r: Option<AdminUser>)
        requires
            self@.wf(),
        ensures
            match session_admin(self@, token@, now@) {
                Some(a) => r matches Some(u) && u.id == a.id && u.username@ == a.username,
                None => r is None,
            },
    {
        let ghost s = self@;
        let mut k: usize = 0;
        while k < self.sessions.len()
            invariant
                s == self@,
                s.wf(),
                k <= s.sessions.len(),
                forall|j: int| 0 <= j < k ==> !live_session(s.sessions, token@, now@, j),
            decreases s.sessions.len() - k,
        {
            let x = &self.sessions[k];
            if str_eq(x.token.as_str(), token) && str_lt(now, x.expires_at.as_str()) {
                proof {
                    assert(live_session(s.sessions, token@, now@, k as int));
                    let c = choose|j: int| live_session(s.sessions, token@, now@, j);
                    if c != k {
                        if c < k {
                            assert(s.sessions[c].token != s.sessions[k as int].token);
                        } else {
                            assert(s.sessions[k as int].token != s.sessions[c].token);
                        }
                    }
                }
                return match self.find_admin_id(x.admin_id) {
                    Some(i) => Some(AdminUser { id: self.admins[i].id, username: self.admins[i].username.clone() }),
                    None => None,
                };
            }
            k = k + 1;
        }
        None
    }

    /// The administrator of a valid session with this token, now.
    pub fn admin_by_token(&self, token: &str) -> (r: Option<AdminUser>)
        requires
            self@.wf(),
        ensures
            exists|now: Seq<char>| match #[trigger] session_admin(self@, token@, now) {
                Some(a) => r matches Some(u) && u.id == a.id && u.username@ == a.username,
                None => r is None,
            },
    {
        let now = crate::util::now_str();
        let r = self.admin_by_token_at(token, now.as_str());
        assert(match session_admin(self@, token@, now@) {
            Some(a) => r matches Some(u) && u.id == a.id && u.username@ == a.username,
            None => r is None,
        });
        r
    }

    /// Changes the password of administrator `admin_id` after checking the
    /// old one; all of its sessions are closed.
    pub fn change_password(&mut self, admin_id: i64, old_pw: &str, new_pw: &str) -> (r: Result<(), String>)
        requires
            old(self)@.wf(),
        ensures
            final(self)@.wf(),
            new_pw@.len() < 6 ==> final(self)@ == old(self)@ && (r matches Err(m) && m@ == msg_short_password()),
            new_pw@.len() >= 6 && !has_admin_id(old(self)@.admins, admin_id) ==> final(self)@ == old(self)@
                && (r matches Err(m) && m@ == msg_no_rows()),
            new_pw@.len() >= 6 && has_admin_id(old(self)@.admins, admin_id)
                && bcrypt_verdict(old_pw@, admin_with_id(old(self)@.admins, admin_id).password_hash) != Some(true)
                ==> final(self)@ == old(self)@ && (r matches Err(m) && m@ == msg_wrong_password()),
            r is Err ==> final(self)@ == old(self)@,
            r is Ok ==> {
                &&& new_pw@.len() >= 6
                &&& has_admin_id(old(self)@.admins, admin_id)
                &&& bcrypt_verdict(old_pw@, admin_with_id(old(self)@.admins, admin_id).password_hash) == Some(true)
                &&& final(self)@.admins.len() == old(self)@.admins.len()
                &&& forall|i: int| 0 <= i < old(self)@.admins.len() ==> {
                    let a = old(self)@.admins[i];
                    let b = #[trigger] final(self)@.admins[i];
                    &&& b.id == a.id && b.username == a.username && b.created_at == a.created_at
                    &&& a.id != admin_id ==> b == a
                    &&& a.id == admin_id ==> bcrypt_verdict(new_pw@, b.password_hash) == Some(true)
                }
                &&& final(self)@.sessions == old(self)@.sessions.filter(|x: SessionV| x.admin_id != admin_id)
                &&& final(self)@ == (StoreV { admins: final(self)@.admins, sessions: final(self)@.sessions, ..old(self)@ })
            },
            r is Ok ==> has_admin_named(final(self)@.admins, admin_with_id(old(self)@.admins, admin_id).username)
                && bcrypt_verdict(
                new_pw@,
                admin_named(final(self)@.admins, admin_with_id(old(self)@.admins, admin_id).username).password_hash,
            ) == Some(true),
    {
        if new_pw.unicode_len() < 6 {
            return Err(copy_str("新密码至少 6 位"));
        }
        let i = match self.find_admin_id(admin_id) {
            Some(i) => i,
            None => return Err(copy_str("Query returned no rows")),
        };
        if !bcrypt_verify(old_pw, self.admins[i].password_hash.as_str()).unwrap_or(false) {
            return Err(copy_str("原密码不正确"));
        }
        let h = match bcrypt_hash(new_pw) {
            Ok(h) => h,
            Err(e) => return Err(e),
        };
        let ghost s = self@;
        let a = &self.admins[i];
        let na = Admin { id: a.id, username: a.username.clone(), password_hash: h, created_at: a.created_at.clone() };
        self.admins.set(i, na);
        proof {
            let ad = self@.admins;
            assert(ad =~= s.admins.update(i as int, ad[i as int]));
            assert forall|x: int| 0 <= x < s.admins.len() && s.admins[x].id == admin_id implies x == i by {
                if x != i {
                    if x < i {
                        assert(s.admins[x].id < s.admins[i as int].id);
                    } else {
                        assert(s.admins[i as int].id < s.admins[x].id);
                    }
                }
            }
        }
        let ghost s2 = self@;
        let ghost kp = |x: SessionV| x.admin_id != admin_id;
        let mut out: Vec<Session> = Vec::new();
        let mut k: usize = 0;
        while k < self.sessions.len()
            invariant
                s2 == self@,
                s2.sessions == s.sessions,
                kp == (|x: SessionV| x.admin_id != admin_id),
                k <= s.sessions.len(),
                out@.map_values(|x: Session| x@) == s.sessions.take(k as int).filter(kp),
            decreases s.sessions.len() - k,
        {
            let x = &self.sessions[k];
            proof {
                assert(s.sessions.take(k + 1).drop_last() =~= s.sessions.take(k as int));
                assert(s.sessions.take(k + 1).last() == x@);
                assert(s.sessions.take(k + 1).filter(kp) == if kp(x@) {
                    s.sessions.take(k as int).filter(kp).push(x@)
                } else {
                    s.sessions.take(k as int).filter(kp)
                }) by {
                    reveal(Seq::filter);
                }
            }
            if x.admin_id != admin_id {
                let ghost o = out@.map_values(|x: Session| x@);
                out.push(Session { token: x.token.clone(), admin_id: x.admin_id, expires_at: x.expires_at.clone() });
                assert(out@.map_values(|x: Session| x@) =~= o.push(x@));
            }
            k = k + 1;
        }
        self.sessions = out;
        proof {
            assert(s.sessions.take(s.sessions.len() as int) =~= s.sessions);
            assert(self@.sessions =~= s.sessions.filter(kp));
            lemma_filter_sub(s.sessions, kp);
            let b = self@.sessions;
            let f = choose|f: Seq<int>| embeds(b, s.sessions, f);
            assert forall|i: int, j: int| 0 <= i < j < b.len() implies b[i].token != b[j].token by {
                assert(b[i] == s.sessions[f[i]] && b[j] == s.sessions[f[j]]);
            }
            let ad = self@.admins;
            assert forall|x: int, y: int| 0 <= x < y < ad.len() implies ad[x].username != ad[y].username by {
                assert(s.admins[x].username != s.admins[y].username);
            }
            assert forall|x: int, y: int| 0 <= x < y < ad.len() implies ad[x].id < ad[y].id by {
                assert(s.admins[x].id < s.admins[y].id);
            }
            assert forall|x: int| 0 <= x < ad.len() implies 1 <= #[trigger] ad[x].id <= s.admin_seq by {
                assert(1 <= s.admins[x].id <= s.admin_seq);
            }
            assert(self@ =~= (StoreV { admins: self@.admins, sessions: self@.sessions, ..s }));
            let u = s.admins[i as int].username;
            let w = choose|x: int| 0 <= x < s.admins.len() && s.admins[x].id == admin_id;
            assert(w == i);
            assert(admin_with_id(s.admins, admin_id) == s.admins[i as int]);
            assert(ad[i as int].username == u);
            assert(has_admin_named(ad, u));
            let c = choose|c: int| 0 <= c < ad.len() && ad[c].username == u;
            if c < i {
                assert(ad[c].username != ad[i as int].username);
            } else if c > i {
                assert(ad[i as int].username != ad[c].username);
            }
        }
        Ok(())
    }
}

// ---------- cookies ----------

pub open spec fn cookie_header_text(token: Seq<char>, base: Seq<char>) -> Seq<char> {
    "admin_session="@ + token + "; Path="@ + base + "; HttpOnly; SameSite=Lax; Max-Age=604800"@
}

pub open spec fn clear_cookie_text(base: Seq<char>) -> Seq<char> {
    "admin_session=; Path="@ + base + "; HttpOnly; SameSite=Lax; Max-Age=0"@
}

/// `Set-Cookie` value after a login: the session cookie, limited to the
/// back-office path `base`, for seven days.
pub fn session_cookie_header(token: &str, base: &str) -> (r: String)
    ensures
        r@ == cookie_header_text(token@, base@),
{
    let mut v: Vec<char> = Vec::new();
    push_str(&mut v, "admin_session=");
    push_str(&mut v, token);
    push_str(&mut v, "; Path=");
    push_str(&mut v, base);
    push_str(&mut v, "; HttpOnly; SameSite=Lax; Max-Age=604800");
    string_of(v.as_slice())
}

/// `Set-Cookie` value that removes the session cookie.
pub fn clear_cookie_header(base: &str) -> (r: String)
    ensures
        r@ == clear_cookie_text(base@),
{
    let mut v: Vec<char> = Vec::new();
    push_str(&mut v, "admin_session=; Path=");
    push_str(&mut v, base);
    push_str(&mut v, "; HttpOnly; SameSite=Lax; Max-Age=0");
    string_of(v.as_slice())
}

/// The value of cookie `name` in the pieces of a `Cookie` header: the first
/// piece that, trimmed, reads `name=value`.
pub open spec fn cookie_find(ps: Seq<Seq<char>>, name: Seq<char>) -> Option<Seq<char>>
    decreases ps.len(),
{
    if ps.len() == 0 {
        None
    } else {
        let t = trim(ps[0]);
        let k = idx_of(t, '=');
        if k < t.len() && t.take(k as int) == name {
            Some(t.skip(k + 1 as int))
        } else {
            cookie_find(ps.drop_first(), name)
        }
    }
}

/// The value of cookie `name` in the `Cookie` header `raw`.
pub fn get_cookie(raw: &str, name: &str) -> (r: Option<String>)
    ensures
        match cookie_find(split_on(raw@, ';'), name@) {
            Some(v) => r matches Some(x) && x@ == v,
            None => r is None,
        },
{
    let rv = chars_of(raw);
    let nv = chars_of(name);
    let ps = split_chars(rv.as_slice(), ';');
    let ghost sp = split_on(raw@, ';');
    let mut i: usize = 0;
    assert(sp.skip(0) =~= sp);
    while i < ps.len()
        invariant
            sp == split_on(raw@, ';'),
            ps@.len() == sp.len(),
            forall|j: int| 0 <= j < ps@.len() ==> (#[trigger] ps@[j])@ == sp[j],
            nv@ == name@,
            i <= ps@.len(),
            cookie_find(sp, name@) == cookie_find(sp.skip(i as int), name@),
        decreases ps@.len() - i,
    {
        let t = trim_chars(ps[i].as_slice());
        let k = find_char(t.as_slice(), '=');
        proof {
            assert(sp.skip(i as int)[0] == sp[i as int]);
            assert(sp.skip(i as int).drop_first() =~= sp.skip(i + 1));
        }
        if k < t.len() {
            let key = crate::text::slice_range(t.as_slice(), 0, k);
            if chars_eq(key.as_slice(), nv.as_slice()) {
                let val = crate::text::slice_range(t.as_slice(), k + 1, t.len());
                assert(key@ =~= t@.take(k as int));
                assert(val@ =~= t@.skip(k + 1));
                assert(t@ == trim(sp.skip(i as int)[0]));
                assert(cookie_find(sp.skip(i as int), name@) == Some(t@.skip(k + 1)));
                assert(cookie_find(split_on(raw@, ';'), name@) == Some(val@));
                let out = string_of(val.as_slice());
                assert(out@ == val@);
                return Some(out);
            }
            assert(key@ =~= t@.take(k as int));
        }
        i = i + 1;
    }
    None
}

/// The first comma-separated field of a header value, trimmed.
pub open spec fn first_field(v: Seq<char>) -> Seq<char> {
    trim(v.take(idx_of(v, ',') as int))
}

pub open spec fn client_ip_text(forwarded: Option<Seq<char>>, real_ip: Option<Seq<char>>) -> Seq<char> {
    if forwarded matches Some(f) && first_field(f).len() > 0 {
        first_field(forwarded->0)
    } else if real_ip matches Some(x) && first_field(x).len() > 0 {
        first_field(real_ip->0)
    } else {
        "unknown"@
    }
}

/// The client's address from the proxy headers `X-Forwarded-For` and
/// `X-Real-IP` (their first field, trimmed), or "unknown".
pub fn client_ip(forwarded: Option<&str>, real_ip: Option<&str>) -> (r: String)
    ensures
        r@ == client_ip_text(
            match forwarded { Some(f) => Some(f@), None => None },
            match real_ip { Some(x) => Some(x@), None => None },
        ),
{
    match forwarded {
        Some(f) => {
            let v = first_field_of(f);
            if v.unicode_len() > 0 {
                return v;
            }
        },
        None => {},
    }
    match real_ip {
        Some(x) => {
            let v = first_field_of(x);
            if v.unicode_len() > 0 {
                return v;
            }
        },
        None => {},
    }
    copy_str("unknown")
}

fn first_field_of(s: &str) -> (r: String)
    ensures
        r@ == first_field(s@),
{
    let v = chars_of(s);
    let k = find_char(v.as_slice(), ',');
    let head = crate::text::slice_range(v.as_slice(), 0, k);
    assert(head@ =~= v@.take(k as int));
    let t = trim_chars(head.as_slice());
    string_of(t.as_slice())
}

} // verus!
