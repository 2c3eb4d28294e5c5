use card::models::Store;
use card::auth::{session_cookie_header, clear_cookie_header, get_cookie, client_ip, SESSION_COOKIE};
use card::guard::{LoginGuard, MAX_LOGIN_FAILS, LOCK_SECS};
use card::pages::{LoginForm, LoginOutcome, PasswordForm};

fn shop_with_admin() -> Store {
    let mut s = Store::new();
    s.seed_settings();
    assert_eq!(s.seed_admin(), Ok(()));
    assert!(s.check_wf());
    s
}

fn login(s: &Store, user: &str, pw: &str) -> Option<i64> {
    s.login(&LoginForm { username: user.to_string(), password: pw.to_string() }).map(|u| u.id)
}

#[test]
fn the_first_administrator_logs_in_with_the_default_password() {
    let s = shop_with_admin();
    assert_eq!(login(&s, " admin ", "admin123"), Some(1));
    assert_eq!(login(&s, "admin", "admin124"), None);
    assert_eq!(login(&s, "root", "admin123"), None);
    let u = s.verify_login("admin", "admin123").unwrap();
    assert_eq!(u.username, "admin");
}

#[test]
fn seeding_an_administrator_twice_adds_none() {
    let mut s = shop_with_admin();
    assert_eq!(s.seed_admin(), Ok(()));
    assert_eq!(s.admins.len(), 1);
}

#[test]
fn sessions_log_in_until_they_end() {
    let mut s = shop_with_admin();
    let token = s.create_session(1).unwrap();
    assert_eq!(token.len(), 48);
    assert_eq!(s.admin_by_token(&token).map(|u| u.id), Some(1));
    let cookie = format!("theme=dark; {}={} ; x=1", SESSION_COOKIE, token);
    assert_eq!(s.request_admin(Some(&cookie)).map(|u| u.username), Some("admin".to_string()));
    assert!(s.request_admin(Some("theme=dark")).is_none());
    assert!(s.request_admin(None).is_none());
    s.destroy_session(&token);
    assert!(s.admin_by_token(&token).is_none());
    assert!(s.request_admin(Some(&cookie)).is_none());
}

#[test]
fn an_expired_session_logs_in_nobody() {
    let mut s = shop_with_admin();
    assert_eq!(s.create_session_at(1, "tok", "2026-08-02 10:00:00", "2026-07-26 10:00:00"), Ok(()));
    assert!(s.admin_by_token_at("tok", "2026-08-01 10:00:00").is_some());
    assert!(s.admin_by_token_at("tok", "2026-08-02 10:00:00").is_none());
    assert_eq!(
        s.create_session_at(1, "tok", "2026-08-02 10:00:00", "2026-07-26 10:00:00"),
        Err("UNIQUE constraint failed: sessions.token".to_string())
    );
}

#[test]
fn changing_the_password() {
    let mut s = shop_with_admin();
    let token = s.create_session(1).unwrap();
    let f = |old: &str, new: &str| PasswordForm { old_password: old.to_string(), new_password: new.to_string() };
    assert_eq!(s.change_password_with(1, &f("admin123", "short")), Err("新密码至少 6 位".to_string()));
    assert_eq!(s.change_password_with(1, &f("wrong!", "newpass1")), Err("原密码不正确".to_string()));
    assert_eq!(s.change_password_with(7, &f("admin123", "newpass1")), Err("Query returned no rows".to_string()));
    assert!(s.admin_by_token(&token).is_some());
    assert_eq!(s.change_password_with(1, &f("admin123", "newpass1")), Ok(()));
    assert_eq!(login(&s, "admin", "newpass1"), Some(1));
    assert_eq!(login(&s, "admin", "admin123"), None);
    // every session of the administrator is closed
    assert!(s.admin_by_token(&token).is_none());
}

#[test]
fn cookies() {
    assert_eq!(
        session_cookie_header("tok", "/k7q2xd"),
        "admin_session=tok; Path=/k7q2xd; HttpOnly; SameSite=Lax; Max-Age=604800"
    );
    assert_eq!(clear_cookie_header("/k7q2xd"), "admin_session=; Path=/k7q2xd; HttpOnly; SameSite=Lax; Max-Age=0");
    assert_eq!(get_cookie("a=1; admin_session=xyz ; b=2", "admin_session"), Some("xyz".to_string()));
    assert_eq!(get_cookie("a=1;b=x=y", "b"), Some("x=y".to_string()));
    assert_eq!(get_cookie("a=1", "b"), None);
    assert_eq!(get_cookie("", "a"), None);
}

#[test]
fn the_client_address() {
    assert_eq!(client_ip(Some(" 1.2.3.4 , 5.6.7.8"), Some("9.9.9.9")), "1.2.3.4");
    assert_eq!(client_ip(Some(" "), Some("9.9.9.9")), "9.9.9.9");
    assert_eq!(client_ip(None, None), "unknown");
}

#[test]
fn five_failures_lock_an_address_for_ten_minutes() {
    let mut g = LoginGuard::new();
    assert_eq!(MAX_LOGIN_FAILS, 5);
    for _ in 0..4 {
        g.record_login_fail_at("1.1.1.1", 1000);
    }
    assert_eq!(g.login_locked_at("1.1.1.1", 1000), None);
    g.record_login_fail_at("1.1.1.1", 1000);
    assert_eq!(g.login_locked_at("1.1.1.1", 1000), Some(11));
    assert_eq!(g.login_locked_at("1.1.1.1", 1000 + 599), Some(1));
    assert_eq!(g.login_locked_at("2.2.2.2", 1000), None);
    // after the lock time the address is free and forgotten
    assert_eq!(g.login_locked_at("1.1.1.1", 1000 + LOCK_SECS), None);
    assert!(g.entries.is_empty());
}

#[test]
fn a_success_clears_the_failures() {
    let mut g = LoginGuard::new();
    for _ in 0..5 {
        g.record_login_fail_at("1.1.1.1", 50);
    }
    g.clear_login_fails("1.1.1.1");
    assert_eq!(g.login_locked_at("1.1.1.1", 50), None);
}

#[test]
fn old_failures_start_counting_afresh() {
    let mut g = LoginGuard::new();
    for _ in 0..4 {
        g.record_login_fail_at("1.1.1.1", 0);
    }
    g.record_login_fail_at("1.1.1.1", 700);
    assert_eq!(g.entries[0].1, 1);
    assert_eq!(g.login_locked_at("1.1.1.1", 700), None);
    // entries older than twice the lock time are dropped
    g.record_login_fail_at("3.3.3.3", 700 + 2 * LOCK_SECS);
    assert_eq!(g.entries.len(), 1);
}

#[test]
fn failures_spread_over_time_lock_at_the_fifth() {
    let mut g = LoginGuard::new();
    // four failures, each 500 s after the one before, never lock
    for k in 0..4u64 {
        g.record_login_fail_at("9.9.9.9", 1000 + 500 * k);
        assert_eq!(g.login_locked_at("9.9.9.9", 1000 + 500 * k + 1), None);
    }
    // the fifth does, for ten minutes after it
    g.record_login_fail_at("9.9.9.9", 3000);
    assert_eq!(g.login_locked_at("9.9.9.9", 3000 + 599), Some(1));
    // forgetting the failures unlocks
    g.clear_login_fails("9.9.9.9");
    assert_eq!(g.login_locked_at("9.9.9.9", 3000 + 1), None);
}

#[test]
fn login_attempts_count_lock_and_clear() {
    let mut s = shop_with_admin();
    let mut g = LoginGuard::new();
    let form = |pw: &str| LoginForm { username: "admin".to_string(), password: pw.to_string() };
    let attempt = |s: &mut Store, g: &mut LoginGuard, pw: &str, t: u64, tok: &str| {
        s.login_attempt_at(g, "5.5.5.5", &form(pw), t, tok, "2099-01-01 00:00:00", "2026-07-26 10:00:00")
    };
    for k in 0..4u64 {
        let r = attempt(&mut s, &mut g, "wrong", 100 + k, "t0");
        assert!(matches!(r, LoginOutcome::Refused));
        assert_eq!(r.notice(), Some("账号或密码不正确".to_string()));
    }
    // the right password clears the failures and opens a session
    match attempt(&mut s, &mut g, "admin123", 110, "tok1") {
        LoginOutcome::LoggedIn(u, t) => {
            assert_eq!(u.id, 1);
            assert_eq!(t, "tok1");
        }
        _ => panic!("login expected"),
    }
    assert_eq!(s.sessions.len(), 1);
    assert!(g.entries.is_empty());
    // five failures lock the address, even for the right password
    for k in 0..5u64 {
        assert!(matches!(attempt(&mut s, &mut g, "wrong", 200 + k, "t0"), LoginOutcome::Refused));
    }
    let r = attempt(&mut s, &mut g, "admin123", 210, "tok2");
    assert!(matches!(r, LoginOutcome::Locked(10)));
    assert_eq!(r.notice(), Some("登录失败次数过多，请 10 分钟后再试".to_string()));
    assert_eq!(s.sessions.len(), 1);
    // a taken token is refused
    let r = attempt(&mut s, &mut g, "admin123", 210 + LOCK_SECS, "tok1");
    assert!(matches!(r, LoginOutcome::Failed(_)));
}
