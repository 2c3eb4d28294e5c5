//! Where the back office lives and where uploads go: the secret admin path
//! (from the environment, else the stored setting, else generated once and
//! stored) and the upload directory.

use vstd::prelude::*;
use crate::text::{
    trim, strip_start, strip_end, chars_of, trim_chars, strip_start_chars, strip_end_chars,
    string_of, str_eq, copy_str, str_cat, opt_view,
};
use crate::like::{fold, fold_char};
use crate::util::random_below;
use crate::models::{Store, StoreV};
use crate::catalog::{setting_value, settings_put};

verus! {

/// Characters of generated admin paths: lower-case letters and digits,
/// without the easily confused `l`, `o`, `0` and `1`.
pub open spec fn slug_alphabet(c: char) -> bool {
    ('a' <= c && c <= 'z' && c != 'l' && c != 'o') || ('2' <= c && c <= '9')
}

/// The `i`-th character of the alphabet "abcdefghijkmnpqrstuvwxyz23456789".
fn slug_char_at(i: u32) -> (c: char)
    requires
        i < 32,
    ensures
        slug_alphabet(c),
{
    if i < 11 {
        ((0x61 + i) as u8) as char
    } else if i < 13 {
        ((0x62 + i) as u8) as char
    } else if i < 24 {
        ((0x63 + i) as u8) as char
    } else {
        ((0x32 + i - 24) as u8) as char
    }
}

/// Six random characters of the alphabet.
fn draw_slug() -> (r: Vec<char>)
    ensures
        r@.len() == 6,
        forall|i: int| 0 <= i < 6 ==> slug_alphabet(#[trigger] r@[i]),
{
    let mut v: Vec<char> = Vec::new();
    let mut i: usize = 0;
    while i < 6
        invariant
            i <= 6,
            v@.len() == i,
            forall|j: int| 0 <= j < i ==> slug_alphabet(#[trigger] v@[j]),
        decreases 6 - i,
    {
        let k = random_below(32);
        v.push(slug_char_at(k));
        i = i + 1;
    }
    v
}

/// A random admin path of six characters that is not reserved, so that it
/// is accepted as it stands.  A reserved draw is drawn again; should eight
/// draws in a row be reserved, the last one gets '2' as its last character.
pub fn gen_slug() -> (r: String)
    ensures
        r@.len() == 6,
        forall|i: int| 0 <= i < 6 ==> slug_alphabet(#[trigger] r@[i]),
        !is_reserved(r@),
        sanitized_slug(r@) == Some(r@),
{
    let mut v = draw_slug();
    let mut n: usize = 1;
    while n < 8 && reserved_str(string_of(v.as_slice()).as_str())
        invariant
            1 <= n <= 8,
            v@.len() == 6,
            forall|i: int| 0 <= i < 6 ==> slug_alphabet(#[trigger] v@[i]),
        decreases 8 - n,
    {
        v = draw_slug();
        n = n + 1;
    }
    let s = string_of(v.as_slice());
    if reserved_str(s.as_str()) {
        v.set(5, '2');
        let r = string_of(v.as_slice());
        proof {
            assert(r@.last() == '2');
            lemma_reserved_last(r@);
            law_generated_slug_accepted(r@);
        }
        r
    } else {
        proof {
            law_generated_slug_accepted(s@);
        }
        s
    }
}

/// No reserved path ends in '2'.
proof fn lemma_reserved_last(s: Seq<char>)
    requires
        s.len() > 0,
        s.last() == '2',
    ensures
        !is_reserved(s),
{
    reveal_strlit("admin");
    reveal_strlit("static");
    reveal_strlit("uploads");
    reveal_strlit("api");
    reveal_strlit("order");
    reveal_strlit("pay");
    reveal_strlit("query");
    reveal_strlit("p");
    reveal_strlit("favicon.ico");
}

/// ASCII letters, digits, `-` and `_`.
pub open spec fn slug_ok_char(c: char) -> bool {
    ('a' <= c && c <= 'z') || ('A' <= c && c <= 'Z') || ('0' <= c && c <= '9') || c == '-' || c
        == '_'
}

/// Paths the back office may not take.
pub open spec fn is_reserved(s: Seq<char>) -> bool {
    s == "admin"@ || s == "static"@ || s == "uploads"@ || s == "api"@ || s == "order"@ || s
        == "pay"@ || s == "query"@ || s == "p"@ || s == "favicon.ico"@
}

/// ASCII lower-casing of a text.
pub open spec fn lower(s: Seq<char>) -> Seq<char> {
    Seq::new(s.len(), |i: int| fold(s[i]))
}

/// The candidate path: trimmed, without surrounding slashes, lower-cased.
pub open spec fn slug_candidate(raw: Seq<char>) -> Seq<char> {
    lower(strip_end(strip_start(trim(raw), '/'), '/'))
}

/// The admin path `raw` stands for: the candidate when it has 4 to 32
/// characters, all letters, digits, `-` or `_`, and is not reserved.
pub open spec fn sanitized_slug(raw: Seq<char>) -> Option<Seq<char>> {
    let s = slug_candidate(raw);
    if 4 <= s.len() <= 32 && (forall|i: int| 0 <= i < s.len() ==> slug_ok_char(#[trigger] s[i]))
        && !is_reserved(s) {
        Some(s)
    } else {
        None
    }
}

fn reserved_str(s: &str) -> (r: bool)
    ensures
        r == is_reserved(s@),
{
    str_eq(s, "admin") || str_eq(s, "static") || str_eq(s, "uploads") || str_eq(s, "api")
        || str_eq(s, "order") || str_eq(s, "pay") || str_eq(s, "query") || str_eq(s, "p")
        || str_eq(s, "favicon.ico")
}

/// Checks and normalises an admin path (see `sanitized_slug`).
pub fn sanitize_slug(raw: &str) -> (r: Option<String>)
    ensures
        opt_view(r) == sanitized_slug(raw@),
{
    let v = chars_of(raw);
    let t = trim_chars(v.as_slice());
    let a = strip_start_chars(t.as_slice(), '/');
    let b = strip_end_chars(a.as_slice(), '/');
    let mut s: Vec<char> = Vec::new();
    let mut i: usize = 0;
    while i < b.len()
        invariant
            i <= b@.len(),
            s@ == lower(b@.take(i as int)),
        decreases b@.len() - i,
    {
        s.push(fold_char(b[i]));
        i = i + 1;
        assert(s@ =~= lower(b@.take(i as int)));
    }
    assert(b@.take(b@.len() as int) =~= b@);
    let ghost c = slug_candidate(raw@);
    assert(s@ == c);
    if s.len() < 4 || s.len() > 32 {
        return None;
    }
    let mut j: usize = 0;
    while j < s.len()
        invariant
            j <= s@.len(),
            s@ == c,
            c == slug_candidate(raw@),
            4 <= c.len() <= 32,
            forall|k: int| 0 <= k < j ==> slug_ok_char(#[trigger] s@[k]),
        decreases s@.len() - j,
    {
        let ch = s[j];
        if !(('a' <= ch && ch <= 'z') || ('A' <= ch && ch <= 'Z') || ('0' <= ch && ch <= '9') || ch
            == '-' || ch == '_') {
            assert(!slug_ok_char(s@[j as int]));
            return None;
        }
        j = j + 1;
    }
    let st = string_of(s.as_slice());
    if reserved_str(st.as_str()) {
        None
    } else {
        Some(st)
    }
}

impl Store {
    /// Fixes the admin path: the one given by the environment when it is
    /// valid, else the stored one when valid, else a freshly generated one,
    /// which is then stored under "admin_path".
    pub fn init_admin_path(&mut self, env: Option<&str>) -> (r: String)
        requires
            old(self)@.wf(),
        ensures
            final(self)@.wf(),
            (match env {
                Some(e) => sanitized_slug(e@),
                None => None,
            }) matches Some(s) ==> r@ == s && final(self)@ == old(self)@,
            (match env {
                Some(e) => sanitized_slug(e@),
                None => None,
            }) is None ==> match sanitized_slug(setting_value(old(self)@.settings, "admin_path"@)) {
                Some(s) => r@ == s && final(self)@ == old(self)@,
                None => {
                    &&& r@.len() == 6
                    &&& forall|i: int| 0 <= i < 6 ==> slug_alphabet(#[trigger] r@[i])
                    &&& !is_reserved(r@)
                    &&& final(self)@ == (StoreV {
                        settings: settings_put(old(self)@.settings, "admin_path"@, r@),
                        ..old(self)@
                    })
                },
            },
            sanitized_slug(r@) == Some(r@),
            !r@.contains('/'),
    {
        if let Some(e) = env {
            if let Some(s) = sanitize_slug(e) {
                proof {
                    law_sanitize_idempotent(e@);
                    lemma_slug_no_slash(s@);
                }
                return s;
            }
        }
        let stored = self.get_setting("admin_path");
        match sanitize_slug(stored.as_str()) {
            Some(s) => {
                proof {
                    law_sanitize_idempotent(stored@);
                    lemma_slug_no_slash(s@);
                }
                s
            },
            None => {
                let s = gen_slug();
                proof {
                    lemma_slug_no_slash(s@);
                }
                self.set_setting("admin_path", s.as_str());
                s
            },
        }
    }
}

/// Paths fixed at start-up: the admin path and the upload directory.  The
/// admin path, when set, is an accepted admin path as it stands.
pub struct RuntimeConfig {
    admin_slug: Option<String>,
    upload_dir: Option<String>,
}

impl RuntimeConfig {
    #[verifier::type_invariant]
    spec fn slug_valid(self) -> bool {
        match self.admin_slug {
            Some(s) => sanitized_slug(s@) == Some(s@),
            None => true,
        }
    }

    /// The admin path without slashes ("console" when none was fixed).
    pub closed spec fn slug_view(self) -> Seq<char> {
        match self.admin_slug {
            Some(s) => s@,
            None => "console"@,
        }
    }

    /// The upload directory ("uploads" when none was configured).
    pub closed spec fn dir_view(self) -> Seq<char> {
        match self.upload_dir {
            Some(d) => d@,
            None => "uploads"@,
        }
    }

    /// The paths of this run: the admin path is taken when it is an
    /// accepted admin path as it stands (as `init_admin_path` gives),
    /// otherwise "console" stands.
    pub fn new(admin_slug: Option<String>, upload_dir: Option<String>) -> (r: RuntimeConfig)
        ensures
            r.slug_view() == match admin_slug {
                Some(s) => if sanitized_slug(s@) == Some(s@) { s@ } else { "console"@ },
                None => "console"@,
            },
            r.dir_view() == match upload_dir {
                Some(d) => d@,
                None => "uploads"@,
            },
    {
        let slug = match admin_slug {
            Some(s) => match sanitize_slug(s.as_str()) {
                Some(t) => if str_eq(t.as_str(), s.as_str()) {
                    Some(s)
                } else {
                    None
                },
                None => None,
            },
            None => None,
        };
        RuntimeConfig { admin_slug: slug, upload_dir }
    }

    /// The admin path without slashes ("console" before start-up fixed it);
    /// it never holds a '/'.
    pub fn admin_slug(&self) -> (r: String)
        ensures
            r@ == self.slug_view(),
            !r@.contains('/'),
    {
        proof {
            use_type_invariant(self);
            reveal_strlit("console");
        }
        match &self.admin_slug {
            Some(s) => {
                proof {
                    lemma_slug_no_slash(s@);
                }
                copy_str(s.as_str())
            },
            None => copy_str("console"),
        }
    }

    /// The admin path with its leading slash: "/" and `admin_slug`.
    pub fn admin_base(&self) -> (r: String)
        ensures
            r@ == "/"@ + self.slug_view(),
            !self.slug_view().contains('/'),
    {
        let s = self.admin_slug();
        str_cat("/", s.as_str())
    }

    /// The directory for uploaded images ("uploads" unless configured).
    pub fn upload_dir(&self) -> (r: String)
        ensures
            r@ == self.dir_view(),
    {
        match &self.upload_dir {
            Some(d) => copy_str(d.as_str()),
            None => copy_str("uploads"),
        }
    }
}

proof fn lemma_clean_candidate(s: Seq<char>)
    requires
        s.len() > 0,
        forall|i: int| 0 <= i < s.len() ==> slug_ok_char(#[trigger] s[i]) && fold(s[i]) == s[i],
    ensures
        slug_candidate(s) == s,
{
    assert forall|i: int| 0 <= i < s.len() implies !crate::text::is_ws(#[trigger] s[i]) by {
        assert(slug_ok_char(s[i]));
    }
    crate::text::lemma_lead_ws_unique(s, 0);
    assert(s.skip(0) =~= s);
    crate::text::lemma_trail_ws_unique(s, 0);
    assert(s.take(s.len() as int) =~= s);
    assert(trim(s) == s);
    assert(slug_ok_char(s[0]));
    assert(strip_start(s, '/') == s);
    assert(slug_ok_char(s.last()));
    assert(strip_end(s, '/') == s);
    assert(lower(s) =~= s);
}

/// Normalising an admin path twice changes nothing: an accepted path is
/// accepted again as itself.
pub proof fn law_sanitize_idempotent(raw: Seq<char>)
    ensures
        sanitized_slug(raw) matches Some(s) ==> sanitized_slug(s) == Some(s),
{
    if let Some(s) = sanitized_slug(raw) {
        assert forall|i: int| 0 <= i < s.len() implies slug_ok_char(#[trigger] s[i]) && fold(s[i])
            == s[i] by {
            assert(slug_ok_char(s[i]));
        }
        lemma_clean_candidate(s);
    }
}

/// Six characters of the alphabet that are not a reserved path are
/// accepted as an admin path as they stand.
pub proof fn law_generated_slug_accepted(s: Seq<char>)
    requires
        s.len() == 6,
        forall|i: int| 0 <= i < 6 ==> slug_alphabet(#[trigger] s[i]),
        !is_reserved(s),
    ensures
        sanitized_slug(s) == Some(s),
{
    assert forall|i: int| 0 <= i < s.len() implies slug_ok_char(#[trigger] s[i]) && fold(s[i])
        == s[i] by {
        assert(slug_alphabet(s[i]));
    }
    lemma_clean_candidate(s);
}

/// An accepted admin path holds no '/'.
pub proof fn lemma_slug_no_slash(s: Seq<char>)
    requires
        sanitized_slug(s) == Some(s),
    ensures
        !s.contains('/'),
{
    assert forall|i: int| 0 <= i < s.len() implies s[i] != '/' by {
        assert(slug_ok_char(slug_candidate(s)[i]));
    }
}

} // verus!
