//! Product images: only real images (recognised by their first bytes) up
//! to 2 MB are taken, stored under a freshly made name; image references
//! are either such a stored name or an http(s) address.

use vstd::prelude::*;
use crate::text::{chars_of, string_of, push_str, copy_str, str_cat, opt_view};
use crate::util::{random_below, compact_now, time_stamp, stamp_char};

verus! {

/// Largest accepted image, in bytes (2 MB).
pub const MAX_IMAGE_BYTES: usize = 2097152;

/// Longest accepted image reference, in bytes.
pub const MAX_IMAGE_URL: usize = 300;

/// `b` begins with `p`.
pub open spec fn starts(b: Seq<u8>, p: Seq<u8>) -> bool {
    p.len() <= b.len() && b.take(p.len() as int) == p
}

/// The image type that the first bytes of `b` announce, as a file
/// extension: PNG, JPEG, GIF (87a or 89a) or WEBP; at least 12 bytes are
/// needed.
pub open spec fn sniffed(b: Seq<u8>) -> Option<Seq<char>> {
    if b.len() < 12 {
        None
    } else if starts(b, seq![0x89u8, 0x50u8, 0x4eu8, 0x47u8, 0x0du8, 0x0au8, 0x1au8, 0x0au8]) {
        Some("png"@)
    } else if starts(b, seq![0xffu8, 0xd8u8, 0xffu8]) {
        Some("jpg"@)
    } else if starts(b, seq![0x47u8, 0x49u8, 0x46u8, 0x38u8, 0x37u8, 0x61u8]) || starts(
        b,
        seq![0x47u8, 0x49u8, 0x46u8, 0x38u8, 0x39u8, 0x61u8],
    ) {
        Some("gif"@)
    } else if starts(b, seq![0x52u8, 0x49u8, 0x46u8, 0x46u8]) && b.subrange(8, 12) == seq![
        0x57u8,
        0x45u8,
        0x42u8,
        0x50u8,
    ] {
        Some("webp"@)
    } else {
        None
    }
}

fn has_prefix(b: &[u8], p: &[u8]) -> (r: bool)
    ensures
        r == starts(b@, p@),
{
    if p.len() > b.len() {
        return false;
    }
    let mut i: usize = 0;
    while i < p.len()
        invariant
            p@.len() <= b@.len(),
            i <= p@.len(),
            forall|j: int| 0 <= j < i ==> b@[j] == p@[j],
        decreases p@.len() - i,
    {
        if b[i] != p[i] {
            assert(b@.take(p@.len() as int)[i as int] != p@[i as int]);
            return false;
        }
        i = i + 1;
    }
    assert(b@.take(p@.len() as int) =~= p@);
    true
}

/// The file extension of an image, judged by its first bytes.
pub fn sniff_ext(b: &[u8]) -> (r: Option<&'static str>)
    ensures
        match r {
            Some(e) => sniffed(b@) == Some(e@),
            None => sniffed(b@) is None,
        },
{
    if b.len() < 12 {
        return None;
    }
    let png: [u8; 8] = [0x89, 0x50, 0x4e, 0x47, 0x0d, 0x0a, 0x1a, 0x0a];
    let jpg: [u8; 3] = [0xff, 0xd8, 0xff];
    let gif7: [u8; 6] = [0x47, 0x49, 0x46, 0x38, 0x37, 0x61];
    let gif9: [u8; 6] = [0x47, 0x49, 0x46, 0x38, 0x39, 0x61];
    let riff: [u8; 4] = [0x52, 0x49, 0x46, 0x46];
    assert(png@ =~= seq![0x89u8, 0x50u8, 0x4eu8, 0x47u8, 0x0du8, 0x0au8, 0x1au8, 0x0au8]);
    assert(jpg@ =~= seq![0xffu8, 0xd8u8, 0xffu8]);
    assert(gif7@ =~= seq![0x47u8, 0x49u8, 0x46u8, 0x38u8, 0x37u8, 0x61u8]);
    assert(gif9@ =~= seq![0x47u8, 0x49u8, 0x46u8, 0x38u8, 0x39u8, 0x61u8]);
    assert(riff@ =~= seq![0x52u8, 0x49u8, 0x46u8, 0x46u8]);
    if has_prefix(b, png.as_slice()) {
        return Some("png");
    }
    if has_prefix(b, jpg.as_slice()) {
        return Some("jpg");
    }
    if has_prefix(b, gif7.as_slice()) || has_prefix(b, gif9.as_slice()) {
        return Some("gif");
    }
    if has_prefix(b, riff.as_slice()) {
        let webp = b[8] == 0x57 && b[9] == 0x45 && b[10] == 0x42 && b[11] == 0x50;
        proof {
            let w = seq![0x57u8, 0x45u8, 0x42u8, 0x50u8];
            if webp {
                assert(b@.subrange(8, 12) =~= w);
            } else {
                assert(b@.subrange(8, 12) != w) by {
                    if b@.subrange(8, 12) == w {
                        assert(b@.subrange(8, 12)[0] == b@[8]);
                        assert(b@.subrange(8, 12)[1] == b@[9]);
                        assert(b@.subrange(8, 12)[2] == b@[10]);
                        assert(b@.subrange(8, 12)[3] == b@[11]);
                    }
                }
            }
        }
        if webp {
            return Some("webp");
        }
    }
    None
}

/// Two dots in a row somewhere in `t`.
pub open spec fn has_dotdot(t: Seq<char>) -> bool {
    exists|i: int| 0 <= i < t.len() - 1 && t[i] == '.' && #[trigger] t[i + 1] == '.'
}

/// A stored file name: non-empty, without '/', '\' or "..".
pub open spec fn local_name_ok(name: Seq<char>) -> bool {
    name.len() > 0 && !name.contains('/') && !name.contains('\\') && !has_dotdot(name)
}

/// The stored file that reference `s` points to, if it is one.
pub open spec fn local_upload(s: Seq<char>) -> Option<Seq<char>> {
    if "/uploads/"@.is_prefix_of(s) && local_name_ok(s.skip("/uploads/"@.len() as int)) {
        Some(s.skip("/uploads/"@.len() as int))
    } else {
        None
    }
}

/// An acceptable image reference: non-empty, at most 300 bytes, and a
/// stored file or an http(s) address.
pub open spec fn image_ref_ok(s: Seq<char>) -> bool {
    if s.len() == 0 || vstd::utf8::encode_utf8(s).len() > MAX_IMAGE_URL {
        false
    } else if "/uploads/"@.is_prefix_of(s) {
        local_name_ok(s.skip("/uploads/"@.len() as int))
    } else {
        "http://"@.is_prefix_of(s) || "https://"@.is_prefix_of(s)
    }
}

fn chars_start_with(v: &[char], p: &[char]) -> (r: bool)
    ensures
        r == p@.is_prefix_of(v@),
{
    if p.len() > v.len() {
        return false;
    }
    let mut i: usize = 0;
    while i < p.len()
        invariant
            p@.len() <= v@.len(),
            i <= p@.len(),
            forall|j: int| 0 <= j < i ==> v@[j] == p@[j],
        decreases p@.len() - i,
    {
        if v[i] != p[i] {
            return false;
        }
        i = i + 1;
    }
    true
}

fn name_ok(n: &[char]) -> (r: bool)
    ensures
        r == local_name_ok(n@),
{
    if n.len() == 0 {
        return false;
    }
    let mut i: usize = 0;
    while i < n.len()
        invariant
            i <= n@.len(),
            forall|j: int| 0 <= j < i ==> n@[j] != '/' && n@[j] != '\\',
            forall|j: int| 0 <= j < i && j + 1 < n@.len() ==> !(n@[j] == '.' && #[trigger] n@[j + 1] == '.'),
        decreases n@.len() - i,
    {
        if n[i] == '/' || n[i] == '\\' {
            return false;
        }
        if i + 1 < n.len() && n[i] == '.' && n[i + 1] == '.' {
            return false;
        }
        i = i + 1;
    }
    true
}

/// Whether `s` may be stored as a product's image.
pub fn valid_image_ref(s: &str) -> (r: bool)
    ensures
        r == image_ref_ok(s@),
{
    let v = chars_of(s);
    if v.len() == 0 || s.as_bytes().len() > MAX_IMAGE_URL {
        return false;
    }
    let up = chars_of("/uploads/");
    if chars_start_with(v.as_slice(), up.as_slice()) {
        let name = crate::text::slice_range(v.as_slice(), up.len(), v.len());
        assert(name@ =~= v@.skip(up@.len() as int));
        return name_ok(name.as_slice());
    }
    let h = chars_of("http://");
    let hs = chars_of("https://");
    chars_start_with(v.as_slice(), h.as_slice()) || chars_start_with(v.as_slice(), hs.as_slice())
}

/// The stored file an image reference points to (the file to remove when
/// the image is replaced); `None` for outside addresses and malformed names.
pub fn local_image_name(image: &str) -> (r: Option<String>)
    ensures
        opt_view(r) == local_upload(image@),
{
    let v = chars_of(image);
    let up = chars_of("/uploads/");
    if chars_start_with(v.as_slice(), up.as_slice()) {
        let name = crate::text::slice_range(v.as_slice(), up.len(), v.len());
        assert(name@ =~= v@.skip(up@.len() as int));
        if name_ok(name.as_slice()) {
            return Some(string_of(name.as_slice()));
        }
    }
    None
}

/// Characters of the random part of stored names.
pub open spec fn name_char(c: char) -> bool {
    ('a' <= c && c <= 'z') || ('0' <= c && c <= '9')
}

fn name_char_at(i: u32) -> (c: char)
    requires
        i < 36,
    ensures
        name_char(c),
{
    if i < 26 {
        ((0x61 + i) as u8) as char
    } else {
        ((0x30 + i - 26) as u8) as char
    }
}

/// Error for an image above the size limit.
pub open spec fn msg_too_large() -> Seq<char> {
    "图片过大，请压缩到 2MB 以内"@
}

/// Error for a file that is not an image of an accepted type.
pub open spec fn msg_not_image() -> Seq<char> {
    "只支持 PNG / JPG / WEBP / GIF 格式的图片"@
}

/// `n` is a stored name for an image with extension `ext`: a time stamp
/// (see `time_stamp`), '-', eight random letters or digits, '.' and the
/// extension.
pub open spec fn stored_name(n: Seq<char>, ext: Seq<char>) -> bool {
    exists|stamp: Seq<char>, rnd: Seq<char>|
        #![trigger stamp + seq!['-'] + rnd]
        {
            &&& time_stamp(stamp)
            &&& rnd.len() == 8
            &&& (forall|i: int| 0 <= i < 8 ==> name_char(#[trigger] rnd[i]))
            &&& n == stamp + seq!['-'] + rnd + seq!['.'] + ext
        }
}

/// The name under which an uploaded image is stored (see `stored_name`);
/// files above the size limit and files that are no image of an accepted
/// type are refused.
pub fn new_image_name(bytes: &[u8]) -> (r: Result<String, String>)
    ensures
        if bytes@.len() > MAX_IMAGE_BYTES {
            r matches Err(e) && e@ == msg_too_large()
        } else {
            match sniffed(bytes@) {
                None => (r matches Err(e) && e@ == msg_not_image()),
                Some(ext) => (r matches Ok(n) && stored_name(n@, ext) && local_name_ok(n@) && image_ref_ok(
                    "/uploads/"@ + n@,
                )),
            }
        },
{
    if bytes.len() > MAX_IMAGE_BYTES {
        return Err(copy_str("图片过大，请压缩到 2MB 以内"));
    }
    let ext = match sniff_ext(bytes) {
        Some(e) => e,
        None => {
            return Err(copy_str("只支持 PNG / JPG / WEBP / GIF 格式的图片"));
        },
    };
    let mut rnd: Vec<char> = Vec::new();
    let mut i: usize = 0;
    while i < 8
        invariant
            i <= 8,
            rnd@.len() == i,
            forall|j: int| 0 <= j < i ==> name_char(#[trigger] rnd@[j]),
        decreases 8 - i,
    {
        let k = random_below(36);
        rnd.push(name_char_at(k));
        i = i + 1;
    }
    let stamp = compact_now();
    let mut v = chars_of(stamp.as_str());
    v.push('-');
    crate::text::push_all(&mut v, rnd.as_slice());
    v.push('.');
    push_str(&mut v, ext);
    proof {
        assert(v@ =~= stamp@ + seq!['-'] + rnd@ + seq!['.'] + ext@);
        assert(stored_name(v@, ext@)) by {
            let w = stamp@ + seq!['-'] + rnd@;
        }
        lemma_ext_plain(bytes@);
        lemma_stored_name_ok(stamp@, rnd@, ext@);
    }
    Ok(string_of(v.as_slice()))
}

/// A character of a stored name other than the dot before the extension.
pub open spec fn plain_name_char(c: char) -> bool {
    ('a' <= c && c <= 'z') || ('0' <= c && c <= '9') || c == '+' || c == '-'
}

/// The extensions of accepted images are three or four lower-case letters.
proof fn lemma_ext_plain(b: Seq<u8>)
    ensures
        sniffed(b) matches Some(e) ==> 3 <= e.len() <= 4 && forall|i: int|
            0 <= i < e.len() ==> plain_name_char(#[trigger] e[i]),
{
    reveal_strlit("png");
    reveal_strlit("jpg");
    reveal_strlit("gif");
    reveal_strlit("webp");
}

/// Each character takes at most four bytes in UTF-8.
proof fn lemma_utf8_len(s: Seq<char>)
    ensures
        vstd::utf8::encode_utf8(s).len() <= 4 * s.len(),
    decreases s.len(),
{
    if s.len() > 0 {
        lemma_utf8_len(s.drop_first());
    }
}

/// A stored name is a safe file name, and its reference is an acceptable
/// image reference.
proof fn lemma_stored_name_ok(stamp: Seq<char>, rnd: Seq<char>, ext: Seq<char>)
    requires
        time_stamp(stamp),
        rnd.len() == 8,
        forall|i: int| 0 <= i < 8 ==> name_char(#[trigger] rnd[i]),
        3 <= ext.len() <= 4,
        forall|i: int| 0 <= i < ext.len() ==> plain_name_char(#[trigger] ext[i]),
    ensures
        local_name_ok(stamp + seq!['-'] + rnd + seq!['.'] + ext),
        image_ref_ok("/uploads/"@ + (stamp + seq!['-'] + rnd + seq!['.'] + ext)),
{
    let n = stamp + seq!['-'] + rnd + seq!['.'] + ext;
    let d = stamp.len() as int + 9;
    assert forall|i: int| 0 <= i < n.len() && i != d implies plain_name_char(#[trigger] n[i]) by {
        if i < stamp.len() {
            assert(n[i] == stamp[i]);
            assert(stamp_char(stamp[i]));
        } else if i == stamp.len() {
        } else if i < d {
            assert(n[i] == rnd[i - stamp.len() - 1]);
            assert(name_char(rnd[i - stamp.len() - 1]));
        } else {
            assert(n[i] == ext[i - d - 1]);
        }
    }
    assert(n[d] == '.');
    assert(!n.contains('/')) by {
        if n.contains('/') {
            let i = choose|i: int| 0 <= i < n.len() && n[i] == '/';
            if i != d {
                assert(plain_name_char(n[i]));
            }
        }
    }
    assert(!n.contains('\\')) by {
        if n.contains('\\') {
            let i = choose|i: int| 0 <= i < n.len() && n[i] == '\\';
            if i != d {
                assert(plain_name_char(n[i]));
            }
        }
    }
    assert(!has_dotdot(n)) by {
        if has_dotdot(n) {
            let i = choose|i: int| 0 <= i < n.len() - 1 && n[i] == '.' && #[trigger] n[i + 1] == '.';
            if i != d {
                assert(plain_name_char(n[i]));
            } else {
                assert(plain_name_char(n[i + 1]));
            }
        }
    }
    law_upload_url_round_trip(n);
    lemma_utf8_len("/uploads/"@ + n);
    reveal_strlit("/uploads/");
}

/// The reference of a stored image, for `<img src>`.
pub fn upload_url(name: &str) -> (r: String)
    ensures
        r@ == "/uploads/"@ + name@,
{
    str_cat("/uploads/", name)
}

/// The image a product keeps after its form is saved: none when removal
/// was asked for, the reference typed in when it is acceptable, else the
/// image it had.
pub open spec fn image_after(current: Seq<char>, given: Seq<char>, remove: bool) -> Seq<char> {
    if remove {
        Seq::empty()
    } else if given.len() > 0 && image_ref_ok(given) {
        given
    } else {
        current
    }
}

/// The image a product keeps after its form is saved (see `image_after`).
pub fn image_choice(current: &str, given: &str, remove: bool) -> (r: String)
    ensures
        r@ == image_after(current@, given@, remove),
{
    if remove {
        String::new()
    } else if given.unicode_len() > 0 && valid_image_ref(given) {
        copy_str(given)
    } else {
        copy_str(current)
    }
}

/// The reference of a stored image leads back to the stored file, and is
/// accepted as an image reference when short enough.
pub proof fn law_upload_url_round_trip(name: Seq<char>)
    requires
        local_name_ok(name),
    ensures
        local_upload("/uploads/"@ + name) == Some(name),
        vstd::utf8::encode_utf8("/uploads/"@ + name).len() <= MAX_IMAGE_URL ==> image_ref_ok(
            "/uploads/"@ + name,
        ),
{
    let s = "/uploads/"@ + name;
    assert("/uploads/"@.is_prefix_of(s)) by {
        assert(s.take("/uploads/"@.len() as int) =~= "/uploads/"@);
    }
    assert(s.skip("/uploads/"@.len() as int) =~= name);
}

} // verus!
