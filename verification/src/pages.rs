//! Page-level data types: where a page handler sends the browser next, and
//! how a redirect target is read back out of a path.

use vstd::prelude::*;

use crate::spans::push_lit;
use crate::text::{
    chars_eq_lit, chars_to_string, dec_str, digits_val, numeral_body, parse_u32, parses_as_u32,
    push_u32_decimal,
};
use vstd::string::StrSliceExecFns;

verus! {

/// A page either renders or sends the browser somewhere else.
pub enum HtmlOrRedirect<H> {
    Html(H),
    Redirect(Redirect),
}

/// Where to send the browser, and whether to route through the login page
/// first.
pub struct Redirect {
    pub force_login: bool,
    pub redir_to: RedirLocation,
}

/// The admin pages a redirect can land on.
#[derive(Clone, Copy, PartialEq, Eq, Structural, Debug)]
pub enum RedirLocation {
    Admin,
    EditPost(u32),
    NewPost,
}

impl Default for RedirLocation {
    fn default() -> (r: Self)
        ensures
            r is Admin,
    {
        RedirLocation::Admin
    }
}

/// The path of a redirect location.
pub open spec fn location_path(loc: RedirLocation) -> Seq<char> {
    match loc {
        RedirLocation::Admin => "/admin"@,
        RedirLocation::NewPost => "/admin/new_post"@,
        RedirLocation::EditPost(id) => "/admin/edit_post/"@ + dec_str(id as nat),
    }
}

/// The URL a redirect sends the browser to: its location's path, routed
/// through the login page when login is forced.
pub open spec fn url_spec(r: Redirect) -> Seq<char> {
    if r.force_login {
        "/login?redir_to="@ + location_path(r.redir_to)
    } else {
        location_path(r.redir_to)
    }
}

/// Leading slashes dropped.
pub open spec fn trim_lead(s: Seq<char>) -> Seq<char>
    decreases s.len(),
{
    if s.len() > 0 && s[0] == '/' {
        trim_lead(s.skip(1))
    } else {
        s
    }
}

/// Trailing slashes dropped.
pub open spec fn trim_trail(s: Seq<char>) -> Seq<char>
    decreases s.len(),
{
    if s.len() > 0 && s.last() == '/' {
        trim_trail(s.drop_last())
    } else {
        s
    }
}

/// The path with leading and trailing slashes dropped.
pub open spec fn trimmed(s: Seq<char>) -> Seq<char> {
    trim_trail(trim_lead(s))
}

pub open spec fn spec_starts_with(s: Seq<char>, p: Seq<char>) -> bool {
    s.len() >= p.len() && s.take(p.len() as int) == p
}

/// Every leading repetition of `p` dropped, as a repeated prefix trim has
/// it.
pub open spec fn strip_prefix_rep(s: Seq<char>, p: Seq<char>) -> Seq<char>
    decreases s.len(),
{
    if p.len() > 0 && spec_starts_with(s, p) {
        strip_prefix_rep(s.skip(p.len() as int), p)
    } else {
        s
    }
}

/// The location a path names: `admin`, `admin/new_post`, or
/// `admin/edit_post/` followed by a post id, slashes around the path
/// ignored; anything else names none.
pub open spec fn location_of(s: Seq<char>) -> Option<RedirLocation> {
    let t = trimmed(s);
    if t == "admin"@ {
        Some(RedirLocation::Admin)
    } else if t == "admin/new_post"@ {
        Some(RedirLocation::NewPost)
    } else if spec_starts_with(t, "admin/edit_post/"@) {
        let rest = strip_prefix_rep(t, "admin/edit_post/"@);
        if parses_as_u32(rest) {
            Some(RedirLocation::EditPost(digits_val(numeral_body(rest)) as u32))
        } else {
            None
        }
    } else {
        None
    }
}

impl Redirect {
    /// The URL this redirect sends the browser to.
    pub fn url(&self) -> (r: String)
        ensures
            r@ == url_spec(*self),
    {
        let mut out: Vec<char> = Vec::new();
        if self.force_login {
            push_lit(&mut out, "/login?redir_to=");
        }
        match &self.redir_to {
            RedirLocation::Admin => push_lit(&mut out, "/admin"),
            RedirLocation::NewPost => push_lit(&mut out, "/admin/new_post"),
            RedirLocation::EditPost(id) => {
                push_lit(&mut out, "/admin/edit_post/");
                push_u32_decimal(&mut out, *id);
            },
        }
        chars_to_string(&out)
    }
}

proof fn lemma_trim_lead_at(s: Seq<char>, k: int)
    requires
        0 <= k <= s.len(),
        forall|i: int| 0 <= i < k ==> s[i] == '/',
        k == s.len() || s[k] != '/',
    ensures
        trim_lead(s) == s.skip(k),
    decreases k,
{
    if k == 0 {
        assert(s.skip(0) =~= s);
    } else {
        assert(s[0] == '/');
        let r = s.skip(1);
        assert forall|i: int| 0 <= i < k - 1 implies r[i] == '/' by {
            assert(r[i] == s[i + 1]);
        }
        if k - 1 < r.len() {
            assert(r[k - 1] == s[k]);
        }
        lemma_trim_lead_at(r, k - 1);
        assert(r.skip(k - 1) =~= s.skip(k));
    }
}

proof fn lemma_trim_trail_at(s: Seq<char>, m: int)
    requires
        0 <= m <= s.len(),
        forall|i: int| m <= i < s.len() ==> s[i] == '/',
        m == 0 || s[m - 1] != '/',
    ensures
        trim_trail(s) == s.take(m),
    decreases s.len() - m,
{
    if m == s.len() {
        if s.len() > 0 {
            assert(s.last() == s[m - 1]);
        }
        assert(s.take(m) =~= s);
    } else {
        assert(s.last() == s[s.len() - 1]);
        assert(s.last() == '/');
        let r = s.drop_last();
        assert forall|i: int| m <= i < r.len() implies r[i] == '/' by {
            assert(r[i] == s[i]);
        }
        if m > 0 {
            assert(r[m - 1] == s[m - 1]);
        }
        lemma_trim_trail_at(r, m);
        assert(r.take(m) =~= s.take(m));
    }
}

/// Whether the characters of `v`, from `pos` on, start with the literal.
fn starts_lit_at(v: &Vec<char>, pos: usize, s: &str) -> (r: bool)
    requires
        pos <= v@.len(),
    ensures
        r == spec_starts_with(v@.skip(pos as int), s@),
{
    let p = s.unicode_len();
    let vn = v.len();
    if vn - pos < p {
        assert(v@.skip(pos as int).len() < s@.len());
        return false;
    }
    let mut i: usize = 0;
    while i < p
        invariant
            p == s@.len(),
            vn == v@.len(),
            pos + p <= vn,
            i <= p,
            forall|k: int| 0 <= k < i ==> v@.skip(pos as int)[k] == s@[k],
        decreases p - i,
    {
        let c = v[pos + i];
        if c != s.get_char(i) {
            assert(v@.skip(pos as int)[i as int] != s@[i as int]);
            assert(v@.skip(pos as int).take(p as int)[i as int] != s@[i as int]);
            return false;
        }
        assert(v@.skip(pos as int)[i as int] == v@[pos + i as int]);
        i = i + 1;
    }
    assert(v@.skip(pos as int).take(p as int) =~= s@);
    true
}

impl RedirLocation {
    /// Read a redirect location back out of a path, as the login flow hands
    /// it around. Slashes around the path are ignored; an unknown path, or
    /// an edit-post path whose tail is no in-range post id, is an error.
    pub fn from_str(s: &str) -> (r: Result<RedirLocation, ()>)
        ensures
            r matches Ok(loc) ==> location_of(s@) == Some(loc),
            r is Err ==> location_of(s@) is None,
    {
        let v = crate::text::str_to_chars(s);
        let n = v.len();
        let mut lo: usize = 0;
        while lo < n && v[lo] == '/'
            invariant
                n == v@.len(),
                lo <= n,
                forall|i: int| 0 <= i < lo ==> v@[i] == '/',
            decreases n - lo,
        {
            lo = lo + 1;
        }
        let mut hi: usize = n;
        while hi > lo && v[hi - 1] == '/'
            invariant
                n == v@.len(),
                lo <= hi <= n,
                forall|i: int| 0 <= i < lo ==> v@[i] == '/',
                lo == n || v@[lo as int] != '/',
                forall|i: int| hi <= i < n ==> v@[i] == '/',
            decreases hi,
        {
            hi = hi - 1;
        }
        proof {
            lemma_trim_lead_at(v@, lo as int);
            let u = v@.skip(lo as int);
            assert forall|i: int| hi - lo <= i < u.len() implies u[i] == '/' by {
                assert(u[i] == v@[i + lo]);
            }
            if hi > lo {
                assert(u[hi - lo - 1] == v@[hi - 1]);
            }
            lemma_trim_trail_at(u, hi - lo);
        }
        let mut t: Vec<char> = Vec::new();
        let mut i: usize = lo;
        while i < hi
            invariant
                lo <= i <= hi <= n,
                n == v@.len(),
                t@ == v@.subrange(lo as int, i as int),
            decreases hi - i,
        {
            let c = v[i];
            t.push(c);
            assert(v@.subrange(lo as int, i as int).push(v@[i as int]) =~= v@.subrange(
                lo as int,
                i as int + 1,
            ));
            i = i + 1;
        }
        proof {
            assert(v@.subrange(lo as int, hi as int) =~= v@.skip(lo as int).take(hi - lo));
            assert(t@ == trimmed(s@));
        }
        if chars_eq_lit(&t, "admin") {
            return Ok(RedirLocation::Admin);
        }
        if chars_eq_lit(&t, "admin/new_post") {
            return Ok(RedirLocation::NewPost);
        }
        if !starts_lit_at(&t, 0, "admin/edit_post/") {
            assert(t@.skip(0) =~= t@);
            return Err(());
        }
        assert(t@.skip(0) =~= t@);
        let plen = "admin/edit_post/".unicode_len();
        proof {
            reveal_strlit("admin/edit_post/");
        }
        let tn = t.len();
        let mut pos: usize = 0;
        loop
            invariant_except_break
                plen == "admin/edit_post/"@.len(),
                plen > 0,
                tn == t@.len(),
                pos <= tn,
                strip_prefix_rep(t@, "admin/edit_post/"@) == strip_prefix_rep(
                    t@.skip(pos as int),
                    "admin/edit_post/"@,
                ),
            ensures
                pos <= t@.len(),
                strip_prefix_rep(t@, "admin/edit_post/"@) == t@.skip(pos as int),
            decreases t@.len() - pos,
        {
            if !starts_lit_at(&t, pos, "admin/edit_post/") {
                break ;
            }
            assert(pos + plen <= tn);
            proof {
                let u = t@.skip(pos as int);
                assert(strip_prefix_rep(u, "admin/edit_post/"@) == strip_prefix_rep(
                    u.skip(plen as int),
                    "admin/edit_post/"@,
                ));
                assert(u.skip(plen as int) =~= t@.skip(pos as int + plen as int));
            }
            pos = pos + plen;
        }
        match parse_u32(&t, pos) {
            Some(id) => Ok(RedirLocation::EditPost(id)),
            None => Err(()),
        }
    }
}

/// The paths of the cached pages that go stale when the post with this id
/// changes: the home page and the paged lists, the post's own page, and
/// the two feeds.
pub open spec fn stale_for_post(path: Seq<char>, id: u32) -> bool {
    ||| spec_starts_with(path, "/home"@)
    ||| spec_starts_with(path, "/page"@)
    ||| path == "/post/"@ + dec_str(id as nat)
    ||| path == "/sitemap.xml"@
    ||| path == "/index.xml"@
}

/// Whether a cached page must be dropped when the post with this id
/// changes.
pub fn stale_after_post_change(path: &str, id: u32) -> (r: bool)
    ensures
        r == stale_for_post(path@, id),
{
    let v = crate::text::str_to_chars(path);
    assert(v@.skip(0) =~= v@);
    if starts_lit_at(&v, 0, "/home") || starts_lit_at(&v, 0, "/page") {
        return true;
    }
    let mut post_page: Vec<char> = Vec::new();
    push_lit(&mut post_page, "/post/");
    push_u32_decimal(&mut post_page, id);
    if chars_eq_chars(&v, &post_page) {
        return true;
    }
    chars_eq_lit(&v, "/sitemap.xml") || chars_eq_lit(&v, "/index.xml")
}

/// Whether two character buffers hold the same text.
fn chars_eq_chars(a: &Vec<char>, b: &Vec<char>) -> (r: bool)
    ensures
        r == (a@ == b@),
{
    let n = a.len();
    if b.len() != n {
        assert(a@ != b@);
        return false;
    }
    let mut i: usize = 0;
    while i < n
        invariant
            n == a@.len(),
            n == b@.len(),
            i <= n,
            forall|k: int| 0 <= k < i ==> a@[k] == b@[k],
        decreases n - i,
    {
        if a[i] != b[i] {
            return false;
        }
        i = i + 1;
    }
    assert(a@ =~= b@);
    true
}

} // verus!
