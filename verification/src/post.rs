//! The blog's post data: the post record itself, the request that creates
//! or edits one, and the derived row that is stored — markdown rendered to
//! HTML, tags joined, reading time estimated.

use vstd::prelude::*;

use crate::render::md_to_html;
use crate::spans::push_lit;
use crate::render::rendered_html_ok;
use crate::text::{chars_to_string, str_to_chars};
use vstd::string::StrSliceExecFns;

verus! {

/// A post's tag list.
pub struct Tags(pub Vec<String>);

/// One blog post, as stored and served.
pub struct Post {
    pub id: u32,
    pub username: String,
    pub created_at: u64,
    pub title: String,
    pub html: String,
    pub orig_markdown: String,
    pub tags: Tags,
    pub reading_time: u16,
    pub draft: bool,
}

/// A request to create or edit a post.
pub struct PostReq {
    pub id: Option<u32>,
    pub title: String,
    pub content: String,
    pub tags: Vec<String>,
    pub draft: bool,
}

/// The row a post request is stored as.
pub struct SqlPostDetails {
    pub content: String,
    pub html: String,
    pub title: String,
    pub tags: String,
    pub draft: bool,
}

impl Post {
    /// The name a post is shown under: the author's, or a placeholder where
    /// no author is recorded.
    pub fn display_user(username: &str) -> (r: &str)
        ensures
            r@ == if username@.len() == 0 {
                "Unknown"@
            } else {
                username@
            },
    {
        if username.is_empty() {
            "Unknown"
        } else {
            username
        }
    }
}

/// Whether a character has the Unicode white-space property, as std's
/// whitespace splitting reads it.
pub uninterp spec fn is_unicode_ws(c: char) -> bool;

/// Relies on char::is_whitespace: the Unicode White_Space property, a fixed
/// predicate on characters, named here by [`is_unicode_ws`].
#[verifier::external_body]
fn is_ws(c: char) -> (r: bool)
    ensures
        r == is_unicode_ws(c),
{
    c.is_whitespace()
}

pub open spec fn words_from(s: Seq<char>, in_word: bool) -> int
    decreases s.len(),
{
    if s.len() == 0 {
        0
    } else if is_unicode_ws(s[0]) {
        words_from(s.skip(1), false)
    } else {
        (if in_word {
            0int
        } else {
            1int
        }) + words_from(s.skip(1), true)
    }
}

/// The number of whitespace-separated words in a text.
pub open spec fn word_count(s: Seq<char>) -> int {
    words_from(s, false)
}

/// Count the whitespace-separated words of a text.
fn count_words(s: &str) -> (count: usize)
    ensures
        count == word_count(s@),
{
    let n = s.unicode_len();
    let mut count: usize = 0;
    let mut in_word = false;
    let mut i: usize = 0;
    assert(s@.skip(0) =~= s@);
    while i < n
        invariant
            n == s@.len(),
            i <= n,
            count <= i,
            word_count(s@) == count + words_from(s@.skip(i as int), in_word),
        decreases n - i,
    {
        let ghost u = s@.skip(i as int);
        let c = s.get_char(i);
        assert(u[0] == s@[i as int]);
        assert(u.skip(1) =~= s@.skip(i as int + 1));
        if is_ws(c) {
            in_word = false;
        } else {
            if !in_word {
                count = count + 1;
            }
            in_word = true;
        }
        i = i + 1;
    }
    assert(s@.skip(n as int) =~= Seq::<char>::empty());
    count
}

impl SqlPostDetails {
    /// Whether the row may be stored: a post needs both a title and
    /// content.
    pub fn can_be_stored(&self) -> (r: bool)
        ensures
            r == (self.content@.len() > 0 && self.title@.len() > 0),
    {
        !self.content.as_str().is_empty() && !self.title.as_str().is_empty()
    }

    /// Estimated minutes of reading, at 220 words a minute.
    pub fn reading_time(&self) -> (r: usize)
        ensures
            r == word_count(self.content@) / 220,
    {
        count_words(self.content.as_str()) / 220
    }
}

/// The character sequences of a row of strings.
pub open spec fn str_views(ts: Seq<String>) -> Seq<Seq<char>> {
    Seq::new(ts.len(), |i: int| ts[i]@)
}

/// The texts joined with commas, no separator around the ends.
pub open spec fn joined(ts: Seq<Seq<char>>) -> Seq<char>
    decreases ts.len(),
{
    if ts.len() == 0 {
        Seq::empty()
    } else if ts.len() == 1 {
        ts[0]
    } else {
        ts[0] + seq![','] + joined(ts.skip(1))
    }
}

proof fn lemma_joined_take(ts: Seq<Seq<char>>, j: int)
    requires
        1 <= j < ts.len(),
    ensures
        joined(ts.take(j + 1)) == joined(ts.take(j)) + seq![','] + ts[j],
    decreases j,
{
    let t1 = ts.take(j + 1);
    assert(t1[0] == ts[0]);
    assert(t1.skip(1) =~= ts.skip(1).take(j));
    if j == 1 {
        assert(ts.skip(1).take(1)[0] == ts[1]);
        assert(joined(ts.skip(1).take(1)) == ts[1]);
        assert(ts.take(1)[0] == ts[0]);
        assert(joined(ts.take(1)) == ts[0]);
    } else {
        lemma_joined_take(ts.skip(1), j - 1);
        assert(ts.skip(1).take(j)[0] == ts[1]);
        assert(ts.skip(1)[j - 1] == ts[j]);
        assert(ts.take(j)[0] == ts[0]);
        assert(ts.take(j).skip(1) =~= ts.skip(1).take(j - 1));
        assert(ts[0] + seq![','] + (joined(ts.skip(1).take(j - 1)) + seq![','] + ts[j]) =~= (
        ts[0] + seq![','] + joined(ts.skip(1).take(j - 1))) + seq![','] + ts[j]);
    }
}

/// Join a tag list with commas.
fn join_tags(tags: &Vec<String>) -> (r: String)
    ensures
        r@ == joined(str_views(tags@)),
{
    let mut out: Vec<char> = Vec::new();
    let n = tags.len();
    let mut j: usize = 0;
    while j < n
        invariant
            n == tags@.len(),
            j <= n,
            out@ == joined(str_views(tags@).take(j as int)),
        decreases n - j,
    {
        let ghost ts = str_views(tags@);
        if j > 0 {
            out.push(',');
        }
        push_lit(&mut out, tags[j].as_str());
        proof {
            assert(ts[j as int] == tags@[j as int]@);
            if j == 0 {
                assert(ts.take(1)[0] == ts[0]);
                assert(joined(ts.take(1)) == ts[0]);
                assert(out@ =~= Seq::<char>::empty() + ts[0]);
                assert(joined(ts.take(0)) == Seq::<char>::empty());
                assert(out@ =~= joined(ts.take(1)));
            } else {
                lemma_joined_take(ts, j as int);
                assert(out@ =~= joined(ts.take(j as int)) + seq![','] + ts[j as int]);
            }
        }
        j = j + 1;
    }
    assert(str_views(tags@).take(n as int) =~= str_views(tags@));
    chars_to_string(&out)
}

/// A tag list with the repetitions dropped: each text's first occurrence
/// is kept, in order — what a set of tags holds.
pub open spec fn dedup_from(ts: Seq<Seq<char>>, seen: Seq<Seq<char>>) -> Seq<Seq<char>>
    decreases ts.len(),
{
    if ts.len() == 0 {
        Seq::empty()
    } else if seen.contains(ts[0]) {
        dedup_from(ts.skip(1), seen)
    } else {
        seq![ts[0]] + dedup_from(ts.skip(1), seen.push(ts[0]))
    }
}

pub open spec fn dedup_views(ts: Seq<Seq<char>>) -> Seq<Seq<char>> {
    dedup_from(ts, Seq::empty())
}

/// Whether the list holds a tag with this text.
fn contains_text(v: &Vec<String>, t: &String) -> (r: bool)
    ensures
        r == str_views(v@).contains(t@),
{
    let n = v.len();
    let mut i: usize = 0;
    while i < n
        invariant
            n == v@.len(),
            i <= n,
            forall|k: int| 0 <= k < i ==> #[trigger] v@[k]@ != t@,
        decreases n - i,
    {
        if v[i] == *t {
            assert(str_views(v@)[i as int] == t@);
            assert(str_views(v@).contains(t@));
            return true;
        }
        i = i + 1;
    }
    assert forall|k: int| 0 <= k < str_views(v@).len() implies str_views(v@)[k] != t@ by {
        assert(str_views(v@)[k] == v@[k]@);
    }
    false
}

/// Drop repeated tags, keeping each text's first occurrence, as the set a
/// request's tags were collected into would have.
fn dedup_tags(tags: &Vec<String>) -> (r: Vec<String>)
    ensures
        str_views(r@) == dedup_views(str_views(tags@)),
{
    let mut out: Vec<String> = Vec::new();
    let n = tags.len();
    let mut i: usize = 0;
    proof {
        assert(str_views(tags@).skip(0) =~= str_views(tags@));
        assert(str_views(out@) =~= Seq::<Seq<char>>::empty());
        assert(Seq::<Seq<char>>::empty() + dedup_from(str_views(tags@), Seq::empty())
            =~= dedup_from(str_views(tags@), Seq::empty()));
    }
    while i < n
        invariant
            n == tags@.len(),
            i <= n,
            dedup_views(str_views(tags@)) == str_views(out@) + dedup_from(
                str_views(tags@).skip(i as int),
                str_views(out@),
            ),
        decreases n - i,
    {
        let ghost all = str_views(tags@);
        let ghost u = all.skip(i as int);
        let ghost os = str_views(out@);
        assert(u[0] == all[i as int]);
        assert(all[i as int] == tags@[i as int]@);
        assert(u.skip(1) =~= all.skip(i as int + 1));
        if contains_text(&out, &tags[i]) {
            assert(dedup_from(u, os) == dedup_from(u.skip(1), os));
        } else {
            assert(dedup_from(u, os) == seq![u[0]] + dedup_from(u.skip(1), os.push(u[0])));
            let ghost o0 = out@;
            let tag = {
                let tr: &String = &tags[i];
                tr.clone()
            };
            out.push(tag);
            proof {
                assert forall|k: int| 0 <= k < str_views(out@).len() implies str_views(out@)[k]
                    == os.push(u[0])[k] by {
                    if k < o0.len() {
                        assert(out@[k] == o0[k]);
                    } else {
                        assert(out@[k]@ == u[0]);
                    }
                }
                assert(str_views(out@) =~= os.push(u[0]));
                assert(os.push(u[0]) =~= os + seq![u[0]]);
                assert(os + (seq![u[0]] + dedup_from(u.skip(1), os.push(u[0]))) =~= (os + seq![
                    u[0],
                ]) + dedup_from(u.skip(1), os.push(u[0])));
            }
        }
        i = i + 1;
    }
    assert(str_views(tags@).skip(n as int) =~= Seq::<Seq<char>>::empty());
    assert(str_views(out@) + Seq::<Seq<char>>::empty() =~= str_views(out@));
    out
}

/// Build the row a post request is stored as: the markdown rendered to
/// HTML, the tags deduplicated — a repeated tag cannot reach the stored
/// column — and joined with commas, title and draft flag carried over.
/// The HTML is the renderer's output for the content; see
/// [`crate::render::md_to_html`] for its contract.
pub fn post_details(payload: PostReq) -> (r: SqlPostDetails)
    ensures
        r.content@ == payload.content@,
        r.title@ == payload.title@,
        r.draft == payload.draft,
        r.tags@ == joined(dedup_views(str_views(payload.tags@))),
        rendered_html_ok(payload.content@, r.html@),
{
    let PostReq { id: _, title, content, tags, draft } = payload;
    let html = md_to_html(content.as_str());
    let tags = dedup_tags(&tags);
    let tags = join_tags(&tags);
    SqlPostDetails { content, html, title, tags, draft }
}

pub open spec fn runs_from(s: Seq<char>, cur: Seq<char>) -> Seq<Seq<char>>
    decreases s.len(),
{
    if s.len() == 0 {
        if cur.len() > 0 {
            seq![cur]
        } else {
            Seq::empty()
        }
    } else if s[0] == ',' {
        (if cur.len() > 0 {
            seq![cur]
        } else {
            Seq::empty()
        }) + runs_from(s.skip(1), Seq::empty())
    } else {
        runs_from(s.skip(1), cur.push(s[0]))
    }
}

/// The maximal nonempty runs between commas: what a joined tags column
/// splits back into, empty pieces dropped.
pub open spec fn tag_runs(s: Seq<char>) -> Seq<Seq<char>> {
    runs_from(s, Seq::empty())
}

impl Tags {
    /// Read a tag list back out of its joined column text.
    pub fn from_joined(s: &str) -> (r: Tags)
        ensures
            str_views(r.0@) == tag_runs(s@),
    {
        let v = str_to_chars(s);
        let mut out: Vec<String> = Vec::new();
        let mut cur: Vec<char> = Vec::new();
        let n = v.len();
        let mut i: usize = 0;
        proof {
            assert(v@.skip(0) =~= v@);
            assert(str_views(out@) =~= Seq::<Seq<char>>::empty());
            assert(Seq::<Seq<char>>::empty() + runs_from(v@, Seq::<char>::empty()) =~= runs_from(
                v@,
                Seq::<char>::empty(),
            ));
        }
        while i < n
            invariant
                n == v@.len(),
                i <= n,
                v@ == s@,
                tag_runs(s@) == str_views(out@) + runs_from(v@.skip(i as int), cur@),
            decreases n - i,
        {
            let ghost u = v@.skip(i as int);
            let ghost os = out@;
            let ghost cs = cur@;
            assert(u[0] == v@[i as int]);
            assert(u.skip(1) =~= v@.skip(i as int + 1));
            let c = v[i];
            if c == ',' {
                assert(runs_from(u, cs) == (if cs.len() > 0 {
                    seq![cs]
                } else {
                    Seq::<Seq<char>>::empty()
                }) + runs_from(u.skip(1), Seq::<char>::empty()));
                if cur.len() > 0 {
                    let piece = chars_to_string(&cur);
                    out.push(piece);
                    cur = Vec::new();
                    proof {
                        lemma_str_views_push(os, cs);
                        assert(str_views(out@) == str_views(os.push(piece)));
                        assert(str_views(os.push(piece)) == str_views(os).push(cs));
                        assert(str_views(os) + (seq![cs] + runs_from(
                            u.skip(1),
                            Seq::<char>::empty(),
                        )) =~= (str_views(os) + seq![cs]) + runs_from(
                            u.skip(1),
                            Seq::<char>::empty(),
                        ));
                        assert(str_views(os).push(cs) =~= str_views(os) + seq![cs]);
                        assert(tag_runs(s@) == str_views(out@) + runs_from(
                            v@.skip(i as int + 1),
                            cur@,
                        ));
                    }
                } else {
                    proof {
                        assert(cs.len() == 0);
                        assert(Seq::<Seq<char>>::empty() + runs_from(
                            u.skip(1),
                            Seq::<char>::empty(),
                        ) =~= runs_from(u.skip(1), Seq::<char>::empty()));
                        assert(cur@ =~= Seq::<char>::empty());
                        assert(tag_runs(s@) == str_views(out@) + runs_from(
                            v@.skip(i as int + 1),
                            cur@,
                        ));
                    }
                }
            } else {
                assert(runs_from(u, cs) == runs_from(u.skip(1), cs.push(u[0])));
                cur.push(c);
                assert(cur@ =~= cs.push(u[0]));
                assert(tag_runs(s@) == str_views(out@) + runs_from(v@.skip(i as int + 1), cur@));
            }
            i = i + 1;
        }
        assert(v@.skip(n as int) =~= Seq::<char>::empty());
        if cur.len() > 0 {
            let ghost os = out@;
            let ghost cs = cur@;
            let piece = chars_to_string(&cur);
            out.push(piece);
            proof {
                lemma_str_views_push(os, cs);
                assert(str_views(os).push(cs) =~= str_views(os) + seq![cs]);
            }
        } else {
            assert(str_views(out@) + Seq::<Seq<char>>::empty() =~= str_views(out@));
        }
        Tags(out)
    }
}

proof fn lemma_str_views_push(ts: Seq<String>, x: Seq<char>)
    ensures
        forall|y: String| y@ == x ==> str_views(ts.push(y)) == str_views(ts).push(x),
{
    assert forall|y: String| y@ == x implies str_views(ts.push(y)) == str_views(ts).push(x) by {
        assert forall|k: int| 0 <= k < str_views(ts.push(y)).len() implies str_views(ts.push(y))[k]
            == str_views(ts).push(x)[k] by {
            if k < ts.len() {
                assert(ts.push(y)[k] == ts[k]);
            } else {
                assert(ts.push(y)[k] == y);
            }
        }
        assert(str_views(ts.push(y)) =~= str_views(ts).push(x));
    }
}

} // verus!
