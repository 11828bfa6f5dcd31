//! The code-fence transformer: a single forward pass over the token stream
//! that replaces every fenced code block — start boundary, buffered text,
//! end boundary — with one raw-markup token holding the highlighted block,
//! and passes every other token through untouched and in order.

use vstd::prelude::*;

use crate::lines::{concat_lines, lemma_concat_lines_take, split_lines, views_of};
use crate::markup::{
    escaped, lemma_escaped_plain, lemma_escaped_wf, lemma_plain_append, lemma_wf_append, plain_of,
    wf_markup,
};
use crate::registry::{class_for, Grammar, Registry};
use crate::spans::{append_chars, push_escaped, push_lit, spans_markup};
use crate::tokens::Token;

verus! {

/// The transformer's two states: outside any fence, or inside one, holding
/// the fence's language tag and the text buffered so far.
pub enum FenceState {
    Outside,
    Inside(Seq<char>, Seq<char>),
}

/// One region of the grouped stream: a token passed through untouched, or a
/// whole fenced block reduced to its language tag and body text.
pub enum Region<'a> {
    Pass(Token<'a>),
    Fence(Seq<char>, Seq<char>),
}

pub open spec fn state_rank(st: FenceState) -> int {
    match st {
        FenceState::Outside => 0,
        FenceState::Inside(_, _) => 1,
    }
}

/// The grouping pass, as a function of the remaining stream and the state.
///
/// Under the tokenizer's stream invariant a fence holds only text runs until
/// its end boundary. Where that invariant is broken — another token inside a
/// fence, or a stream ending mid-fence — the fence is closed implicitly: the
/// buffered block is emitted and the stray token is handled outside it.
pub open spec fn group_from<'a>(toks: Seq<Token<'a>>, st: FenceState) -> Seq<Region<'a>>
    decreases toks.len(), state_rank(st),
{
    if toks.len() == 0 {
        match st {
            FenceState::Outside => Seq::empty(),
            FenceState::Inside(tag, body) => seq![Region::Fence(tag, body)],
        }
    } else {
        match st {
            FenceState::Outside => match toks[0] {
                Token::FenceStart(lang) => group_from(
                    toks.skip(1),
                    FenceState::Inside(lang@, Seq::empty()),
                ),
                _ => seq![Region::Pass(toks[0])] + group_from(toks.skip(1), FenceState::Outside),
            },
            FenceState::Inside(tag, body) => match toks[0] {
                Token::Text(s) => group_from(toks.skip(1), FenceState::Inside(tag, body + s@)),
                Token::FenceEnd => seq![Region::Fence(tag, body)] + group_from(
                    toks.skip(1),
                    FenceState::Outside,
                ),
                _ => seq![Region::Fence(tag, body)] + group_from(toks, FenceState::Outside),
            },
        }
    }
}

/// The fenced regions of a grouped stream, in order: each fence's tag and
/// body.
pub open spec fn region_fences<'a>(rs: Seq<Region<'a>>) -> Seq<(Seq<char>, Seq<char>)>
    decreases rs.len(),
{
    if rs.len() == 0 {
        Seq::empty()
    } else {
        match rs[0] {
            Region::Fence(tag, body) => seq![(tag, body)] + region_fences(rs.skip(1)),
            Region::Pass(_) => region_fences(rs.skip(1)),
        }
    }
}

/// The fenced regions a token stream groups into.
pub open spec fn stream_fences<'a>(toks: Seq<Token<'a>>) -> Seq<(Seq<char>, Seq<char>)> {
    region_fences(group_from(toks, FenceState::Outside))
}

/// A grouped stream none of whose passed-through tokens is raw markup.
pub open spec fn passes_not_html<'a>(rs: Seq<Region<'a>>) -> bool {
    forall|k: int|
        0 <= k < rs.len() ==> !((#[trigger] rs[k]) matches Region::Pass(t) && t is Html)
}

/// The markup opening a highlighted block of the given class.
pub open spec fn fence_open(class: Seq<char>) -> Seq<char> {
    "<pre class=\"language-"@ + class + "\"><code class=\"language-"@ + class + "\">"@
}

/// The markup closing a highlighted block.
pub open spec fn fence_close() -> Seq<char> {
    "</code></pre>\n"@
}

/// What the raw markup standing in for a fenced block must look like: the
/// `<pre>`/`<code>` pair advertising the class the tag resolves to, around
/// self-contained styled markup whose plain text is exactly the block's
/// body — empty body, empty (but present) `<code>` element.
pub open spec fn fence_html_ok(h: Seq<char>, tag: Seq<char>, body: Seq<char>) -> bool {
    exists|inner: Seq<char>|
        #![auto]
        {
            &&& h == fence_open(class_for(tag)) + inner + fence_close()
            &&& wf_markup(inner)
            &&& plain_of(inner) == body
            &&& (body.len() == 0 ==> inner.len() == 0)
        }
}

/// How one output token renders one region.
pub open spec fn region_rendered<'a>(r: Region<'a>, t: Token<'a>) -> bool {
    match r {
        Region::Pass(p) => t == p,
        Region::Fence(tag, body) => match t {
            Token::Html(h) => fence_html_ok(h@, tag, body),
            _ => false,
        },
    }
}

/// How the output stream renders the grouped input: region by region, in
/// order, nothing added and nothing dropped.
pub open spec fn rendered_ok<'a>(regions: Seq<Region<'a>>, out: Seq<Token<'a>>) -> bool {
    &&& out.len() == regions.len()
    &&& forall|i: int|
        0 <= i < regions.len() ==> region_rendered(regions[i], #[trigger] out[i])
}

/// Highlight a block's body line by line and serialize the spans. A line the
/// highlighter cannot process degrades to its text, escaped and unstyled;
/// the remaining lines are unaffected.
fn highlight_body(reg: &Registry, g: &Grammar, body: &Vec<char>) -> (inner: Vec<char>)
    ensures
        wf_markup(inner@),
        plain_of(inner@) == body@,
        body@.len() == 0 ==> inner@.len() == 0,
{
    let lines = split_lines(body);
    let mut hl = reg.start_block(g);
    let mut inner: Vec<char> = Vec::new();
    let n = lines.len();
    let mut j: usize = 0;
    while j < n
        invariant
            n == lines@.len(),
            concat_lines(views_of(lines@)) == body@,
            j <= n,
            wf_markup(inner@),
            plain_of(inner@) == concat_lines(views_of(lines@).take(j as int)),
            j == 0 ==> inner@.len() == 0,
        decreases n - j,
    {
        let ghost before = inner@;
        let ghost line_view = lines@[j as int]@;
        assert(line_view == views_of(lines@)[j as int]);
        match hl.next_line(&lines[j]) {
            Some(spans) => {
                let piece = spans_markup(&spans, reg.background());
                append_chars(&mut inner, &piece);
                proof {
                    lemma_wf_append(before, piece@);
                    lemma_plain_append(before, piece@);
                }
            },
            None => {
                push_escaped(&mut inner, &lines[j]);
                proof {
                    lemma_escaped_wf(line_view);
                    lemma_escaped_plain(line_view);
                    lemma_wf_append(before, escaped(line_view));
                    lemma_plain_append(before, escaped(line_view));
                }
            },
        }
        proof {
            lemma_concat_lines_take(views_of(lines@), j as int);
        }
        j = j + 1;
    }
    assert(views_of(lines@).take(n as int) =~= views_of(lines@));
    inner
}

/// Render one fenced block: resolve the grammar (plain-text fallback),
/// highlight the body, and wrap it as the block's raw markup.
pub fn render_fence(reg: &Registry, tag: &Vec<char>, body: &Vec<char>) -> (h: Vec<char>)
    ensures
        fence_html_ok(h@, tag@, body@),
{
    let g = reg.lookup(tag);
    let inner = highlight_body(reg, &g, body);
    let mut h: Vec<char> = Vec::new();
    push_lit(&mut h, "<pre class=\"language-");
    append_chars(&mut h, &g.name);
    push_lit(&mut h, "\"><code class=\"language-");
    append_chars(&mut h, &g.name);
    push_lit(&mut h, "\">");
    append_chars(&mut h, &inner);
    push_lit(&mut h, "</code></pre>\n");
    proof {
        assert(h@ =~= fence_open(class_for(tag@)) + inner@ + fence_close());
        assert(fence_html_ok(h@, tag@, body@));
    }
    h
}

proof fn lemma_rendered_push<'a>(
    regions: Seq<Region<'a>>,
    out: Seq<Token<'a>>,
    r: Region<'a>,
    t: Token<'a>,
)
    requires
        rendered_ok(regions, out),
        region_rendered(r, t),
    ensures
        rendered_ok(regions.push(r), out.push(t)),
{
    assert forall|i: int| 0 <= i < regions.push(r).len() implies region_rendered(
        regions.push(r)[i],
        #[trigger] out.push(t)[i],
    ) by {
        if i < regions.len() {
            assert(regions.push(r)[i] == regions[i]);
            assert(out.push(t)[i] == out[i]);
        } else {
            assert(regions.push(r)[i] == r);
            assert(out.push(t)[i] == t);
        }
    }
}

/// The transformer: one forward pass. Every fenced region of the input
/// becomes exactly one raw-markup token meeting [`fence_html_ok`]; every
/// other token comes out unchanged, in its original position.
pub fn transform<'a>(reg: &Registry, toks: Vec<Token<'a>>) -> (out: Vec<Token<'a>>)
    ensures
        rendered_ok(group_from(toks@, FenceState::Outside), out@),
{
    let ghost input = toks@;
    let mut toks = toks;
    let mut out: Vec<Token<'a>> = Vec::new();
    let ghost mut done: Seq<Region<'a>> = Seq::empty();
    let mut in_fence = false;
    let mut tag: Vec<char> = Vec::new();
    let mut buf: Vec<char> = Vec::new();
    while toks.len() > 0
        invariant
            rendered_ok(done, out@),
            group_from(input, FenceState::Outside) == done + group_from(
                toks@,
                if in_fence {
                    FenceState::Inside(tag@, buf@)
                } else {
                    FenceState::Outside
                },
            ),
        decreases toks@.len(),
    {
        let ghost pre = toks@;
        let ghost st = if in_fence {
            FenceState::Inside(tag@, buf@)
        } else {
            FenceState::Outside
        };
        let t = toks.remove(0);
        assert(toks@ =~= pre.skip(1));
        let ghost gt = t;
        assert(gt == pre[0]);
        if !in_fence {
            match t {
                Token::FenceStart(l) => {
                    tag = l;
                    buf = Vec::new();
                    in_fence = true;
                    assert(group_from(pre, st) == group_from(
                        pre.skip(1),
                        FenceState::Inside(tag@, buf@),
                    ));
                },
                other => {
                    out.push(other);
                    proof {
                        assert(group_from(pre, st) == seq![Region::Pass(gt)] + group_from(
                            pre.skip(1),
                            FenceState::Outside,
                        ));
                        lemma_rendered_push(done, out@.drop_last(), Region::Pass(gt), gt);
                        assert(out@.drop_last().push(gt) =~= out@);
                        done = done.push(Region::Pass(gt));
                        assert(done + group_from(pre.skip(1), FenceState::Outside) =~= (
                        done.drop_last() + seq![Region::Pass(gt)]) + group_from(
                            pre.skip(1),
                            FenceState::Outside,
                        ));
                        assert(done.drop_last() + (seq![Region::Pass(gt)] + group_from(
                            pre.skip(1),
                            FenceState::Outside,
                        )) =~= (done.drop_last() + seq![Region::Pass(gt)]) + group_from(
                            pre.skip(1),
                            FenceState::Outside,
                        ));
                    }
                },
            }
        } else {
            let ghost tag0 = tag@;
            let ghost buf0 = buf@;
            match t {
                Token::Text(s) => {
                    append_chars(&mut buf, &s);
                    assert(group_from(pre, st) == group_from(
                        pre.skip(1),
                        FenceState::Inside(tag@, buf@),
                    ));
                },
                Token::FenceEnd => {
                    let h = render_fence(reg, &tag, &buf);
                    let ghost hv = h@;
                    out.push(Token::Html(h));
                    in_fence = false;
                    proof {
                        let fence = Region::Fence(tag0, buf0);
                        assert(group_from(pre, st) == seq![fence] + group_from(
                            pre.skip(1),
                            FenceState::Outside,
                        ));
                        assert(region_rendered(fence, out@.last()));
                        lemma_rendered_push(done, out@.drop_last(), fence, out@.last());
                        assert(out@.drop_last().push(out@.last()) =~= out@);
                        done = done.push(fence);
                        assert(done.drop_last() + (seq![fence] + group_from(
                            pre.skip(1),
                            FenceState::Outside,
                        )) =~= done + group_from(pre.skip(1), FenceState::Outside));
                    }
                },
                other => {
                    // the stream invariant was broken: close the fence
                    // implicitly, then handle the stray token outside it.
                    let h = render_fence(reg, &tag, &buf);
                    out.push(Token::Html(h));
                    in_fence = false;
                    proof {
                        let fence = Region::Fence(tag0, buf0);
                        assert(group_from(pre, st) == seq![fence] + group_from(
                            pre,
                            FenceState::Outside,
                        ));
                        assert(region_rendered(fence, out@.last()));
                        lemma_rendered_push(done, out@.drop_last(), fence, out@.last());
                        assert(out@.drop_last().push(out@.last()) =~= out@);
                        done = done.push(fence);
                        assert(done.drop_last() + (seq![fence] + group_from(
                            pre,
                            FenceState::Outside,
                        )) =~= done + group_from(pre, FenceState::Outside));
                    }
                    match other {
                        Token::FenceStart(l) => {
                            tag = l;
                            buf = Vec::new();
                            in_fence = true;
                            assert(group_from(pre, FenceState::Outside) == group_from(
                                pre.skip(1),
                                FenceState::Inside(tag@, buf@),
                            ));
                        },
                        passed => {
                            out.push(passed);
                            proof {
                                assert(group_from(pre, FenceState::Outside) == seq![
                                    Region::Pass(gt),
                                ] + group_from(pre.skip(1), FenceState::Outside));
                                lemma_rendered_push(done, out@.drop_last(), Region::Pass(gt), gt);
                                assert(out@.drop_last().push(gt) =~= out@);
                                done = done.push(Region::Pass(gt));
                                assert(done.drop_last() + (seq![Region::Pass(gt)] + group_from(
                                    pre.skip(1),
                                    FenceState::Outside,
                                )) =~= done + group_from(pre.skip(1), FenceState::Outside));
                            }
                        },
                    }
                },
            }
        }
    }
    if in_fence {
        let ghost tag0 = tag@;
        let ghost buf0 = buf@;
        let h = render_fence(reg, &tag, &buf);
        out.push(Token::Html(h));
        proof {
            let fence = Region::Fence(tag0, buf0);
            assert(group_from(toks@, FenceState::Inside(tag0, buf0)) =~= seq![fence]);
            assert(region_rendered(fence, out@.last()));
            lemma_rendered_push(done, out@.drop_last(), fence, out@.last());
            assert(out@.drop_last().push(out@.last()) =~= out@);
            done = done.push(fence);
            assert(done.drop_last() + seq![fence] =~= done);
        }
    }
    assert(group_from(input, FenceState::Outside) =~= done);
    out
}

proof fn lemma_group_pass<'a>(toks: Seq<Token<'a>>)
    requires
        forall|i: int| 0 <= i < toks.len() ==> !(#[trigger] toks[i] is FenceStart),
    ensures
        group_from(toks, FenceState::Outside) == toks.map_values(
            |t: Token<'a>| Region::Pass(t),
        ),
    decreases toks.len(),
{
    if toks.len() == 0 {
        assert(toks.map_values(|t: Token<'a>| Region::Pass(t)) =~= Seq::<Region<'a>>::empty());
    } else {
        assert(!(toks[0] is FenceStart));
        assert forall|i: int|
            0 <= i < toks.skip(1).len() implies !(#[trigger] toks.skip(1)[i] is FenceStart) by {
            assert(toks.skip(1)[i] == toks[i + 1]);
        }
        lemma_group_pass(toks.skip(1));
        assert(toks.map_values(|t: Token<'a>| Region::Pass(t)) =~= seq![Region::Pass(toks[0])]
            + toks.skip(1).map_values(|t: Token<'a>| Region::Pass(t)));
    }
}

/// Pass-through identity: a stream with no fence-start token comes out of
/// the transformer unchanged, token for token — no block markup is built,
/// nothing is dropped or reordered.
pub proof fn lemma_passthrough_identity<'a>(toks: Seq<Token<'a>>, out: Seq<Token<'a>>)
    requires
        forall|i: int| 0 <= i < toks.len() ==> !(#[trigger] toks[i] is FenceStart),
        rendered_ok(group_from(toks, FenceState::Outside), out),
    ensures
        out == toks,
{
    lemma_group_pass(toks);
    let regions = group_from(toks, FenceState::Outside);
    assert forall|i: int| 0 <= i < toks.len() implies out[i] == toks[i] by {
        assert(regions[i] == Region::Pass(toks[i]));
        assert(region_rendered(regions[i], out[i]));
    }
    assert(out =~= toks);
}

/// Fence-start tokens in a stream.
pub open spec fn count_fence_starts<'a>(toks: Seq<Token<'a>>) -> int
    decreases toks.len(),
{
    if toks.len() == 0 {
        0
    } else {
        (if toks[0] is FenceStart {
            1int
        } else {
            0int
        }) + count_fence_starts(toks.skip(1))
    }
}

/// Fence regions in a grouped stream.
pub open spec fn count_fences<'a>(rs: Seq<Region<'a>>) -> int
    decreases rs.len(),
{
    if rs.len() == 0 {
        0
    } else {
        (if rs[0] is Fence {
            1int
        } else {
            0int
        }) + count_fences(rs.skip(1))
    }
}

proof fn lemma_count_fences_cons<'a>(r: Region<'a>, rest: Seq<Region<'a>>)
    ensures
        count_fences(seq![r] + rest) == (if r is Fence {
            1int
        } else {
            0int
        }) + count_fences(rest),
{
    assert((seq![r] + rest)[0] == r);
    assert((seq![r] + rest).skip(1) =~= rest);
}

proof fn lemma_group_count<'a>(toks: Seq<Token<'a>>, st: FenceState)
    ensures
        count_fences(group_from(toks, st)) == count_fence_starts(toks) + (if st is Inside {
            1int
        } else {
            0int
        }),
    decreases toks.len(), state_rank(st),
{
    if toks.len() == 0 {
        match st {
            FenceState::Outside => {
                assert(count_fences(Seq::<Region<'a>>::empty()) == 0);
            },
            FenceState::Inside(tag, body) => {
                assert(seq![Region::<'a>::Fence(tag, body)].skip(1)
                    =~= Seq::<Region<'a>>::empty());
                assert(count_fences(Seq::<Region<'a>>::empty()) == 0);
            },
        }
    } else {
        match st {
            FenceState::Outside => match toks[0] {
                Token::FenceStart(lang) => {
                    lemma_group_count(toks.skip(1), FenceState::Inside(lang@, Seq::empty()));
                },
                _ => {
                    lemma_group_count(toks.skip(1), FenceState::Outside);
                    lemma_count_fences_cons(
                        Region::Pass(toks[0]),
                        group_from(toks.skip(1), FenceState::Outside),
                    );
                },
            },
            FenceState::Inside(tag, body) => match toks[0] {
                Token::Text(s) => {
                    lemma_group_count(toks.skip(1), FenceState::Inside(tag, body + s@));
                },
                Token::FenceEnd => {
                    lemma_group_count(toks.skip(1), FenceState::Outside);
                    lemma_count_fences_cons(
                        Region::Fence(tag, body),
                        group_from(toks.skip(1), FenceState::Outside),
                    );
                },
                _ => {
                    lemma_group_count(toks, FenceState::Outside);
                    lemma_count_fences_cons(
                        Region::Fence(tag, body),
                        group_from(toks, FenceState::Outside),
                    );
                },
            },
        }
    }
}

/// One block per fence: the grouped stream holds exactly one fence region —
/// so the transformer's output exactly one substituted raw-markup token —
/// for every fence-start token of the input.
pub proof fn lemma_one_block_per_fence<'a>(toks: Seq<Token<'a>>)
    ensures
        count_fences(group_from(toks, FenceState::Outside)) == count_fence_starts(toks),
{
    lemma_group_count(toks, FenceState::Outside);
}

proof fn lemma_count_starts_nonneg<'a>(toks: Seq<Token<'a>>)
    ensures
        count_fence_starts(toks) >= 0,
    decreases toks.len(),
{
    if toks.len() > 0 {
        lemma_count_starts_nonneg(toks.skip(1));
    }
}

proof fn lemma_region_fences_count<'a>(rs: Seq<Region<'a>>)
    ensures
        region_fences(rs).len() == count_fences(rs),
    decreases rs.len(),
{
    if rs.len() > 0 {
        lemma_region_fences_count(rs.skip(1));
    }
}

proof fn lemma_count_zero_iff<'a>(toks: Seq<Token<'a>>)
    ensures
        (count_fence_starts(toks) == 0) <==> (forall|i: int|
            0 <= i < toks.len() ==> !((#[trigger] toks[i]) is FenceStart)),
    decreases toks.len(),
{
    if toks.len() > 0 {
        lemma_count_zero_iff(toks.skip(1));
        lemma_count_starts_nonneg(toks.skip(1));
        if count_fence_starts(toks) == 0 {
            assert(!(toks[0] is FenceStart));
            assert forall|i: int|
                0 <= i < toks.len() implies !((#[trigger] toks[i]) is FenceStart) by {
                if i > 0 {
                    assert(toks[i] == toks.skip(1)[i - 1]);
                }
            }
        }
        if forall|i: int| 0 <= i < toks.len() ==> !((#[trigger] toks[i]) is FenceStart) {
            assert(!(toks[0] is FenceStart));
            assert forall|i: int|
                0 <= i < toks.skip(1).len() implies !((#[trigger] toks.skip(1)[i])
                is FenceStart) by {
                assert(toks.skip(1)[i] == toks[i + 1]);
            }
            assert(count_fence_starts(toks.skip(1)) == 0);
        }
    }
}

/// A stream groups into no fenced region exactly when it holds no
/// fence-start token.
pub proof fn lemma_fences_iff_starts<'a>(toks: Seq<Token<'a>>)
    ensures
        (stream_fences(toks).len() == 0) <==> (forall|i: int|
            0 <= i < toks.len() ==> !((#[trigger] toks[i]) is FenceStart)),
{
    lemma_one_block_per_fence(toks);
    lemma_region_fences_count(group_from(toks, FenceState::Outside));
    lemma_count_zero_iff(toks);
}

/// Whether the stream holds a fence-start token: whether there is anything
/// for the transformer to substitute.
pub fn has_fence_token(toks: &Vec<Token<'_>>) -> (r: bool)
    ensures
        r == (exists|i: int| 0 <= i < toks@.len() && (#[trigger] toks@[i]) is FenceStart),
{
    let n = toks.len();
    let mut i: usize = 0;
    while i < n
        invariant
            n == toks@.len(),
            i <= n,
            forall|k: int| 0 <= k < i ==> !((#[trigger] toks@[k]) is FenceStart),
        decreases n - i,
    {
        match &toks[i] {
            Token::FenceStart(_) => {
                assert(toks@[i as int] is FenceStart);
                return true;
            },
            _ => {},
        }
        i = i + 1;
    }
    false
}

/// Grouping a stream with no raw-markup token passes no raw-markup token
/// through.
pub proof fn lemma_group_pass_tokens<'a>(toks: Seq<Token<'a>>, st: FenceState)
    requires
        crate::tokens::no_html_tokens(toks),
    ensures
        passes_not_html(group_from(toks, st)),
    decreases toks.len(), state_rank(st),
{
    if toks.len() == 0 {
    } else {
        assert(crate::tokens::no_html_tokens(toks.skip(1))) by {
            assert(forall|i: int|
                0 <= i < toks.skip(1).len() ==> #[trigger] toks.skip(1)[i] == toks[i + 1]);
        }
        assert(!(toks[0] is Html));
        match st {
            FenceState::Outside => match toks[0] {
                Token::FenceStart(lang) => {
                    lemma_group_pass_tokens(
                        toks.skip(1),
                        FenceState::Inside(lang@, Seq::empty()),
                    );
                },
                _ => {
                    lemma_group_pass_tokens(toks.skip(1), FenceState::Outside);
                    let rest = group_from(toks.skip(1), FenceState::Outside);
                    let whole = seq![Region::Pass(toks[0])] + rest;
                    assert forall|k: int|
                        0 <= k < whole.len() implies !((#[trigger] whole[k]) matches Region::Pass(
                        t,
                    ) && t is Html) by {
                        if k == 0 {
                            assert(whole[0] == Region::Pass(toks[0]));
                        } else {
                            assert(whole[k] == rest[k - 1]);
                        }
                    }
                },
            },
            FenceState::Inside(tag, body) => match toks[0] {
                Token::Text(s) => {
                    lemma_group_pass_tokens(toks.skip(1), FenceState::Inside(tag, body + s@));
                },
                Token::FenceEnd => {
                    lemma_group_pass_tokens(toks.skip(1), FenceState::Outside);
                    let rest = group_from(toks.skip(1), FenceState::Outside);
                    let whole = seq![Region::<'a>::Fence(tag, body)] + rest;
                    assert forall|k: int|
                        0 <= k < whole.len() implies !((#[trigger] whole[k]) matches Region::Pass(
                        t,
                    ) && t is Html) by {
                        if k > 0 {
                            assert(whole[k] == rest[k - 1]);
                        }
                    }
                },
                _ => {
                    lemma_group_pass_tokens(toks, FenceState::Outside);
                    let rest = group_from(toks, FenceState::Outside);
                    let whole = seq![Region::<'a>::Fence(tag, body)] + rest;
                    assert forall|k: int|
                        0 <= k < whole.len() implies !((#[trigger] whole[k]) matches Region::Pass(
                        t,
                    ) && t is Html) by {
                        if k > 0 {
                            assert(whole[k] == rest[k - 1]);
                        }
                    }
                },
            },
        }
    }
}

/// In a rendered stream whose passed-through tokens carry no raw markup,
/// the raw-markup texts are exactly the substituted blocks: one per fenced
/// region, in order, each meeting [`fence_html_ok`] for its region's tag
/// and body.
pub proof fn lemma_substituted_blocks<'a>(regions: Seq<Region<'a>>, out: Seq<Token<'a>>)
    requires
        rendered_ok(regions, out),
        passes_not_html(regions),
    ensures
        crate::tokens::html_parts(out).len() == region_fences(regions).len(),
        forall|k: int|
            0 <= k < region_fences(regions).len() ==> fence_html_ok(
                #[trigger] crate::tokens::html_parts(out)[k],
                region_fences(regions)[k].0,
                region_fences(regions)[k].1,
            ),
    decreases regions.len(),
{
    if regions.len() == 0 {
        assert(out =~= Seq::<Token<'a>>::empty());
    } else {
        assert(region_rendered(regions[0], out[0]));
        let rr = regions.skip(1);
        let ro = out.skip(1);
        assert(rendered_ok(rr, ro)) by {
            assert(ro.len() == rr.len());
            assert forall|i: int| 0 <= i < rr.len() implies region_rendered(
                rr[i],
                #[trigger] ro[i],
            ) by {
                assert(rr[i] == regions[i + 1]);
                assert(ro[i] == out[i + 1]);
            }
        }
        assert(passes_not_html(rr)) by {
            assert(forall|k: int| 0 <= k < rr.len() ==> #[trigger] rr[k] == regions[k + 1]);
        }
        lemma_substituted_blocks(rr, ro);
        let parts = crate::tokens::html_parts(out);
        let rest_parts = crate::tokens::html_parts(ro);
        let fences = region_fences(regions);
        let rest_fences = region_fences(rr);
        match regions[0] {
            Region::Pass(t) => {
                assert(out[0] == t);
                assert(!(t is Html));
                assert(parts == rest_parts);
                assert(fences == rest_fences);
            },
            Region::Fence(tag, body) => {
                let h = out[0]->Html_0;
                assert(fence_html_ok(h@, tag, body));
                assert(parts == seq![h@] + rest_parts);
                assert(fences == seq![(tag, body)] + rest_fences);
                assert forall|k: int| 0 <= k < fences.len() implies fence_html_ok(
                    #[trigger] parts[k],
                    fences[k].0,
                    fences[k].1,
                ) by {
                    if k == 0 {
                        assert(parts[0] == h@);
                        assert(fences[0] == (tag, body));
                    } else {
                        assert(parts[k] == rest_parts[k - 1]);
                        assert(fences[k] == rest_fences[k - 1]);
                    }
                }
            },
        }
    }
}

/// An empty body renders as an empty — but present — `<code>` element: the
/// block's markup is exactly the opening and closing pair.
pub proof fn lemma_empty_body_block(h: Seq<char>, tag: Seq<char>)
    requires
        fence_html_ok(h, tag, Seq::empty()),
    ensures
        h == fence_open(class_for(tag)) + fence_close(),
{
    let inner = choose|inner: Seq<char>|
        #![auto]
        {
            &&& h == fence_open(class_for(tag)) + inner + fence_close()
            &&& wf_markup(inner)
            &&& plain_of(inner) == Seq::<char>::empty()
            &&& (Seq::<char>::empty().len() == 0 ==> inner.len() == 0)
        };
    assert(inner.len() == 0);
    assert(inner =~= Seq::<char>::empty());
    assert(fence_open(class_for(tag)) + inner + fence_close() =~= fence_open(class_for(tag))
        + fence_close());
}

} // verus!
