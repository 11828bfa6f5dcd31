//! The token stream the fence transformer runs over. The tokenizer and the
//! serializer are outside collaborators: markdown structure comes from and
//! returns to them untouched; only the tokens the transformer reads are told
//! apart, the rest ride through as opaque values.

use vstd::prelude::*;

use crate::spans::append_chars;
use crate::spans::push_lit;
use crate::text::chars_to_string;
use crate::transform::stream_fences;
use pulldown_cmark::CodeBlockKind;
use pulldown_cmark::CowStr;
use pulldown_cmark::Event;
use pulldown_cmark::Options;
use pulldown_cmark::Parser;
use pulldown_cmark::Tag;
use pulldown_cmark::TagEnd;

verus! {

#[verifier::external_type_specification]
#[verifier::external_body]
pub struct ExEvent<'a>(Event<'a>);

/// One unit of the tokenizer's output stream.
pub enum Token<'a> {
    /// Start of a fenced code block, with its language tag; the tag is empty
    /// where the fence named none.
    FenceStart(Vec<char>),
    /// End of a code block.
    FenceEnd,
    /// A text run.
    Text(Vec<char>),
    /// Raw markup: the serializer renders its content verbatim, unescaped,
    /// at its position.
    Html(Vec<char>),
    /// Any other token, carried through opaquely.
    Other(Event<'a>),
}

/// The fenced code regions of a markdown source, in order: each region's
/// language tag and its buffered body text, as the tokenizer delimits
/// them — a fixed function of the source alone.
pub uninterp spec fn fence_regions_of(s: Seq<char>) -> Seq<(Seq<char>, Seq<char>)>;

/// A stream with no raw-markup token: what the tokenizer produces, so that
/// every raw-markup token of the transformer's output is one of its
/// substituted blocks.
pub open spec fn no_html_tokens<'a>(toks: Seq<Token<'a>>) -> bool {
    forall|i: int| 0 <= i < toks.len() ==> !((#[trigger] toks[i]) is Html)
}

/// The texts of a stream's raw-markup tokens, in order.
pub open spec fn html_parts<'a>(toks: Seq<Token<'a>>) -> Seq<Seq<char>>
    decreases toks.len(),
{
    if toks.len() == 0 {
        Seq::empty()
    } else {
        match toks[0] {
            Token::Html(h) => seq![h@] + html_parts(toks.skip(1)),
            _ => html_parts(toks.skip(1)),
        }
    }
}

/// The given parts, in order and verbatim, with the given texts woven
/// between and around them.
pub open spec fn weave(gaps: Seq<Seq<char>>, parts: Seq<Seq<char>>) -> Seq<char>
    decreases parts.len(),
{
    if parts.len() == 0 {
        if gaps.len() > 0 {
            gaps[0]
        } else {
            Seq::empty()
        }
    } else {
        (if gaps.len() > 0 {
            gaps[0]
        } else {
            Seq::empty()
        }) + parts[0] + weave(gaps.skip(1), parts.skip(1))
    }
}

/// `out` holds the parts in order, each verbatim and unescaped, with
/// arbitrary other text between and around them.
pub open spec fn embeds_verbatim(out: Seq<char>, parts: Seq<Seq<char>>) -> bool {
    exists|gaps: Seq<Seq<char>>|
        #![auto]
        gaps.len() == parts.len() + 1 && out == weave(gaps, parts)
}

/// Relies on pulldown-cmark's Parser, with every extension enabled: the
/// markdown source becomes an ordered token stream, in which code block
/// boundaries and text runs are told apart for the fence transformer. The
/// fenced regions the stream groups into are a fixed function of the
/// source, named by [`fence_regions_of`]; and the stream holds no
/// raw-markup token — that kind enters only by the transformer's
/// substitution.
#[verifier::external_body]
pub fn tokenize<'a>(input: &'a str) -> (toks: Vec<Token<'a>>)
    ensures
        stream_fences(toks@) == fence_regions_of(input@),
        no_html_tokens(toks@),
{
    Parser::new_ext(input, Options::all()).map(
        |ev| match ev {
            Event::Start(Tag::CodeBlock(CodeBlockKind::Fenced(lang))) => Token::FenceStart(
                lang.chars().collect(),
            ),
            Event::End(TagEnd::CodeBlock) => Token::FenceEnd,
            Event::Text(t) => Token::Text(t.chars().collect()),
            other => Token::Other(other),
        },
    ).collect()
}

/// Relies on pulldown-cmark's push_html: one stretch of the stream,
/// between raw-markup tokens, rendered by the serializer. Nothing is
/// claimed of its output — it becomes one of the woven gaps.
#[verifier::external_body]
fn emit_segment(toks: Vec<Token<'_>>) -> String {
    let events = toks.into_iter().map(
        |t| match t {
            Token::FenceStart(l) => Event::Start(
                Tag::CodeBlock(CodeBlockKind::Fenced(CowStr::from(l.iter().collect::<String>()))),
            ),
            Token::FenceEnd => Event::End(TagEnd::CodeBlock),
            Token::Text(s) => Event::Text(CowStr::from(s.iter().collect::<String>())),
            Token::Html(h) => Event::Html(CowStr::from(h.iter().collect::<String>())),
            Token::Other(ev) => ev,
        },
    );
    let mut html = String::new();
    pulldown_cmark::html::push_html(&mut html, events);
    html
}

/// The serializer's rendering of a source's unchanged token stream: what
/// rendering yields where no fenced region stands to be replaced — a fixed
/// function of the source alone.
pub uninterp spec fn plain_render_of(s: Seq<char>) -> Seq<char>;

/// Relies on pulldown-cmark's Parser and push_html: the source tokenized
/// and serialized back with no change in between, named by
/// [`plain_render_of`].
#[verifier::external_body]
pub(crate) fn render_unmodified(input: &str) -> (html: String)
    ensures
        html@ == plain_render_of(input@),
{
    let parser = Parser::new_ext(input, Options::all());
    let mut html = String::new();
    pulldown_cmark::html::push_html(&mut html, parser);
    html
}

proof fn lemma_weave_push_pair(
    gaps: Seq<Seq<char>>,
    parts: Seq<Seq<char>>,
    g: Seq<char>,
    p: Seq<char>,
)
    requires
        gaps.len() == parts.len(),
    ensures
        weave(gaps.push(g), parts.push(p)) == weave(gaps, parts) + g + p,
    decreases parts.len(),
{
    if parts.len() == 0 {
        assert(parts.push(p)[0] == p);
        assert(gaps.push(g)[0] == g);
        assert(parts.push(p).skip(1) =~= Seq::<Seq<char>>::empty());
        assert(gaps.push(g).skip(1) =~= Seq::<Seq<char>>::empty());
        assert(weave(Seq::<Seq<char>>::empty(), Seq::<Seq<char>>::empty())
            == Seq::<char>::empty());
        assert(g + p + Seq::<char>::empty() =~= g + p);
        assert(weave(gaps, parts) == Seq::<char>::empty());
        assert(Seq::<char>::empty() + g + p =~= g + p);
    } else {
        assert(parts.push(p)[0] == parts[0]);
        assert(gaps.push(g)[0] == gaps[0]);
        assert(parts.push(p).skip(1) =~= parts.skip(1).push(p));
        assert(gaps.push(g).skip(1) =~= gaps.skip(1).push(g));
        lemma_weave_push_pair(gaps.skip(1), parts.skip(1), g, p);
        assert(gaps[0] + parts[0] + (weave(gaps.skip(1), parts.skip(1)) + g + p) =~= (gaps[0]
            + parts[0] + weave(gaps.skip(1), parts.skip(1))) + g + p);
    }
}

proof fn lemma_weave_push_gap(gaps: Seq<Seq<char>>, parts: Seq<Seq<char>>, g: Seq<char>)
    requires
        gaps.len() == parts.len(),
    ensures
        weave(gaps.push(g), parts) == weave(gaps, parts) + g,
    decreases parts.len(),
{
    if parts.len() == 0 {
        assert(gaps.push(g)[0] == g);
        assert(weave(gaps, parts) == Seq::<char>::empty());
        assert(Seq::<char>::empty() + g =~= g);
    } else {
        assert(gaps.push(g)[0] == gaps[0]);
        assert(gaps.push(g).skip(1) =~= gaps.skip(1).push(g));
        lemma_weave_push_gap(gaps.skip(1), parts.skip(1), g);
        assert(gaps[0] + parts[0] + (weave(gaps.skip(1), parts.skip(1)) + g) =~= (gaps[0]
            + parts[0] + weave(gaps.skip(1), parts.skip(1))) + g);
    }
}

/// Render the token stream to one HTML string. Every raw-markup token's
/// text is written by this function itself, verbatim and unescaped, at its
/// position; the serializer renders the stretches between, so the
/// embedding holds of every stream. Each stretch is serialized
/// independently: serializer state — such as footnote numbering — does not
/// carry across a raw-markup block.
pub fn emit_html(toks: Vec<Token<'_>>) -> (html: String)
    ensures
        embeds_verbatim(html@, html_parts(toks@)),
{
    let ghost all = toks@;
    let mut toks = toks;
    let mut out: Vec<char> = Vec::new();
    let mut seg: Vec<Token<'_>> = Vec::new();
    let ghost mut gaps: Seq<Seq<char>> = Seq::empty();
    let ghost mut parts: Seq<Seq<char>> = Seq::empty();
    proof {
        assert(Seq::<Seq<char>>::empty() + html_parts(all) =~= html_parts(all));
        assert(weave(gaps, parts) == Seq::<char>::empty());
    }
    while toks.len() > 0
        invariant
            html_parts(all) == parts + html_parts(toks@),
            gaps.len() == parts.len(),
            out@ == weave(gaps, parts),
        decreases toks@.len(),
    {
        let ghost pre = toks@;
        let t = toks.remove(0);
        assert(toks@ =~= pre.skip(1));
        let ghost gt = t;
        assert(gt == pre[0]);
        match t {
            Token::Html(h) => {
                let ghost hv = h@;
                assert(html_parts(pre) == seq![hv] + html_parts(pre.skip(1)));
                let s = emit_segment(seg);
                seg = Vec::new();
                let ghost g0 = gaps;
                let ghost p0 = parts;
                push_lit(&mut out, s.as_str());
                append_chars(&mut out, &h);
                proof {
                    lemma_weave_push_pair(g0, p0, s@, hv);
                    gaps = g0.push(s@);
                    parts = p0.push(hv);
                    assert(out@ =~= weave(gaps, parts));
                    assert(p0 + (seq![hv] + html_parts(toks@)) =~= parts + html_parts(toks@));
                }
            },
            other => {
                assert(!(gt is Html));
                assert(html_parts(pre) == html_parts(pre.skip(1)));
                seg.push(other);
            },
        }
    }
    assert(html_parts(toks@) =~= Seq::<Seq<char>>::empty());
    assert(parts + Seq::<Seq<char>>::empty() =~= parts);
    let s = emit_segment(seg);
    let ghost g0 = gaps;
    push_lit(&mut out, s.as_str());
    proof {
        lemma_weave_push_gap(g0, parts, s@);
        gaps = g0.push(s@);
        assert(out@ =~= weave(gaps, parts));
        assert(gaps.len() == html_parts(all).len() + 1);
        assert(embeds_verbatim(out@, html_parts(all)));
    }
    chars_to_string(&out)
}

} // verus!
