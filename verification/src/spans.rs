//! Serialization of styled spans to inline-styled markup: one `<span>`
//! element per span, the text HTML-escaped, a background color emitted only
//! where it differs from the theme's default.

use vstd::prelude::*;

use crate::markup::{
    escaped, escaped_char, is_tag, lemma_escaped_plain, lemma_escaped_take, lemma_escaped_wf,
    lemma_no_angle_append, lemma_plain_append, lemma_tag_wf, lemma_wf_append, no_angle, plain_of,
    wf_markup,
};
use crate::registry::{concat_texts, Rgba, StyledSpan};
use vstd::string::StrSliceExecFns;

verus! {

/// The sixteen lowercase hex digits.
pub open spec fn hex_char(n: u8) -> char {
    if n < 10 {
        ((n + 48) as char)
    } else {
        ((n + 87) as char)
    }
}

fn hex_digit(n: u8) -> (c: char)
    requires
        n < 16,
    ensures
        c == hex_char(n),
{
    if n < 10 {
        (n + 48) as char
    } else {
        (n + 87) as char
    }
}

/// The two hex digits of one byte.
pub open spec fn hex_pair(b: u8) -> Seq<char> {
    seq![hex_char(b / 16), hex_char(b % 16)]
}

proof fn lemma_hex_no_angle(b: u8)
    ensures
        no_angle(hex_pair(b)),
{
    assert(hex_char(b / 16) != '<' && hex_char(b / 16) != '>');
    assert(hex_char(b % 16) != '<' && hex_char(b % 16) != '>');
}

/// A color in the theme's notation: `#rrggbb`, or `#rrggbbaa` when not fully
/// opaque.
pub open spec fn color_seq(c: Rgba) -> Seq<char> {
    if c.a != 255 {
        "#"@ + hex_pair(c.r) + hex_pair(c.g) + hex_pair(c.b) + hex_pair(c.a)
    } else {
        "#"@ + hex_pair(c.r) + hex_pair(c.g) + hex_pair(c.b)
    }
}

/// The style attribute of one span: a background color only where it
/// differs from the theme's default, then the font flags, then the
/// foreground color.
pub open spec fn span_style_spec(sp: StyledSpan, bg: Rgba) -> Seq<char> {
    (if sp.bg == bg {
        Seq::<char>::empty()
    } else {
        "background-color:"@ + color_seq(sp.bg) + ";"@
    }) + (if sp.font / 2 % 2 == 1 {
        "text-decoration:underline;"@
    } else {
        Seq::<char>::empty()
    }) + (if sp.font % 2 == 1 {
        "font-weight:bold;"@
    } else {
        Seq::<char>::empty()
    }) + (if sp.font / 4 % 2 == 1 {
        "font-style:italic;"@
    } else {
        Seq::<char>::empty()
    }) + "color:"@ + color_seq(sp.fg) + ";"@
}

/// The opening tag of one span.
pub open spec fn span_open_spec(sp: StyledSpan, bg: Rgba) -> Seq<char> {
    seq!['<'] + "span style=\""@ + span_style_spec(sp, bg) + "\""@ + seq!['>']
}

/// The markup of one span: its opening tag, its text escaped, the closing
/// tag.
pub open spec fn span_markup_spec(sp: StyledSpan, bg: Rgba) -> Seq<char> {
    span_open_spec(sp, bg) + escaped(sp.text@) + "</span>"@
}

/// The markup of a row of spans, in order.
pub open spec fn spans_markup_spec(spans: Seq<StyledSpan>, bg: Rgba) -> Seq<char>
    decreases spans.len(),
{
    if spans.len() == 0 {
        Seq::empty()
    } else {
        span_markup_spec(spans[0], bg) + spans_markup_spec(spans.skip(1), bg)
    }
}

/// Append every character of `src` to `out`.
pub fn append_chars(out: &mut Vec<char>, src: &Vec<char>)
    ensures
        final(out)@ == old(out)@ + src@,
{
    let n = src.len();
    let mut i: usize = 0;
    while i < n
        invariant
            n == src@.len(),
            i <= n,
            out@ == old(out)@ + src@.take(i as int),
        decreases n - i,
    {
        let c = src[i];
        out.push(c);
        assert(old(out)@ + src@.take(i as int) + seq![src@[i as int]] =~= old(out)@ + src@.take(
            i as int + 1,
        ));
        i = i + 1;
    }
    assert(src@.take(n as int) =~= src@);
}

/// Append a literal's characters to `out`.
pub fn push_lit(out: &mut Vec<char>, s: &str)
    ensures
        final(out)@ == old(out)@ + s@,
{
    let n = s.unicode_len();
    let mut i: usize = 0;
    while i < n
        invariant
            n == s@.len(),
            i <= n,
            out@ == old(out)@ + s@.take(i as int),
        decreases n - i,
    {
        let c = s.get_char(i);
        out.push(c);
        assert(s@.take(i as int) + seq![s@[i as int]] =~= s@.take(i as int + 1));
        assert(old(out)@ + s@.take(i as int) + seq![s@[i as int]] =~= old(out)@ + (s@.take(
            i as int,
        ) + seq![s@[i as int]]));
        i = i + 1;
    }
    assert(s@.take(n as int) =~= s@);
}

/// Append one byte as two hex digits.
fn push_hex(out: &mut Vec<char>, b: u8)
    ensures
        final(out)@ == old(out)@ + hex_pair(b),
{
    let hi = hex_digit(b / 16);
    let lo = hex_digit(b % 16);
    out.push(hi);
    out.push(lo);
    assert(old(out)@ + seq![hex_char((b / 16) as u8)] + seq![hex_char((b % 16) as u8)] =~= old(
        out,
    )@ + hex_pair(b));
}

/// Append a color in the theme's notation.
fn push_color(out: &mut Vec<char>, c: Rgba)
    ensures
        final(out)@ == old(out)@ + color_seq(c),
        no_angle(color_seq(c)),
{
    proof {
        reveal_strlit("#");
        lemma_hex_no_angle(c.r);
        lemma_hex_no_angle(c.g);
        lemma_hex_no_angle(c.b);
        lemma_hex_no_angle(c.a);
        lemma_no_angle_append("#"@, hex_pair(c.r));
        lemma_no_angle_append("#"@ + hex_pair(c.r), hex_pair(c.g));
        lemma_no_angle_append("#"@ + hex_pair(c.r) + hex_pair(c.g), hex_pair(c.b));
        lemma_no_angle_append(
            "#"@ + hex_pair(c.r) + hex_pair(c.g) + hex_pair(c.b),
            hex_pair(c.a),
        );
    }
    push_lit(out, "#");
    push_hex(out, c.r);
    push_hex(out, c.g);
    push_hex(out, c.b);
    if c.a != 255 {
        push_hex(out, c.a);
    }
    assert(out@ =~= old(out)@ + color_seq(c));
}

/// The opening `<span style="...">` tag for one span: background only when
/// it differs from the default, then font flags, then the foreground color.
#[verifier::rlimit(60)]
fn span_open(sp: &StyledSpan, bg: Rgba) -> (t: Vec<char>)
    ensures
        is_tag(t@),
        t@ == span_open_spec(*sp, bg),
{
    let mut mid: Vec<char> = Vec::new();
    proof {
        reveal_strlit("span style=\"");
        reveal_strlit("background-color:");
        reveal_strlit(";");
        reveal_strlit("text-decoration:underline;");
        reveal_strlit("font-weight:bold;");
        reveal_strlit("font-style:italic;");
        reveal_strlit("color:");
        reveal_strlit(";\"");
    }
    assert(no_angle(mid@));
    assert(no_angle("span style=\""@));
    push_lit(&mut mid, "span style=\"");
    proof {
        lemma_no_angle_append(Seq::<char>::empty(), "span style=\""@);
    }
    if !(sp.bg == bg) {
        assert(no_angle("background-color:"@));
        let ghost m0 = mid@;
        push_lit(&mut mid, "background-color:");
        proof {
            lemma_no_angle_append(m0, "background-color:"@);
        }
        let ghost m1 = mid@;
        push_color(&mut mid, sp.bg);
        proof {
            lemma_no_angle_append(m1, color_seq(sp.bg));
        }
        assert(no_angle(";"@));
        let ghost m2 = mid@;
        push_lit(&mut mid, ";");
        proof {
            lemma_no_angle_append(m2, ";"@);
        }
    }
    if sp.font / 2 % 2 == 1 {
        assert(no_angle("text-decoration:underline;"@));
        let ghost m = mid@;
        push_lit(&mut mid, "text-decoration:underline;");
        proof {
            lemma_no_angle_append(m, "text-decoration:underline;"@);
        }
    }
    if sp.font % 2 == 1 {
        assert(no_angle("font-weight:bold;"@));
        let ghost m = mid@;
        push_lit(&mut mid, "font-weight:bold;");
        proof {
            lemma_no_angle_append(m, "font-weight:bold;"@);
        }
    }
    if sp.font / 4 % 2 == 1 {
        assert(no_angle("font-style:italic;"@));
        let ghost m = mid@;
        push_lit(&mut mid, "font-style:italic;");
        proof {
            lemma_no_angle_append(m, "font-style:italic;"@);
        }
    }
    assert(no_angle("color:"@));
    let ghost m3 = mid@;
    push_lit(&mut mid, "color:");
    proof {
        lemma_no_angle_append(m3, "color:"@);
    }
    let ghost m4 = mid@;
    push_color(&mut mid, sp.fg);
    proof {
        lemma_no_angle_append(m4, color_seq(sp.fg));
    }
    assert(no_angle(";\""@));
    let ghost m5 = mid@;
    push_lit(&mut mid, ";\"");
    proof {
        lemma_no_angle_append(m5, ";\""@);
    }
    let mut t: Vec<char> = Vec::new();
    t.push('<');
    let n = mid.len();
    let mut k: usize = 0;
    while k < n
        invariant
            n == mid@.len(),
            k <= n,
            t@ == seq!['<'] + mid@.take(k as int),
        decreases n - k,
    {
        let c = mid[k];
        t.push(c);
        assert(seq!['<'] + mid@.take(k as int) + seq![mid@[k as int]] =~= seq!['<'] + mid@.take(
            k as int + 1,
        ));
        k = k + 1;
    }
    assert(mid@.take(n as int) =~= mid@);
    t.push('>');
    proof {
        reveal_strlit("\"");
        assert(";\""@ =~= ";"@ + "\""@);
    }
    assert(mid@ =~= "span style=\""@ + span_style_spec(*sp, bg) + "\""@);
    assert(t@ =~= span_open_spec(*sp, bg));
    assert(t@[0] == '<');
    assert(t@[t@.len() - 1] == '>');
    assert forall|i: int| 1 <= i < t@.len() - 1 implies t@[i] != '<' && t@[i] != '>' by {
        assert(t@[i] == mid@[i - 1]);
        assert(no_angle(mid@));
    }
    t
}

/// Append one character of source text, HTML-escaped.
fn push_escaped_char(out: &mut Vec<char>, c: char)
    ensures
        final(out)@ == old(out)@ + escaped_char(c),
{
    if c == '<' {
        out.push('&');
        out.push('l');
        out.push('t');
        out.push(';');
    } else if c == '>' {
        out.push('&');
        out.push('g');
        out.push('t');
        out.push(';');
    } else if c == '&' {
        out.push('&');
        out.push('a');
        out.push('m');
        out.push('p');
        out.push(';');
    } else if c == '"' {
        out.push('&');
        out.push('q');
        out.push('u');
        out.push('o');
        out.push('t');
        out.push(';');
    } else if c == '\'' {
        out.push('&');
        out.push('#');
        out.push('3');
        out.push('9');
        out.push(';');
    } else {
        out.push(c);
    }
    assert(out@ =~= old(out)@ + escaped_char(c));
}

/// Append a text run, HTML-escaped.
pub fn push_escaped(out: &mut Vec<char>, text: &Vec<char>)
    ensures
        final(out)@ == old(out)@ + escaped(text@),
{
    let n = text.len();
    let mut i: usize = 0;
    while i < n
        invariant
            n == text@.len(),
            i <= n,
            out@ == old(out)@ + escaped(text@.take(i as int)),
        decreases n - i,
    {
        let c = text[i];
        push_escaped_char(out, c);
        proof {
            lemma_escaped_take(text@, i as int);
            assert(old(out)@ + escaped(text@.take(i as int)) + escaped_char(text@[i as int]) =~=
            old(out)@ + escaped(text@.take(i as int + 1)));
        }
        i = i + 1;
    }
    assert(text@.take(n as int) =~= text@);
}

/// One more span's text, at the tail of the row.
proof fn lemma_concat_texts_take(spans: Seq<StyledSpan>, j: int)
    requires
        0 <= j < spans.len(),
    ensures
        concat_texts(spans.take(j + 1)) == concat_texts(spans.take(j)) + spans[j].text@,
    decreases j,
{
    if j == 0 {
        assert(spans.take(1)[0] == spans[0]);
        assert(spans.take(1).skip(1) =~= Seq::<StyledSpan>::empty());
        assert(spans.take(0) =~= Seq::<StyledSpan>::empty());
        assert(spans[0].text@ + Seq::<char>::empty() =~= spans[0].text@);
        assert(Seq::<char>::empty() + spans[0].text@ =~= spans[0].text@);
    } else {
        let r = spans.skip(1);
        lemma_concat_texts_take(r, j - 1);
        assert(spans.take(j + 1)[0] == spans[0]);
        assert(spans.take(j + 1).skip(1) =~= r.take(j));
        assert(spans.take(j)[0] == spans[0]);
        assert(spans.take(j).skip(1) =~= r.take(j - 1));
        assert(r[j - 1] == spans[j]);
        assert(spans[0].text@ + (concat_texts(r.take(j - 1)) + spans[j].text@) =~= (spans[0].text@
            + concat_texts(r.take(j - 1))) + spans[j].text@);
    }
}

proof fn lemma_spans_spec_take(spans: Seq<StyledSpan>, bg: Rgba, j: int)
    requires
        0 <= j < spans.len(),
    ensures
        spans_markup_spec(spans.take(j + 1), bg) == spans_markup_spec(spans.take(j), bg)
            + span_markup_spec(spans[j], bg),
    decreases j,
{
    if j == 0 {
        assert(spans.take(1)[0] == spans[0]);
        assert(spans.take(1).skip(1) =~= Seq::<StyledSpan>::empty());
        assert(spans.take(0) =~= Seq::<StyledSpan>::empty());
        assert(spans_markup_spec(Seq::<StyledSpan>::empty(), bg) == Seq::<char>::empty());
        assert(span_markup_spec(spans[0], bg) + Seq::<char>::empty() =~= span_markup_spec(
            spans[0],
            bg,
        ));
        assert(Seq::<char>::empty() + span_markup_spec(spans[0], bg) =~= span_markup_spec(
            spans[0],
            bg,
        ));
    } else {
        let r = spans.skip(1);
        lemma_spans_spec_take(r, bg, j - 1);
        assert(spans.take(j + 1)[0] == spans[0]);
        assert(spans.take(j + 1).skip(1) =~= r.take(j));
        assert(spans.take(j)[0] == spans[0]);
        assert(spans.take(j).skip(1) =~= r.take(j - 1));
        assert(r[j - 1] == spans[j]);
        assert(span_markup_spec(spans[0], bg) + (spans_markup_spec(r.take(j - 1), bg)
            + span_markup_spec(spans[j], bg)) =~= (span_markup_spec(spans[0], bg)
            + spans_markup_spec(r.take(j - 1), bg)) + span_markup_spec(spans[j], bg));
    }
}

/// Serialize a row of spans, in order, to exactly [`spans_markup_spec`].
/// The markup is self-contained, and its plain text — tags dropped,
/// entities decoded — is exactly the spans' text: the styling loses and
/// invents nothing.
pub fn spans_markup(spans: &Vec<StyledSpan>, bg: Rgba) -> (m: Vec<char>)
    ensures
        m@ == spans_markup_spec(spans@, bg),
        wf_markup(m@),
        plain_of(m@) == concat_texts(spans@),
        spans@.len() == 0 ==> m@.len() == 0,
{
    let mut m: Vec<char> = Vec::new();
    let n = spans.len();
    let mut j: usize = 0;
    assert(spans_markup_spec(spans@.take(0), bg) == Seq::<char>::empty()) by {
        assert(spans@.take(0) =~= Seq::<StyledSpan>::empty());
    }
    while j < n
        invariant
            n == spans@.len(),
            j <= n,
            wf_markup(m@),
            m@ == spans_markup_spec(spans@.take(j as int), bg),
            plain_of(m@) == concat_texts(spans@.take(j as int)),
            j == 0 ==> m@.len() == 0,
        decreases n - j,
    {
        let ghost m_before = m@;
        let open = span_open(&spans[j], bg);
        append_chars(&mut m, &open);
        push_escaped(&mut m, &spans[j].text);
        push_lit(&mut m, "</span>");
        proof {
            let text = spans@[j as int].text@;
            let close = "</span>"@;
            reveal_strlit("</span>");
            assert(is_tag(close));
            lemma_tag_wf(open@);
            lemma_tag_wf(close);
            lemma_escaped_wf(text);
            lemma_escaped_plain(text);
            // the new tail, as one piece
            assert(m@ =~= m_before + (open@ + escaped(text) + close));
            // well-formedness of the whole
            lemma_wf_append(open@, escaped(text));
            assert(open@ + escaped(text) + close =~= (open@ + escaped(text)) + close);
            lemma_wf_append(open@ + escaped(text), close);
            lemma_wf_append(m_before, open@ + escaped(text) + close);
            // plain text of the whole
            lemma_plain_append(m_before, open@ + escaped(text) + close);
            assert(open@ + escaped(text) + close =~= open@ + (escaped(text) + close));
            lemma_plain_append(open@, escaped(text) + close);
            lemma_plain_append(escaped(text), close);
            assert(plain_of(open@ + escaped(text) + close) =~= text);
            lemma_concat_texts_take(spans@, j as int);
            assert(plain_of(m@) =~= concat_texts(spans@.take(j as int + 1)));
            // the new tail is exactly this span's markup
            assert(open@ + escaped(text) + close =~= span_markup_spec(spans@[j as int], bg));
            lemma_spans_spec_take(spans@, bg, j as int);
            assert(m@ =~= spans_markup_spec(spans@.take(j as int + 1), bg));
        }
        j = j + 1;
    }
    assert(spans@.take(n as int) =~= spans@);
    m
}

} // verus!
