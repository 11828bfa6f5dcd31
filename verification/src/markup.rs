//! The character-level model of the markup this crate emits inside a
//! highlighted code block: HTML escaping, and the "plain text" a reader gets
//! back when every tag is dropped and every entity is decoded.
//!
//! The renderer's round-trip guarantee — styling never loses or invents a
//! character of the block's body — is stated over [`plain_of`] and proved with
//! the append lemmas below.

use vstd::prelude::*;

verus! {

/// One source character, HTML-escaped.
pub open spec fn escaped_char(c: char) -> Seq<char> {
    if c == '<' {
        seq!['&', 'l', 't', ';']
    } else if c == '>' {
        seq!['&', 'g', 't', ';']
    } else if c == '&' {
        seq!['&', 'a', 'm', 'p', ';']
    } else if c == '"' {
        seq!['&', 'q', 'u', 'o', 't', ';']
    } else if c == '\'' {
        seq!['&', '#', '3', '9', ';']
    } else {
        seq![c]
    }
}

/// A text run, HTML-escaped character by character.
pub open spec fn escaped(s: Seq<char>) -> Seq<char>
    decreases s.len(),
{
    if s.len() == 0 {
        Seq::empty()
    } else {
        escaped_char(s[0]) + escaped(s.skip(1))
    }
}

/// Length of the entity standing at the head of `s`, or 0 if none of the five
/// entities this crate emits stands there.
pub open spec fn entity_len(s: Seq<char>) -> int {
    if s.len() >= 4 && s[0] == '&' && s[1] == 'l' && s[2] == 't' && s[3] == ';' {
        4
    } else if s.len() >= 4 && s[0] == '&' && s[1] == 'g' && s[2] == 't' && s[3] == ';' {
        4
    } else if s.len() >= 5 && s[0] == '&' && s[1] == 'a' && s[2] == 'm' && s[3] == 'p' && s[4]
        == ';' {
        5
    } else if s.len() >= 6 && s[0] == '&' && s[1] == 'q' && s[2] == 'u' && s[3] == 'o' && s[4]
        == 't' && s[5] == ';' {
        6
    } else if s.len() >= 5 && s[0] == '&' && s[1] == '#' && s[2] == '3' && s[3] == '9' && s[4]
        == ';' {
        5
    } else {
        0
    }
}

/// The character the entity at the head of `s` decodes to.
pub open spec fn entity_char(s: Seq<char>) -> char {
    if s.len() >= 2 && s[1] == 'l' {
        '<'
    } else if s.len() >= 2 && s[1] == 'g' {
        '>'
    } else if s.len() >= 2 && s[1] == 'a' {
        '&'
    } else if s.len() >= 2 && s[1] == 'q' {
        '"'
    } else {
        '\''
    }
}

/// The text a reader sees in a run of markup: tags are dropped, entities are
/// decoded, everything else is kept.
pub open spec fn plain_of(s: Seq<char>) -> Seq<char>
    decreases s.len(), 0int,
{
    if s.len() == 0 {
        Seq::empty()
    } else if s[0] == '<' {
        plain_in_tag(s.skip(1))
    } else if s[0] == '&' && entity_len(s) > 0 {
        seq![entity_char(s)] + plain_of(s.skip(entity_len(s)))
    } else {
        seq![s[0]] + plain_of(s.skip(1))
    }
}

/// [`plain_of`], part way through a tag: everything up to the closing `>` is
/// dropped.
pub open spec fn plain_in_tag(s: Seq<char>) -> Seq<char>
    decreases s.len(), 1int,
{
    if s.len() == 0 {
        Seq::empty()
    } else if s[0] == '>' {
        plain_of(s.skip(1))
    } else {
        plain_in_tag(s.skip(1))
    }
}

/// Self-contained markup: every `<` opens a tag that closes within `s`, every
/// `&` starts one of the five entities, and no stray `>` occurs in text.
/// This is what makes [`plain_of`] distribute over concatenation.
pub open spec fn wf_markup(s: Seq<char>) -> bool
    decreases s.len(), 0int,
{
    if s.len() == 0 {
        true
    } else if s[0] == '<' {
        wf_in_tag(s.skip(1))
    } else if s[0] == '>' {
        false
    } else if s[0] == '&' {
        entity_len(s) > 0 && wf_markup(s.skip(entity_len(s)))
    } else {
        wf_markup(s.skip(1))
    }
}

/// [`wf_markup`], part way through a tag: a closing `>` must come, with no `<`
/// before it.
pub open spec fn wf_in_tag(s: Seq<char>) -> bool
    decreases s.len(), 1int,
{
    if s.len() == 0 {
        false
    } else if s[0] == '>' {
        wf_markup(s.skip(1))
    } else if s[0] == '<' {
        false
    } else {
        wf_in_tag(s.skip(1))
    }
}

/// One complete tag: `<`, a body free of `<` and `>`, then `>`.
pub open spec fn is_tag(s: Seq<char>) -> bool {
    &&& s.len() >= 2
    &&& s[0] == '<'
    &&& s[s.len() - 1] == '>'
    &&& forall|i: int| 1 <= i < s.len() - 1 ==> s[i] != '<' && s[i] != '>'
}

/// Text free of `<` and `>`: fit for the inside of a tag.
pub open spec fn no_angle(s: Seq<char>) -> bool {
    forall|i: int| 0 <= i < s.len() ==> s[i] != '<' && s[i] != '>'
}

pub proof fn lemma_no_angle_append(a: Seq<char>, b: Seq<char>)
    requires
        no_angle(a),
        no_angle(b),
    ensures
        no_angle(a + b),
{
    assert forall|i: int| 0 <= i < (a + b).len() implies (a + b)[i] != '<' && (a + b)[i]
        != '>' by {
        if i < a.len() {
            assert((a + b)[i] == a[i]);
        } else {
            assert((a + b)[i] == b[i - a.len()]);
        }
    }
}

/// Escaping one more character extends the escaped text.
pub proof fn lemma_escaped_take(s: Seq<char>, j: int)
    requires
        0 <= j < s.len(),
    ensures
        escaped(s.take(j + 1)) == escaped(s.take(j)) + escaped_char(s[j]),
    decreases j,
{
    if j == 0 {
        assert(s.take(1) =~= seq![s[0]]);
        assert(s.take(1).skip(1) =~= Seq::<char>::empty());
        assert(s.take(0) =~= Seq::<char>::empty());
        assert(escaped_char(s[0]) + Seq::<char>::empty() =~= escaped_char(s[0]));
        assert(Seq::<char>::empty() + escaped_char(s[0]) =~= escaped_char(s[0]));
    } else {
        let r = s.skip(1);
        lemma_escaped_take(r, j - 1);
        assert(s.take(j + 1)[0] == s[0]);
        assert(s.take(j + 1).skip(1) =~= r.take(j));
        assert(s.take(j)[0] == s[0]);
        assert(s.take(j).skip(1) =~= r.take(j - 1));
        assert(r[j - 1] == s[j]);
        assert(escaped_char(s[0]) + (escaped(r.take(j - 1)) + escaped_char(s[j])) =~= (
        escaped_char(s[0]) + escaped(r.take(j - 1))) + escaped_char(s[j]));
    }
}

/// An entity at the head of a sequence is untouched by appending more text.
proof fn lemma_entity_append(a: Seq<char>, b: Seq<char>)
    requires
        entity_len(a) > 0,
    ensures
        entity_len(a + b) == entity_len(a),
        entity_char(a + b) == entity_char(a),
        entity_len(a) <= a.len(),
{
    assert forall|i: int| 0 <= i < a.len() implies (a + b)[i] == a[i] by {}
    assert((a + b).len() == a.len() + b.len());
}

/// Well-formed markup stays well-formed under concatenation.
pub proof fn lemma_wf_append(a: Seq<char>, b: Seq<char>)
    requires
        wf_markup(a),
        wf_markup(b),
    ensures
        wf_markup(a + b),
    decreases a.len(), 0int,
{
    if a.len() == 0 {
        assert(a + b =~= b);
    } else if a[0] == '<' {
        assert((a + b).skip(1) =~= a.skip(1) + b);
        lemma_wf_in_tag_append(a.skip(1), b);
    } else if a[0] == '&' {
        let k = entity_len(a);
        lemma_entity_append(a, b);
        assert((a + b).skip(k) =~= a.skip(k) + b);
        lemma_wf_append(a.skip(k), b);
    } else {
        assert((a + b).skip(1) =~= a.skip(1) + b);
        lemma_wf_append(a.skip(1), b);
    }
}

/// [`lemma_wf_append`], starting inside a tag.
pub proof fn lemma_wf_in_tag_append(a: Seq<char>, b: Seq<char>)
    requires
        wf_in_tag(a),
        wf_markup(b),
    ensures
        wf_in_tag(a + b),
    decreases a.len(), 1int,
{
    if a[0] == '>' {
        assert((a + b).skip(1) =~= a.skip(1) + b);
        lemma_wf_append(a.skip(1), b);
    } else {
        assert((a + b).skip(1) =~= a.skip(1) + b);
        lemma_wf_in_tag_append(a.skip(1), b);
    }
}

/// Over well-formed markup, the plain text of a concatenation is the
/// concatenation of the plain texts.
pub proof fn lemma_plain_append(a: Seq<char>, b: Seq<char>)
    requires
        wf_markup(a),
    ensures
        plain_of(a + b) == plain_of(a) + plain_of(b),
    decreases a.len(), 0int,
{
    if a.len() == 0 {
        assert(a + b =~= b);
        assert(plain_of(a) + plain_of(b) =~= plain_of(b));
    } else if a[0] == '<' {
        assert((a + b).skip(1) =~= a.skip(1) + b);
        lemma_plain_in_tag_append(a.skip(1), b);
    } else if a[0] == '&' {
        let k = entity_len(a);
        lemma_entity_append(a, b);
        assert((a + b).skip(k) =~= a.skip(k) + b);
        lemma_plain_append(a.skip(k), b);
        assert(seq![entity_char(a)] + (plain_of(a.skip(k)) + plain_of(b)) =~= (seq![
            entity_char(a),
        ] + plain_of(a.skip(k))) + plain_of(b));
    } else {
        assert((a + b)[0] == a[0]);
        assert(entity_len(a + b) == 0) by {
            if a[0] == '&' {
            }
        }
        assert((a + b).skip(1) =~= a.skip(1) + b);
        lemma_plain_append(a.skip(1), b);
        assert(seq![a[0]] + (plain_of(a.skip(1)) + plain_of(b)) =~= (seq![a[0]] + plain_of(
            a.skip(1),
        )) + plain_of(b));
    }
}

/// [`lemma_plain_append`], starting inside a tag.
pub proof fn lemma_plain_in_tag_append(a: Seq<char>, b: Seq<char>)
    requires
        wf_in_tag(a),
    ensures
        plain_in_tag(a + b) == plain_in_tag(a) + plain_of(b),
    decreases a.len(), 1int,
{
    if a[0] == '>' {
        assert((a + b).skip(1) =~= a.skip(1) + b);
        lemma_plain_append(a.skip(1), b);
    } else {
        assert((a + b).skip(1) =~= a.skip(1) + b);
        lemma_plain_in_tag_append(a.skip(1), b);
    }
}

/// Escaped text is well-formed markup.
pub proof fn lemma_escaped_wf(t: Seq<char>)
    ensures
        wf_markup(escaped(t)),
    decreases t.len(),
{
    if t.len() == 0 {
    } else {
        lemma_escaped_wf(t.skip(1));
        let e = escaped_char(t[0]);
        let rest = escaped(t.skip(1));
        if t[0] == '<' || t[0] == '>' || t[0] == '&' || t[0] == '"' || t[0] == '\'' {
            lemma_entity_append(e, rest);
            assert((e + rest).skip(entity_len(e)) =~= rest);
        } else {
            assert((e + rest)[0] == t[0]);
            assert((e + rest).skip(1) =~= rest);
        }
    }
}

/// Decoding escaped text gives the text back: nothing is lost or invented.
pub proof fn lemma_escaped_plain(t: Seq<char>)
    ensures
        plain_of(escaped(t)) == t,
    decreases t.len(),
{
    if t.len() == 0 {
    } else {
        lemma_escaped_plain(t.skip(1));
        let e = escaped_char(t[0]);
        let rest = escaped(t.skip(1));
        if t[0] == '<' || t[0] == '>' || t[0] == '&' || t[0] == '"' || t[0] == '\'' {
            lemma_entity_append(e, rest);
            assert((e + rest).skip(entity_len(e)) =~= rest);
            assert(seq![entity_char(e + rest)] + t.skip(1) =~= t);
        } else {
            assert((e + rest)[0] == t[0]);
            assert((e + rest).skip(1) =~= rest);
            assert(seq![t[0]] + t.skip(1) =~= t);
        }
    }
}

/// A complete tag is well-formed and contributes no plain text.
pub proof fn lemma_tag_wf(t: Seq<char>)
    requires
        is_tag(t),
    ensures
        wf_markup(t),
        plain_of(t) == Seq::<char>::empty(),
{
    lemma_tag_scan(t.skip(1));
}

/// The scan through a tag body free of `<` and `>` reaches the closing `>`.
proof fn lemma_tag_scan(s: Seq<char>)
    requires
        s.len() >= 1,
        s[s.len() - 1] == '>',
        forall|i: int| 0 <= i < s.len() - 1 ==> s[i] != '<' && s[i] != '>',
    ensures
        wf_in_tag(s),
        plain_in_tag(s) == Seq::<char>::empty(),
    decreases s.len(),
{
    if s.len() == 1 {
        assert(s.skip(1) =~= Seq::<char>::empty());
        assert(s[0] == '>');
        assert(wf_markup(s.skip(1)));
        assert(wf_in_tag(s));
        assert(plain_in_tag(s) == plain_of(s.skip(1)));
    } else {
        assert(s[0] != '<' && s[0] != '>');
        let r = s.skip(1);
        assert(r.len() == s.len() - 1);
        assert(r[r.len() - 1] == s[s.len() - 1]);
        assert forall|i: int| 0 <= i < r.len() - 1 implies r[i] != '<' && r[i] != '>' by {
            assert(r[i] == s[i + 1]);
        }
        lemma_tag_scan(r);
    }
}

} // verus!
