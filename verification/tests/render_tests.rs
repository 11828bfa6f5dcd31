//! End-to-end tests of the markdown renderer: fenced blocks are replaced by
//! highlighted markup, everything else passes through exactly as the
//! serializer would have produced it.

use pulldown_cmark::{CowStr, Event, LinkType, Tag, TagEnd};
use shared_data::render::md_to_html;
use shared_data::tokens::{emit_html, Token};

/// What the serializer alone would produce: the pass-through baseline.
fn plain_render(input: &str) -> String {
    let parser = pulldown_cmark::Parser::new_ext(input, pulldown_cmark::Options::all());
    let mut html = String::new();
    pulldown_cmark::html::push_html(&mut html, parser);
    html
}

/// Drop tags and decode entities: the text a reader sees in a block.
fn strip_markup(s: &str) -> String {
    let mut out = String::new();
    let chars: Vec<char> = s.chars().collect();
    let mut i = 0;
    while i < chars.len() {
        let c = chars[i];
        if c == '<' {
            while i < chars.len() && chars[i] != '>' {
                i += 1;
            }
            i += 1;
        } else if c == '&' {
            let rest: String = chars[i..].iter().collect();
            if rest.starts_with("&lt;") {
                out.push('<');
                i += 4;
            } else if rest.starts_with("&gt;") {
                out.push('>');
                i += 4;
            } else if rest.starts_with("&amp;") {
                out.push('&');
                i += 5;
            } else if rest.starts_with("&quot;") {
                out.push('"');
                i += 6;
            } else if rest.starts_with("&#39;") {
                out.push('\'');
                i += 5;
            } else {
                out.push('&');
                i += 1;
            }
        } else {
            out.push(c);
            i += 1;
        }
    }
    out
}

/// The part of the output between the opening `<code ...>` tag and the
/// closing `</code>`.
fn code_section(html: &str) -> &str {
    let start_tag = html.find("<code").expect("no <code> element");
    let after = &html[start_tag..];
    let open_end = after.find('>').expect("unterminated <code>") + start_tag + 1;
    let close = html.find("</code>").expect("no </code>");
    &html[open_end..close]
}

#[test]
fn rust_fence_is_highlighted() {
    let html = md_to_html("```rust\nfn a(){}\n```");
    assert!(html.starts_with("<pre class=\"language-rust\"><code class=\"language-rust\">"));
    assert!(html.ends_with("</code></pre>\n"));
    assert_eq!(strip_markup(code_section(&html)), "fn a(){}\n");
    // a recognized grammar styles the keyword apart from the rest
    assert!(html.matches("<span style=\"").count() >= 2);
}

#[test]
fn unknown_language_falls_back_to_plain_text() {
    let html = md_to_html("```nonexistentlang\nhello\n```");
    assert!(html.starts_with("<pre class=\"language-plain text\">"));
    assert!(html.contains("<code class=\"language-plain text\">"));
    assert!(html.ends_with("</code></pre>\n"));
    assert_eq!(strip_markup(code_section(&html)), "hello\n");
    // plain text carries no font styling
    assert!(!html.contains("font-weight:bold"));
    assert!(!html.contains("font-style:italic"));
}

#[test]
fn absent_language_falls_back_to_plain_text() {
    let html = md_to_html("```\nhello\n```");
    assert!(html.starts_with("<pre class=\"language-plain text\">"));
    assert_eq!(strip_markup(code_section(&html)), "hello\n");
}

#[test]
fn no_fence_is_pass_through() {
    for input in [
        "hello *world*",
        "# a heading\n\ntext with `inline code` and -- dashes",
        "",
        "    indented code block\n",
        "> a quote\n\n1. a list\n2. items\n",
        "<div>raw html</div>\n",
        "a | b\n--|--\n1 | 2\n",
        "term\n: definition\n",
        "footnote[^1]\n\n[^1]: the note\n",
    ] {
        let html = md_to_html(input);
        assert_eq!(html, plain_render(input), "input: {input:?}");
        assert!(!html.contains("<pre class=\"language-"));
    }
}

#[test]
fn empty_body_yields_empty_code_element() {
    let html = md_to_html("```rust\n```");
    assert_eq!(
        html,
        "<pre class=\"language-rust\"><code class=\"language-rust\"></code></pre>\n"
    );
}

#[test]
fn block_then_paragraph_keeps_order() {
    let html = md_to_html("```rust\nlet x = 1;\n```\n\nhello paragraph");
    assert!(html.starts_with("<pre class=\"language-rust\"><code class=\"language-rust\">"));
    assert!(html.ends_with("</code></pre>\n<p>hello paragraph</p>\n"));
    assert_eq!(html.matches("<pre class=\"language-").count(), 1);
}

#[test]
fn paragraph_then_block_keeps_order() {
    let html = md_to_html("before\n\n```rust\nlet x = 1;\n```");
    assert!(html.starts_with("<p>before</p>\n<pre class=\"language-rust\">"));
    assert!(html.ends_with("</code></pre>\n"));
}

#[test]
fn angle_brackets_and_ampersands_are_escaped() {
    let html = md_to_html("```rust\nif a < b && c > d { \"q\" }\n```");
    let code = code_section(&html);
    assert_eq!(strip_markup(code), "if a < b && c > d { \"q\" }\n");
    assert!(html.contains("&amp;"));
    assert_eq!(code_section(&html).matches("&amp;").count(), 2);
    // inside the code element every `<` opens a span tag, nothing else
    let chars: Vec<char> = code.chars().collect();
    for (i, &c) in chars.iter().enumerate() {
        if c == '<' {
            let rest: String = chars[i..].iter().collect();
            assert!(
                rest.starts_with("<span ") || rest.starts_with("</span>"),
                "stray tag in code section: {rest:?}"
            );
        }
    }
}

#[test]
fn two_fences_give_two_blocks() {
    let html = md_to_html("```rust\na\n```\n\nmiddle\n\n```python\nb\n```");
    assert_eq!(html.matches("<pre class=\"language-").count(), 2);
    assert!(html.contains("<pre class=\"language-rust\">"));
    assert!(html.contains("<pre class=\"language-python\">"));
    assert!(html.contains("<p>middle</p>"));
}

#[test]
fn multi_line_body_round_trips() {
    let body = "line one\n\nline three < & >\nlast line without newline";
    let input = format!("```nonexistentlang\n{body}\n```");
    let html = md_to_html(&input);
    assert_eq!(strip_markup(code_section(&html)), format!("{body}\n"));
}

#[test]
fn language_tag_is_matched_case_insensitively() {
    let html = md_to_html("```Rust\nfn a(){}\n```");
    assert!(html.starts_with("<pre class=\"language-rust\">"));
}

#[test]
fn spans_carry_inline_colors() {
    let html = md_to_html("```rust\nfn a(){}\n```");
    assert!(html.contains("<span style=\"color:#"));
    assert!(html.contains("</span>"));
}

#[test]
fn fence_inside_a_list_keeps_structure() {
    let html = md_to_html("- item\n\n  ```rust\n  let x = 1;\n  ```\n\n- second\n");
    assert!(html.contains("<li>"));
    assert!(html.contains("</ul>"));
    assert_eq!(html.matches("<pre class=\"language-rust\">").count(), 1);
    assert_eq!(strip_markup(code_section(&html)), "let x = 1;\n");
    assert!(html.contains("second"));
}

#[test]
fn fence_beside_an_image_keeps_both() {
    let html = md_to_html("![alt words](https://a.example/p.png)\n\n```rust\nfn f() {}\n```");
    assert!(html.contains("<img src=\"https://a.example/p.png\" alt=\"alt words\""));
    assert_eq!(html.matches("<pre class=\"language-rust\">").count(), 1);
    assert_eq!(strip_markup(code_section(&html)), "fn f() {}\n");
}

#[test]
fn raw_markup_token_is_embedded_even_inside_an_image_region() {
    // a hand-built stream the tokenizer itself never produces: the
    // raw-markup token stands inside an image's alt text, which the
    // serializer alone would swallow; the emitter owes its text verbatim.
    let image = Tag::Image {
        link_type: LinkType::Inline,
        dest_url: CowStr::from("https://a.example/p.png"),
        title: CowStr::from(""),
        id: CowStr::from(""),
    };
    let toks = vec![
        Token::Other(Event::Start(image)),
        Token::Html("RAW-MARK".chars().collect()),
        Token::Other(Event::End(TagEnd::Image)),
    ];
    let html = emit_html(toks);
    assert!(html.contains("RAW-MARK"));
}
