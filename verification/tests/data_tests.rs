//! Tests of the data layer: post rows, tag columns, redirect URLs and the
//! title timestamp.

use shared_data::lines::split_lines;
use shared_data::pages::{stale_after_post_change, Redirect, RedirLocation};
use shared_data::post::{post_details, Post, PostReq, SqlPostDetails, Tags};
use shared_data::registry::{Rgba, StyledSpan};
use shared_data::spans::spans_markup;
use shared_data::text::parse_u32;
use shared_data::timefmt::title_time_string;

#[test]
fn display_user_falls_back_for_empty_name() {
    assert_eq!(Post::display_user(""), "Unknown");
    assert_eq!(Post::display_user("alice"), "alice");
}

fn details_with_content(content: &str) -> SqlPostDetails {
    SqlPostDetails {
        content: content.to_string(),
        html: String::new(),
        title: String::new(),
        tags: String::new(),
        draft: false,
    }
}

#[test]
fn reading_time_rounds_down_at_220_wpm() {
    let one_word = "word ";
    assert_eq!(details_with_content(&one_word.repeat(440)).reading_time(), 2);
    assert_eq!(details_with_content(&one_word.repeat(439)).reading_time(), 1);
    assert_eq!(details_with_content(&one_word.repeat(219)).reading_time(), 0);
    assert_eq!(details_with_content("").reading_time(), 0);
    assert_eq!(details_with_content("  \n\t  ").reading_time(), 0);
    assert_eq!(details_with_content("a  b\nc\td").reading_time(), 4 / 220);
}

#[test]
fn post_details_renders_and_joins() {
    let req = PostReq {
        id: None,
        title: "A title".to_string(),
        content: "# Heading\n\nbody".to_string(),
        tags: vec!["rust".to_string(), "blog".to_string()],
        draft: true,
    };
    let details = post_details(req);
    assert_eq!(details.title, "A title");
    assert_eq!(details.content, "# Heading\n\nbody");
    assert_eq!(details.tags, "rust,blog");
    assert!(details.draft);
    assert!(details.html.contains("<h1>Heading</h1>"));
    assert!(details.html.contains("<p>body</p>"));
}

#[test]
fn post_details_with_no_tags_joins_empty() {
    let req = PostReq {
        id: Some(3),
        title: "t".to_string(),
        content: "c".to_string(),
        tags: vec![],
        draft: false,
    };
    assert_eq!(post_details(req).tags, "");
}

fn tag_vec(t: &Tags) -> Vec<String> {
    t.0.clone()
}

#[test]
fn tags_from_joined_splits_on_commas() {
    assert_eq!(tag_vec(&Tags::from_joined("a,b")), vec!["a", "b"]);
    assert_eq!(tag_vec(&Tags::from_joined("a,,b,")), vec!["a", "b"]);
    assert_eq!(tag_vec(&Tags::from_joined("")), Vec::<String>::new());
    assert_eq!(tag_vec(&Tags::from_joined(",")), Vec::<String>::new());
    assert_eq!(tag_vec(&Tags::from_joined("single")), vec!["single"]);
}

#[test]
fn redirect_urls() {
    let admin = Redirect { force_login: false, redir_to: RedirLocation::Admin };
    assert_eq!(admin.url(), "/admin");
    let new_post = Redirect { force_login: false, redir_to: RedirLocation::NewPost };
    assert_eq!(new_post.url(), "/admin/new_post");
    let edit = Redirect { force_login: false, redir_to: RedirLocation::EditPost(17) };
    assert_eq!(edit.url(), "/admin/edit_post/17");
    let gated = Redirect { force_login: true, redir_to: RedirLocation::EditPost(17) };
    assert_eq!(gated.url(), "/login?redir_to=/admin/edit_post/17");
    let zero = Redirect { force_login: false, redir_to: RedirLocation::EditPost(0) };
    assert_eq!(zero.url(), "/admin/edit_post/0");
    let max = Redirect { force_login: false, redir_to: RedirLocation::EditPost(u32::MAX) };
    assert_eq!(max.url(), "/admin/edit_post/4294967295");
}

#[test]
fn redirect_location_from_str() {
    assert_eq!(RedirLocation::from_str("admin"), Ok(RedirLocation::Admin));
    assert_eq!(RedirLocation::from_str("/admin/"), Ok(RedirLocation::Admin));
    assert_eq!(RedirLocation::from_str("//admin"), Ok(RedirLocation::Admin));
    assert_eq!(RedirLocation::from_str("admin/new_post"), Ok(RedirLocation::NewPost));
    assert_eq!(
        RedirLocation::from_str("/admin/edit_post/42/"),
        Ok(RedirLocation::EditPost(42))
    );
    assert_eq!(
        RedirLocation::from_str("admin/edit_post/+5"),
        Ok(RedirLocation::EditPost(5))
    );
    assert_eq!(RedirLocation::from_str(""), Err(()));
    assert_eq!(RedirLocation::from_str("bogus"), Err(()));
    assert_eq!(RedirLocation::from_str("admin/edit_post/"), Err(()));
    assert_eq!(RedirLocation::from_str("admin/edit_post/abc"), Err(()));
    assert_eq!(RedirLocation::from_str("admin/edit_post/12x"), Err(()));
    assert_eq!(RedirLocation::from_str("admin/edit_post/99999999999"), Err(()));
    assert_eq!(RedirLocation::from_str("admin/edit_post/-3"), Err(()));
}

#[test]
fn parse_u32_reads_std_numerals() {
    let chars = |s: &str| s.chars().collect::<Vec<char>>();
    assert_eq!(parse_u32(&chars("42"), 0), Some(42));
    assert_eq!(parse_u32(&chars("+42"), 0), Some(42));
    assert_eq!(parse_u32(&chars("0"), 0), Some(0));
    assert_eq!(parse_u32(&chars("4294967295"), 0), Some(u32::MAX));
    assert_eq!(parse_u32(&chars("4294967296"), 0), None);
    assert_eq!(parse_u32(&chars(""), 0), None);
    assert_eq!(parse_u32(&chars("+"), 0), None);
    assert_eq!(parse_u32(&chars("1 2"), 0), None);
    assert_eq!(parse_u32(&chars("xx97"), 2), Some(97));
}

#[test]
fn title_time_strings() {
    assert_eq!(title_time_string(0), "00:00 on Jan 1, 1970");
    assert_eq!(title_time_string(1700000000), "22:13 on Nov 14, 2023");
    assert_eq!(title_time_string(u64::MAX), "200 years in the future???");
}

#[test]
fn title_time_calendar_boundary() {
    // the last second the calendar can place, and the first it cannot
    assert_eq!(title_time_string(8210266876799), "23:59 on Dec 31, +262142");
    assert_eq!(title_time_string(8210266876800), "an unknown time");
}

#[test]
fn span_serialization_escapes_and_minimizes_background() {
    let bg = Rgba { r: 10, g: 20, b: 30, a: 255 };
    let plain = StyledSpan {
        fg: Rgba { r: 1, g: 2, b: 3, a: 255 },
        bg,
        font: 0,
        text: "a<b".chars().collect(),
    };
    let m: String = spans_markup(&vec![plain], bg).iter().collect();
    assert_eq!(m, "<span style=\"color:#010203;\">a&lt;b</span>");

    let loud = StyledSpan {
        fg: Rgba { r: 0xab, g: 0xcd, b: 0xef, a: 255 },
        bg: Rgba { r: 9, g: 9, b: 9, a: 255 },
        font: 3,
        text: "& '\"".chars().collect(),
    };
    let m: String = spans_markup(&vec![loud], bg).iter().collect();
    assert_eq!(
        m,
        "<span style=\"background-color:#090909;text-decoration:underline;font-weight:bold;color:#abcdef;\">&amp; &#39;&quot;</span>"
    );

    let italic = StyledSpan {
        fg: Rgba { r: 0, g: 0, b: 0, a: 128 },
        bg,
        font: 4,
        text: ">".chars().collect(),
    };
    let m: String = spans_markup(&vec![italic], bg).iter().collect();
    assert_eq!(m, "<span style=\"font-style:italic;color:#00000080;\">&gt;</span>");

    let empty: Vec<StyledSpan> = vec![];
    let m: String = spans_markup(&empty, bg).iter().collect();
    assert_eq!(m, "");
}

#[test]
fn post_needs_title_and_content_to_store() {
    let mut d = details_with_content("body");
    assert!(!d.can_be_stored());
    d.title = "t".to_string();
    assert!(d.can_be_stored());
    d.content = String::new();
    assert!(!d.can_be_stored());
}

#[test]
fn cached_pages_stale_after_post_change() {
    assert!(stale_after_post_change("/home", 7));
    assert!(stale_after_post_change("/home/anything", 7));
    assert!(stale_after_post_change("/page/3", 7));
    assert!(stale_after_post_change("/post/7", 7));
    assert!(!stale_after_post_change("/post/8", 7));
    assert!(!stale_after_post_change("/post/7/", 7));
    assert!(stale_after_post_change("/sitemap.xml", 7));
    assert!(stale_after_post_change("/index.xml", 7));
    assert!(!stale_after_post_change("/about", 7));
    assert!(!stale_after_post_change("", 7));
}

#[test]
fn post_details_drops_repeated_tags() {
    let req = PostReq {
        id: None,
        title: "t".to_string(),
        content: "c".to_string(),
        tags: vec![
            "rust".to_string(),
            "blog".to_string(),
            "rust".to_string(),
            "blog".to_string(),
        ],
        draft: false,
    };
    assert_eq!(post_details(req).tags, "rust,blog");
}

#[test]
fn split_lines_keeps_terminators() {
    let chars = |s: &str| s.chars().collect::<Vec<char>>();
    let to_strs = |v: Vec<Vec<char>>| {
        v.into_iter().map(|l| l.into_iter().collect::<String>()).collect::<Vec<String>>()
    };
    assert_eq!(to_strs(split_lines(&chars("a\nbc\n"))), vec!["a\n", "bc\n"]);
    assert_eq!(to_strs(split_lines(&chars("a\nbc"))), vec!["a\n", "bc"]);
    assert_eq!(to_strs(split_lines(&chars("\n\n"))), vec!["\n", "\n"]);
    assert_eq!(to_strs(split_lines(&chars(""))), Vec::<String>::new());
}
