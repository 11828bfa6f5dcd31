//! Tests of the post editor's state machine.

use shared_data::edit::{EditMsg, PostDetails};

fn details() -> PostDetails {
    PostDetails {
        id: 5,
        title: "t".to_string(),
        content: "c".to_string(),
        rendered_content: String::new(),
        tags: vec!["rust".to_string()],
        draft: false,
    }
}

#[test]
fn set_initial_renders_the_content() {
    let (next, clear) = details().reduce(EditMsg::SetInitial(
        vec!["a".to_string()],
        "# hi".to_string(),
        "new title".to_string(),
        true,
    ));
    assert!(!clear);
    assert_eq!(next.id, 5);
    assert_eq!(next.title, "new title");
    assert_eq!(next.content, "# hi");
    assert_eq!(next.tags, vec!["a"]);
    assert!(next.draft);
    assert_eq!(next.rendered_content, "<h1>hi</h1>\n");
}

#[test]
fn field_events_replace_one_field() {
    let (next, clear) = details().reduce(EditMsg::Title("T2".to_string()));
    assert!(!clear);
    assert_eq!(next.title, "T2");
    assert_eq!(next.content, "c");

    let (next, _) = details().reduce(EditMsg::Content("C2".to_string()));
    assert_eq!(next.content, "C2");
    assert_eq!(next.title, "t");

    let (next, _) = details().reduce(EditMsg::RenderedContent("R".to_string()));
    assert_eq!(next.rendered_content, "R");
}

#[test]
fn add_tag_appends_once_and_clears_the_field() {
    let (next, clear) = details().reduce(EditMsg::AddTag("blog".to_string()));
    assert!(clear);
    assert_eq!(next.tags, vec!["rust", "blog"]);

    // adding it again changes nothing but still clears the field
    let (next, clear) = next.reduce(EditMsg::AddTag("blog".to_string()));
    assert!(clear);
    assert_eq!(next.tags, vec!["rust", "blog"]);

    // an empty tag is ignored and the field is left alone
    let (next, clear) = next.reduce(EditMsg::AddTag(String::new()));
    assert!(!clear);
    assert_eq!(next.tags, vec!["rust", "blog"]);
}

#[test]
fn remove_tag_drops_it() {
    let (next, clear) = details().reduce(EditMsg::RemoveTag("rust".to_string()));
    assert!(!clear);
    assert_eq!(next.tags, Vec::<String>::new());

    let (next, _) = details().reduce(EditMsg::RemoveTag("absent".to_string()));
    assert_eq!(next.tags, vec!["rust"]);
}
