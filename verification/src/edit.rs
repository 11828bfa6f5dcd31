//! The post editor's state: what the edit screen holds, and how one editor
//! event steps it. The surrounding reactive UI owns the wiring — it hands
//! an event in, applies the new state, and performs the one action the
//! step can ask for (clearing the tag-entry field).

use vstd::prelude::*;

use crate::post::str_views;
use crate::render::md_to_html;
use crate::render::rendered_html_ok;
use crate::text::chars_eq_lit;
use crate::text::str_to_chars;

verus! {

/// One editor event.
pub enum EditMsg {
    /// The loaded post arrives: tags, content, title, draft flag. The
    /// content is rendered anew.
    SetInitial(Vec<String>, String, String, bool),
    Title(String),
    Content(String),
    RenderedContent(String),
    AddTag(String),
    RemoveTag(String),
}

/// What the edit screen holds.
pub struct PostDetails {
    pub id: u32,
    pub title: String,
    pub content: String,
    pub rendered_content: String,
    pub tags: Vec<String>,
    pub draft: bool,
}

/// Whether a tag with this text is in the list.
pub open spec fn has_tag(ts: Seq<String>, t: Seq<char>) -> bool {
    exists|i: int| 0 <= i < ts.len() && #[trigger] ts[i]@ == t
}

/// Whether this list's tag is kept when the tag `t` is removed.
pub open spec fn keeps_when_removing(t: Seq<char>) -> spec_fn(Seq<char>) -> bool {
    |x: Seq<char>| x != t
}

impl PostDetails {
    fn contains_tag(&self, t: &String) -> (r: bool)
        ensures
            r == has_tag(self.tags@, t@),
    {
        let n = self.tags.len();
        let mut i: usize = 0;
        while i < n
            invariant
                n == self.tags@.len(),
                i <= n,
                forall|k: int| 0 <= k < i ==> #[trigger] self.tags@[k]@ != t@,
            decreases n - i,
        {
            let v = str_to_chars(self.tags[i].as_str());
            if chars_eq_lit(&v, t.as_str()) {
                assert(self.tags@[i as int]@ == t@);
                return true;
            }
            i = i + 1;
        }
        assert(!has_tag(self.tags@, t@));
        false
    }

    fn without_tag(&self, t: &String) -> (r: Vec<String>)
        ensures
            str_views(r@) == str_views(self.tags@).filter(keeps_when_removing(t@)),
    {
        let pred = Ghost(keeps_when_removing(t@));
        let mut out: Vec<String> = Vec::new();
        let n = self.tags.len();
        let mut i: usize = 0;
        proof {
            reveal(Seq::filter);
            assert(str_views(self.tags@).take(0) =~= Seq::<Seq<char>>::empty());
            assert(str_views(out@) =~= Seq::<Seq<char>>::empty());
            assert(Seq::<Seq<char>>::empty().filter(pred@) =~= Seq::<Seq<char>>::empty());
        }
        while i < n
            invariant
                n == self.tags@.len(),
                i <= n,
                pred@ == keeps_when_removing(t@),
                str_views(out@) == str_views(self.tags@).take(i as int).filter(pred@),
            decreases n - i,
        {
            let ghost done = str_views(self.tags@).take(i as int);
            let ghost all = str_views(self.tags@);
            let keep = {
                let v = str_to_chars(self.tags[i].as_str());
                !chars_eq_lit(&v, t.as_str())
            };
            proof {
                reveal(Seq::filter);
                assert(all.take(i as int + 1).drop_last() =~= done);
                assert(all.take(i as int + 1).last() == all[i as int]);
                assert(all[i as int] == self.tags@[i as int]@);
            }
            if keep {
                let ghost os = out@;
                let tag = {
                    let tr: &String = &self.tags[i];
                    tr.clone()
                };
                proof {
                    assert(tag@ == self.tags@[i as int]@);
                }
                out.push(tag);
                proof {
                    assert forall|k: int| 0 <= k < str_views(out@).len() implies str_views(out@)[k]
                        == str_views(os).push(self.tags@[i as int]@)[k] by {
                        if k < os.len() {
                            assert(out@[k] == os[k]);
                        } else {
                            assert(out@[k] == tag);
                        }
                    }
                    assert(str_views(out@) =~= str_views(os).push(self.tags@[i as int]@));
                    assert(all.take(i as int + 1).filter(pred@) == done.filter(pred@).push(
                        all[i as int],
                    ));
                }
            } else {
                proof {
                    assert(all.take(i as int + 1).filter(pred@) == done.filter(pred@));
                }
            }
            i = i + 1;
        }
        assert(str_views(self.tags@).take(n as int) =~= str_views(self.tags@));
        out
    }

    /// Step the editor's state by one event. Returns the new state, and
    /// whether the UI should clear the tag-entry field — asked for exactly
    /// when a nonempty tag was added.
    pub fn reduce(self, action: EditMsg) -> (r: (PostDetails, bool))
        ensures
            r.1 == (action matches EditMsg::AddTag(t) && t@.len() > 0),
            r.0.id == self.id,
            match action {
                EditMsg::SetInitial(tags, content, title, draft) => {
                    &&& r.0.tags == tags
                    &&& r.0.content == content
                    &&& r.0.title == title
                    &&& r.0.draft == draft
                    &&& rendered_html_ok(content@, r.0.rendered_content@)
                },
                EditMsg::Title(title) => r.0 == (PostDetails { title, ..self }),
                EditMsg::Content(content) => r.0 == (PostDetails { content, ..self }),
                EditMsg::RenderedContent(rendered_content) => r.0 == (PostDetails {
                    rendered_content,
                    ..self
                }),
                EditMsg::AddTag(t) => r.0 == (PostDetails { tags: r.0.tags, ..self })
                    && str_views(r.0.tags@) == if t@.len() == 0 || has_tag(self.tags@, t@) {
                    str_views(self.tags@)
                } else {
                    str_views(self.tags@).push(t@)
                },
                EditMsg::RemoveTag(t) => r.0 == (PostDetails { tags: r.0.tags, ..self })
                    && str_views(r.0.tags@) == str_views(self.tags@).filter(
                    keeps_when_removing(t@),
                ),
            },
    {
        match action {
            EditMsg::SetInitial(tags, content, title, draft) => {
                let rendered_content = md_to_html(content.as_str());
                (
                    PostDetails { id: self.id, tags, content, rendered_content, title, draft },
                    false,
                )
            },
            EditMsg::Title(title) => ((PostDetails { title, ..self }), false),
            EditMsg::Content(content) => ((PostDetails { content, ..self }), false),
            EditMsg::RenderedContent(rendered_content) => (
                (PostDetails { rendered_content, ..self }),
                false,
            ),
            EditMsg::AddTag(tag) => {
                if tag.as_str().is_empty() {
                    (self, false)
                } else if self.contains_tag(&tag) {
                    (self, true)
                } else {
                    let ghost old_tags = self.tags@;
                    let PostDetails { id, title, content, rendered_content, mut tags, draft } =
                        self;
                    let ghost tv = tag@;
                    tags.push(tag);
                    proof {
                        assert forall|k: int| 0 <= k < str_views(tags@).len() implies str_views(
                            tags@,
                        )[k] == str_views(old_tags).push(tv)[k] by {
                            if k < old_tags.len() {
                                assert(tags@[k] == old_tags[k]);
                            } else {
                                assert(tags@[k]@ == tv);
                            }
                        }
                        assert(str_views(tags@) =~= str_views(old_tags).push(tv));
                    }
                    ((PostDetails { id, title, content, rendered_content, tags, draft }), true)
                }
            },
            EditMsg::RemoveTag(tag) => {
                let tags = self.without_tag(&tag);
                let PostDetails { id, title, content, rendered_content, tags: _, draft } = self;
                ((PostDetails { id, title, content, rendered_content, tags, draft }), false)
            },
        }
    }
}

} // verus!
