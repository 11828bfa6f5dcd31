//! Shared data layer of a blog: a markdown-to-HTML renderer whose fenced code
//! blocks are re-highlighted line by line, plus the small data types that the
//! surrounding services exchange.

pub mod auth;
pub mod edit;
pub mod lines;
pub mod markup;
pub mod pages;
pub mod post;
pub mod registry;
pub mod render;
pub mod spans;
pub mod text;
pub mod timefmt;
pub mod wedding;
pub mod tokens;
pub mod transform;

pub use post::Post;
pub use post::PostReq;
pub use post::Tags;
pub use render::md_to_html;
pub use timefmt::title_time_string;
