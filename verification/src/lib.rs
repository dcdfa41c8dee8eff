//! Verified building blocks of an MDX / CommonMark parser and its content
//! schemas: the token stream and the parser's cursor, the link-reference
//! pre-pass, the block dispatch and the token-level block productions, the
//! AST and its post-processing passes, emphasis resolution,
//! e-mail autolinks, character references and backslash escapes, link
//! reference tables, heading slugs, GFM table rows, block-quoted fences, and
//! the field validators of content entries.

pub mod text;
pub mod assoc;
pub mod slugger;
pub mod refs;
pub mod table;
pub mod ast;
pub mod inline;
pub mod entity;
pub mod tree;
pub mod token;
pub mod diagnostic;
pub mod parser;
pub mod block;
pub mod code;
pub mod html;
pub mod route;
pub mod heading;
pub mod inline_run;
pub mod link;
pub mod jsx;
pub mod table_scan;
pub mod emphasis;
pub mod fence;
pub mod autolink;
pub mod pathtext;
pub mod schema;
pub mod display;
pub mod render;

pub use parser::ParseOptions;
pub use slugger::{github_slugify, Slugger};
