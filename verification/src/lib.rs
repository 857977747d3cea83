//! Verified core of the desktop agent shell: hook configuration and merging,
//! `@` references, tool cards, Markdown blocks and the state behind the views.

pub mod ask;
pub mod attachments;
pub mod binary64;
pub mod cache;
pub mod codeblock;
pub mod decimal;
pub mod example_tool;
pub mod gitinfo;
pub mod highlight;
pub mod hooks;
pub mod icons;
pub mod json;
pub mod markdown;
pub mod order;
pub mod reference;
pub mod scan;
pub mod search;
pub mod sessions;
pub mod settings;
pub mod shell;
pub mod state_dot;
pub mod stream;
pub mod subagents;
pub mod svg_path;
pub mod table;
pub mod text;
pub mod theme;
pub mod toolcard;
pub mod trajectory;
pub mod viewer;
