//! Command-line Rust documentation lookup: the verified core.

pub mod io_support;
pub mod text;
pub mod document;
pub mod paths;
pub mod doc_types;
pub mod markup;
pub mod version;
pub mod assoc;
pub mod store;
pub mod dombox;
pub mod choice_stack;
pub mod matcher;
pub mod score;
pub mod driver;
pub mod layout;
pub mod render;
pub mod markdown;
pub mod related;
pub mod toml_util;
pub mod visitor;
pub mod box_view;
