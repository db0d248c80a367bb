//! The MiniMessage markup: tags in angle brackets that style, nest and give content to
//! text, read into a text component.
pub mod bytes;
pub mod escape;
pub mod args;
pub mod values;
pub mod alpha;
pub mod tree;
pub mod markup;
pub mod parser;

pub use parser::{markup_component, parse, parse_within, NESTING_LIMIT};
