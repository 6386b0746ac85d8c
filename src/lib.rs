//! A small regular-expression matcher: literals, `\d`, `\w`, character groups,
//! the anchors `^` and `$`, and the quantifiers `+`, `*` and `?`, applied to one
//! line of input with greedy repetition that is never retried.

pub mod atom;
pub mod class;
pub mod laws;
pub mod matcher;

pub use atom::{extract_char_class, extract_pattern, extract_quantifier};
pub use class::{match_char, CharCls, Quantifier};
pub use matcher::{match_next, match_pattern};
