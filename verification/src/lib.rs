//! Typo-tolerant search over document text, lines, word tokens, headings and
//! file paths.

pub mod distance;
pub mod files;
pub mod heading;
pub mod join;
pub mod mark;
pub mod search;
pub mod span;
pub mod text;
pub mod word;
