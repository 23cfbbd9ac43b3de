//! Word frequency counting over a text: the text is split into tokens, each
//! token is trimmed and case-folded, and the tokens are tallied so that the
//! count of any word can be looked up case-insensitively.
mod table;
pub mod laws;
pub mod report;
pub mod tally;
pub mod tokens;
