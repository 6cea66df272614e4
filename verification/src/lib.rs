//! A readability extractor: given an HTML document, find the element subtree
//! that most likely holds the primary article body, extract metadata (title,
//! author, description, modification date, charset), clean the subtree and
//! emit it as an HTML fragment together with the metadata record.

pub mod dom;
pub mod extract;
pub mod json;
pub mod jsonld;
pub mod laws;
pub mod meta;
pub mod metadata;
pub mod preprocess;
pub mod score;
pub mod strutil;
pub mod title;
