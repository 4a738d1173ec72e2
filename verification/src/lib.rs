//! Verified cores of a family of small command-line text utilities.
//!
//! The centrepiece is the tail-selection engine in [`tail`]: parsing a signed
//! take-specification, resolving it against a file's total line or byte count,
//! and extracting the selected suffix of the record stream.  The remaining
//! modules hold the pure logic of the sibling utilities: counting, field
//! extraction, permission formatting, calendar layout, and line filtering.

pub mod cal;
pub mod cat;
pub mod comm;
pub mod cut;
pub mod find;
pub mod fortune;
pub mod grep;
pub mod head;
pub mod ls;
pub mod tail;
pub mod uniq;
pub mod text;
pub mod tree;
pub mod unicode;
pub mod wc;
