//! Side-by-side rendering of a structural diff: style tags for matched
//! tokens, per-line grouping of styled spans, splitting of a line into
//! styled runs, and pairing of left and right lines per hunk.

pub mod syntax;
pub mod styler;
pub mod classifier;
pub mod pairing;
