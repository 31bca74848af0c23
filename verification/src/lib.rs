//! Selects, for a container image reference, the latest registry tag among
//! those that share the reference tag's formatting pattern.
//!
//! Version strings are tokenized into alternating runs of ASCII digits and
//! other characters; tags are filtered by structural pattern equality against
//! the reference tag and ordered with a digit-aware total order.

pub mod laws;
pub mod order;
pub mod schedule;
pub mod select;
pub mod version;
