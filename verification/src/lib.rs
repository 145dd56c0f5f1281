//! Counting bytes, characters, lines, words and the longest line of texts,
//! adding the counts up over several texts, and laying them out in aligned
//! columns.

pub mod args;
pub mod driver;
pub mod error;
pub mod metrics;
pub mod record;
pub mod render;
pub mod total;
