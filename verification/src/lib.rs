//! Character frequency statistics for text, ignoring whitespace and letter case.

pub mod analyzer;
pub mod chars;
pub mod ranking;
pub mod sort;
pub mod tally;

pub use analyzer::analyze_text;
pub use ranking::CharCount;
pub use tally::Tally;
