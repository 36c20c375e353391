//! What holds of the library as a whole.

pub mod archives;
pub mod cuts;
pub mod dialogue;
pub mod documents;
pub mod endings;
pub mod files;
pub mod keys;
pub mod markdown;
pub mod memory;
pub mod numbers;
pub mod paragraphs;
pub mod pictures;
pub mod places;
pub mod planning;
pub mod plans;
pub mod previews;
pub mod runs;
pub mod search;
pub mod shows;
pub mod tables;
pub mod texts;
pub mod trees;
pub mod views;
pub mod writes;
