//! Conversion of DOCX documents to Markdown, and the terminal dialogue that drives it.

pub mod app;
pub mod archive;
pub mod document;
pub mod draft;
pub mod entries;
pub mod errors;
pub mod events;
pub mod history;
pub mod images;
pub mod keys;
pub mod laws;
pub mod names;
pub mod number;
pub mod options;
pub mod order;
pub mod paragraph;
pub mod plan;
pub mod preview;
pub mod saving;
pub mod screens;
pub mod search;
pub mod summary;
pub mod table;
pub mod targets;
pub mod text;
pub mod text_map;
pub mod writing;
pub mod xml;
