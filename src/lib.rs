//! Style statistics for Japanese prose: sentence and dialogue segmentation,
//! character classes, sentence rhythm and a readability score, each with its
//! contract proved.

pub mod analyzer;
pub mod brackets;
pub mod dialogue;
pub mod models;
pub mod preprocess;
pub mod report;
pub mod rhythm;
pub mod sentence;
pub mod site;
pub mod stats;
pub mod text;
