//! A local Markdown note library: the text rules that shape a note's
//! title, preview and file name, the note index with its categories,
//! and the decisions that drive the editor window.
pub mod chars;
pub mod strings;
pub mod error;
pub mod notetext;
pub mod paths;
pub mod clock;
pub mod model;
pub mod order;
pub mod index;
pub mod ops;
pub mod store;
pub mod listing;
pub mod search;
pub mod editor;
pub mod labels;
pub mod hotkey;
pub mod laws;
