//! The logic of a Steam achievement manager: reading Steam's cached schema
//! files, deciding what the editor may write, and working out which games to
//! show.

pub mod calendar;
pub mod callbacks;
pub mod client;
pub mod editor;
pub mod error;
pub mod float;
pub mod fs_path;
pub mod images;
pub mod interfaces;
pub mod library;
pub mod lines;
pub mod options;
pub mod ordering;
pub mod paths;
pub mod picker;
pub mod probe;
pub mod rows;
pub mod schema;
pub mod split;
pub mod survey;
pub mod text;
pub mod user_stats;
pub mod vdf;
pub mod wire;
