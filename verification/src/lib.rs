//! Changelog fragments: scaffolding a new one, and checking the ones a branch adds.

pub mod check;
pub mod check_laws;
pub mod error;
pub mod fragment;
pub mod fragment_laws;
pub mod laws;
pub mod path;
pub mod path_laws;
pub mod scaffold;
pub mod scaffold_laws;
pub mod section_laws;
pub mod text;
pub mod text_laws;
