//! Wildcard matching on strings: a pattern in which `*` stands for any run of
//! characters is compiled once into a [`GlobPattern`] and then matched against
//! any number of subjects.

pub mod fold;
pub mod laws;
pub mod list;
pub mod matcher;
pub mod pattern;
pub mod text;

pub use list::{GlobCaseSensitive, GlobIgnoreCase, GlobList};
pub use matcher::{
    glob_match, glob_match_all_prebuilt, glob_match_any_prebuilt, glob_match_case_sensitive,
    glob_match_prebuilt,
};
pub use pattern::{build_glob_pattern, GlobPattern, Multipart};
