//! dotpatina renders templated configuration files against a tree of named
//! variables and applies the results to target locations, showing a
//! gap-compressed diff and asking for confirmation before anything is written.

pub mod diff;
pub mod engine;
pub mod patina;
pub mod patina_file;
pub mod templating;
pub mod utils;
pub mod vars;
