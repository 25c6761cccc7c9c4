//! Checks the health of a dotfiles setup: symlinks, required tools, tool
//! versions and the Command Line Tools of Homebrew.
//!
//! The library decides; the caller looks at the system. Each check says
//! what to look at (paths, commands) and turns what was seen into findings.
pub mod checks;
pub mod config;
pub mod report;
pub mod string_map;
pub mod text;
