//! Masq propagates one shared color theme to multiple target applications.
//!
//! A theme file names six colors; `themefile` parses and generates that
//! format. Each supported application has a backend (`targets`) that applies
//! a parsed theme; `registry` maps normalized target names to backends, and
//! `driver` resolves user-supplied names and applies the theme to each, with
//! per-target failure isolation.

pub mod cli;
pub mod driver;
pub mod registry;
pub mod targets;
pub mod text;
pub mod theme;
pub mod themefile;
