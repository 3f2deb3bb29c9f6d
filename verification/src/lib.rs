//! `ir` runs self-describing R scripts: the library holds the parsers,
//! version selection and cache-key logic that decide what `ir` does.
pub mod cache;
pub mod cli;
pub mod digest;
pub mod paths;
pub mod python;
pub mod quarto;
pub mod resolve_cache;
pub mod rig;
pub mod runtime;
pub mod script;
pub mod spec;
pub mod text;
pub mod tool;
pub mod yaml;
