//! bx: a build error extractor. The library classifies the lines of a build's
//! output with a table of regular expressions, groups them into error blocks,
//! and lays out what is shown of them; every function is verified against a
//! contract stated over sequences of characters.

pub mod text;
pub mod matcher;
pub mod classify;
pub mod classify_laws;
pub mod subprocess;
pub mod report;
pub mod nav;
pub mod cli;
pub mod saved;
pub mod paths;
