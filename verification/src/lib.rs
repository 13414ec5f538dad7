//! A phonetic transliteration engine: converts Latin phonetic text into a
//! target script by scanning an ordered table of find/replace patterns, some
//! of which carry contextual rules deciding among alternative replacements.

pub mod laws;
pub mod parser;
pub mod ruleset;
pub mod suggest;
pub mod text;
pub mod utils;
