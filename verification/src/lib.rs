//! A verified lead-sheet toolkit: parse a compact song notation into a typed
//! tree, transpose it by a signed semitone count with enharmonically correct
//! respelling, and render it with chord symbols aligned above the lyrics, as
//! flat markdown or as HTML.

pub mod ast;
pub mod markdown;
pub mod parser;
pub mod render;
pub mod strutil;
pub mod transpose;
