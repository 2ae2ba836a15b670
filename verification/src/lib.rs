//! Parsing, serialization and matching of text directives: the structured
//! sub-syntax (`:~:text=prefix-,start,end,-suffix`) carried in a URL
//! fragment for link-based text highlighting, together with the generic
//! CSS value types of the surrounding style system.

pub mod bytes;
pub mod css;
pub mod directive;
pub mod font;
pub mod matching;
pub mod parse;
pub mod percent;
pub mod round_trip;
pub mod serialize;
pub mod text;
