//! Message headers: names, the header map, the parser of a header block,
//! and the decoders of the headers that carry addresses.

pub mod name;
pub mod map;
pub mod parser;
pub mod lexical;
pub mod parts;
pub mod address;
pub mod known;
pub mod typed;
pub mod summary;
