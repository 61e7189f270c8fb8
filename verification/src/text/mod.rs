//! Verified text handling: the model of a text is the sequence of its characters.

pub mod chars;
pub mod compose;
pub mod debug;
pub mod number;
pub mod order;
pub mod path;
pub mod search;
pub mod split;
