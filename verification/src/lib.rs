//! A document engine for a plain-text outline markup: a typed tree model, a
//! parser from text to that tree, and a formatter that reproduces untouched
//! regions byte for byte and writes edited regions in canonical form.

pub mod agenda;
pub mod calendar;
pub mod entries;
pub mod format;
pub mod journal;
pub mod laws;
pub mod listing;
pub mod model;
pub mod new_entry;
pub mod order;
pub mod parser;
pub mod source;
pub mod tags;
pub mod text;
pub mod tree;
pub mod workspace;
pub mod writing_order;
