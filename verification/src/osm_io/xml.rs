//! The textual osm (XML) codec: a reader built on a pull parser and a
//! byte-exact emitter.

pub mod reader;
pub mod writer;
