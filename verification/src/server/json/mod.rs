//! A small JSON document model: the value tree, its text form, the parser
//! and the writer.

pub mod grammar;
pub mod model;
pub mod parse;
pub mod roundtrip;
pub mod tree;
pub mod writer;

pub use model::JsonValue;
pub use tree::{JsonArray, JsonChild, JsonError, JsonNumber, JsonObject};
pub use writer::{ObjectWriter, ToJson};
