//! The server's building blocks.

pub mod json;
pub mod parser;
pub mod queue;
pub mod reqres;
pub mod request;
pub mod router;
pub mod status;
pub mod text;

pub use json::{JsonArray, JsonChild, JsonError, JsonNumber, JsonObject, ToJson};
pub use parser::RequestReader;
pub use reqres::{RequestType, Response, RouteError, ToBytes};
pub use request::{BodyContents, Headers, ParseError, Request};
pub use router::{Route, RouteStorage};
pub use status::ResponseStatusCode;
