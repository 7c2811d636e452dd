//! A small HTTP/1.1 server library: request parsing, routing, response
//! building and optional body compression.
pub mod text;
pub mod fields;
pub mod compression;
pub mod codec;
pub mod response;
pub mod request;
pub mod router;
pub mod laws;

pub use codec::RW;
pub use compression::CompressionMethod;
pub use fields::TextMap;
pub use request::{ParsedRequest, Request, RequestError};
pub use response::{Response, ResponseBody};
pub use router::{HandlerNotFound, Router};
