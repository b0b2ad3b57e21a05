//! A small embeddable HTTP/1.1 server library: request parsing, routing,
//! static-file resolution and response framing, with their contracts proved.
pub mod connection;
pub mod context;
pub mod params;
pub mod request;
pub mod response;
pub mod router;
pub mod statics;
pub mod text;
pub mod writer;

pub use crate::context::{HttpMethod, HttpResponseType, Request, Response};
pub use crate::params::{KeyValue, Params};
