//! A minimal HTTP/1.1 protocol layer: request parsing, routing and response
//! serialization, with every function proved against its contract.

pub mod handler;
pub mod headers;
pub mod httprequest;
pub mod httpresponse;
pub mod roundtrip;
pub mod router;
pub mod server;
pub mod text;
