//! What a small listener needs around the codec: request methods, the text
//! of responses, a route table, and a plain builder for response bodies.

pub mod config;
pub mod enums;
pub mod http_request;
pub mod http_response;
pub mod json;
pub mod router;
