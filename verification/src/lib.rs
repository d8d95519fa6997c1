//! Tools for building small HTTP services: a scope-disciplined JSON text
//! builder, request path and query helpers, and entity-tag list parsing.

pub mod etag;
pub mod json;
pub mod laws;
pub mod request;
