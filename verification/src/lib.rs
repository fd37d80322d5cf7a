//! Typed HTTP client layer: the verified core.
//!
//! This crate holds the decisions of the client as verified functions: path templates and
//! URL building, query maps, request and client builders, header parsing, authorization
//! header values, buffered responses and their status checks, Server-Sent Events decoding,
//! retry policies and the retry loop, body size limits, the schema registry with JSON Schema
//! validation, and the OpenAPI export. Transport, async execution and serde integration live
//! in the application layer around it.

pub mod text;
pub mod json;
pub mod json_text;
pub mod error;
pub mod path_params;
pub mod url_build;
pub mod query_json;
pub mod wire;
pub mod headers;
pub mod auth;
pub mod retry;
pub mod pipeline;
pub mod body_limit;
pub mod response;
pub mod request;
pub mod client;
pub mod endpoint;
pub mod sse;
pub mod sse_stream;
pub mod hooks;
pub mod plugins;
pub mod schema;
pub mod schema_validate;
pub mod openapi;
pub mod convert;
