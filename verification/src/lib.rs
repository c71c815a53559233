//! Core of a dynamic-routing HTTP server: a per-method route registry with
//! pattern matching and parameter capture, a bounded match cache, a detached
//! request object safe to hand to a foreign callback runtime, and the
//! dispatcher logic that turns callback responses into HTTP responses.

pub mod dispatch;
pub mod json_optimizer;
pub mod methods;
pub mod multipart;
pub mod pattern;
pub mod query;
pub mod read_only;
pub mod request;
pub mod response;
pub mod server;
pub mod store;
pub mod strutil;

pub use methods::Methods;
