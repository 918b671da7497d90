//! A small HTTP/1.1 server core: request and response records, a path
//! pattern matcher, a method-keyed router with static-file fallback, and
//! request-line parsing and response framing.

pub mod text;
pub mod strmap;
pub mod types;
pub mod matcher;
pub mod router;
pub mod http;
pub mod pages;
