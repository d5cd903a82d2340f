//! Service-broker catalog retrieval library.
//!
//! A catalog lists the services a broker offers, each with its plans. This
//! crate holds the catalog data model, a JSON wire codec for it, and the
//! catalog provider abstraction: a static provider over an in-memory value,
//! a file-backed provider that parses a JSON document on every call, and a
//! caching decorator that memoizes another provider's first successful
//! result.

pub mod boundary;
pub mod codec;
pub mod json;
pub mod laws;
pub mod model;
pub mod providers;
pub mod service;
