//! Convenience constructors for the catalog providers.

pub mod catalog;
