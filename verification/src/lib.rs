//! The verified core of a concurrent link search: link extraction from a
//! document tree, the fetch-and-parse pipeline of a worker, and the
//! coordinator that deduplicates links and hands them to a fixed rotation of
//! workers until the target is seen.

pub mod coordinator;
pub mod dom;
pub mod extract;
pub mod html;
pub mod laws;
pub mod model;
pub mod pipeline;
pub mod protocol;
pub mod rotation;
pub mod url;
pub mod worker;
