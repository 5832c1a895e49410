//! A bus-tree crawler's verified core: object locations, the usage index
//! with its commutative, idempotent merge, the per-node crawl step, bus-name
//! filtering, and the query endpoint's path transform.
//!
//! The asynchronous bus transport (connection, enumeration, descriptor
//! fetch, registration) lives outside this crate; the logic here works on
//! the plain values that transport hands over.

pub mod crawl;
pub mod descriptor;
pub mod index;
pub mod location;
pub mod names;
pub mod query;
pub mod text;
