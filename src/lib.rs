//! A bounded-memory prefetch pipeline for MRT archives and a record iterator that tells a clean
//! end of stream from a corrupt one.

pub mod budget;
pub mod counts;
pub mod fetch;
pub mod iter;
pub mod router;
