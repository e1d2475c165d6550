//! A small "file drop" engine: a producer mints a short-lived, path-scoped
//! token bound to size and time limits; a consumer uploads files through
//! that token exactly once, after which the files stay downloadable until a
//! second, content-specific deadline passes. A reaper reclaims storage and
//! metadata once either deadline elapses.
//!
//! The engine itself is pure state: the metadata store and the directory
//! tree are explicit values, and every lifecycle decision is a function
//! over them. Callers supply the clock and perform the actual byte I/O
//! around these decisions. The backing store admits only one writer at a
//! time; here that discipline is the type system's: every mutating
//! operation takes the store by exclusive reference, so a host embedding
//! the engine serializes writers exactly where Rust demands a `&mut`.

pub mod api;
pub mod cleanup;
pub mod conf;
pub mod db;
pub mod disk;
pub mod errors;
pub mod ingest;
pub mod laws;
