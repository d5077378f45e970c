//! A content-deduplicating string store.
//!
//! A [`Pool`] maps byte content to a handle; the deduplicating
//! [`GlobalPool`] keeps one shared, immutable buffer for each distinct byte
//! sequence and hands out reference-counted handles to it. A [`String`]
//! holds one handle into a pool and re-interns its content on every change.
//!
//! - [`pool`]: the pool interface, the multi-slice view that pools are
//!   probed with, the store and the two pools;
//! - [`string`]: the pooled string;
//! - [`digest`]: byte-wise hashing of content;
//! - [`encoding`]: UTF-8 and UTF-16 at the border to the standard library.

pub mod digest;
pub mod encoding;
pub mod pool;
pub mod string;

pub use crate::pool::GlobalPool;
pub use crate::pool::Pool;
pub use crate::string::String;
