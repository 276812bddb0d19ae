//! Storage and caching core of a small media server.
//!
//! * [`cache_map`] is a fixed-capacity cache that evicts the least recently
//!   used entry; [`cache_laws`] states what holds of every such cache.
//! * [`stream_store`] indexes the streams that sidecar files under a root
//!   directory describe, and serves listings and segments from that index.
//! * [`session_manager`], [`authentication_service`] and
//!   [`redirect_service`] decide what happens to a request before a service
//!   sees it.
//! * [`paths`], [`text`] and [`text_hash`] are what the others need of paths
//!   and strings.
//!
//! Nothing here reads or writes a file, waits, or talks to a network: the
//! program around the library does that and hands over plain values.

pub mod authentication_service;
pub mod cache_laws;
pub mod cache_map;
pub mod paths;
pub mod redirect_service;
pub mod session_manager;
pub mod stream_store;
pub mod text;
pub mod text_hash;
