//! A general-purpose memory allocator whose bookkeeping is verified.
//!
//! Addresses are plain integers here. The size-class table (`classes`) maps a
//! request to a class; a `segment` carves a fixed span into slots of one class
//! and tracks them in a `bitmap`; an `arena` reserves many segment spans from
//! the operating system through a `mapper`; the `registry` keeps the arenas; a
//! `queue` files the segments of one class by how full they are; a `heap` routes
//! each request to a queue or to a `large` mapping of its own. The `header`
//! module lays out the canaries of the C interface.
pub mod arena;
pub mod arith;
pub mod array;
pub mod bitmap;
pub mod bits;
pub mod classes;
pub mod config;
pub mod header;
pub mod heap;
pub mod large;
pub mod list;
pub mod mapper;
pub mod metrics;
pub mod queue;
pub mod registry;
pub mod segment;
pub mod slice;
pub mod system;
