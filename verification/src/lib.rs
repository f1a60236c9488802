//! Parsing and serialization of magnet URIs.
//!
//! A magnet URI identifies content by hash and carries optional discovery
//! metadata (display name, size, trackers, alternate sources). This crate
//! parses such a string into a [`Magnet`] record, lets one be assembled with
//! [`MagnetBuilder`], and serializes a record back to its canonical string
//! form. Both directions are specified against a common mathematical model
//! and verified, including the round-trip between them.

pub mod builder;
pub mod laws;
pub mod model;
pub mod parsing;
pub mod serialize;
pub mod text;

pub use builder::MagnetBuilder;
pub use model::Magnet;
pub use model::MagnetError;
