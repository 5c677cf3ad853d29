//! Generation of textual interface-stub declarations for natively
//! implemented modules, from a collection of independently registered
//! descriptors.
//!
//! Descriptors are collected into a [`registry::Registry`], merged into a
//! module tree by the builder in [`stub_info`], and rendered by
//! [`render`] into deterministic stub text: every keyed collection is
//! held in canonical key order, so the output depends only on what was
//! registered, never on the order in which registration sites ran.

pub mod idmap;
pub mod ir;
pub mod ordmap;
pub mod registry;
pub mod render;
pub mod stub_info;
pub mod text;
pub mod type_info;
pub mod version;
