//! Overlay of environment variables onto a configuration tree.
//!
//! Every field of a configuration value has an address: the upper-cased
//! prefix followed by the upper-cased names of the record fields that lead to
//! it, joined by `_`. A variable stored under a field's address replaces that
//! field in the tree that mirrors the configuration value.
pub mod address;
pub mod env;
pub mod error;
pub mod laws;
pub mod overlay;
pub mod patch;
pub mod paths;
pub mod shape;
pub mod tree;
pub mod yaml;

pub use crate::env::{Lookup, Variable};
pub use crate::error::Error;
pub use crate::overlay::{load, Serializer};
pub use crate::shape::{Field, Kind, Shape};
pub use crate::tree::Tree;
