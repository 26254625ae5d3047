//! Prefix-routed argument selection and layered configuration merging.

pub mod config;
pub mod layers;
pub mod partition;
pub mod resolve;
pub mod schema;
pub mod select;
pub mod text;
pub mod value;
