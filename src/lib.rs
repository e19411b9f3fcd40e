//! Layered resolution of touch-gesture bindings: search paths, TOML
//! documents, directory scans and the precedence ladder that merges them.

pub mod document;
pub mod paths;
pub mod resolve;
pub mod store;
