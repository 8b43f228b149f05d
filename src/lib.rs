//! Read-only registry of software modules: catalog model, queries,
//! badge rendering, binary codec and the single-flight load gate.

pub mod text;
pub mod model;
pub mod query;
pub mod service;
pub mod wire;
pub mod codec;
pub mod loader;
pub mod cache;
pub mod badge;
