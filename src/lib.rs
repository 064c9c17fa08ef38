pub mod engine;
pub mod error;
pub mod laws;
pub mod model;
pub mod store;
mod support;
pub mod text;
