//! HTML rendering and request handling logic of the web UI.

pub mod render;
pub mod pages;
pub mod store;
pub mod routes;
