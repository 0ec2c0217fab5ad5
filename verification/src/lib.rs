//! The verified core of a small web site: where it listens, which embedded
//! assets it serves, and what it answers once a page has been rendered.

pub mod text;
pub mod ipv4;
pub mod config;
pub mod settings;
pub mod headers;
pub mod assets;
pub mod templates;
