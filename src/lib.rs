//! A schema-driven request engine for a REST API: parameter and body encoding,
//! credential selection, response classification, cursor pagination and the
//! media upload workflow, each as verified decisions over plain values.
pub mod auth;
pub mod command_tree;
pub mod error;
pub mod json;
pub mod media_upload;
pub mod pagination;
pub mod path;
pub mod query;
pub mod request;
pub mod sources;
pub mod text;
