//! Request planning, validation and output naming for an image-generation client.
pub mod api;
pub mod auth;
pub mod bytes;
pub mod cli;
pub mod models;
pub mod output;
pub mod size;
pub mod text;
