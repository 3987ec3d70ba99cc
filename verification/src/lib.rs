//! A note-taking service: users, notes, labels and categories, the links
//! between them, and the bearer tokens that guard them.
//!
//! Every repository operation works on an explicit [`model::store::Store`]
//! and is scoped by the owning user; every contract is stated over the
//! store's mathematical view.

pub mod auth;
pub mod error;
pub mod jwt;
pub mod kdf;
pub mod label_api;
pub mod laws;
pub mod model;
pub mod password;
pub mod routes;
pub mod text;
