//! The service's data: token claims, rows, and the store that holds them.

pub mod category;
pub mod claims;
pub mod label;
pub mod note;
pub mod note_category;
pub mod note_label;
pub mod store;
pub mod user;
pub mod user_label;
