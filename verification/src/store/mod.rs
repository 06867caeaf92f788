//! The `.tellme/` store's rows and its content-addressed blob naming.

pub mod blobs;
pub mod models;
pub mod schema;

pub use blobs::BlobStore;
pub use models::{Anchor, Decision, Edit, PendingEdit, Prompt, Session};
