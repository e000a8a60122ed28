use vstd::prelude::*;

pub mod api;
pub mod auth;
pub mod back_reference;
pub mod blob;
pub mod eventsource;
pub mod json;
pub mod maps;
pub mod methods;
pub mod outside;
pub mod text;
pub mod types;

pub use api::JmapServer;
pub use blob::{BlobMeta, BlobStorage, UploadError, UploadErrorBody, UploadResponse};
pub use types::{derive_account_id, EmailAddress, JmapError, JmapErrorType, Principal};
