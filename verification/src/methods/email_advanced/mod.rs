//! Advanced email methods (RFC 8621 §4): `Email/changes`,
//! `Email/queryChanges`, `Email/copy`, `Email/import` and `Email/parse`.
pub mod changes;
pub mod copy;
pub mod import;
pub mod parse;
pub mod types;

pub use changes::{email_changes, email_query_changes, email_query_changes_with};
pub use copy::{email_copy, email_copy_with};
pub use import::{email_import, email_import_with, ImportLookup, ImportTargets};
pub use parse::email_parse;

pub use types::{
    AddedItem, EmailChangesRequest, EmailChangesResponse, EmailCopyObject, EmailCopyRequest,
    EmailCopyResponse, EmailImportObject, EmailImportRequest, EmailImportResponse,
    EmailParseRequest, EmailParseResponse, EmailQueryChangesRequest, EmailQueryChangesResponse,
};
