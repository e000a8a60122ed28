//! Arguments and results of the advanced email methods.
use vstd::prelude::*;

use crate::types::{Email, EmailFilterCondition, EmailSort, JmapSetError};

verus! {

/// `Email/changes` arguments.
#[derive(Debug)]
pub struct EmailChangesRequest {
    pub account_id: String,
    pub since_state: String,
    pub max_changes: Option<u64>,
}

/// `Email/changes` result.
#[derive(Debug)]
pub struct EmailChangesResponse {
    pub account_id: String,
    pub old_state: String,
    pub new_state: String,
    pub has_more_changes: bool,
    pub created: Vec<String>,
    pub updated: Vec<String>,
    pub destroyed: Vec<String>,
}

/// `Email/queryChanges` arguments.
#[derive(Debug)]
pub struct EmailQueryChangesRequest {
    pub account_id: String,
    pub since_query_state: String,
    pub filter: Option<EmailFilterCondition>,
    pub sort: Option<Vec<EmailSort>>,
    pub max_changes: Option<u64>,
    pub up_to_id: Option<String>,
    pub calculate_total: Option<bool>,
}

/// `Email/queryChanges` result.
#[derive(Debug)]
pub struct EmailQueryChangesResponse {
    pub account_id: String,
    pub old_query_state: String,
    pub new_query_state: String,
    pub total: Option<u64>,
    pub removed: Vec<String>,
    pub added: Vec<AddedItem>,
}

/// An id added to a query result, with its position.
#[derive(Debug)]
pub struct AddedItem {
    pub id: String,
    pub index: u64,
}

/// `Email/copy` arguments; `create` is keyed by creation id.
#[derive(Debug)]
pub struct EmailCopyRequest {
    pub from_account_id: String,
    pub account_id: String,
    pub if_from_in_state: Option<String>,
    pub if_in_state: Option<String>,
    pub create: Vec<(String, EmailCopyObject)>,
    pub on_success_destroy_original: Option<bool>,
    pub destroy_from_if_in_state: Option<String>,
}

/// One message to copy. Times are milliseconds since the Unix epoch.
#[derive(Debug)]
pub struct EmailCopyObject {
    pub id: String,
    pub mailbox_ids: Vec<(String, bool)>,
    pub keywords: Option<Vec<(String, bool)>>,
    pub received_at: Option<i64>,
}

/// `Email/copy` result.
#[derive(Debug)]
pub struct EmailCopyResponse {
    pub from_account_id: String,
    pub account_id: String,
    pub old_state: String,
    pub new_state: String,
    pub created: Option<Vec<(String, Email)>>,
    pub not_created: Option<Vec<(String, JmapSetError)>>,
}

/// `Email/import` arguments; `emails` is keyed by creation id.
#[derive(Debug)]
pub struct EmailImportRequest {
    pub account_id: String,
    pub if_in_state: Option<String>,
    pub emails: Vec<(String, EmailImportObject)>,
}

/// One message to import. Times are milliseconds since the Unix epoch.
#[derive(Debug)]
pub struct EmailImportObject {
    pub blob_id: String,
    pub mailbox_ids: Vec<(String, bool)>,
    pub keywords: Option<Vec<(String, bool)>>,
    pub received_at: Option<i64>,
}

/// `Email/import` result.
#[derive(Debug)]
pub struct EmailImportResponse {
    pub account_id: String,
    pub old_state: String,
    pub new_state: String,
    pub created: Option<Vec<(String, Email)>>,
    pub not_created: Option<Vec<(String, JmapSetError)>>,
}

/// `Email/parse` arguments.
#[derive(Debug)]
pub struct EmailParseRequest {
    pub account_id: String,
    pub blob_ids: Vec<String>,
    pub properties: Option<Vec<String>>,
    pub body_properties: Option<Vec<String>>,
    pub fetch_text_body_values: Option<bool>,
    pub fetch_html_body_values: Option<bool>,
    pub fetch_all_body_values: Option<bool>,
    pub max_body_value_bytes: Option<u64>,
}

/// `Email/parse` result.
#[derive(Debug)]
pub struct EmailParseResponse {
    pub account_id: String,
    pub parsed: Vec<(String, Email)>,
    pub not_parsable: Vec<String>,
    pub not_found: Vec<String>,
}

} // verus!
