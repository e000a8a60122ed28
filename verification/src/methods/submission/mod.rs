//! Email submission (RFC 8621 §7): `EmailSubmission/set` (sending,
//! cancelling and forgetting submissions), `/get`, `/query` and `/changes`.
pub mod create;
pub mod handlers;
pub mod store;
pub mod types;

pub use handlers::{
    email_submission_changes, email_submission_get, email_submission_query, email_submission_set,
    email_submission_set_with, CreateLookup, SendAction,
};
pub use store::{FileSubmissionStore, StoredSubmission, SubmissionAccountState};
pub use types::{
    Address, DeliveryState, DeliveryStatus, DisplayedState, EmailSubmission,
    EmailSubmissionChangesRequest, EmailSubmissionChangesResponse, EmailSubmissionFilterCondition,
    EmailSubmissionGetRequest, EmailSubmissionGetResponse, EmailSubmissionObject,
    EmailSubmissionQueryRequest, EmailSubmissionQueryResponse, EmailSubmissionSetRequest,
    EmailSubmissionSetResponse, EmailSubmissionSort, Envelope, UndoStatus,
};
