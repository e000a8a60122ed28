//! Per-account submission state, and where it is kept on disk.
use vstd::prelude::*;

use std::path::PathBuf;

use crate::maps::{pairs_view, vget, vlookup, vput, vput_exec, vremove, vremove_exec};
use crate::text::{concat, decimal, u64_to_decimal};
use crate::methods::submission::types::{EmailSubmission, SubmissionContent, UndoStatus};

verus! {

/// A submission as kept, with the time it was created (milliseconds since
/// the Unix epoch), which decides the undo window.
#[derive(Debug)]
pub struct StoredSubmission {
    pub submission: EmailSubmission,
    pub created_at: i64,
}

/// The content of a kept submission.
pub struct StoredContent {
    pub submission: SubmissionContent,
    pub created_at: i64,
}

impl View for StoredSubmission {
    type V = StoredContent;

    open spec fn view(&self) -> StoredContent {
        StoredContent { submission: self.submission@, created_at: self.created_at }
    }
}

impl StoredSubmission {
    /// A copy of the kept submission.
    pub fn duplicate(&self) -> (r: StoredSubmission)
        ensures
            r@ == self@,
    {
        StoredSubmission { submission: self.submission.duplicate(), created_at: self.created_at }
    }
}

/// One account's submissions and the version counter that every change
/// increments.
#[derive(Debug)]
pub struct SubmissionAccountState {
    pub submissions: Vec<(String, StoredSubmission)>,
    pub state_version: u64,
}

/// The content of an account's submission state.
pub struct SubmissionStateContent {
    pub submissions: Seq<(Seq<char>, StoredContent)>,
    pub state_version: u64,
}

impl View for SubmissionAccountState {
    type V = SubmissionStateContent;

    open spec fn view(&self) -> SubmissionStateContent {
        SubmissionStateContent { submissions: pairs_view(self.submissions@), state_version: self.state_version }
    }
}

impl Default for SubmissionAccountState {
    fn default() -> (r: Self)
        ensures
            r@.submissions.len() == 0,
            r@.state_version == 1,
    {
        SubmissionAccountState { submissions: Vec::new(), state_version: 1 }
    }
}

/// The state after a submission is stored under its id.
pub open spec fn put_outcome(a: SubmissionStateContent, entry: StoredContent) -> SubmissionStateContent {
    SubmissionStateContent {
        submissions: vput(a.submissions, entry.submission.id, entry),
        state_version: (a.state_version + 1) as u64,
    }
}

/// The state after the submission `id` is forgotten (also when there is
/// none).
pub open spec fn delete_outcome(a: SubmissionStateContent, id: Seq<char>) -> SubmissionStateContent {
    SubmissionStateContent { submissions: vremove(a.submissions, id), state_version: (a.state_version + 1) as u64 }
}

impl SubmissionAccountState {
    /// The submission `id`, if there is one.
    pub fn get_submission(&self, id: &str) -> (r: Option<StoredSubmission>)
        ensures
            match r {
                Some(s) => vget(self@.submissions, id@) == Some(s@),
                None => vget(self@.submissions, id@) is None,
            },
    {
        match vlookup(&self.submissions, id) {
            Some(s) => Some(s.duplicate()),
            None => None,
        }
    }

    /// Stores a submission under its id.
    pub fn put_submission(&mut self, entry: StoredSubmission)
        requires
            old(self).state_version < u64::MAX,
        ensures
            final(self)@ == put_outcome(old(self)@, entry@),
    {
        let key = entry.submission.id.clone();
        vput_exec(&mut self.submissions, key, entry);
        self.state_version = self.state_version + 1;
    }

    /// Forgets the submission `id`.
    pub fn delete_submission(&mut self, id: &str)
        requires
            old(self).state_version < u64::MAX,
        ensures
            final(self)@ == delete_outcome(old(self)@, id@),
    {
        let mut taken: Vec<(String, StoredSubmission)> = Vec::new();
        std::mem::swap(&mut taken, &mut self.submissions);
        self.submissions = vremove_exec(taken, id);
        self.state_version = self.state_version + 1;
    }

    /// The state token: the version counter in decimal.
    pub fn state_token(&self) -> (r: String)
        ensures
            r@ == decimal(self.state_version as nat),
    {
        u64_to_decimal(self.state_version)
    }
}

/// Whether a submission may still be cancelled at time `now`: it is pending
/// and at most `window_secs` seconds old.
pub open spec fn in_undo_window(s: StoredContent, window_secs: i64, now: i64) -> bool {
    s.submission.undo_status == UndoStatus::Pending && now <= s.created_at + window_secs * 1000
}

/// Whether a submission may still be cancelled at time `now`.
pub fn within_undo_window(stored: &StoredSubmission, window_secs: i64, now: i64) -> (r: bool)
    ensures
        r == in_undo_window(stored@, window_secs, now),
{
    let limit: i128 = stored.created_at as i128 + window_secs as i128 * 1000;
    stored.submission.undo_status == UndoStatus::Pending && (now as i128) <= limit
}

/// Where account submission states are kept on disk:
/// `{base_dir}/submissions/{account_id}.json`.
pub struct FileSubmissionStore {
    pub base_dir: PathBuf,
}

impl FileSubmissionStore {
    /// A store rooted at `base_dir`.
    pub fn new(base_dir: PathBuf) -> (r: Self)
        ensures
            r.base_dir == base_dir,
    {
        FileSubmissionStore { base_dir }
    }

    /// The file of one account.
    pub fn account_path(&self, account_id: &str) -> PathBuf {
        let file = concat(account_id, ".json");
        let dir = crate::outside::path_join(&self.base_dir, "submissions");
        crate::outside::path_join(&dir, file.as_str())
    }
}

/// No submission id is held twice: storing or forgetting a submission
/// keeps the ids distinct.
pub proof fn law_submission_ids_stay_distinct(a: SubmissionStateContent, entry: StoredContent, id: Seq<char>)
    requires
        crate::maps::keys_distinct(a.submissions),
    ensures
        crate::maps::keys_distinct(put_outcome(a, entry).submissions),
        crate::maps::keys_distinct(delete_outcome(a, id).submissions),
{
    crate::maps::lemma_vput_distinct(a.submissions, entry.submission.id, entry);
    crate::maps::lemma_vremove_distinct(a.submissions, id);
}

} // verus!
