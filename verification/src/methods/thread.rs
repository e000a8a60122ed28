//! Threads (RFC 8621 §3): `Thread/get`, `Thread/changes`, the id of the
//! thread a message belongs to, and unmarked snippets of a text.
use vstd::prelude::*;
use vstd::utf8::encode_utf8;

use crate::blob::{compute_blob_id, hex_text};
use crate::outside::sha256_digest;
use crate::text::{chars_of, chars_range, parse_u64, parse_u64_spec, string_from, string_of, strings_view, u64_to_decimal, decimal};

pub use crate::methods::search_snippet::{highlight_snippet, highlight_snippet_checked};
use crate::methods::search_snippet::{snippet_window, snippet_window_checked, snippet_window_text, texts};

verus! {

/// A thread: its id and the ids of its emails, in order.
#[derive(Debug, Clone)]
pub struct Thread {
    pub id: String,
    pub email_ids: Vec<String>,
}

/// `Thread/get` arguments.
#[derive(Debug, Clone)]
pub struct ThreadGetRequest {
    pub account_id: String,
    pub ids: Option<Vec<String>>,
    pub properties: Option<Vec<String>>,
}

/// `Thread/get` response.
#[derive(Debug, Clone)]
pub struct ThreadGetResponse {
    pub account_id: String,
    pub state: String,
    pub list: Vec<Thread>,
    pub not_found: Vec<String>,
}

/// `Thread/changes` arguments.
#[derive(Debug, Clone)]
pub struct ThreadChangesRequest {
    pub account_id: String,
    pub since_state: String,
    pub max_changes: Option<u64>,
}

/// `Thread/changes` response.
#[derive(Debug, Clone)]
pub struct ThreadChangesResponse {
    pub account_id: String,
    pub old_state: String,
    pub new_state: String,
    pub has_more_changes: bool,
    pub created: Vec<String>,
    pub updated: Vec<String>,
    pub destroyed: Vec<String>,
}

/// `Thread/get`: no thread is kept, so every id asked for is reported not
/// found, at state `1`.
pub fn thread_get(request: ThreadGetRequest) -> (r: ThreadGetResponse)
    ensures
        r.account_id@ == request.account_id@,
        r.state@ == "1"@,
        r.list@.len() == 0,
        strings_view(r.not_found@) == match request.ids {
            Some(ids) => strings_view(ids@),
            None => Seq::<Seq<char>>::empty(),
        },
{
    let not_found = match request.ids {
        Some(ids) => ids,
        None => {
            let v: Vec<String> = Vec::new();
            assert(strings_view(v@) =~= Seq::<Seq<char>>::empty());
            v
        },
    };
    ThreadGetResponse { account_id: request.account_id, state: string_from("1"), list: Vec::new(), not_found }
}

/// The state a `Thread/changes` reply starts from: the number in
/// `sinceState`, or 0.
pub open spec fn since_value(since: Seq<char>) -> nat {
    match parse_u64_spec(since) {
        Some(n) => n as nat,
        None => 0,
    }
}

/// `Thread/changes`: no change is recorded; the new state is one past the
/// old. (A `sinceState` of `u64::MAX` has no successor.)
pub fn thread_changes(request: ThreadChangesRequest) -> (r: ThreadChangesResponse)
    requires
        since_value(request.since_state@) < u64::MAX,
    ensures
        r.account_id@ == request.account_id@,
        r.old_state@ == request.since_state@,
        r.new_state@ == decimal(since_value(request.since_state@) + 1),
        !r.has_more_changes,
        r.created@.len() == 0,
        r.updated@.len() == 0,
        r.destroyed@.len() == 0,
{
    let since: u64 = match parse_u64(request.since_state.as_str()) {
        Some(n) => n,
        None => 0,
    };
    let new_state = u64_to_decimal(since + 1);
    ThreadChangesResponse {
        account_id: request.account_id,
        old_state: request.since_state,
        new_state,
        has_more_changes: false,
        created: Vec::new(),
        updated: Vec::new(),
        destroyed: Vec::new(),
    }
}

/// The root of a message's thread: the first reference, else the first
/// message it replies to, else its own id, else `unknown`.
pub open spec fn thread_root(message_id: Option<Seq<char>>, in_reply_to: Option<Seq<Seq<char>>>, references: Option<Seq<Seq<char>>>) -> Seq<char> {
    if references is Some && references->0.len() > 0 {
        references->0[0]
    } else if in_reply_to is Some && in_reply_to->0.len() > 0 {
        in_reply_to->0[0]
    } else {
        match message_id {
            Some(m) => m,
            None => "unknown"@,
        }
    }
}

/// A thread id: `T` followed by the first 31 hexadecimal digits of the
/// SHA-256 digest of the root's bytes.
pub open spec fn thread_id_of(root: Seq<char>) -> Seq<char> {
    (seq!['T'] + hex_text(sha256_digest(encode_utf8(root)))).take(32)
}

/// The optional text.
pub open spec fn opt_str(o: Option<&str>) -> Option<Seq<char>> {
    match o {
        Some(s) => Some(s@),
        None => None,
    }
}

/// The optional texts.
pub open spec fn opt_strs(o: Option<&[String]>) -> Option<Seq<Seq<char>>> {
    match o {
        Some(s) => Some(strings_view(s@)),
        None => None,
    }
}

/// The id of the thread a message belongs to, from its `Message-ID`,
/// `In-Reply-To` and `References` (see `thread_root` and `thread_id_of`).
pub fn calculate_thread_id(message_id: Option<&str>, in_reply_to: Option<&[String]>, references: Option<&[String]>) -> (r: String)
    ensures
        r@ == thread_id_of(thread_root(opt_str(message_id), opt_strs(in_reply_to), opt_strs(references))),
{
    let root: &str = match references {
        Some(refs) if refs.len() > 0 => refs[0].as_str(),
        _ => match in_reply_to {
            Some(irt) if irt.len() > 0 => irt[0].as_str(),
            _ => match message_id {
                Some(m) => m,
                None => "unknown",
            },
        },
    };
    let hex = compute_blob_id(root.as_bytes());
    let digits = chars_of(hex.as_str());
    let part = chars_range(&digits, 0, 31);
    let mut out: Vec<char> = Vec::new();
    out.push('T');
    let mut k: usize = 0;
    while k < part.len()
        invariant
            k <= part@.len(),
            out@ == seq!['T'] + part@.take(k as int),
        decreases part.len() - k,
    {
        out.push(part[k]);
        assert(part@.take(k + 1) =~= part@.take(k as int).push(part@[k as int]));
        assert(seq!['T'] + part@.take(k + 1) =~= (seq!['T'] + part@.take(k as int)).push(part@[k as int]));
        k = k + 1;
    }
    assert(part@.take(part@.len() as int) =~= part@);
    assert(out@ =~= (seq!['T'] + hex@).take(32));
    string_of(out.as_slice())
}

/// The part of a text around the first match of a term, unmarked (see
/// `snippet_window`), or `None` where it cannot be cut on character
/// boundaries.
pub fn generate_snippet_checked(text: &str, search_terms: &[String], max_length: usize) -> (r: Option<String>)
    ensures
        match r {
            Some(s) => snippet_window(text@, texts(search_terms@), max_length as int) == Some(encode_utf8(s@)),
            None => snippet_window(text@, texts(search_terms@), max_length as int) is None,
        },
{
    if snippet_window_checked(text, search_terms, max_length).is_some() {
        Some(generate_snippet(text, search_terms, max_length))
    } else {
        None
    }
}

/// The part of a text around the first match of a term, unmarked (see
/// `snippet_window`).
pub fn generate_snippet(text: &str, search_terms: &[String], max_length: usize) -> (r: String)
    requires
        snippet_window(text@, texts(search_terms@), max_length as int) is Some,
    ensures
        snippet_window(text@, texts(search_terms@), max_length as int) == Some(encode_utf8(r@)),
{
    snippet_window_text(text, search_terms, max_length)
}

} // verus!
