//! Mailbox objects, their roles and rights, the arguments and results of the
//! mailbox methods, and the rules the methods share.
use vstd::prelude::*;

use crate::json::JsonValue;
use crate::maps::{lemma_pairs_view_len, pairs_view, vget, vlookup};
use crate::outside::{ascii_lowercase_text, is_ascii_text, lowercase, now_timestamp, to_lowercase};
use crate::text::{chars_of, contains_char, has_char, i64_to_decimal, int_decimal, str_eq, string_from};
use crate::types::JmapSetError;

verus! {

/// Special-use role of a mailbox.
#[derive(Debug, Clone, Copy, PartialEq, Eq, Structural)]
pub enum MailboxRole {
    Inbox,
    Archive,
    Drafts,
    Sent,
    Trash,
    Junk,
    Important,
}

/// The IMAP special-use attribute of a role.
pub open spec fn special_use_of(role: MailboxRole) -> Seq<char> {
    match role {
        MailboxRole::Inbox => "\\Inbox"@,
        MailboxRole::Archive => "\\Archive"@,
        MailboxRole::Drafts => "\\Drafts"@,
        MailboxRole::Sent => "\\Sent"@,
        MailboxRole::Trash => "\\Trash"@,
        MailboxRole::Junk => "\\Junk"@,
        MailboxRole::Important => "\\Important"@,
    }
}

/// The role whose special-use attribute is `attr`.
pub open spec fn role_of_special_use(attr: Seq<char>) -> Option<MailboxRole> {
    if attr == "\\Inbox"@ { Some(MailboxRole::Inbox) }
    else if attr == "\\Archive"@ { Some(MailboxRole::Archive) }
    else if attr == "\\Drafts"@ { Some(MailboxRole::Drafts) }
    else if attr == "\\Sent"@ { Some(MailboxRole::Sent) }
    else if attr == "\\Trash"@ { Some(MailboxRole::Trash) }
    else if attr == "\\Junk"@ { Some(MailboxRole::Junk) }
    else if attr == "\\Important"@ { Some(MailboxRole::Important) }
    else { None }
}

/// The role that a lower-cased mailbox name suggests.
pub open spec fn role_of_lower_name(lower: Seq<char>) -> Option<MailboxRole> {
    if lower == "inbox"@ { Some(MailboxRole::Inbox) }
    else if lower == "archive"@ { Some(MailboxRole::Archive) }
    else if lower == "drafts"@ { Some(MailboxRole::Drafts) }
    else if lower == "sent"@ || lower == "sent items"@ || lower == "sent mail"@ { Some(MailboxRole::Sent) }
    else if lower == "trash"@ || lower == "deleted"@ || lower == "deleted items"@ { Some(MailboxRole::Trash) }
    else if lower == "junk"@ || lower == "spam"@ { Some(MailboxRole::Junk) }
    else if lower == "important"@ { Some(MailboxRole::Important) }
    else { None }
}

/// The role suggested by a name that has already been lower-cased.
pub fn role_for_lowercase_name(lower: &str) -> (r: Option<MailboxRole>)
    ensures
        r == role_of_lower_name(lower@),
{
    if str_eq(lower, "inbox") { Some(MailboxRole::Inbox) }
    else if str_eq(lower, "archive") { Some(MailboxRole::Archive) }
    else if str_eq(lower, "drafts") { Some(MailboxRole::Drafts) }
    else if str_eq(lower, "sent") || str_eq(lower, "sent items") || str_eq(lower, "sent mail") { Some(MailboxRole::Sent) }
    else if str_eq(lower, "trash") || str_eq(lower, "deleted") || str_eq(lower, "deleted items") { Some(MailboxRole::Trash) }
    else if str_eq(lower, "junk") || str_eq(lower, "spam") { Some(MailboxRole::Junk) }
    else if str_eq(lower, "important") { Some(MailboxRole::Important) }
    else { None }
}

impl MailboxRole {
    /// The IMAP special-use attribute of this role.
    pub fn to_special_use(&self) -> (r: String)
        ensures
            r@ == special_use_of(*self),
    {
        match self {
            MailboxRole::Inbox => string_from("\\Inbox"),
            MailboxRole::Archive => string_from("\\Archive"),
            MailboxRole::Drafts => string_from("\\Drafts"),
            MailboxRole::Sent => string_from("\\Sent"),
            MailboxRole::Trash => string_from("\\Trash"),
            MailboxRole::Junk => string_from("\\Junk"),
            MailboxRole::Important => string_from("\\Important"),
        }
    }

    /// The role whose IMAP special-use attribute is `attr`.
    pub fn from_special_use(attr: &str) -> (r: Option<Self>)
        ensures
            r == role_of_special_use(attr@),
    {
        if str_eq(attr, "\\Inbox") { Some(MailboxRole::Inbox) }
        else if str_eq(attr, "\\Archive") { Some(MailboxRole::Archive) }
        else if str_eq(attr, "\\Drafts") { Some(MailboxRole::Drafts) }
        else if str_eq(attr, "\\Sent") { Some(MailboxRole::Sent) }
        else if str_eq(attr, "\\Trash") { Some(MailboxRole::Trash) }
        else if str_eq(attr, "\\Junk") { Some(MailboxRole::Junk) }
        else if str_eq(attr, "\\Important") { Some(MailboxRole::Important) }
        else { None }
    }

    /// The role that a mailbox name suggests, compared without regard to
    /// case.
    pub fn detect_from_name(name: &str) -> (r: Option<Self>)
        ensures
            r == role_of_lower_name(lowercase(name@)),
            is_ascii_text(name@) ==> r == role_of_lower_name(ascii_lowercase_text(name@)),
    {
        let lower = to_lowercase(name);
        role_for_lowercase_name(lower.as_str())
    }
}

/// Access rights on a mailbox.
#[derive(Debug, Clone, Copy, PartialEq, Eq, Structural)]
pub struct MailboxRights {
    pub may_read_items: bool,
    pub may_add_items: bool,
    pub may_remove_items: bool,
    pub may_set_seen: bool,
    pub may_set_keywords: bool,
    pub may_create_child: bool,
    pub may_rename: bool,
    pub may_delete: bool,
    pub may_submit: bool,
}

/// Every right granted.
pub open spec fn all_rights() -> MailboxRights {
    MailboxRights {
        may_read_items: true,
        may_add_items: true,
        may_remove_items: true,
        may_set_seen: true,
        may_set_keywords: true,
        may_create_child: true,
        may_rename: true,
        may_delete: true,
        may_submit: true,
    }
}

impl Default for MailboxRights {
    fn default() -> (r: Self)
        ensures
            r == all_rights(),
    {
        MailboxRights {
            may_read_items: true,
            may_add_items: true,
            may_remove_items: true,
            may_set_seen: true,
            may_set_keywords: true,
            may_create_child: true,
            may_rename: true,
            may_delete: true,
            may_submit: true,
        }
    }
}

/// A mailbox.
#[derive(Debug)]
pub struct Mailbox {
    pub id: String,
    pub name: String,
    pub parent_id: Option<String>,
    pub role: Option<MailboxRole>,
    pub sort_order: u32,
    pub total_emails: u64,
    pub unread_emails: u64,
    pub total_threads: u64,
    pub unread_threads: u64,
    pub my_rights: MailboxRights,
    pub is_subscribed: bool,
}

/// The content of a mailbox.
pub struct MailboxView {
    pub id: Seq<char>,
    pub name: Seq<char>,
    pub parent_id: Option<Seq<char>>,
    pub role: Option<MailboxRole>,
    pub sort_order: u32,
    pub total_emails: u64,
    pub unread_emails: u64,
    pub total_threads: u64,
    pub unread_threads: u64,
    pub my_rights: MailboxRights,
    pub is_subscribed: bool,
}

/// The content of an optional string.
pub open spec fn opt_str(o: Option<String>) -> Option<Seq<char>> {
    match o {
        Some(s) => Some(s@),
        None => None,
    }
}

impl View for Mailbox {
    type V = MailboxView;

    open spec fn view(&self) -> MailboxView {
        MailboxView {
            id: self.id@,
            name: self.name@,
            parent_id: opt_str(self.parent_id),
            role: self.role,
            sort_order: self.sort_order,
            total_emails: self.total_emails,
            unread_emails: self.unread_emails,
            total_threads: self.total_threads,
            unread_threads: self.unread_threads,
            my_rights: self.my_rights,
            is_subscribed: self.is_subscribed,
        }
    }
}

/// An optional string with the same content.
pub fn clone_opt_string(o: &Option<String>) -> (r: Option<String>)
    ensures
        r == *o,
{
    match o {
        Some(s) => Some(s.clone()),
        None => None,
    }
}

impl Mailbox {
    /// A mailbox with the same content.
    pub fn duplicate(&self) -> (r: Mailbox)
        ensures
            r@ == self@,
    {
        Mailbox {
            id: self.id.clone(),
            name: self.name.clone(),
            parent_id: clone_opt_string(&self.parent_id),
            role: self.role,
            sort_order: self.sort_order,
            total_emails: self.total_emails,
            unread_emails: self.unread_emails,
            total_threads: self.total_threads,
            unread_threads: self.unread_threads,
            my_rights: self.my_rights,
            is_subscribed: self.is_subscribed,
        }
    }
}

/// A new, empty, subscribed mailbox with every right.
pub open spec fn default_mailbox_view(id: Seq<char>, name: Seq<char>, role: Option<MailboxRole>, sort_order: u32) -> MailboxView {
    MailboxView {
        id,
        name,
        parent_id: None,
        role,
        sort_order,
        total_emails: 0,
        unread_emails: 0,
        total_threads: 0,
        unread_threads: 0,
        my_rights: all_rights(),
        is_subscribed: true,
    }
}

/// A new, empty, subscribed mailbox with every right.
pub fn create_default_mailbox(id: &str, name: &str, role: Option<MailboxRole>, sort_order: u32) -> (r: Mailbox)
    ensures
        r@ == default_mailbox_view(id@, name@, role, sort_order),
{
    Mailbox {
        id: string_from(id),
        name: string_from(name),
        parent_id: None,
        role,
        sort_order,
        total_emails: 0,
        unread_emails: 0,
        total_threads: 0,
        unread_threads: 0,
        my_rights: MailboxRights::default(),
        is_subscribed: true,
    }
}

/// The mailboxes every account starts with, keyed by id.
pub open spec fn default_mailboxes() -> Seq<(Seq<char>, MailboxView)> {
    seq![
        ("inbox"@, default_mailbox_view("inbox"@, "Inbox"@, Some(MailboxRole::Inbox), 0)),
        ("sent"@, default_mailbox_view("sent"@, "Sent"@, Some(MailboxRole::Sent), 10)),
        ("drafts"@, default_mailbox_view("drafts"@, "Drafts"@, Some(MailboxRole::Drafts), 20)),
        ("trash"@, default_mailbox_view("trash"@, "Trash"@, Some(MailboxRole::Trash), 30)),
        ("junk"@, default_mailbox_view("junk"@, "Junk"@, Some(MailboxRole::Junk), 40)),
        ("archive"@, default_mailbox_view("archive"@, "Archive"@, Some(MailboxRole::Archive), 50)),
    ]
}

/// The mailboxes every account starts with, keyed by id.
pub fn get_default_mailboxes() -> (r: Vec<(String, Mailbox)>)
    ensures
        pairs_view(r@) == default_mailboxes(),
{
    let mut v: Vec<(String, Mailbox)> = Vec::new();
    v.push((string_from("inbox"), create_default_mailbox("inbox", "Inbox", Some(MailboxRole::Inbox), 0)));
    v.push((string_from("sent"), create_default_mailbox("sent", "Sent", Some(MailboxRole::Sent), 10)));
    v.push((string_from("drafts"), create_default_mailbox("drafts", "Drafts", Some(MailboxRole::Drafts), 20)));
    v.push((string_from("trash"), create_default_mailbox("trash", "Trash", Some(MailboxRole::Trash), 30)));
    v.push((string_from("junk"), create_default_mailbox("junk", "Junk", Some(MailboxRole::Junk), 40)));
    v.push(
        (string_from("archive"), create_default_mailbox("archive", "Archive", Some(MailboxRole::Archive), 50)),
    );
    proof {
        lemma_pairs_view_len(v@);
        assert(pairs_view(v@) =~= default_mailboxes());
    }
    v
}

/// A state token: the current time in seconds, in decimal.
pub fn generate_state() -> (r: String)
    ensures
        exists|t: i64| r@ == int_decimal(t as int),
{
    let t = now_timestamp();
    i64_to_decimal(t)
}

/// The mailbox with the requested properties: every property is kept, which
/// JMAP allows.
pub fn filter_mailbox_properties(mailbox: Mailbox, properties: &[String]) -> (r: Mailbox)
    ensures
        r == mailbox,
{
    mailbox
}

/// The ids of the mailboxes that cannot be destroyed.
pub open spec fn is_special_use_id(id: Seq<char>) -> bool {
    id == "inbox"@ || id == "sent"@ || id == "drafts"@ || id == "trash"@ || id == "junk"@ || id == "archive"@
}

/// Whether `id` names a special-use mailbox.
pub fn is_special_use_mailbox(id: &str) -> (r: bool)
    ensures
        r == is_special_use_id(id@),
{
    str_eq(id, "inbox") || str_eq(id, "sent") || str_eq(id, "drafts") || str_eq(id, "trash") || str_eq(
        id,
        "junk",
    ) || str_eq(id, "archive")
}

/// What is wrong with a mailbox name, if anything: it is empty, longer than
/// 255 bytes in UTF-8, or holds `/` or a NUL character.
pub open spec fn name_problem(name: Seq<char>) -> Option<Seq<char>> {
    if name.len() == 0 {
        Some("Mailbox name cannot be empty"@)
    } else if vstd::utf8::encode_utf8(name).len() > 255 {
        Some("Mailbox name too long (max 255 characters)"@)
    } else if has_char(name, '/') || has_char(name, '\0') {
        Some("Mailbox name contains invalid characters"@)
    } else {
        None
    }
}

/// Checks a mailbox name.
pub fn validate_mailbox_name(name: &str) -> (r: Result<(), String>)
    ensures
        match name_problem(name@) {
            None => r is Ok,
            Some(msg) => r matches Err(m) && m@ == msg,
        },
{
    if name.is_empty() {
        return Err(string_from("Mailbox name cannot be empty"));
    }
    if name.as_bytes().len() > 255 {
        return Err(string_from("Mailbox name too long (max 255 characters)"));
    }
    let c = chars_of(name);
    if contains_char(&c, '/') || contains_char(&c, '\0') {
        return Err(string_from("Mailbox name contains invalid characters"));
    }
    Ok(())
}

/// Whether `target` is `from` or is reached from `from` by following the
/// parent links of `mailboxes`, in at most `steps` links.
pub open spec fn reaches_by_parents(
    mailboxes: Seq<(Seq<char>, MailboxView)>,
    from: Seq<char>,
    target: Seq<char>,
    steps: nat,
) -> bool
    decreases steps,
{
    if from == target {
        true
    } else if steps == 0 {
        false
    } else {
        match vget(mailboxes, from) {
            Some(m) => match m.parent_id {
                Some(p) => reaches_by_parents(mailboxes, p, target, (steps - 1) as nat),
                None => false,
            },
            None => false,
        }
    }
}

/// Whether making `parent_id` the parent of `child_id` closes a cycle:
/// `child_id` is `parent_id` or one of its ancestors. A chain of parent
/// links that reaches `child_id` at all does so within as many links as
/// there are mailboxes.
pub open spec fn creates_cycle(parent_id: Seq<char>, child_id: Seq<char>, mailboxes: Seq<(Seq<char>, MailboxView)>) -> bool {
    reaches_by_parents(mailboxes, parent_id, child_id, mailboxes.len())
}

/// Whether making `parent_id` the parent of `child_id` would create a
/// circular hierarchy: the parent chain from `parent_id` is walked through
/// `mailboxes`.
pub fn would_create_cycle(parent_id: &str, child_id: &str, mailboxes: &Vec<(String, Mailbox)>) -> (r: bool)
    ensures
        r == creates_cycle(parent_id@, child_id@, pairs_view(mailboxes@)),
{
    let ghost mv = pairs_view(mailboxes@);
    proof {
        lemma_pairs_view_len(mailboxes@);
    }
    let mut cur: String = string_from(parent_id);
    let mut steps: usize = mailboxes.len();
    loop
        invariant
            mv == pairs_view(mailboxes@),
            creates_cycle(parent_id@, child_id@, mv) == reaches_by_parents(mv, cur@, child_id@, steps as nat),
        decreases steps,
    {
        if str_eq(cur.as_str(), child_id) {
            return true;
        }
        if steps == 0 {
            return false;
        }
        let next = match vlookup(mailboxes, cur.as_str()) {
            Some(m) => match &m.parent_id {
                Some(p) => p.clone(),
                None => {
                    return false;
                },
            },
            None => {
                return false;
            },
        };
        cur = next;
        steps = steps - 1;
    }
}

/// Filter of `Mailbox/query`; every condition given must hold.
#[derive(Debug)]
pub struct MailboxFilterCondition {
    pub parent_id: Option<String>,
    pub name: Option<String>,
    pub role: Option<MailboxRole>,
    pub has_any_role: Option<bool>,
    pub is_subscribed: Option<bool>,
}

/// A mailbox passes a filter.
pub open spec fn passes_filter(m: MailboxView, f: MailboxFilterCondition) -> bool {
    &&& (f.parent_id matches Some(p) ==> m.parent_id == Some(p@))
    &&& (f.name matches Some(n) ==> m.name == n@)
    &&& (f.role matches Some(r) ==> m.role == Some(r))
    &&& (f.has_any_role matches Some(h) ==> (h == m.role is Some))
    &&& (f.is_subscribed matches Some(s) ==> m.is_subscribed == s)
}

/// Whether a mailbox passes a filter.
pub fn apply_mailbox_filter(mailbox: &Mailbox, filter: &MailboxFilterCondition) -> (r: bool)
    ensures
        r == passes_filter(mailbox@, *filter),
{
    if let Some(parent_id) = &filter.parent_id {
        match &mailbox.parent_id {
            Some(p) => {
                if !str_eq(p.as_str(), parent_id.as_str()) {
                    return false;
                }
            },
            None => {
                return false;
            },
        }
    }
    if let Some(name) = &filter.name {
        if !str_eq(mailbox.name.as_str(), name.as_str()) {
            return false;
        }
    }
    if let Some(role) = filter.role {
        match mailbox.role {
            Some(r) => {
                if r != role {
                    return false;
                }
            },
            None => {
                return false;
            },
        }
    }
    if let Some(has_any_role) = filter.has_any_role {
        if has_any_role && mailbox.role.is_none() {
            return false;
        }
        if !has_any_role && mailbox.role.is_some() {
            return false;
        }
    }
    if let Some(is_subscribed) = filter.is_subscribed {
        if mailbox.is_subscribed != is_subscribed {
            return false;
        }
    }
    true
}


/// `Mailbox/get` arguments.
#[derive(Debug)]
pub struct MailboxGetRequest {
    pub account_id: String,
    pub ids: Option<Vec<String>>,
    pub properties: Option<Vec<String>>,
}

/// `Mailbox/get` result.
#[derive(Debug)]
pub struct MailboxGetResponse {
    pub account_id: String,
    pub state: String,
    pub list: Vec<Mailbox>,
    pub not_found: Vec<String>,
}

/// `Mailbox/set` arguments; `create` and `update` are keyed by creation id
/// and mailbox id.
#[derive(Debug)]
pub struct MailboxSetRequest {
    pub account_id: String,
    pub if_in_state: Option<String>,
    pub create: Option<Vec<(String, MailboxObject)>>,
    pub update: Option<Vec<(String, JsonValue)>>,
    pub destroy: Option<Vec<String>>,
    pub on_destroy_remove_emails: Option<bool>,
}

/// A mailbox to be created.
#[derive(Debug)]
pub struct MailboxObject {
    pub name: String,
    pub parent_id: Option<String>,
    pub role: Option<MailboxRole>,
    pub sort_order: Option<u32>,
    pub is_subscribed: Option<bool>,
}

/// The content of a mailbox to be created.
pub struct MailboxObjectView {
    pub name: Seq<char>,
    pub parent_id: Option<Seq<char>>,
    pub role: Option<MailboxRole>,
    pub sort_order: Option<u32>,
    pub is_subscribed: Option<bool>,
}

impl View for MailboxObject {
    type V = MailboxObjectView;

    open spec fn view(&self) -> MailboxObjectView {
        MailboxObjectView {
            name: self.name@,
            parent_id: opt_str(self.parent_id),
            role: self.role,
            sort_order: self.sort_order,
            is_subscribed: self.is_subscribed,
        }
    }
}

/// `Mailbox/set` result; every map is left out when it would be empty.
#[derive(Debug)]
pub struct MailboxSetResponse {
    pub account_id: String,
    pub old_state: String,
    pub new_state: String,
    pub created: Option<Vec<(String, Mailbox)>>,
    pub updated: Option<Vec<(String, Option<Mailbox>)>>,
    pub destroyed: Option<Vec<String>>,
    pub not_created: Option<Vec<(String, JmapSetError)>>,
    pub not_updated: Option<Vec<(String, JmapSetError)>>,
    pub not_destroyed: Option<Vec<(String, JmapSetError)>>,
}

/// `Mailbox/query` arguments.
#[derive(Debug)]
pub struct MailboxQueryRequest {
    pub account_id: String,
    pub filter: Option<MailboxFilterCondition>,
    pub sort: Option<Vec<MailboxSort>>,
    pub position: Option<i64>,
    pub limit: Option<u64>,
    pub calculate_total: Option<bool>,
}

/// One sort comparator of `Mailbox/query`.
#[derive(Debug)]
pub struct MailboxSort {
    pub property: String,
    pub is_ascending: Option<bool>,
}

/// `Mailbox/query` result.
#[derive(Debug)]
pub struct MailboxQueryResponse {
    pub account_id: String,
    pub query_state: String,
    pub can_calculate_changes: bool,
    pub position: i64,
    pub ids: Vec<String>,
    pub total: Option<u64>,
    pub limit: Option<u64>,
}

/// `Mailbox/changes` arguments.
#[derive(Debug)]
pub struct MailboxChangesRequest {
    pub account_id: String,
    pub since_state: String,
    pub max_changes: Option<u64>,
}

/// `Mailbox/changes` result.
#[derive(Debug)]
pub struct MailboxChangesResponse {
    pub account_id: String,
    pub old_state: String,
    pub new_state: String,
    pub has_more_changes: bool,
    pub created: Vec<String>,
    pub updated: Vec<String>,
    pub destroyed: Vec<String>,
}

/// `Mailbox/queryChanges` arguments.
#[derive(Debug)]
pub struct MailboxQueryChangesRequest {
    pub account_id: String,
    pub since_query_state: String,
    pub filter: Option<MailboxFilterCondition>,
    pub sort: Option<Vec<MailboxSort>>,
    pub max_changes: Option<u64>,
    pub up_to_id: Option<String>,
    pub calculate_total: Option<bool>,
}

/// `Mailbox/queryChanges` result.
#[derive(Debug)]
pub struct MailboxQueryChangesResponse {
    pub account_id: String,
    pub old_query_state: String,
    pub new_query_state: String,
    pub total: Option<u64>,
    pub removed: Vec<String>,
    pub added: Vec<AddedItem>,
}

/// An id added to a query result, with its position.
#[derive(Debug)]
pub struct AddedItem {
    pub id: String,
    pub index: u64,
}


// ── Sorting ─────────────────────────────────────────────────────────────────

/// Where one value stands against another.
#[derive(Debug, Clone, Copy, PartialEq, Eq, Structural)]
pub enum Precedence {
    Before,
    Same,
    After,
}

/// Lexicographic order of two strings, character by character.
pub open spec fn chars_order(a: Seq<char>, b: Seq<char>) -> Precedence
    decreases a.len(),
{
    if a.len() == 0 {
        if b.len() == 0 {
            Precedence::Same
        } else {
            Precedence::Before
        }
    } else if b.len() == 0 {
        Precedence::After
    } else if (a[0] as u32) < (b[0] as u32) {
        Precedence::Before
    } else if (a[0] as u32) > (b[0] as u32) {
        Precedence::After
    } else {
        chars_order(a.drop_first(), b.drop_first())
    }
}

/// Order of two numbers.
pub open spec fn num_order(a: u64, b: u64) -> Precedence {
    if a < b {
        Precedence::Before
    } else if a > b {
        Precedence::After
    } else {
        Precedence::Same
    }
}

/// The opposite order.
pub open spec fn reversed(p: Precedence) -> Precedence {
    match p {
        Precedence::Before => Precedence::After,
        Precedence::Same => Precedence::Same,
        Precedence::After => Precedence::Before,
    }
}

/// Order of two mailboxes by one property; unknown properties leave them
/// equal.
pub open spec fn property_order(prop: Seq<char>, a: MailboxView, b: MailboxView) -> Precedence {
    if prop == "sortOrder"@ {
        num_order(a.sort_order as u64, b.sort_order as u64)
    } else if prop == "name"@ {
        chars_order(a.name, b.name)
    } else if prop == "totalEmails"@ {
        num_order(a.total_emails, b.total_emails)
    } else if prop == "unreadEmails"@ {
        num_order(a.unread_emails, b.unread_emails)
    } else if prop == "totalThreads"@ {
        num_order(a.total_threads, b.total_threads)
    } else if prop == "unreadThreads"@ {
        num_order(a.unread_threads, b.unread_threads)
    } else {
        Precedence::Same
    }
}

/// Order of two mailboxes under a list of (property, ascending) keys: the
/// first key that tells them apart decides.
pub open spec fn mailbox_order(keys: Seq<(Seq<char>, bool)>, a: MailboxView, b: MailboxView) -> Precedence
    decreases keys.len(),
{
    if keys.len() == 0 {
        Precedence::Same
    } else {
        let o = property_order(keys[0].0, a, b);
        let o2 = if keys[0].1 {
            o
        } else {
            reversed(o)
        };
        if o2 != Precedence::Same {
            o2
        } else {
            mailbox_order(keys.drop_first(), a, b)
        }
    }
}

/// The keys of a list of comparators; ascending unless stated.
pub open spec fn sort_keys(comparators: Seq<MailboxSort>) -> Seq<(Seq<char>, bool)> {
    comparators.map_values(
        |c: MailboxSort|
            (
                c.property@,
                match c.is_ascending {
                    Some(b) => b,
                    None => true,
                },
            ),
    )
}

/// Index of the first element of `s` that comes after `x`, or the length.
pub open spec fn first_after(s: Seq<MailboxView>, x: MailboxView, keys: Seq<(Seq<char>, bool)>) -> nat
    decreases s.len(),
{
    if s.len() == 0 {
        0
    } else if mailbox_order(keys, s[0], x) == Precedence::After {
        0
    } else {
        1 + first_after(s.drop_first(), x, keys)
    }
}

/// `s` sorted stably under `keys`: each element goes after every earlier
/// one that does not come after it.
pub open spec fn sorted_mailboxes(s: Seq<MailboxView>, keys: Seq<(Seq<char>, bool)>) -> Seq<MailboxView>
    decreases s.len(),
{
    if s.len() == 0 {
        s
    } else {
        let prev = sorted_mailboxes(s.drop_last(), keys);
        prev.insert(first_after(prev, s.last(), keys) as int, s.last())
    }
}

/// The contents of a list of mailboxes.
pub open spec fn mailboxes_view(s: Seq<Mailbox>) -> Seq<MailboxView> {
    s.map_values(|m: Mailbox| m@)
}

/// Lexicographic order of two strings.
pub fn compare_chars(a: &str, b: &str) -> (r: Precedence)
    ensures
        r == chars_order(a@, b@),
{
    let x = chars_of(a);
    let y = chars_of(b);
    let mut i: usize = 0;
    assert(x@.skip(0) =~= x@);
    assert(y@.skip(0) =~= y@);
    while i < x.len() && i < y.len()
        invariant
            i <= x@.len(),
            i <= y@.len(),
            x@ == a@,
            y@ == b@,
            chars_order(a@, b@) == chars_order(x@.skip(i as int), y@.skip(i as int)),
        decreases x.len() - i,
    {
        let ghost xs = x@.skip(i as int);
        let ghost ys = y@.skip(i as int);
        assert(xs[0] == x@[i as int]);
        assert(ys[0] == y@[i as int]);
        if (x[i] as u32) < (y[i] as u32) {
            return Precedence::Before;
        }
        if (x[i] as u32) > (y[i] as u32) {
            return Precedence::After;
        }
        assert(xs.drop_first() =~= x@.skip(i + 1));
        assert(ys.drop_first() =~= y@.skip(i + 1));
        i = i + 1;
    }
    let ghost xs = x@.skip(i as int);
    let ghost ys = y@.skip(i as int);
    if i < x.len() {
        assert(ys.len() == 0);
        Precedence::After
    } else if i < y.len() {
        assert(xs.len() == 0);
        Precedence::Before
    } else {
        assert(xs.len() == 0 && ys.len() == 0);
        Precedence::Same
    }
}

fn compare_nums(a: u64, b: u64) -> (r: Precedence)
    ensures
        r == num_order(a, b),
{
    if a < b {
        Precedence::Before
    } else if a > b {
        Precedence::After
    } else {
        Precedence::Same
    }
}

fn compare_property(prop: &str, a: &Mailbox, b: &Mailbox) -> (r: Precedence)
    ensures
        r == property_order(prop@, a@, b@),
{
    if str_eq(prop, "sortOrder") {
        compare_nums(a.sort_order as u64, b.sort_order as u64)
    } else if str_eq(prop, "name") {
        compare_chars(a.name.as_str(), b.name.as_str())
    } else if str_eq(prop, "totalEmails") {
        compare_nums(a.total_emails, b.total_emails)
    } else if str_eq(prop, "unreadEmails") {
        compare_nums(a.unread_emails, b.unread_emails)
    } else if str_eq(prop, "totalThreads") {
        compare_nums(a.total_threads, b.total_threads)
    } else if str_eq(prop, "unreadThreads") {
        compare_nums(a.unread_threads, b.unread_threads)
    } else {
        Precedence::Same
    }
}

/// Order of two mailboxes under a list of comparators.
pub fn compare_mailboxes(comparators: &[MailboxSort], a: &Mailbox, b: &Mailbox) -> (r: Precedence)
    ensures
        r == mailbox_order(sort_keys(comparators@), a@, b@),
{
    let ghost keys = sort_keys(comparators@);
    let mut i: usize = 0;
    assert(keys.skip(0) =~= keys);
    while i < comparators.len()
        invariant
            i <= comparators@.len(),
            keys == sort_keys(comparators@),
            keys.len() == comparators@.len(),
            mailbox_order(keys, a@, b@) == mailbox_order(keys.skip(i as int), a@, b@),
        decreases comparators.len() - i,
    {
        let ghost ks = keys.skip(i as int);
        assert(ks[0] == keys[i as int]);
        let ascending = match comparators[i].is_ascending {
            Some(x) => x,
            None => true,
        };
        let o = compare_property(comparators[i].property.as_str(), a, b);
        let o2 = if ascending {
            o
        } else {
            match o {
                Precedence::Before => Precedence::After,
                Precedence::Same => Precedence::Same,
                Precedence::After => Precedence::Before,
            }
        };
        if o2 != Precedence::Same {
            return o2;
        }
        assert(ks.drop_first() =~= keys.skip(i + 1));
        i = i + 1;
    }
    assert(keys.skip(i as int).len() == 0);
    Precedence::Same
}

proof fn lemma_first_after(s: Seq<MailboxView>, x: MailboxView, keys: Seq<(Seq<char>, bool)>, j: int)
    requires
        0 <= j <= s.len(),
        forall|k: int| 0 <= k < j ==> mailbox_order(keys, #[trigger] s[k], x) != Precedence::After,
        j < s.len() ==> mailbox_order(keys, s[j], x) == Precedence::After,
    ensures
        first_after(s, x, keys) == j,
    decreases j,
{
    if s.len() > 0 && j > 0 {
        assert(mailbox_order(keys, s[0], x) != Precedence::After);
        assert forall|k: int| 0 <= k < j - 1 implies mailbox_order(keys, #[trigger] s.drop_first()[k], x) != Precedence::After by {
            assert(s.drop_first()[k] == s[k + 1]);
        }
        lemma_first_after(s.drop_first(), x, keys, j - 1);
    }
}

/// Sorts mailboxes stably under a list of comparators.
pub fn apply_mailbox_sort(mailboxes: &mut Vec<Mailbox>, sort_comparators: &[MailboxSort])
    ensures
        mailboxes_view(final(mailboxes)@) == sorted_mailboxes(mailboxes_view(old(mailboxes)@), sort_keys(sort_comparators@)),
{
    let ghost keys = sort_keys(sort_comparators@);
    let ghost input = mailboxes_view(mailboxes@);
    let mut rest: Vec<Mailbox> = Vec::new();
    std::mem::swap(&mut rest, mailboxes);
    let ghost orig = rest@;
    assert(input == mailboxes_view(orig));
    let mut out: Vec<Mailbox> = Vec::new();
    let mut i: usize = 0;
    proof {
        assert(mailboxes_view(orig).take(0) =~= Seq::<MailboxView>::empty());
        assert(mailboxes_view(out@) =~= Seq::<MailboxView>::empty());
    }
    while i < rest.len()
        invariant
            i <= rest@.len(),
            rest@ == orig,
            keys == sort_keys(sort_comparators@),
            mailboxes_view(out@) == sorted_mailboxes(mailboxes_view(orig).take(i as int), keys),
        decreases rest.len() - i,
    {
        let x = rest[i].duplicate();
        let ghost sv = mailboxes_view(out@);
        let mut j: usize = 0;
        while j < out.len() && compare_mailboxes(sort_comparators, &out[j], &x) != Precedence::After
            invariant
                j <= out@.len(),
                sv == mailboxes_view(out@),
                keys == sort_keys(sort_comparators@),
                forall|k: int| 0 <= k < j ==> mailbox_order(keys, #[trigger] sv[k], x@) != Precedence::After,
            decreases out.len() - j,
        {
            j = j + 1;
        }
        proof {
            lemma_first_after(sv, x@, keys, j as int);
            let t = mailboxes_view(orig).take(i + 1);
            assert(t.drop_last() =~= mailboxes_view(orig).take(i as int));
            assert(t.last() == orig[i as int]@);
        }
        let ghost xv = x@;
        out.insert(j, x);
        proof {
            assert(mailboxes_view(out@) =~= sv.insert(j as int, xv));
        }
        i = i + 1;
    }
    proof {
        assert(mailboxes_view(orig).take(orig.len() as int) =~= mailboxes_view(orig));
    }
    *mailboxes = out;
}

// ── The order of a sort ─────────────────────────────────────────────────────

proof fn lemma_chars_flip(a: Seq<char>, b: Seq<char>)
    ensures
        chars_order(b, a) == reversed(chars_order(a, b)),
    decreases a.len(),
{
    if a.len() > 0 && b.len() > 0 && a[0] as u32 == b[0] as u32 {
        lemma_chars_flip(a.drop_first(), b.drop_first());
    }
}

proof fn lemma_chars_same(a: Seq<char>, b: Seq<char>)
    requires
        chars_order(a, b) == Precedence::Same,
    ensures
        a == b,
    decreases a.len(),
{
    if a.len() > 0 {
        assert(b.len() > 0);
        assert(a[0] as u32 == b[0] as u32);
        lemma_chars_same(a.drop_first(), b.drop_first());
        vstd::utf8::char_u32_cast(a[0], a[0] as u32);
        vstd::utf8::char_u32_cast(b[0], b[0] as u32);
        assert(a[0] == b[0]);
        assert(a =~= seq![a[0]] + a.drop_first());
        assert(b =~= seq![b[0]] + b.drop_first());
    } else {
        assert(b.len() == 0);
        assert(a =~= b);
    }
}

proof fn lemma_chars_before_trans(a: Seq<char>, b: Seq<char>, c: Seq<char>)
    requires
        chars_order(a, b) == Precedence::Before,
        chars_order(b, c) == Precedence::Before,
    ensures
        chars_order(a, c) == Precedence::Before,
    decreases a.len(),
{
    if a.len() > 0 && b.len() > 0 && c.len() > 0 && a[0] as u32 == b[0] as u32 && b[0] as u32 == c[0] as u32 {
        lemma_chars_before_trans(a.drop_first(), b.drop_first(), c.drop_first());
    }
}

/// Two orders in a row: `Before` then not `After` (or the other way round)
/// is `Before`, and `Same` twice is `Same`.
pub open spec fn chained(o1: Precedence, o2: Precedence, o: Precedence) -> bool {
    &&& o1 == Precedence::Before && o2 != Precedence::After ==> o == Precedence::Before
    &&& o1 != Precedence::After && o2 == Precedence::Before ==> o == Precedence::Before
    &&& o1 == Precedence::Same && o2 == Precedence::Same ==> o == Precedence::Same
}

proof fn lemma_chars_chain(a: Seq<char>, b: Seq<char>, c: Seq<char>)
    ensures
        chained(chars_order(a, b), chars_order(b, c), chars_order(a, c)),
{
    if chars_order(a, b) == Precedence::Same {
        lemma_chars_same(a, b);
    }
    if chars_order(b, c) == Precedence::Same {
        lemma_chars_same(b, c);
    }
    if chars_order(a, b) == Precedence::Before && chars_order(b, c) == Precedence::Before {
        lemma_chars_before_trans(a, b, c);
    }
}

proof fn lemma_property_props(prop: Seq<char>, a: MailboxView, b: MailboxView, c: MailboxView)
    ensures
        property_order(prop, b, a) == reversed(property_order(prop, a, b)),
        chained(property_order(prop, a, b), property_order(prop, b, c), property_order(prop, a, c)),
{
    lemma_chars_flip(a.name, b.name);
    lemma_chars_chain(a.name, b.name, c.name);
}

/// The order of two mailboxes under one key, in its direction.
pub open spec fn key_order(k: (Seq<char>, bool), a: MailboxView, b: MailboxView) -> Precedence {
    if k.1 {
        property_order(k.0, a, b)
    } else {
        reversed(property_order(k.0, a, b))
    }
}

proof fn lemma_key_props(k: (Seq<char>, bool), a: MailboxView, b: MailboxView, c: MailboxView)
    ensures
        key_order(k, b, a) == reversed(key_order(k, a, b)),
        chained(key_order(k, a, b), key_order(k, b, c), key_order(k, a, c)),
{
    lemma_property_props(k.0, a, b, c);
    lemma_property_props(k.0, c, b, a);
    lemma_property_props(k.0, b, a, c);
    lemma_property_props(k.0, a, c, b);
}

proof fn lemma_order_props(keys: Seq<(Seq<char>, bool)>, a: MailboxView, b: MailboxView, c: MailboxView)
    ensures
        mailbox_order(keys, b, a) == reversed(mailbox_order(keys, a, b)),
        chained(mailbox_order(keys, a, b), mailbox_order(keys, b, c), mailbox_order(keys, a, c)),
    decreases keys.len(),
{
    if keys.len() > 0 {
        lemma_key_props(keys[0], a, b, c);
        lemma_order_props(keys.drop_first(), a, b, c);
        assert(key_order(keys[0], a, b) == (if keys[0].1 { property_order(keys[0].0, a, b) } else { reversed(property_order(keys[0].0, a, b)) }));
    }
}

proof fn lemma_first_after_props(s: Seq<MailboxView>, x: MailboxView, keys: Seq<(Seq<char>, bool)>)
    ensures
        first_after(s, x, keys) <= s.len(),
        forall|k: int| 0 <= k < first_after(s, x, keys) ==> mailbox_order(keys, #[trigger] s[k], x) != Precedence::After,
        first_after(s, x, keys) < s.len() ==> mailbox_order(keys, s[first_after(s, x, keys) as int], x) == Precedence::After,
    decreases s.len(),
{
    if s.len() > 0 && mailbox_order(keys, s[0], x) != Precedence::After {
        lemma_first_after_props(s.drop_first(), x, keys);
        assert forall|k: int| 0 <= k < first_after(s, x, keys) implies mailbox_order(keys, #[trigger] s[k], x) != Precedence::After by {
            if k > 0 {
                assert(s[k] == s.drop_first()[k - 1]);
            }
        }
        if first_after(s, x, keys) < s.len() {
            assert(s[first_after(s, x, keys) as int] == s.drop_first()[first_after(s.drop_first(), x, keys) as int]);
        }
    }
}

/// Whether no mailbox of `s` comes after a later one under `keys`.
pub open spec fn in_sort_order(s: Seq<MailboxView>, keys: Seq<(Seq<char>, bool)>) -> bool {
    forall|i: int, j: int| 0 <= i < j < s.len() ==> mailbox_order(keys, #[trigger] s[i], #[trigger] s[j]) != Precedence::After
}

/// A `Mailbox/query` sort is a stable sort: it gives the same mailboxes,
/// each as often as before, in sort order, and a list already in sort
/// order is left as it is (mailboxes that compare the same keep their
/// places).
pub proof fn law_mailbox_sort_is_stable_sort(s: Seq<MailboxView>, keys: Seq<(Seq<char>, bool)>)
    ensures
        sorted_mailboxes(s, keys).to_multiset() == s.to_multiset(),
        in_sort_order(sorted_mailboxes(s, keys), keys),
        in_sort_order(s, keys) ==> sorted_mailboxes(s, keys) == s,
    decreases s.len(),
{
    if s.len() > 0 {
        let d = s.drop_last();
        let x = s.last();
        law_mailbox_sort_is_stable_sort(d, keys);
        let prev = sorted_mailboxes(d, keys);
        let p = first_after(prev, x, keys) as int;
        lemma_first_after_props(prev, x, keys);
        let out = prev.insert(p, x);
        assert(out == sorted_mailboxes(s, keys));
        // the same mailboxes
        vstd::seq_lib::lemma_seq_union_to_multiset_commutative(prev.subrange(0, p), seq![x]);
        assert(out =~= prev.subrange(0, p) + seq![x] + prev.subrange(p, prev.len() as int));
        assert(prev =~= prev.subrange(0, p) + prev.subrange(p, prev.len() as int));
        vstd::seq_lib::lemma_multiset_commutative(prev.subrange(0, p) + seq![x], prev.subrange(p, prev.len() as int));
        vstd::seq_lib::lemma_multiset_commutative(prev.subrange(0, p), seq![x]);
        vstd::seq_lib::lemma_multiset_commutative(prev.subrange(0, p), prev.subrange(p, prev.len() as int));
        assert(s =~= d.push(x));
        assert(out.to_multiset() =~= s.to_multiset()) by {
            vstd::seq_lib::lemma_multiset_commutative(d, seq![x]);
            assert(d + seq![x] =~= s);
        }
        // in order
        assert forall|i: int, j: int| 0 <= i < j < out.len() implies mailbox_order(keys, #[trigger] out[i], #[trigger] out[j]) != Precedence::After by {
            if j < p {
                assert(out[i] == prev[i] && out[j] == prev[j]);
            } else if j == p {
                assert(out[i] == prev[i] && out[j] == x);
            } else if i == p {
                assert(out[i] == x && out[j] == prev[j - 1]);
                lemma_order_props(keys, prev[p], x, prev[j - 1]);
                lemma_order_props(keys, x, prev[p], prev[j - 1]);
                if j - 1 > p {
                    assert(mailbox_order(keys, prev[p], prev[j - 1]) != Precedence::After);
                }
            } else if i < p {
                assert(out[i] == prev[i] && out[j] == prev[j - 1]);
            } else {
                assert(out[i] == prev[i - 1] && out[j] == prev[j - 1]);
            }
        }
        // a list in order stays
        if in_sort_order(s, keys) {
            assert(in_sort_order(d, keys)) by {
                assert forall|i: int, j: int| 0 <= i < j < d.len() implies mailbox_order(keys, #[trigger] d[i], #[trigger] d[j]) != Precedence::After by {
                    assert(d[i] == s[i] && d[j] == s[j]);
                }
            }
            assert(prev == d);
            assert(forall|k: int| 0 <= k < d.len() ==> mailbox_order(keys, #[trigger] d[k], x) != Precedence::After) by {
                assert forall|k: int| 0 <= k < d.len() implies mailbox_order(keys, #[trigger] d[k], x) != Precedence::After by {
                    assert(d[k] == s[k] && x == s[s.len() - 1]);
                }
            }
            lemma_first_after(prev, x, keys, prev.len() as int);
            assert(out =~= s);
        }
    }
}

/// For ASCII names, the role a name suggests does not depend on case:
/// names equal but for ASCII case suggest the same role.
pub proof fn law_role_ignores_ascii_case(a: Seq<char>, b: Seq<char>)
    requires
        crate::auth::eq_ignore_ascii_case(a, b),
    ensures
        role_of_lower_name(ascii_lowercase_text(a)) == role_of_lower_name(ascii_lowercase_text(b)),
{
    assert(ascii_lowercase_text(a) =~= ascii_lowercase_text(b));
}

proof fn lemma_one_key_in_order(s: Seq<MailboxView>, k: (Seq<char>, bool))
    ensures
        forall|i: int, j: int|
            0 <= i < j < sorted_mailboxes(s, seq![k]).len() ==> key_order(
                k,
                #[trigger] sorted_mailboxes(s, seq![k])[i],
                #[trigger] sorted_mailboxes(s, seq![k])[j],
            ) != Precedence::After,
{
    law_mailbox_sort_is_stable_sort(s, seq![k]);
    let out = sorted_mailboxes(s, seq![k]);
    assert forall|i: int, j: int| 0 <= i < j < out.len() implies key_order(k, #[trigger] out[i], #[trigger] out[j])
        != Precedence::After by {
        assert(mailbox_order(seq![k], out[i], out[j]) != Precedence::After);
        assert(seq![k].drop_first() =~= Seq::<(Seq<char>, bool)>::empty());
        assert(mailbox_order(Seq::<(Seq<char>, bool)>::empty(), out[i], out[j]) == Precedence::Same);
    }
}

/// Sorting by one count property puts the mailboxes in the order of that
/// count, and of no other: ascending gives counts that never go down,
/// descending counts that never go up. The same holds of `sortOrder`.
pub proof fn law_sort_by_count(s: Seq<MailboxView>, asc: bool)
    ensures
        ({
            let out = sorted_mailboxes(s, seq![("unreadEmails"@, asc)]);
            forall|i: int, j: int|
                0 <= i < j < out.len() ==> if asc {
                    #[trigger] out[i].unread_emails <= #[trigger] out[j].unread_emails
                } else {
                    out[i].unread_emails >= out[j].unread_emails
                }
        }),
        ({
            let out = sorted_mailboxes(s, seq![("totalEmails"@, asc)]);
            forall|i: int, j: int|
                0 <= i < j < out.len() ==> if asc {
                    #[trigger] out[i].total_emails <= #[trigger] out[j].total_emails
                } else {
                    out[i].total_emails >= out[j].total_emails
                }
        }),
        ({
            let out = sorted_mailboxes(s, seq![("unreadThreads"@, asc)]);
            forall|i: int, j: int|
                0 <= i < j < out.len() ==> if asc {
                    #[trigger] out[i].unread_threads <= #[trigger] out[j].unread_threads
                } else {
                    out[i].unread_threads >= out[j].unread_threads
                }
        }),
        ({
            let out = sorted_mailboxes(s, seq![("totalThreads"@, asc)]);
            forall|i: int, j: int|
                0 <= i < j < out.len() ==> if asc {
                    #[trigger] out[i].total_threads <= #[trigger] out[j].total_threads
                } else {
                    out[i].total_threads >= out[j].total_threads
                }
        }),
        ({
            let out = sorted_mailboxes(s, seq![("sortOrder"@, asc)]);
            forall|i: int, j: int|
                0 <= i < j < out.len() ==> if asc {
                    #[trigger] out[i].sort_order <= #[trigger] out[j].sort_order
                } else {
                    out[i].sort_order >= out[j].sort_order
                }
        }),
{
    reveal_strlit("unreadEmails");
    reveal_strlit("totalEmails");
    reveal_strlit("unreadThreads");
    reveal_strlit("totalThreads");
    reveal_strlit("sortOrder");
    reveal_strlit("name");
    lemma_one_key_in_order(s, ("unreadEmails"@, asc));
    lemma_one_key_in_order(s, ("totalEmails"@, asc));
    lemma_one_key_in_order(s, ("unreadThreads"@, asc));
    lemma_one_key_in_order(s, ("totalThreads"@, asc));
    lemma_one_key_in_order(s, ("sortOrder"@, asc));
    assert("unreadEmails"@ != "sortOrder"@ && "unreadEmails"@ != "name"@ && "unreadEmails"@ != "totalEmails"@) by {
        assert("unreadEmails"@[0] != "sortOrder"@[0]);
        assert("unreadEmails"@.len() != "name"@.len());
        assert("unreadEmails"@[0] != "totalEmails"@[0]);
    }
    assert("totalEmails"@ != "sortOrder"@ && "totalEmails"@ != "name"@) by {
        assert("totalEmails"@[0] != "sortOrder"@[0]);
        assert("totalEmails"@[0] != "name"@[0]);
    }
    assert("unreadThreads"@ != "sortOrder"@ && "unreadThreads"@ != "name"@ && "unreadThreads"@ != "totalEmails"@
        && "unreadThreads"@ != "unreadEmails"@ && "unreadThreads"@ != "totalThreads"@) by {
        assert("unreadThreads"@[0] != "totalThreads"@[0]);
        assert("unreadThreads"@[0] != "sortOrder"@[0]);
        assert("unreadThreads"@[0] != "name"@[0]);
        assert("unreadThreads"@[0] != "totalEmails"@[0]);
        assert("unreadThreads"@[6] != "unreadEmails"@[6]);
    }
    assert("totalThreads"@ != "sortOrder"@ && "totalThreads"@ != "name"@ && "totalThreads"@ != "totalEmails"@
        && "totalThreads"@ != "unreadEmails"@) by {
        assert("totalThreads"@[0] != "sortOrder"@[0]);
        assert("totalThreads"@[0] != "name"@[0]);
        assert("totalThreads"@[5] != "totalEmails"@[5]);
        assert("totalThreads"@[0] != "unreadEmails"@[0]);
    }
}

/// Names compare character by character: a name that is a proper prefix
/// of another comes before it, the first differing character decides,
/// and only equal names compare the same.
pub proof fn law_name_order(a: Seq<char>, b: Seq<char>, i: int)
    ensures
        a.len() < b.len() && b.take(a.len() as int) == a ==> chars_order(a, b) == Precedence::Before,
        0 <= i < a.len() && i < b.len() && a.take(i) == b.take(i) && (a[i] as u32) < (b[i] as u32) ==> chars_order(a, b)
            == Precedence::Before,
        0 <= i < a.len() && i < b.len() && a.take(i) == b.take(i) && (a[i] as u32) > (b[i] as u32) ==> chars_order(a, b)
            == Precedence::After,
        chars_order(a, b) == Precedence::Same <==> a == b,
    decreases a.len(),
{
    lemma_chars_flip(a, b);
    if chars_order(a, b) == Precedence::Same {
        lemma_chars_same(a, b);
    }
    if a == b {
        lemma_chars_refl(a);
    }
    if a.len() > 0 && b.len() > 0 {
        if a.len() < b.len() && b.take(a.len() as int) == a {
            assert(b[0] == b.take(a.len() as int)[0]);
            assert(b.drop_first().take(a.drop_first().len() as int) =~= a.drop_first()) by {
                assert forall|k: int| 0 <= k < a.drop_first().len() implies #[trigger] b.drop_first().take(a.drop_first().len() as int)[k]
                    == a.drop_first()[k] by {
                    assert(b[k + 1] == b.take(a.len() as int)[k + 1]);
                }
            }
        }
        if 0 < i < a.len() && i < b.len() && a.take(i) == b.take(i) {
            assert(a[0] == a.take(i)[0] && b[0] == b.take(i)[0]);
            assert(a.drop_first().take(i - 1) =~= b.drop_first().take(i - 1)) by {
                assert forall|k: int| 0 <= k < i - 1 implies #[trigger] a.drop_first().take(i - 1)[k] == b.drop_first().take(i - 1)[k] by {
                    assert(a[k + 1] == a.take(i)[k + 1] && b[k + 1] == b.take(i)[k + 1]);
                }
            }
            assert(a.drop_first()[i - 1] == a[i] && b.drop_first()[i - 1] == b[i]);
        }
        law_name_order(a.drop_first(), b.drop_first(), i - 1);
    } else if a.len() == 0 && b.len() > 0 {
    }
}

proof fn lemma_chars_refl(a: Seq<char>)
    ensures
        chars_order(a, a) == Precedence::Same,
    decreases a.len(),
{
    if a.len() > 0 {
        lemma_chars_refl(a.drop_first());
    }
}

/// Under several keys, the first key that tells two mailboxes apart
/// decides their order; with no key left they compare the same.
pub proof fn law_first_key_decides(keys: Seq<(Seq<char>, bool)>, a: MailboxView, b: MailboxView)
    ensures
        keys.len() == 0 ==> mailbox_order(keys, a, b) == Precedence::Same,
        keys.len() > 0 && key_order(keys[0], a, b) != Precedence::Same ==> mailbox_order(keys, a, b) == key_order(keys[0], a, b),
        keys.len() > 0 && key_order(keys[0], a, b) == Precedence::Same ==> mailbox_order(keys, a, b) == mailbox_order(
            keys.drop_first(),
            a,
            b,
        ),
{
}

/// A comparator sorts by its property, ascending unless it says
/// `isAscending: false`.
pub proof fn law_sort_keys(c: Seq<MailboxSort>)
    ensures
        sort_keys(c).len() == c.len(),
        forall|i: int| 0 <= i < c.len() ==> #[trigger] sort_keys(c)[i] == (c[i].property@, c[i].is_ascending != Some(false)),
{
}

/// Sorting by name puts names in character order: ascending never puts a
/// name after a later one, descending never before.
pub proof fn law_sort_by_name(s: Seq<MailboxView>, asc: bool)
    ensures
        ({
            let out = sorted_mailboxes(s, seq![("name"@, asc)]);
            forall|i: int, j: int|
                0 <= i < j < out.len() ==> chars_order(#[trigger] out[i].name, #[trigger] out[j].name) != (if asc {
                    Precedence::After
                } else {
                    Precedence::Before
                })
        }),
{
    reveal_strlit("name");
    reveal_strlit("sortOrder");
    lemma_one_key_in_order(s, ("name"@, asc));
    assert("name"@ != "sortOrder"@) by {
        assert("name"@.len() != "sortOrder"@.len());
    }
}

} // verus!
