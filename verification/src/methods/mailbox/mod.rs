//! Mailbox methods (RFC 8621 §2): `Mailbox/get`, `Mailbox/set`,
//! `Mailbox/query`, `Mailbox/changes` and `Mailbox/queryChanges`, over the
//! mailboxes every account starts with.
use vstd::prelude::*;

pub mod mailbox_types;

pub use mailbox_types::{
    AddedItem, Mailbox, MailboxChangesRequest, MailboxChangesResponse, MailboxFilterCondition,
    MailboxGetRequest, MailboxGetResponse, MailboxObject, MailboxQueryChangesRequest,
    MailboxQueryChangesResponse, MailboxQueryRequest, MailboxQueryResponse, MailboxRights,
    MailboxRole, MailboxSetRequest, MailboxSetResponse, MailboxSort,
};

use crate::json::{as_u64, get_member, jm, jm_entries, json_as_u64, member, JModel, JsonValue};
use crate::maps::{
    answered_as, lemma_pairs_view_len, nonempty, nonempty_vec, opt_pairs_view, opt_strings_view, pairs_view, vcontains, vget, vlookup, vput, vput_exec, vremove,
    vremove_exec,
};
use crate::outside::{lowercase, new_uuid_string, now_timestamp};
use crate::text::{decimal, parse_u64, parse_u64_spec, str_eq, string_from, strings_view, u64_to_decimal};
use crate::types::{JmapSetError, SetErrorView};
use mailbox_types::{
    all_rights, clone_opt_string, default_mailboxes, generate_state, get_default_mailboxes,
    is_special_use_id, is_special_use_mailbox, name_problem, role_of_lower_name,
    apply_mailbox_filter, apply_mailbox_sort, mailboxes_view, opt_str, passes_filter, sort_keys,
    sorted_mailboxes, validate_mailbox_name, would_create_cycle, creates_cycle, MailboxObjectView, MailboxView,
};

verus! {

// ── Mailbox/set ─────────────────────────────────────────────────────────────

/// How far a `Mailbox/set` call has got: the account's mailboxes and the
/// outcome of every operation so far.
pub struct SetProgress {
    pub current: Seq<(Seq<char>, MailboxView)>,
    pub created: Seq<(Seq<char>, MailboxView)>,
    pub not_created: Seq<(Seq<char>, SetErrorView)>,
    pub updated: Seq<(Seq<char>, MailboxView)>,
    pub not_updated: Seq<(Seq<char>, SetErrorView)>,
    pub destroyed: Seq<Seq<char>>,
    pub not_destroyed: Seq<(Seq<char>, SetErrorView)>,
}

/// A `/set` error with a description.
pub open spec fn set_error(t: Seq<char>, d: Seq<char>) -> SetErrorView {
    SetErrorView { error_type: t, description: Some(d) }
}

/// The mailbox that a successful create makes: without a role, one is
/// guessed from the name; the sort order defaults to 1000 and the
/// subscription to off.
pub open spec fn created_mailbox(id: Seq<char>, obj: MailboxObjectView) -> MailboxView {
    MailboxView {
        id,
        name: obj.name,
        parent_id: obj.parent_id,
        role: match obj.role {
            Some(r) => Some(r),
            None => role_of_lower_name(lowercase(obj.name)),
        },
        sort_order: match obj.sort_order {
            Some(s) => s,
            None => 1000,
        },
        total_emails: 0,
        unread_emails: 0,
        total_threads: 0,
        unread_threads: 0,
        my_rights: all_rights(),
        is_subscribed: match obj.is_subscribed {
            Some(b) => b,
            None => false,
        },
    }
}

/// One create: the name must be valid and the parent, if any, must exist.
pub open spec fn create_step(p: SetProgress, cid: Seq<char>, obj: MailboxObjectView, new_id: Seq<char>) -> SetProgress {
    match name_problem(obj.name) {
        Some(msg) => SetProgress {
            not_created: vput(p.not_created, cid, set_error("invalidProperties"@, msg)),
            ..p
        },
        None => {
            if obj.parent_id is Some && vget(p.current, obj.parent_id->0) is None {
                SetProgress {
                    not_created: vput(
                        p.not_created,
                        cid,
                        set_error("invalidProperties"@, "Parent mailbox not found"@),
                    ),
                    ..p
                }
            } else {
                let m = created_mailbox(new_id, obj);
                SetProgress { current: vput(p.current, new_id, m), created: vput(p.created, cid, m), ..p }
            }
        },
    }
}

/// The name after a patch: a string `name` member replaces it once checked.
pub open spec fn patched_name(m: MailboxView, patch: JModel) -> Result<Seq<char>, SetErrorView> {
    match member(patch, "name"@) {
        Some(JModel::Str(n)) => match name_problem(n) {
            Some(msg) => Err(set_error("invalidProperties"@, msg)),
            None => Ok(n),
        },
        _ => Ok(m.name),
    }
}

/// The parent after a patch: `null` clears it, a string sets it, and a
/// mailbox cannot be made its own parent.
pub open spec fn patched_parent(
    m: MailboxView,
    id: Seq<char>,
    patch: JModel,
    current: Seq<(Seq<char>, MailboxView)>,
) -> Result<Option<Seq<char>>, SetErrorView> {
    match member(patch, "parentId"@) {
        Some(JModel::Null) => Ok(None),
        Some(JModel::Str(pid)) => if creates_cycle(pid, id, current) {
            Err(set_error("invalidProperties"@, "Would create circular hierarchy"@))
        } else {
            Ok(Some(pid))
        },
        _ => Ok(m.parent_id),
    }
}

/// The sort order after a patch: a non-negative integer, kept to its low
/// 32 bits.
pub open spec fn patched_sort_order(m: MailboxView, patch: JModel) -> u32 {
    match member(patch, "sortOrder"@) {
        Some(v) => match json_as_u64(v) {
            Some(u) => u as u32,
            None => m.sort_order,
        },
        None => m.sort_order,
    }
}

/// The subscription after a patch.
pub open spec fn patched_subscribed(m: MailboxView, patch: JModel) -> bool {
    match member(patch, "isSubscribed"@) {
        Some(JModel::Bool(b)) => b,
        _ => m.is_subscribed,
    }
}

/// A mailbox after a patch of `name`, `parentId`, `sortOrder` and
/// `isSubscribed`; other members, and members of the wrong type, are
/// ignored.
pub open spec fn patched_mailbox(
    m: MailboxView,
    id: Seq<char>,
    patch: JModel,
    current: Seq<(Seq<char>, MailboxView)>,
) -> Result<MailboxView, SetErrorView> {
    match patched_name(m, patch) {
        Err(e) => Err(e),
        Ok(name) => match patched_parent(m, id, patch, current) {
            Err(e) => Err(e),
            Ok(parent_id) => Ok(
                MailboxView {
                    name,
                    parent_id,
                    sort_order: patched_sort_order(m, patch),
                    is_subscribed: patched_subscribed(m, patch),
                    ..m
                },
            ),
        },
    }
}

/// One update of the mailbox `id`.
pub open spec fn update_step(p: SetProgress, id: Seq<char>, patch: JModel) -> SetProgress {
    match vget(p.current, id) {
        None => SetProgress {
            not_updated: vput(p.not_updated, id, set_error("notFound"@, "Mailbox not found"@)),
            ..p
        },
        Some(m) => match patched_mailbox(m, id, patch, p.current) {
            Err(e) => SetProgress { not_updated: vput(p.not_updated, id, e), ..p },
            Ok(m2) => SetProgress { current: vput(p.current, id, m2), updated: vput(p.updated, id, m2), ..p },
        },
    }
}

/// Whether some mailbox has `id` as its parent.
pub open spec fn has_child_of(current: Seq<(Seq<char>, MailboxView)>, id: Seq<char>) -> bool {
    exists|i: int| 0 <= i < current.len() && (#[trigger] current[i]).1.parent_id == Some(id)
}

/// One destroy: special-use mailboxes and mailboxes with children stay.
pub open spec fn destroy_step(p: SetProgress, id: Seq<char>) -> SetProgress {
    if is_special_use_id(id) {
        SetProgress {
            not_destroyed: vput(p.not_destroyed, id, set_error("forbidden"@, "Cannot delete special-use mailbox"@)),
            ..p
        }
    } else if vget(p.current, id) is Some {
        if has_child_of(p.current, id) {
            SetProgress {
                not_destroyed: vput(
                    p.not_destroyed,
                    id,
                    set_error("mailboxHasChild"@, "Cannot delete mailbox with children"@),
                ),
                ..p
            }
        } else {
            SetProgress { current: vremove(p.current, id), destroyed: p.destroyed.push(id), ..p }
        }
    } else {
        SetProgress {
            not_destroyed: vput(p.not_destroyed, id, set_error("notFound"@, "Mailbox not found"@)),
            ..p
        }
    }
}

/// The creates in order; the `i`-th is given the id `ids[i]`.
pub open spec fn creates_fold(p: SetProgress, creates: Seq<(Seq<char>, MailboxObjectView)>, ids: Seq<Seq<char>>) -> SetProgress
    decreases creates.len(),
{
    if creates.len() == 0 {
        p
    } else {
        let n = creates.len() - 1;
        create_step(creates_fold(p, creates.drop_last(), ids), creates[n].0, creates[n].1, ids[n])
    }
}

/// The updates in order.
pub open spec fn updates_fold(p: SetProgress, updates: Seq<(Seq<char>, JModel)>) -> SetProgress
    decreases updates.len(),
{
    if updates.len() == 0 {
        p
    } else {
        update_step(updates_fold(p, updates.drop_last()), updates.last().0, updates.last().1)
    }
}

/// The destroys in order.
pub open spec fn destroys_fold(p: SetProgress, ids: Seq<Seq<char>>) -> SetProgress
    decreases ids.len(),
{
    if ids.len() == 0 {
        p
    } else {
        destroy_step(destroys_fold(p, ids.drop_last()), ids.last())
    }
}

/// The creates of a request.
pub open spec fn set_creates(req: MailboxSetRequest) -> Seq<(Seq<char>, MailboxObjectView)> {
    match req.create {
        Some(v) => pairs_view(v@),
        None => seq![],
    }
}

/// The updates of a request.
pub open spec fn set_updates(req: MailboxSetRequest) -> Seq<(Seq<char>, JModel)> {
    match req.update {
        Some(v) => jm_entries(v@),
        None => seq![],
    }
}

/// The destroys of a request.
pub open spec fn set_destroys(req: MailboxSetRequest) -> Seq<Seq<char>> {
    match req.destroy {
        Some(v) => strings_view(v@),
        None => seq![],
    }
}

/// Nothing done yet, over the default mailboxes.
pub open spec fn initial_progress() -> SetProgress {
    SetProgress {
        current: default_mailboxes(),
        created: seq![],
        not_created: seq![],
        updated: seq![],
        not_updated: seq![],
        destroyed: seq![],
        not_destroyed: seq![],
    }
}

/// Creates first, then updates, then destroys.
pub open spec fn mailbox_set_progress(req: MailboxSetRequest, ids: Seq<Seq<char>>) -> SetProgress {
    destroys_fold(updates_fold(creates_fold(initial_progress(), set_creates(req), ids), set_updates(req)), set_destroys(req))
}

/// The content of an optional mailbox.
pub open spec fn opt_mailbox_view(o: Option<Mailbox>) -> Option<MailboxView> {
    match o {
        Some(m) => Some(m@),
        None => None,
    }
}

/// The contents of the `updated` map.
pub open spec fn updated_view(s: Seq<(String, Option<Mailbox>)>) -> Seq<(Seq<char>, Option<MailboxView>)> {
    s.map_values(|p: (String, Option<Mailbox>)| (p.0@, opt_mailbox_view(p.1)))
}

/// Every value wrapped in `Some`.
pub open spec fn wrap_some(s: Seq<(Seq<char>, MailboxView)>) -> Seq<(Seq<char>, Option<MailboxView>)> {
    s.map_values(|p: (Seq<char>, MailboxView)| (p.0, Some(p.1)))
}

/// The outcome maps of a `Mailbox/set` response match `P`.
pub open spec fn set_response_matches(r: MailboxSetResponse, req: MailboxSetRequest, ids: Seq<Seq<char>>) -> bool {
    let p = mailbox_set_progress(req, ids);
    &&& r.account_id@ == req.account_id@
    &&& opt_pairs_view(r.created) == nonempty(p.created)
    &&& (match r.updated {
        Some(v) => Some(updated_view(v@)),
        None => None,
    }) == nonempty(wrap_some(p.updated))
    &&& opt_strings_view(r.destroyed) == nonempty(p.destroyed)
    &&& opt_pairs_view(r.not_created) == nonempty(p.not_created)
    &&& opt_pairs_view(r.not_updated) == nonempty(p.not_updated)
    &&& opt_pairs_view(r.not_destroyed) == nonempty(p.not_destroyed)
}

/// The working state of a `Mailbox/set` call.
struct SetWork {
    current: Vec<(String, Mailbox)>,
    created: Vec<(String, Mailbox)>,
    not_created: Vec<(String, JmapSetError)>,
    updated: Vec<(String, Mailbox)>,
    not_updated: Vec<(String, JmapSetError)>,
    destroyed: Vec<String>,
    not_destroyed: Vec<(String, JmapSetError)>,
}

impl SetWork {
    spec fn progress(&self) -> SetProgress {
        SetProgress {
            current: pairs_view(self.current@),
            created: pairs_view(self.created@),
            not_created: pairs_view(self.not_created@),
            updated: pairs_view(self.updated@),
            not_updated: pairs_view(self.not_updated@),
            destroyed: strings_view(self.destroyed@),
            not_destroyed: pairs_view(self.not_destroyed@),
        }
    }
}

/// An `invalidProperties` error with the given description.
fn invalid_properties(description: String) -> (r: JmapSetError)
    ensures
        r@ == set_error("invalidProperties"@, description@),
{
    JmapSetError { error_type: string_from("invalidProperties"), description: Some(description) }
}

fn apply_create(w: SetWork, cid: &String, obj: &MailboxObject, new_id: &String) -> (r: SetWork)
    ensures
        r.progress() == create_step(w.progress(), cid@, obj@, new_id@),
{
    let SetWork { mut current, mut created, mut not_created, updated, not_updated, destroyed, not_destroyed } = w;
    match validate_mailbox_name(obj.name.as_str()) {
        Err(msg) => {
            vput_exec(&mut not_created, cid.clone(), invalid_properties(msg));
            return SetWork { current, created, not_created, updated, not_updated, destroyed, not_destroyed };
        },
        Ok(()) => {},
    }
    if let Some(parent) = &obj.parent_id {
        if !vcontains(&current, parent.as_str()) {
            vput_exec(
                &mut not_created,
                cid.clone(),
                JmapSetError::new("invalidProperties", "Parent mailbox not found"),
            );
            return SetWork { current, created, not_created, updated, not_updated, destroyed, not_destroyed };
        }
    }
    let role = match obj.role {
        Some(r) => Some(r),
        None => MailboxRole::detect_from_name(obj.name.as_str()),
    };
    let m = Mailbox {
        id: new_id.clone(),
        name: obj.name.clone(),
        parent_id: clone_opt_string(&obj.parent_id),
        role,
        sort_order: match obj.sort_order {
            Some(s) => s,
            None => 1000,
        },
        total_emails: 0,
        unread_emails: 0,
        total_threads: 0,
        unread_threads: 0,
        my_rights: MailboxRights::default(),
        is_subscribed: match obj.is_subscribed {
            Some(b) => b,
            None => false,
        },
    };
    assert(m@ == created_mailbox(new_id@, obj@));
    vput_exec(&mut current, new_id.clone(), m.duplicate());
    vput_exec(&mut created, cid.clone(), m);
    SetWork { current, created, not_created, updated, not_updated, destroyed, not_destroyed }
}

fn patch_name(m: &Mailbox, patch: &JsonValue) -> (r: Result<String, JmapSetError>)
    ensures
        match r {
            Ok(x) => patched_name(m@, jm(*patch)) == Ok::<Seq<char>, SetErrorView>(x@),
            Err(e) => patched_name(m@, jm(*patch)) == Err::<Seq<char>, SetErrorView>(e@),
        },
{
    match get_member(patch, "name") {
        Some(JsonValue::Str(n)) => match validate_mailbox_name(n.as_str()) {
            Err(msg) => Err(invalid_properties(msg)),
            Ok(()) => Ok(n.clone()),
        },
        _ => Ok(m.name.clone()),
    }
}

fn patch_parent(m: &Mailbox, id: &str, patch: &JsonValue, current: &Vec<(String, Mailbox)>) -> (r: Result<Option<String>, JmapSetError>)
    ensures
        match r {
            Ok(x) => patched_parent(m@, id@, jm(*patch), pairs_view(current@)) == Ok::<Option<Seq<char>>, SetErrorView>(opt_str(x)),
            Err(e) => patched_parent(m@, id@, jm(*patch), pairs_view(current@)) == Err::<Option<Seq<char>>, SetErrorView>(e@),
        },
{
    match get_member(patch, "parentId") {
        Some(JsonValue::Null) => Ok(None),
        Some(JsonValue::Str(p)) => {
            if would_create_cycle(p.as_str(), id, current) {
                Err(JmapSetError::new("invalidProperties", "Would create circular hierarchy"))
            } else {
                Ok(Some(p.clone()))
            }
        },
        _ => Ok(clone_opt_string(&m.parent_id)),
    }
}

fn patch_sort_order(m: &Mailbox, patch: &JsonValue) -> (r: u32)
    ensures
        r == patched_sort_order(m@, jm(*patch)),
{
    match get_member(patch, "sortOrder") {
        Some(v) => match as_u64(v) {
            Some(u) => u as u32,
            None => m.sort_order,
        },
        None => m.sort_order,
    }
}

fn patch_subscribed(m: &Mailbox, patch: &JsonValue) -> (r: bool)
    ensures
        r == patched_subscribed(m@, jm(*patch)),
{
    match get_member(patch, "isSubscribed") {
        Some(JsonValue::Bool(b)) => *b,
        _ => m.is_subscribed,
    }
}

fn patch_mailbox(m: Mailbox, id: &str, patch: &JsonValue, current: &Vec<(String, Mailbox)>) -> (r: Result<Mailbox, JmapSetError>)
    ensures
        match r {
            Ok(x) => patched_mailbox(m@, id@, jm(*patch), pairs_view(current@)) == Ok::<MailboxView, SetErrorView>(x@),
            Err(e) => patched_mailbox(m@, id@, jm(*patch), pairs_view(current@)) == Err::<MailboxView, SetErrorView>(e@),
        },
{
    let name = match patch_name(&m, patch) {
        Err(e) => {
            return Err(e);
        },
        Ok(n) => n,
    };
    let parent_id = match patch_parent(&m, id, patch, current) {
        Err(e) => {
            return Err(e);
        },
        Ok(p) => p,
    };
    let sort_order = patch_sort_order(&m, patch);
    let is_subscribed = patch_subscribed(&m, patch);
    Ok(Mailbox { name, parent_id, sort_order, is_subscribed, ..m })
}

fn apply_update(w: SetWork, id: &String, patch: &JsonValue) -> (r: SetWork)
    ensures
        r.progress() == update_step(w.progress(), id@, jm(*patch)),
{
    let SetWork { mut current, created, not_created, mut updated, mut not_updated, destroyed, not_destroyed } = w;
    let found = match vlookup(&current, id.as_str()) {
        Some(m) => Some(m.duplicate()),
        None => None,
    };
    match found {
        None => {
            vput_exec(&mut not_updated, id.clone(), JmapSetError::new("notFound", "Mailbox not found"));
        },
        Some(m) => match patch_mailbox(m, id.as_str(), patch, &current) {
            Err(e) => {
                vput_exec(&mut not_updated, id.clone(), e);
            },
            Ok(m2) => {
                vput_exec(&mut current, id.clone(), m2.duplicate());
                vput_exec(&mut updated, id.clone(), m2);
            },
        },
    }
    SetWork { current, created, not_created, updated, not_updated, destroyed, not_destroyed }
}

/// Whether some mailbox has `id` as its parent.
fn has_child(current: &Vec<(String, Mailbox)>, id: &str) -> (r: bool)
    ensures
        r == has_child_of(pairs_view(current@), id@),
{
    proof {
        lemma_pairs_view_len(current@);
    }
    let mut i: usize = 0;
    while i < current.len()
        invariant
            i <= current.len(),
            pairs_view(current@).len() == current@.len(),
            forall|j: int| 0 <= j < current@.len() ==> #[trigger] pairs_view(current@)[j] == (current@[j].0@, current@[j].1@),
            forall|j: int| 0 <= j < i ==> pairs_view(current@)[j].1.parent_id != Some(id@),
        decreases current.len() - i,
    {
        assert(pairs_view(current@)[i as int] == (current@[i as int].0@, current@[i as int].1@));
        match &current[i].1.parent_id {
            Some(p) => {
                if str_eq(p.as_str(), id) {
                    assert(pairs_view(current@)[i as int].1.parent_id == Some(id@));
                    return true;
                }
            },
            None => {},
        }
        i = i + 1;
    }
    proof {
        assert forall|j: int| 0 <= j < pairs_view(current@).len() implies (#[trigger] pairs_view(current@)[j]).1.parent_id != Some(id@) by {}
    }
    false
}

fn apply_destroy(w: SetWork, id: &String) -> (r: SetWork)
    ensures
        r.progress() == destroy_step(w.progress(), id@),
{
    let SetWork { current, created, not_created, updated, not_updated, mut destroyed, mut not_destroyed } = w;
    if is_special_use_mailbox(id.as_str()) {
        vput_exec(
            &mut not_destroyed,
            id.clone(),
            JmapSetError::new("forbidden", "Cannot delete special-use mailbox"),
        );
        return SetWork { current, created, not_created, updated, not_updated, destroyed, not_destroyed };
    }
    if vcontains(&current, id.as_str()) {
        if has_child(&current, id.as_str()) {
            vput_exec(
                &mut not_destroyed,
                id.clone(),
                JmapSetError::new("mailboxHasChild", "Cannot delete mailbox with children"),
            );
            return SetWork { current, created, not_created, updated, not_updated, destroyed, not_destroyed };
        }
        let current = vremove_exec(current, id.as_str());
        let ghost before = destroyed@;
        destroyed.push(id.clone());
        proof {
            assert(strings_view(destroyed@) =~= strings_view(before).push(id@));
        }
        SetWork { current, created, not_created, updated, not_updated, destroyed, not_destroyed }
    } else {
        vput_exec(&mut not_destroyed, id.clone(), JmapSetError::new("notFound", "Mailbox not found"));
        SetWork { current, created, not_created, updated, not_updated, destroyed, not_destroyed }
    }
}

/// The `updated` map of a response: every mailbox wrapped in `Some`.
fn wrap_updated(v: &Vec<(String, Mailbox)>) -> (r: Vec<(String, Option<Mailbox>)>)
    ensures
        updated_view(r@) == wrap_some(pairs_view(v@)),
{
    proof {
        lemma_pairs_view_len(v@);
    }
    let mut out: Vec<(String, Option<Mailbox>)> = Vec::new();
    let mut i: usize = 0;
    while i < v.len()
        invariant
            i <= v.len(),
            out@.len() == i,
            forall|j: int| 0 <= j < i ==> (#[trigger] out@[j]).0@ == v@[j].0@ && opt_mailbox_view(out@[j].1) == Some(v@[j].1@),
        decreases v.len() - i,
    {
        out.push((v[i].0.clone(), Some(v[i].1.duplicate())));
        i = i + 1;
    }
    proof {
        assert(updated_view(out@) =~= wrap_some(pairs_view(v@)));
    }
    out
}

/// `Mailbox/set` over the default mailboxes, with the id given to each
/// create (`new_ids[i]` for the `i`-th) and the state tokens given.
pub fn mailbox_set_with(request: MailboxSetRequest, new_ids: &Vec<String>, old_state: String, new_state: String) -> (r: MailboxSetResponse)
    requires
        new_ids@.len() >= set_creates(request).len(),
    ensures
        set_response_matches(r, request, strings_view(new_ids@)),
        r.old_state == old_state,
        r.new_state == new_state,
{
    let ghost req = request;
    let ghost ids = strings_view(new_ids@);
    let mut w = SetWork {
        current: get_default_mailboxes(),
        created: Vec::new(),
        not_created: Vec::new(),
        updated: Vec::new(),
        not_updated: Vec::new(),
        destroyed: Vec::new(),
        not_destroyed: Vec::new(),
    };
    proof {
        assert(pairs_view(w.created@) =~= Seq::<(Seq<char>, MailboxView)>::empty());
        assert(pairs_view(w.updated@) =~= Seq::<(Seq<char>, MailboxView)>::empty());
        assert(pairs_view(w.not_created@) =~= Seq::<(Seq<char>, SetErrorView)>::empty());
        assert(pairs_view(w.not_updated@) =~= Seq::<(Seq<char>, SetErrorView)>::empty());
        assert(pairs_view(w.not_destroyed@) =~= Seq::<(Seq<char>, SetErrorView)>::empty());
        assert(strings_view(w.destroyed@) =~= Seq::<Seq<char>>::empty());
        assert(w.progress() == initial_progress());
    }
    if let Some(creates) = &request.create {
        let ghost cv = pairs_view(creates@);
        proof {
            lemma_pairs_view_len(creates@);
            assert(cv.take(0) =~= Seq::<(Seq<char>, MailboxObjectView)>::empty());
        }
        let mut i: usize = 0;
        while i < creates.len()
            invariant
                i <= creates.len(),
                cv == pairs_view(creates@),
                cv.len() == creates@.len(),
                forall|j: int| 0 <= j < creates@.len() ==> #[trigger] cv[j] == (creates@[j].0@, creates@[j].1@),
                new_ids@.len() >= creates@.len(),
                ids == strings_view(new_ids@),
                w.progress() == creates_fold(initial_progress(), cv.take(i as int), ids),
            decreases creates.len() - i,
        {
            proof {
                assert(cv.take(i + 1).drop_last() =~= cv.take(i as int));
                assert(cv.take(i + 1)[i as int] == cv[i as int]);
                assert(ids[i as int] == new_ids@[i as int]@);
            }
            w = apply_create(w, &creates[i].0, &creates[i].1, &new_ids[i]);
            i = i + 1;
        }
        proof {
            assert(cv.take(creates@.len() as int) =~= cv);
        }
    }
    let ghost after_creates = w.progress();
    assert(after_creates == creates_fold(initial_progress(), set_creates(req), ids));
    if let Some(updates) = &request.update {
        let ghost uv = jm_entries(updates@);
        proof {
            crate::json::lemma_jm_entries(updates@);
            assert(uv.take(0) =~= Seq::<(Seq<char>, JModel)>::empty());
        }
        let mut i: usize = 0;
        while i < updates.len()
            invariant
                i <= updates.len(),
                uv == jm_entries(updates@),
                uv.len() == updates@.len(),
                forall|j: int| 0 <= j < updates@.len() ==> #[trigger] uv[j] == (updates@[j].0@, jm(updates@[j].1)),
                w.progress() == updates_fold(after_creates, uv.take(i as int)),
            decreases updates.len() - i,
        {
            proof {
                assert(uv.take(i + 1).drop_last() =~= uv.take(i as int));
                assert(uv.take(i + 1).last() == uv[i as int]);
            }
            w = apply_update(w, &updates[i].0, &updates[i].1);
            i = i + 1;
        }
        proof {
            assert(uv.take(updates@.len() as int) =~= uv);
        }
    } else {
        assert(set_updates(req) =~= Seq::<(Seq<char>, JModel)>::empty());
    }
    let ghost after_updates = w.progress();
    assert(after_updates == updates_fold(after_creates, set_updates(req)));
    if let Some(destroys) = &request.destroy {
        let ghost dv = strings_view(destroys@);
        proof {
            assert(dv.take(0) =~= Seq::<Seq<char>>::empty());
        }
        let mut i: usize = 0;
        while i < destroys.len()
            invariant
                i <= destroys.len(),
                dv == strings_view(destroys@),
                w.progress() == destroys_fold(after_updates, dv.take(i as int)),
            decreases destroys.len() - i,
        {
            proof {
                assert(dv.take(i + 1).drop_last() =~= dv.take(i as int));
                assert(dv.take(i + 1).last() == destroys@[i as int]@);
            }
            w = apply_destroy(w, &destroys[i]);
            i = i + 1;
        }
        proof {
            assert(dv.take(destroys@.len() as int) =~= dv);
        }
    } else {
        assert(set_destroys(req) =~= Seq::<Seq<char>>::empty());
    }
    assert(w.progress() == mailbox_set_progress(req, ids));
    let updated = wrap_updated(&w.updated);
    proof {
        lemma_pairs_view_len(w.updated@);
    }
    let r = MailboxSetResponse {
        account_id: request.account_id.clone(),
        old_state,
        new_state,
        created: nonempty_vec(w.created),
        updated: nonempty_vec(updated),
        destroyed: nonempty_vec(w.destroyed),
        not_created: nonempty_vec(w.not_created),
        not_updated: nonempty_vec(w.not_updated),
        not_destroyed: nonempty_vec(w.not_destroyed),
    };
    r
}

/// `Mailbox/set`: every create gets a fresh random id and the state tokens
/// are the current time; the rest is `mailbox_set_with`.
pub fn mailbox_set(request: MailboxSetRequest) -> (r: MailboxSetResponse)
    ensures
        exists|ids: Seq<Seq<char>>|
            ids.len() == set_creates(request).len() && crate::outside::all_uuid_v4(ids) && #[trigger] set_response_matches(
                r,
                request,
                ids,
            ),
        exists|t: i64| r.old_state@ == crate::text::int_decimal(t as int),
        exists|t: i64| r.new_state@ == crate::text::int_decimal(t as int),
{
    let old_state = generate_state();
    let n: usize = match &request.create {
        Some(c) => c.len(),
        None => 0,
    };
    proof {
        if request.create is Some {
            lemma_pairs_view_len(request.create->0@);
        }
    }
    let mut ids: Vec<String> = Vec::new();
    while ids.len() < n
        invariant
            ids@.len() <= n,
            crate::outside::all_uuid_v4(strings_view(ids@)),
        decreases n - ids@.len(),
    {
        let ghost before = strings_view(ids@);
        let u = new_uuid_string();
        let ghost uu = u@;
        ids.push(u);
        assert(strings_view(ids@) =~= before.push(uu));
    }
    let new_state = generate_state();
    let ghost req = request;
    let r = mailbox_set_with(request, &ids, old_state, new_state);
    assert(set_response_matches(r, req, strings_view(ids@)));
    r
}


// ── Mailbox/get ─────────────────────────────────────────────────────────────

/// The ids a `Mailbox/get` call asks for: those given, or every mailbox.
pub open spec fn get_ids(req: MailboxGetRequest) -> Seq<Seq<char>> {
    match req.ids {
        Some(v) => strings_view(v@),
        None => default_mailboxes().map_values(|p: (Seq<char>, MailboxView)| p.0),
    }
}

/// The mailboxes found among `ids`, in order.
pub open spec fn get_found(ids: Seq<Seq<char>>) -> Seq<MailboxView>
    decreases ids.len(),
{
    if ids.len() == 0 {
        seq![]
    } else {
        match vget(default_mailboxes(), ids.last()) {
            Some(m) => get_found(ids.drop_last()).push(m),
            None => get_found(ids.drop_last()),
        }
    }
}

/// The ids among `ids` that name no mailbox, in order.
pub open spec fn get_missing(ids: Seq<Seq<char>>) -> Seq<Seq<char>>
    decreases ids.len(),
{
    if ids.len() == 0 {
        seq![]
    } else {
        match vget(default_mailboxes(), ids.last()) {
            Some(m) => get_missing(ids.drop_last()),
            None => get_missing(ids.drop_last()).push(ids.last()),
        }
    }
}

/// `Mailbox/get`: the requested mailboxes (every property is returned) and
/// the ids that name none; the state is the current time.
pub fn mailbox_get(request: MailboxGetRequest) -> (r: MailboxGetResponse)
    ensures
        r.account_id@ == request.account_id@,
        mailboxes_view(r.list@) == get_found(get_ids(request)),
        strings_view(r.not_found@) == get_missing(get_ids(request)),
        exists|t: i64| r.state@ == crate::text::int_decimal(t as int),
{
    let defaults = get_default_mailboxes();
    proof {
        lemma_pairs_view_len(defaults@);
    }
    let ids: Vec<String> = match &request.ids {
        Some(v) => clone_strings(v),
        None => {
            let mut keys: Vec<String> = Vec::new();
            let mut i: usize = 0;
            while i < defaults.len()
                invariant
                    i <= defaults@.len(),
                    pairs_view(defaults@) == default_mailboxes(),
                    pairs_view(defaults@).len() == defaults@.len(),
                    forall|j: int| 0 <= j < defaults@.len() ==> #[trigger] pairs_view(defaults@)[j] == (defaults@[j].0@, defaults@[j].1@),
                    strings_view(keys@) == default_mailboxes().map_values(|p: (Seq<char>, MailboxView)| p.0).take(i as int),
                decreases defaults.len() - i,
            {
                let ghost before = keys@;
                keys.push(defaults[i].0.clone());
                proof {
                    assert(strings_view(keys@) =~= strings_view(before).push(defaults@[i as int].0@));
                    assert(default_mailboxes().map_values(|p: (Seq<char>, MailboxView)| p.0).take(i + 1) =~= default_mailboxes().map_values(|p: (Seq<char>, MailboxView)| p.0).take(i as int).push(defaults@[i as int].0@));
                }
                i = i + 1;
            }
            proof {
                assert(default_mailboxes().map_values(|p: (Seq<char>, MailboxView)| p.0).take(defaults@.len() as int) =~= default_mailboxes().map_values(|p: (Seq<char>, MailboxView)| p.0));
            }
            keys
        },
    };
    let ghost want = get_ids(request);
    assert(strings_view(ids@) == want);
    let mut list: Vec<Mailbox> = Vec::new();
    let mut not_found: Vec<String> = Vec::new();
    let mut i: usize = 0;
    proof {
        assert(want.take(0) =~= Seq::<Seq<char>>::empty());
        assert(mailboxes_view(list@) =~= Seq::<MailboxView>::empty());
        assert(strings_view(not_found@) =~= Seq::<Seq<char>>::empty());
    }
    while i < ids.len()
        invariant
            i <= ids@.len(),
            want == strings_view(ids@),
            pairs_view(defaults@) == default_mailboxes(),
            mailboxes_view(list@) == get_found(want.take(i as int)),
            strings_view(not_found@) == get_missing(want.take(i as int)),
        decreases ids.len() - i,
    {
        proof {
            assert(want.take(i + 1).drop_last() =~= want.take(i as int));
            assert(want.take(i + 1).last() == ids@[i as int]@);
        }
        match vlookup(&defaults, ids[i].as_str()) {
            Some(m) => {
                let ghost before = list@;
                list.push(m.duplicate());
                proof {
                    assert(mailboxes_view(list@) =~= mailboxes_view(before).push(m@));
                }
            },
            None => {
                let ghost before = not_found@;
                not_found.push(ids[i].clone());
                proof {
                    assert(strings_view(not_found@) =~= strings_view(before).push(ids@[i as int]@));
                }
            },
        }
        i = i + 1;
    }
    proof {
        assert(want.take(ids@.len() as int) =~= want);
    }
    MailboxGetResponse { account_id: request.account_id.clone(), state: generate_state(), list, not_found }
}

/// A copy of a list of strings.
pub fn clone_strings(v: &Vec<String>) -> (r: Vec<String>)
    ensures
        strings_view(r@) == strings_view(v@),
{
    let mut out: Vec<String> = Vec::new();
    let mut i: usize = 0;
    while i < v.len()
        invariant
            i <= v@.len(),
            strings_view(out@) == strings_view(v@).take(i as int),
        decreases v.len() - i,
    {
        let ghost before = out@;
        out.push(v[i].clone());
        proof {
            assert(strings_view(out@) =~= strings_view(before).push(v@[i as int]@));
            assert(strings_view(v@).take(i + 1) =~= strings_view(v@).take(i as int).push(v@[i as int]@));
        }
        i = i + 1;
    }
    proof {
        assert(strings_view(v@).take(v@.len() as int) =~= strings_view(v@));
    }
    out
}

// ── Mailbox/query ───────────────────────────────────────────────────────────

/// Whether a mailbox is kept by an optional filter.
pub open spec fn kept_by(m: MailboxView, filter: Option<MailboxFilterCondition>) -> bool {
    match filter {
        Some(f) => passes_filter(m, f),
        None => true,
    }
}

/// The mailboxes of `s` that an optional filter keeps, in order.
pub open spec fn kept_mailboxes(s: Seq<MailboxView>, filter: Option<MailboxFilterCondition>) -> Seq<MailboxView>
    decreases s.len(),
{
    if s.len() == 0 {
        s
    } else if kept_by(s.last(), filter) {
        kept_mailboxes(s.drop_last(), filter).push(s.last())
    } else {
        kept_mailboxes(s.drop_last(), filter)
    }
}

/// The sort keys of a query: those given, else by sort order and then name.
pub open spec fn query_keys(req: MailboxQueryRequest) -> Seq<(Seq<char>, bool)> {
    match req.sort {
        Some(v) => sort_keys(v@),
        None => seq![("sortOrder"@, true), ("name"@, true)],
    }
}

/// Every matching mailbox id, in sorted order.
pub open spec fn query_all_ids(req: MailboxQueryRequest) -> Seq<Seq<char>> {
    let all = default_mailboxes().map_values(|p: (Seq<char>, MailboxView)| p.1);
    sorted_mailboxes(kept_mailboxes(all, req.filter), query_keys(req)).map_values(|m: MailboxView| m.id)
}

/// The starting position of a query: at least 0, and 0 when not given.
pub open spec fn query_position(req: MailboxQueryRequest) -> i64 {
    match req.position {
        Some(p) => if p < 0 {
            0
        } else {
            p
        },
        None => 0,
    }
}

/// The most ids a query returns: 100 when not given.
pub open spec fn query_limit(req: MailboxQueryRequest) -> u64 {
    match req.limit {
        Some(l) => l,
        None => 100,
    }
}

/// At most `limit` items of `s` from `position` on.
pub open spec fn page<A>(s: Seq<A>, position: int, limit: int) -> Seq<A> {
    let start = if position >= s.len() {
        s.len() as int
    } else {
        position
    };
    let end = if limit >= s.len() - start {
        s.len() as int
    } else {
        start + limit
    };
    s.subrange(start, end)
}

/// The mailboxes an optional filter keeps.
fn keep_mailboxes(all: &Vec<(String, Mailbox)>, filter: &Option<MailboxFilterCondition>) -> (r: Vec<Mailbox>)
    ensures
        mailboxes_view(r@) == kept_mailboxes(pairs_view(all@).map_values(|p: (Seq<char>, MailboxView)| p.1), *filter),
{
    let ghost vals = pairs_view(all@).map_values(|p: (Seq<char>, MailboxView)| p.1);
    proof {
        lemma_pairs_view_len(all@);
        assert(vals.take(0) =~= Seq::<MailboxView>::empty());
    }
    let mut out: Vec<Mailbox> = Vec::new();
    let mut i: usize = 0;
    proof {
        assert(mailboxes_view(out@) =~= Seq::<MailboxView>::empty());
    }
    while i < all.len()
        invariant
            i <= all@.len(),
            vals == pairs_view(all@).map_values(|p: (Seq<char>, MailboxView)| p.1),
            vals.len() == all@.len(),
            forall|j: int| 0 <= j < all@.len() ==> #[trigger] vals[j] == all@[j].1@,
            mailboxes_view(out@) == kept_mailboxes(vals.take(i as int), *filter),
        decreases all.len() - i,
    {
        proof {
            assert(vals.take(i + 1).drop_last() =~= vals.take(i as int));
            assert(vals.take(i + 1).last() == vals[i as int]);
            assert(pairs_view(all@)[i as int] == (all@[i as int].0@, all@[i as int].1@));
        }
        let keep = match filter {
            Some(f) => apply_mailbox_filter(&all[i].1, f),
            None => true,
        };
        if keep {
            let ghost before = out@;
            out.push(all[i].1.duplicate());
            proof {
                assert(mailboxes_view(out@) =~= mailboxes_view(before).push(all@[i as int].1@));
            }
        }
        i = i + 1;
    }
    proof {
        assert(vals.take(all@.len() as int) =~= vals);
    }
    out
}

/// `Mailbox/query`: the matching mailbox ids, filtered, sorted and paged;
/// the query state is the current time.
pub fn mailbox_query(request: MailboxQueryRequest) -> (r: MailboxQueryResponse)
    ensures
        r.account_id@ == request.account_id@,
        exists|t: i64| r.query_state@ == crate::text::int_decimal(t as int),
        r.can_calculate_changes,
        r.position == query_position(request),
        strings_view(r.ids@) == page(query_all_ids(request), query_position(request) as int, query_limit(request) as int),
        r.total == (if request.calculate_total == Some(true) {
            Some(query_all_ids(request).len() as u64)
        } else {
            None
        }),
        r.limit == Some(query_limit(request)),
{
    let defaults = get_default_mailboxes();
    let mut list = keep_mailboxes(&defaults, &request.filter);
    let ghost kept = mailboxes_view(list@);
    match &request.sort {
        Some(comparators) => {
            apply_mailbox_sort(&mut list, comparators.as_slice());
        },
        None => {
            let mut default_sort: Vec<MailboxSort> = Vec::new();
            default_sort.push(MailboxSort { property: string_from("sortOrder"), is_ascending: None });
            default_sort.push(MailboxSort { property: string_from("name"), is_ascending: None });
            proof {
                assert(sort_keys(default_sort@) =~= seq![("sortOrder"@, true), ("name"@, true)]);
            }
            apply_mailbox_sort(&mut list, default_sort.as_slice());
        },
    }
    let ghost all_ids = query_all_ids(request);
    assert(mailboxes_view(list@).map_values(|m: MailboxView| m.id) == all_ids);
    let total: usize = list.len();
    let position: i64 = match request.position {
        Some(p) => if p < 0 {
            0
        } else {
            p
        },
        None => 0,
    };
    let limit: u64 = match request.limit {
        Some(l) => l,
        None => 100,
    };
    let start: usize = if (position as u64) >= (total as u64) {
        total
    } else {
        position as usize
    };
    let end: usize = if limit >= ((total - start) as u64) {
        total
    } else {
        start + (limit as usize)
    };
    let mut ids: Vec<String> = Vec::new();
    let mut k: usize = start;
    while k < end
        invariant
            start <= k <= end,
            end <= list@.len(),
            all_ids == mailboxes_view(list@).map_values(|m: MailboxView| m.id),
            strings_view(ids@) == all_ids.subrange(start as int, k as int),
        decreases end - k,
    {
        let ghost before = ids@;
        ids.push(list[k].id.clone());
        proof {
            assert(strings_view(ids@) =~= strings_view(before).push(list@[k as int].id@));
            assert(all_ids.subrange(start as int, k + 1) =~= all_ids.subrange(start as int, k as int).push(all_ids[k as int]));
        }
        k = k + 1;
    }
    let calc = match request.calculate_total {
        Some(b) => b,
        None => false,
    };
    MailboxQueryResponse {
        account_id: request.account_id.clone(),
        query_state: generate_state(),
        can_calculate_changes: true,
        position,
        ids,
        total: if calc {
            Some(total as u64)
        } else {
            None
        },
        limit: Some(limit),
    }
}

// ── Mailbox/changes and Mailbox/queryChanges ────────────────────────────────

/// The state a change request starts from: its number, or 0 when it is not
/// one.
pub open spec fn since_number(since: Seq<char>) -> u64 {
    match parse_u64_spec(since) {
        Some(n) => n,
        None => 0,
    }
}

/// `Mailbox/changes`: no change is recorded, so the answer is empty and the
/// new state is the old one plus one.
pub fn mailbox_changes(request: MailboxChangesRequest) -> (r: MailboxChangesResponse)
    requires
        since_number(request.since_state@) < u64::MAX,
    ensures
        r.account_id@ == request.account_id@,
        r.old_state@ == request.since_state@,
        r.new_state@ == decimal((since_number(request.since_state@) + 1) as nat),
        !r.has_more_changes,
        r.created@.len() == 0,
        r.updated@.len() == 0,
        r.destroyed@.len() == 0,
{
    let since: u64 = match parse_u64(request.since_state.as_str()) {
        Some(n) => n,
        None => 0,
    };
    let new_state = u64_to_decimal(since + 1);
    MailboxChangesResponse {
        account_id: request.account_id,
        old_state: request.since_state,
        new_state,
        has_more_changes: false,
        created: Vec::new(),
        updated: Vec::new(),
        destroyed: Vec::new(),
    }
}

/// A time in seconds read as an unsigned number, in decimal.
pub open spec fn unsigned_time_text(t: i64) -> Seq<char> {
    decimal((t as u64) as nat)
}

/// `Mailbox/queryChanges`: no change is recorded; the new query state is
/// the current time, and the total, when asked for, is the number of
/// default mailboxes.
pub fn mailbox_query_changes(request: MailboxQueryChangesRequest) -> (r: MailboxQueryChangesResponse)
    ensures
        r.account_id@ == request.account_id@,
        r.old_query_state@ == request.since_query_state@,
        exists|t: i64| r.new_query_state@ == unsigned_time_text(t),
        r.total == (if request.calculate_total == Some(true) {
            Some(6u64)
        } else {
            None
        }),
        r.removed@.len() == 0,
        r.added@.len() == 0,
{
    let t = now_timestamp();
    let calc = match request.calculate_total {
        Some(b) => b,
        None => false,
    };
    MailboxQueryChangesResponse {
        account_id: request.account_id,
        old_query_state: request.since_query_state,
        new_query_state: {
            let text = u64_to_decimal(t as u64);
            assert(text@ == unsigned_time_text(t));
            text
        },
        total: if calc {
            Some(6)
        } else {
            None
        },
        removed: Vec::new(),
        added: Vec::new(),
    }
}


// ── Laws ────────────────────────────────────────────────────────────────────

/// `Mailbox/set` never destroys a special-use mailbox (inbox, sent,
/// drafts, trash, junk, archive): the mailboxes stay as they were and the
/// id is reported not destroyed as `forbidden`.
pub proof fn law_special_use_mailbox_stays(p: SetProgress, id: Seq<char>)
    requires
        is_special_use_id(id),
    ensures
        destroy_step(p, id).current == p.current,
        destroy_step(p, id).destroyed == p.destroyed,
        vget(destroy_step(p, id).not_destroyed, id) == Some(set_error("forbidden"@, "Cannot delete special-use mailbox"@)),
{
    crate::maps::lemma_vput(p.not_destroyed, id, set_error("forbidden"@, "Cannot delete special-use mailbox"@), id);
}

/// A mailbox that has a child is never destroyed.
pub proof fn law_mailbox_with_child_stays(p: SetProgress, id: Seq<char>)
    requires
        has_child_of(p.current, id),
    ensures
        destroy_step(p, id).current == p.current,
        destroy_step(p, id).destroyed == p.destroyed,
{
}

/// A destroyed mailbox can no longer be read, and the others read as
/// before.
pub proof fn law_destroyed_mailbox_gone(p: SetProgress, id: Seq<char>, other: Seq<char>)
    requires
        other != id,
        destroy_step(p, id).destroyed.len() > p.destroyed.len(),
    ensures
        vget(destroy_step(p, id).current, id) is None,
        vget(destroy_step(p, id).current, other) == vget(p.current, other),
{
    crate::maps::lemma_vremove(p.current, id, id);
    crate::maps::lemma_vremove(p.current, id, other);
}

/// Updating an unknown mailbox reports it not found and changes no
/// mailbox.
pub proof fn law_update_unknown_not_found(p: SetProgress, id: Seq<char>, patch: JModel)
    requires
        vget(p.current, id) is None,
    ensures
        update_step(p, id, patch).current == p.current,
        vget(update_step(p, id, patch).not_updated, id) == Some(set_error("notFound"@, "Mailbox not found"@)),
{
    crate::maps::lemma_vput(p.not_updated, id, set_error("notFound"@, "Mailbox not found"@), id);
}

/// A patch that would make a mailbox its own ancestor is refused with
/// `invalidProperties`, and the mailbox stays as it was.
pub proof fn law_update_cycle_refused(p: SetProgress, id: Seq<char>, patch: JModel, pid: Seq<char>)
    requires
        vget(p.current, id) is Some,
        patched_name(vget(p.current, id)->0, patch) is Ok,
        member(patch, "parentId"@) == Some(JModel::Str(pid)),
        creates_cycle(pid, id, p.current),
    ensures
        update_step(p, id, patch).current == p.current,
        vget(update_step(p, id, patch).not_updated, id) == Some(
            set_error("invalidProperties"@, "Would create circular hierarchy"@),
        ),
{
    crate::maps::lemma_vput(p.not_updated, id, set_error("invalidProperties"@, "Would create circular hierarchy"@), id);
}

/// An update that succeeds is what the mailbox then reads as, and is
/// reported updated; its id, role, counts and rights are kept.
pub proof fn law_updated_mailbox_reads_back(p: SetProgress, id: Seq<char>, patch: JModel)
    requires
        vget(p.current, id) is Some,
        patched_mailbox(vget(p.current, id)->0, id, patch, p.current) is Ok,
    ensures
        ({
            let m = vget(p.current, id)->0;
            let m2 = patched_mailbox(m, id, patch, p.current)->Ok_0;
            &&& vget(update_step(p, id, patch).current, id) == Some(m2)
            &&& vget(update_step(p, id, patch).updated, id) == Some(m2)
            &&& m2.id == m.id && m2.role == m.role && m2.my_rights == m.my_rights
            &&& m2.total_emails == m.total_emails && m2.unread_emails == m.unread_emails
        }),
{
    let m = vget(p.current, id)->0;
    let m2 = patched_mailbox(m, id, patch, p.current)->Ok_0;
    crate::maps::lemma_vput(p.current, id, m2, id);
    crate::maps::lemma_vput(p.updated, id, m2, id);
}

/// What one create is answered, from the progress before it: the name is
/// checked, then the parent; otherwise the mailbox is made under `new_id`.
pub open spec fn create_answer(p: SetProgress, obj: MailboxObjectView, new_id: Seq<char>) -> Result<MailboxView, SetErrorView> {
    match name_problem(obj.name) {
        Some(msg) => Err(set_error("invalidProperties"@, msg)),
        None => if obj.parent_id is Some && vget(p.current, obj.parent_id->0) is None {
            Err(set_error("invalidProperties"@, "Parent mailbox not found"@))
        } else {
            Ok(created_mailbox(new_id, obj))
        },
    }
}

proof fn lemma_creates_untouched(p: SetProgress, s: Seq<(Seq<char>, MailboxObjectView)>, ids: Seq<Seq<char>>, c: Seq<char>)
    requires
        forall|j: int| 0 <= j < s.len() ==> (#[trigger] s[j]).0 != c,
    ensures
        vget(creates_fold(p, s, ids).created, c) == vget(p.created, c),
        vget(creates_fold(p, s, ids).not_created, c) == vget(p.not_created, c),
    decreases s.len(),
{
    if s.len() > 0 {
        let n = s.len() - 1;
        let d = s.drop_last();
        assert forall|j: int| 0 <= j < d.len() implies (#[trigger] d[j]).0 != c by {
            assert(d[j] == s[j]);
        }
        lemma_creates_untouched(p, d, ids, c);
        let q = creates_fold(p, d, ids);
        assert(s[n].0 != c);
        let m = created_mailbox(ids[n], s[n].1);
        crate::maps::lemma_vput(q.created, s[n].0, m, c);
        crate::maps::lemma_vput(q.not_created, s[n].0, set_error("invalidProperties"@, "Parent mailbox not found"@), c);
        if let Some(msg) = name_problem(s[n].1.name) {
            crate::maps::lemma_vput(q.not_created, s[n].0, set_error("invalidProperties"@, msg), c);
        }
    }
}

/// In `Mailbox/set`, every create is answered exactly once, under its
/// creation id, by what `create_answer` gives from the mailboxes left by
/// the creates before it: `invalidProperties` for a bad name or a missing
/// parent, and otherwise the created mailbox. Creation ids are distinct,
/// as the keys of the request's `create` map are.
pub proof fn law_each_create_answered(p: SetProgress, creates: Seq<(Seq<char>, MailboxObjectView)>, ids: Seq<Seq<char>>)
    requires
        crate::maps::keys_distinct(creates),
        forall|k: int|
            0 <= k < creates.len() ==> vget(p.created, (#[trigger] creates[k]).0) is None && vget(p.not_created, creates[k].0) is None,
    ensures
        forall|k: int|
            0 <= k < creates.len() ==> answered_as(
                creates_fold(p, creates, ids).created,
                creates_fold(p, creates, ids).not_created,
                (#[trigger] creates[k]).0,
                create_answer(creates_fold(p, creates.take(k), ids), creates[k].1, ids[k]),
            ),
    decreases creates.len(),
{
    if creates.len() > 0 {
        let n = creates.len() - 1;
        let d = creates.drop_last();
        let (cid, obj) = creates[n];
        assert(crate::maps::keys_distinct(d)) by {
            assert forall|i: int, j: int| 0 <= i < j < d.len() implies #[trigger] d[i].0 != #[trigger] d[j].0 by {
                assert(d[i] == creates[i] && d[j] == creates[j]);
            }
        }
        assert forall|k: int| 0 <= k < d.len() implies vget(p.created, (#[trigger] d[k]).0) is None && vget(p.not_created, d[k].0) is None by {
            assert(d[k] == creates[k]);
        }
        law_each_create_answered(p, d, ids);
        let q = creates_fold(p, d, ids);
        assert(creates.take(n) =~= d);
        assert forall|j: int| 0 <= j < d.len() implies (#[trigger] d[j]).0 != cid by {
            assert(d[j] == creates[j]);
        }
        lemma_creates_untouched(p, d, ids, cid);
        let m = created_mailbox(ids[n], obj);
        let e_parent = set_error("invalidProperties"@, "Parent mailbox not found"@);
        assert forall|k: int| 0 <= k < creates.len() implies answered_as(
            creates_fold(p, creates, ids).created,
            creates_fold(p, creates, ids).not_created,
            (#[trigger] creates[k]).0,
            create_answer(creates_fold(p, creates.take(k), ids), creates[k].1, ids[k]),
        ) by {
            let c = creates[k].0;
            crate::maps::lemma_vput(q.created, cid, m, c);
            crate::maps::lemma_vput(q.not_created, cid, e_parent, c);
            if let Some(msg) = name_problem(obj.name) {
                crate::maps::lemma_vput(q.not_created, cid, set_error("invalidProperties"@, msg), c);
            }
            if k < n {
                assert(d[k] == creates[k]);
                assert(creates.take(k) =~= d.take(k));
                assert(c != cid);
            }
        }
    }
}

/// What one update of `id` is answered, from the progress before it.
pub open spec fn update_answer(p: SetProgress, id: Seq<char>, patch: JModel) -> Result<MailboxView, SetErrorView> {
    match vget(p.current, id) {
        None => Err(set_error("notFound"@, "Mailbox not found"@)),
        Some(m) => patched_mailbox(m, id, patch, p.current),
    }
}

proof fn lemma_updates_untouched(p: SetProgress, s: Seq<(Seq<char>, JModel)>, c: Seq<char>)
    requires
        forall|j: int| 0 <= j < s.len() ==> (#[trigger] s[j]).0 != c,
    ensures
        vget(updates_fold(p, s).updated, c) == vget(p.updated, c),
        vget(updates_fold(p, s).not_updated, c) == vget(p.not_updated, c),
    decreases s.len(),
{
    if s.len() > 0 {
        let n = s.len() - 1;
        let d = s.drop_last();
        assert forall|j: int| 0 <= j < d.len() implies (#[trigger] d[j]).0 != c by {
            assert(d[j] == s[j]);
        }
        lemma_updates_untouched(p, d, c);
        let q = updates_fold(p, d);
        assert(s[n].0 != c);
        let a = update_answer(q, s[n].0, s[n].1);
        match a {
            Ok(m2) => crate::maps::lemma_vput(q.updated, s[n].0, m2, c),
            Err(e) => crate::maps::lemma_vput(q.not_updated, s[n].0, e, c),
        }
    }
}

/// In `Mailbox/set`, every update is answered exactly once, under its
/// mailbox id, by what `update_answer` gives from the mailboxes left by
/// the operations before it: `notFound` for an unknown id, the patch's
/// error, or the patched mailbox. The ids are distinct, as the keys of the
/// request's `update` map are.
pub proof fn law_each_update_answered(p: SetProgress, updates: Seq<(Seq<char>, JModel)>)
    requires
        crate::maps::keys_distinct(updates),
        forall|k: int|
            0 <= k < updates.len() ==> vget(p.updated, (#[trigger] updates[k]).0) is None && vget(p.not_updated, updates[k].0) is None,
    ensures
        forall|k: int|
            0 <= k < updates.len() ==> answered_as(
                updates_fold(p, updates).updated,
                updates_fold(p, updates).not_updated,
                (#[trigger] updates[k]).0,
                update_answer(updates_fold(p, updates.take(k)), updates[k].0, updates[k].1),
            ),
    decreases updates.len(),
{
    if updates.len() > 0 {
        let n = updates.len() - 1;
        let d = updates.drop_last();
        let (id, patch) = updates[n];
        assert(crate::maps::keys_distinct(d)) by {
            assert forall|i: int, j: int| 0 <= i < j < d.len() implies #[trigger] d[i].0 != #[trigger] d[j].0 by {
                assert(d[i] == updates[i] && d[j] == updates[j]);
            }
        }
        assert forall|k: int| 0 <= k < d.len() implies vget(p.updated, (#[trigger] d[k]).0) is None && vget(p.not_updated, d[k].0) is None by {
            assert(d[k] == updates[k]);
        }
        law_each_update_answered(p, d);
        let q = updates_fold(p, d);
        assert(updates.take(n) =~= d);
        assert(updates.last() == updates[n]);
        assert forall|j: int| 0 <= j < d.len() implies (#[trigger] d[j]).0 != id by {
            assert(d[j] == updates[j]);
        }
        lemma_updates_untouched(p, d, id);
        let a = update_answer(q, id, patch);
        assert forall|k: int| 0 <= k < updates.len() implies answered_as(
            updates_fold(p, updates).updated,
            updates_fold(p, updates).not_updated,
            (#[trigger] updates[k]).0,
            update_answer(updates_fold(p, updates.take(k)), updates[k].0, updates[k].1),
        ) by {
            let c = updates[k].0;
            match a {
                Ok(m2) => {
                    crate::maps::lemma_vput(q.updated, id, m2, c);
                },
                Err(e) => {
                    crate::maps::lemma_vput(q.not_updated, id, e, c);
                },
            }
            if k < n {
                assert(d[k] == updates[k]);
                assert(updates.take(k) =~= d.take(k));
                assert(c != id);
            }
        }
    }
}

/// What one destroy of `id` is answered, from the progress before it.
pub open spec fn destroy_answer(p: SetProgress, id: Seq<char>) -> Result<(), SetErrorView> {
    if is_special_use_id(id) {
        Err(set_error("forbidden"@, "Cannot delete special-use mailbox"@))
    } else if vget(p.current, id) is Some {
        if has_child_of(p.current, id) {
            Err(set_error("mailboxHasChild"@, "Cannot delete mailbox with children"@))
        } else {
            Ok(())
        }
    } else {
        Err(set_error("notFound"@, "Mailbox not found"@))
    }
}

/// Whether `id` is answered `a` among the destroyed ids and the refusals.
pub open spec fn destroy_answered_as(destroyed: Seq<Seq<char>>, refused: Seq<(Seq<char>, SetErrorView)>, id: Seq<char>, a: Result<(), SetErrorView>) -> bool {
    match a {
        Ok(_) => destroyed.contains(id) && vget(refused, id) is None,
        Err(e) => vget(refused, id) == Some(e) && !destroyed.contains(id),
    }
}

proof fn lemma_destroys_untouched(p: SetProgress, s: Seq<Seq<char>>, c: Seq<char>)
    requires
        forall|j: int| 0 <= j < s.len() ==> #[trigger] s[j] != c,
    ensures
        destroys_fold(p, s).destroyed.contains(c) == p.destroyed.contains(c),
        vget(destroys_fold(p, s).not_destroyed, c) == vget(p.not_destroyed, c),
    decreases s.len(),
{
    if s.len() > 0 {
        let n = s.len() - 1;
        let d = s.drop_last();
        assert forall|j: int| 0 <= j < d.len() implies #[trigger] d[j] != c by {
            assert(d[j] == s[j]);
        }
        lemma_destroys_untouched(p, d, c);
        let q = destroys_fold(p, d);
        assert(s.last() == s[n] && s[n] != c);
        match destroy_answer(q, s[n]) {
            Ok(_) => {
                assert(q.destroyed.push(s[n]).contains(c) == q.destroyed.contains(c)) by {
                    if q.destroyed.push(s[n]).contains(c) {
                        let x = choose|x: int| 0 <= x < q.destroyed.push(s[n]).len() && q.destroyed.push(s[n])[x] == c;
                        assert(q.destroyed[x] == c);
                    }
                    if q.destroyed.contains(c) {
                        let x = choose|x: int| 0 <= x < q.destroyed.len() && q.destroyed[x] == c;
                        assert(q.destroyed.push(s[n])[x] == c);
                    }
                }
            },
            Err(e) => crate::maps::lemma_vput(q.not_destroyed, s[n], e, c),
        }
    }
}

/// In `Mailbox/set`, every destroy is answered exactly once by what
/// `destroy_answer` gives from the mailboxes left by the operations before
/// it: `forbidden` for a special-use mailbox, `mailboxHasChild`,
/// `notFound`, or destroyed. The ids are distinct.
pub proof fn law_each_destroy_answered(p: SetProgress, ids: Seq<Seq<char>>)
    requires
        forall|i: int, j: int| 0 <= i < j < ids.len() ==> #[trigger] ids[i] != #[trigger] ids[j],
        forall|k: int| 0 <= k < ids.len() ==> !p.destroyed.contains(#[trigger] ids[k]) && vget(p.not_destroyed, ids[k]) is None,
    ensures
        forall|k: int|
            0 <= k < ids.len() ==> destroy_answered_as(
                destroys_fold(p, ids).destroyed,
                destroys_fold(p, ids).not_destroyed,
                #[trigger] ids[k],
                destroy_answer(destroys_fold(p, ids.take(k)), ids[k]),
            ),
    decreases ids.len(),
{
    if ids.len() > 0 {
        let n = ids.len() - 1;
        let d = ids.drop_last();
        let id = ids[n];
        assert forall|i: int, j: int| 0 <= i < j < d.len() implies #[trigger] d[i] != #[trigger] d[j] by {
            assert(d[i] == ids[i] && d[j] == ids[j]);
        }
        assert forall|k: int| 0 <= k < d.len() implies !p.destroyed.contains(#[trigger] d[k]) && vget(p.not_destroyed, d[k]) is None by {
            assert(d[k] == ids[k]);
        }
        law_each_destroy_answered(p, d);
        let q = destroys_fold(p, d);
        assert(ids.take(n) =~= d);
        assert(ids.last() == id);
        assert forall|j: int| 0 <= j < d.len() implies #[trigger] d[j] != id by {
            assert(d[j] == ids[j]);
        }
        lemma_destroys_untouched(p, d, id);
        let a = destroy_answer(q, id);
        assert forall|k: int| 0 <= k < ids.len() implies destroy_answered_as(
            destroys_fold(p, ids).destroyed,
            destroys_fold(p, ids).not_destroyed,
            #[trigger] ids[k],
            destroy_answer(destroys_fold(p, ids.take(k)), ids[k]),
        ) by {
            let c = ids[k];
            match a {
                Ok(_) => {
                    assert(q.destroyed.push(id)[q.destroyed.len() as int] == id);
                    if k < n {
                        assert(q.destroyed.push(id).contains(c) == q.destroyed.contains(c)) by {
                            if q.destroyed.push(id).contains(c) {
                                let x = choose|x: int| 0 <= x < q.destroyed.push(id).len() && q.destroyed.push(id)[x] == c;
                                assert(d[k] == ids[k]);
                                assert(q.destroyed[x] == c);
                            }
                            if q.destroyed.contains(c) {
                                let x = choose|x: int| 0 <= x < q.destroyed.len() && q.destroyed[x] == c;
                                assert(q.destroyed.push(id)[x] == c);
                            }
                        }
                    }
                },
                Err(e) => {
                    crate::maps::lemma_vput(q.not_destroyed, id, e, c);
                },
            }
            if k < n {
                assert(d[k] == ids[k]);
                assert(ids.take(k) =~= d.take(k));
                assert(c != id);
            }
        }
    }
}

} // verus!
