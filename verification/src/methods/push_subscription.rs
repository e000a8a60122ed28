//! Push subscriptions (RFC 8620 §7.2): `PushSubscription/get` and
//! `PushSubscription/set` over a registry of subscriptions, each owned by
//! the principal that registered it.
use vstd::prelude::*;

use dashmap::DashMap;

use crate::json::JsonValue;
use crate::maps::{lemma_pairs_view_len, nonempty, nonempty_vec, opt_pairs_view, pairs_view, vput, vput_exec};
use crate::outside::{
    base64url_encode, base64url_text, new_uuid_string, random_32_bytes, registry_contents, registry_entries,
    registry_get, registry_insert, registry_remove,
};
use crate::text::{
    chars_of, concat, seq_starts_with, starts_with_chars, str_eq, string_from, strings_view,
};
use crate::types::{
    opt_chars, opt_keys, KeysContent, JmapSetError, Principal, PushKeys, PushSubscription, SetErrorView,
    SubscriptionContent,
};

verus! {

/// The registry of push subscriptions, by id.
pub type Registry = DashMap<String, PushSubscription>;

/// One entry of the registry: an id and its subscription.
pub type RegistryEntry = (String, PushSubscription);

/// A copy of one registry entry.
pub fn entry_copy(k: &String, v: &PushSubscription) -> (r: RegistryEntry)
    ensures
        r.0@ == k@,
        r.1@ == v@,
{
    (k.clone(), v.duplicate())
}

/// `PushSubscription/get` arguments: the ids wanted, or all.
#[derive(Debug)]
pub struct PushSubscriptionGetRequest {
    pub ids: Option<Vec<String>>,
}

/// A subscription as a client sees it.
#[derive(Debug)]
pub struct PushSubscriptionView {
    pub id: String,
    pub device_client_id: String,
    pub url: String,
    pub keys: Option<PushKeys>,
    pub expires: Option<i64>,
    pub types: Vec<String>,
}

/// The content of a client's view of a subscription.
pub struct ClientViewContent {
    pub id: Seq<char>,
    pub device_client_id: Seq<char>,
    pub url: Seq<char>,
    pub keys: Option<KeysContent>,
    pub expires: Option<i64>,
    pub types: Seq<Seq<char>>,
}

impl View for PushSubscriptionView {
    type V = ClientViewContent;

    open spec fn view(&self) -> ClientViewContent {
        ClientViewContent {
            id: self.id@,
            device_client_id: self.device_client_id@,
            url: self.url@,
            keys: opt_keys(self.keys),
            expires: self.expires,
            types: strings_view(self.types@),
        }
    }
}

/// What a client sees of a subscription: not its code, owner or status.
pub open spec fn client_view(s: SubscriptionContent) -> ClientViewContent {
    ClientViewContent {
        id: s.id,
        device_client_id: s.device_client_id,
        url: s.url,
        keys: s.keys,
        expires: s.expires,
        types: s.types,
    }
}

impl PushSubscriptionView {
    /// What a client sees of a subscription.
    pub fn from_subscription(s: &PushSubscription) -> (r: Self)
        ensures
            r@ == client_view(s@),
    {
        PushSubscriptionView {
            id: s.id.clone(),
            device_client_id: s.device_client_id.clone(),
            url: s.url.clone(),
            keys: match &s.keys {
                Some(k) => Some(k.duplicate()),
                None => None,
            },
            expires: s.expires,
            types: crate::methods::mailbox::clone_strings(&s.types),
        }
    }
}

/// `PushSubscription/get` result.
#[derive(Debug)]
pub struct PushSubscriptionGetResponse {
    pub list: Vec<PushSubscriptionView>,
    pub not_found: Vec<String>,
}

/// The contents of a list of client views.
pub open spec fn client_views(s: Seq<PushSubscriptionView>) -> Seq<ClientViewContent> {
    s.map_values(|v: PushSubscriptionView| v@)
}

/// The subscriptions among `ids` that exist and belong to `owner`, in order.
pub open spec fn owned_found(c: Map<Seq<char>, SubscriptionContent>, owner: Seq<char>, ids: Seq<Seq<char>>) -> Seq<ClientViewContent>
    decreases ids.len(),
{
    if ids.len() == 0 {
        seq![]
    } else if c.contains_key(ids.last()) && c[ids.last()].principal_id == owner {
        owned_found(c, owner, ids.drop_last()).push(client_view(c[ids.last()]))
    } else {
        owned_found(c, owner, ids.drop_last())
    }
}

/// The ids among `ids` that do not name a subscription of `owner`.
pub open spec fn owned_missing(c: Map<Seq<char>, SubscriptionContent>, owner: Seq<char>, ids: Seq<Seq<char>>) -> Seq<Seq<char>>
    decreases ids.len(),
{
    if ids.len() == 0 {
        seq![]
    } else if c.contains_key(ids.last()) && c[ids.last()].principal_id == owner {
        owned_missing(c, owner, ids.drop_last())
    } else {
        owned_missing(c, owner, ids.drop_last()).push(ids.last())
    }
}

/// `PushSubscription/get`: the subscriptions of the principal (all of them,
/// in the registry's order, or those asked for); another principal's
/// subscription is reported not found.
pub fn push_subscription_get(request: PushSubscriptionGetRequest, principal: &Principal, registry: &Registry) -> (r: PushSubscriptionGetResponse)
    ensures
        match request.ids {
            Some(ids) => client_views(r.list@) == owned_found(registry_contents(*registry), principal.account_id@, strings_view(ids@))
                && strings_view(r.not_found@) == owned_missing(registry_contents(*registry), principal.account_id@, strings_view(ids@)),
            None => r.not_found@.len() == 0 && (forall|i: int| 0 <= i < r.list@.len() ==> {
                let v = #[trigger] r.list@[i]@;
                registry_contents(*registry).contains_key(v.id) && registry_contents(*registry)[v.id].principal_id
                    == principal.account_id@ && client_view(registry_contents(*registry)[v.id]) == v
            }) && (forall|k: Seq<char>| #[trigger] registry_contents(*registry).contains_key(k) && registry_contents(*registry)[k].principal_id
                == principal.account_id@ && registry_contents(*registry)[k].id == k ==> exists|i: int| 0 <= i < r.list@.len() && (#[trigger] r.list@[i]@).id == k),
        },
{
    let ghost c = registry_contents(*registry);
    let mut list: Vec<PushSubscriptionView> = Vec::new();
    let mut not_found: Vec<String> = Vec::new();
    match &request.ids {
        None => {
            let entries = registry_entries(registry);
            let mut i: usize = 0;
            while i < entries.len()
                invariant
                    i <= entries@.len(),
                    c == registry_contents(*registry),
                    entries@.len() == c.dom().len(),
                    c.dom().finite(),
                    forall|j: int| 0 <= j < entries@.len() ==> c.contains_key(#[trigger] entries@[j].0@) && c[entries@[j].0@] == entries@[j].1@,
                    forall|j: int, l: int| 0 <= j < l < entries@.len() ==> (#[trigger] entries@[j]).0@ != (#[trigger] entries@[l]).0@,
                    not_found@.len() == 0,
                    forall|j: int| 0 <= j < list@.len() ==> {
                        let v = #[trigger] list@[j]@;
                        c.contains_key(v.id) && c[v.id].principal_id == principal.account_id@ && client_view(c[v.id]) == v
                    },
                    forall|j: int| 0 <= j < i && entries@[j].1@.principal_id == principal.account_id@ && entries@[j].1@.id == entries@[j].0@ ==> exists|l: int|
                        0 <= l < list@.len() && (#[trigger] list@[l]@).id == (#[trigger] entries@[j]).0@,
                decreases entries.len() - i,
            {
                if str_eq(entries[i].1.principal_id.as_str(), principal.account_id.as_str()) {
                    let v = PushSubscriptionView::from_subscription(&entries[i].1);
                    let ghost before = list@;
                    if str_eq(entries[i].1.id.as_str(), entries[i].0.as_str()) {
                        list.push(v);
                        proof {
                            assert(list@[list@.len() - 1]@.id == entries@[i as int].0@);
                            assert forall|j: int| 0 <= j < i + 1 && entries@[j].1@.principal_id == principal.account_id@ && entries@[j].1@.id == entries@[j].0@ implies exists|l: int|
                                0 <= l < list@.len() && (#[trigger] list@[l]@).id == (#[trigger] entries@[j]).0@ by {
                                if j < i {
                                    let l = choose|l: int| 0 <= l < before.len() && (#[trigger] before[l]@).id == entries@[j].0@;
                                    assert(list@[l] == before[l]);
                                } else {
                                    assert(list@[list@.len() - 1]@.id == entries@[j].0@);
                                }
                            }
                        }
                    }
                }
                i = i + 1;
            }
            proof {
                assert forall|k: Seq<char>| #[trigger] c.contains_key(k) && c[k].principal_id == principal.account_id@ && c[k].id == k implies exists|l: int|
                    0 <= l < list@.len() && (#[trigger] list@[l]@).id == k by {
                    let keys = entries@.map_values(|e: RegistryEntry| e.0@);
                    assert forall|j: int| 0 <= j < keys.len() implies c.dom().contains(#[trigger] keys[j]) by {
                        assert(keys[j] == entries@[j].0@);
                    }
                    assert(keys.no_duplicates()) by {
                        assert forall|a: int, b: int| 0 <= a < keys.len() && 0 <= b < keys.len() && a != b implies keys[a] != keys[b] by {
                            if a < b {
                                assert(entries@[a].0@ != entries@[b].0@);
                            } else {
                                assert(entries@[b].0@ != entries@[a].0@);
                            }
                        }
                    }
                    keys.unique_seq_to_set();
                    assert(keys.to_set().subset_of(c.dom()));
                    vstd::set_lib::lemma_subset_equality(keys.to_set(), c.dom());
                    assert(keys.to_set().contains(k));
                    let j = choose|j: int| 0 <= j < keys.len() && keys[j] == k;
                    assert(entries@[j].0@ == k);
                }
            }
        },
        Some(ids) => {
            let ghost want = strings_view(ids@);
            let mut i: usize = 0;
            proof {
                assert(want.take(0) =~= Seq::<Seq<char>>::empty());
                assert(client_views(list@) =~= Seq::<ClientViewContent>::empty());
                assert(strings_view(not_found@) =~= Seq::<Seq<char>>::empty());
            }
            while i < ids.len()
                invariant
                    i <= ids@.len(),
                    want == strings_view(ids@),
                    c == registry_contents(*registry),
                    client_views(list@) == owned_found(c, principal.account_id@, want.take(i as int)),
                    strings_view(not_found@) == owned_missing(c, principal.account_id@, want.take(i as int)),
                decreases ids.len() - i,
            {
                proof {
                    assert(want.take(i + 1).drop_last() =~= want.take(i as int));
                    assert(want.take(i + 1).last() == ids@[i as int]@);
                }
                let found = registry_get(registry, ids[i].as_str());
                let mine = match &found {
                    Some(s) => str_eq(s.principal_id.as_str(), principal.account_id.as_str()),
                    None => false,
                };
                if mine {
                    let s = found.unwrap();
                    let v = PushSubscriptionView::from_subscription(&s);
                    let ghost before = list@;
                    let ghost vv = v@;
                    list.push(v);
                    proof {
                        assert(client_views(list@) =~= client_views(before).push(vv));
                    }
                } else {
                    let ghost before = not_found@;
                    not_found.push(ids[i].clone());
                    proof {
                        assert(strings_view(not_found@) =~= strings_view(before).push(ids@[i as int]@));
                    }
                }
                i = i + 1;
            }
            proof {
                assert(want.take(ids@.len() as int) =~= want);
            }
        },
    }
    PushSubscriptionGetResponse { list, not_found }
}

// ── Creating ────────────────────────────────────────────────────────────────

/// A subscription to register.
#[derive(Debug)]
pub struct PushSubscriptionCreate {
    pub device_client_id: String,
    pub url: String,
    pub keys: Option<PushKeys>,
    pub expires: Option<i64>,
    pub types: Vec<String>,
}

/// Changes to a registered subscription.
#[derive(Debug)]
pub struct PushSubscriptionUpdate {
    /// The code the server sent, which verifies the subscription.
    pub verification_code: Option<String>,
    /// A new list of data types to watch.
    pub types: Option<Vec<String>>,
    /// A new expiry.
    pub expires: Option<i64>,
}

/// What a client learns of a new subscription: its id and the code that
/// verifies it.
#[derive(Debug)]
pub struct PushSubscriptionCreated {
    pub id: String,
    pub verification_code: String,
}

/// The content of a new-subscription answer.
pub struct CreatedContent {
    pub id: Seq<char>,
    pub verification_code: Seq<char>,
}

impl View for PushSubscriptionCreated {
    type V = CreatedContent;

    open spec fn view(&self) -> CreatedContent {
        CreatedContent { id: self.id@, verification_code: self.verification_code@ }
    }
}

/// The error for an endpoint that is not HTTPS.
pub open spec fn url_error_text(url: Seq<char>) -> Seq<char> {
    "Push subscription URL must use HTTPS, got: "@ + url
}

/// Accepts only HTTPS push endpoints (RFC 8030 §5.2).
pub fn validate_push_url(url: &str) -> (r: Result<(), String>)
    ensures
        seq_starts_with(url@, "https://"@) ==> r is Ok,
        !seq_starts_with(url@, "https://"@) ==> r is Err && r->Err_0@ == url_error_text(url@),
{
    let u = chars_of(url);
    let p = chars_of("https://");
    if starts_with_chars(&u, &p) {
        return Ok(());
    }
    Err(concat("Push subscription URL must use HTTPS, got: ", url))
}

/// A fresh verification code: 32 random bytes in URL-safe base64 without
/// padding, or the error of the random source.
pub fn generate_verification_code() -> (r: Result<String, String>)
    ensures
        r matches Ok(code) ==> exists|b: Seq<u8>| b.len() == 32 && code@ == #[trigger] base64url_text(b),
        r matches Err(e) ==> seq_starts_with(e@, "RNG failure during verification code generation: "@),
{
    match random_32_bytes() {
        Ok(buf) => {
            let code = base64url_encode(buf.as_slice());
            assert(code@ == base64url_text(buf@));
            Ok(code)
        },
        Err(e) => {
            let m = concat("RNG failure during verification code generation: ", e.as_str());
            proof {
                let p = "RNG failure during verification code generation: "@;
                assert(m@.take(p.len() as int) =~= p);
            }
            Err(m)
        },
    }
}

/// The subscription a create registers: unverified, owned by the principal.
pub open spec fn new_subscription(c: PushSubscriptionCreate, owner: Seq<char>, id: Seq<char>, code: Seq<char>) -> SubscriptionContent {
    SubscriptionContent {
        id,
        device_client_id: c.device_client_id@,
        url: c.url@,
        keys: opt_keys(c.keys),
        verification_code: Some(code),
        expires: c.expires,
        types: strings_view(c.types@),
        verified: false,
        principal_id: owner,
    }
}

/// The subscription a create would register, once its URL is checked; it
/// is kept only after the verification push reaches the endpoint.
pub fn prepare_subscription(create: PushSubscriptionCreate, principal: &Principal, id: String, code: String) -> (r: Result<PushSubscription, String>)
    ensures
        seq_starts_with(create.url@, "https://"@) ==> r is Ok && r->Ok_0@ == new_subscription(create, principal.account_id@, id@, code@),
        !seq_starts_with(create.url@, "https://"@) ==> r is Err && r->Err_0@ == url_error_text(create.url@),
{
    if let Err(e) = validate_push_url(create.url.as_str()) {
        return Err(e);
    }
    let ghost c = create;
    let PushSubscriptionCreate { device_client_id, url, keys, expires, types } = create;
    Ok(
        PushSubscription {
            id,
            device_client_id,
            url,
            keys,
            verification_code: Some(code),
            expires,
            types,
            verified: false,
            principal_id: principal.account_id.clone(),
        },
    )
}

/// How sending the verification push ended.
#[derive(Debug)]
pub enum VerificationPush {
    /// The endpoint accepted it.
    Delivered,
    /// The endpoint is gone (HTTP 410).
    Gone,
    /// Another failure, with its text.
    Failed(String),
}

/// Registers a prepared subscription once its verification push was
/// delivered; otherwise the subscription is dropped and the failure given.
pub fn finish_subscription(registry: &mut Registry, sub: PushSubscription, push: VerificationPush) -> (r: Result<PushSubscriptionCreated, String>)
    ensures
        match push {
            VerificationPush::Delivered => sub.verification_code is Some ==> (r is Ok && registry_contents(*final(registry))
                == registry_contents(*old(registry)).insert(sub.id@, sub@) && r->Ok_0@ == (CreatedContent {
                id: sub.id@,
                verification_code: sub.verification_code->0@,
            })),
            VerificationPush::Gone => r is Err && r->Err_0@ == "Push endpoint returned 410 Gone during verification"@
                && registry_contents(*final(registry)) == registry_contents(*old(registry)),
            VerificationPush::Failed(e) => r is Err && r->Err_0@ == "Failed to send verification push: "@ + e@
                && registry_contents(*final(registry)) == registry_contents(*old(registry)),
        },
{
    match push {
        VerificationPush::Delivered => {},
        VerificationPush::Gone => {
            return Err(string_from("Push endpoint returned 410 Gone during verification"));
        },
        VerificationPush::Failed(e) => {
            return Err(concat("Failed to send verification push: ", e.as_str()));
        },
    }
    let id = sub.id.clone();
    let code = match &sub.verification_code {
        Some(c) => c.clone(),
        None => String::new(),
    };
    let key = sub.id.clone();
    registry_insert(registry, key, sub);
    Ok(PushSubscriptionCreated { id, verification_code: code })
}

// ── Updating and destroying ─────────────────────────────────────────────────

/// The content of a subscription change.
pub struct UpdateContent {
    pub verification_code: Option<Seq<char>>,
    pub types: Option<Seq<Seq<char>>>,
    pub expires: Option<i64>,
}

impl View for PushSubscriptionUpdate {
    type V = UpdateContent;

    open spec fn view(&self) -> UpdateContent {
        UpdateContent {
            verification_code: opt_chars(self.verification_code),
            types: match self.types {
                Some(t) => Some(strings_view(t@)),
                None => None,
            },
            expires: self.expires,
        }
    }
}

/// What changing subscription `id` gives: the changed subscription, or an
/// error text. It must exist and belong to `owner`; a verification code
/// must match the one sent, and then marks it verified.
pub open spec fn update_result(c: Map<Seq<char>, SubscriptionContent>, id: Seq<char>, patch: UpdateContent, owner: Seq<char>) -> Result<SubscriptionContent, Seq<char>> {
    if !c.contains_key(id) {
        Err("Subscription not found: "@ + id)
    } else if c[id].principal_id != owner {
        Err("Subscription "@ + id + " not owned by this principal"@)
    } else {
        let s = c[id];
        let checked: Result<SubscriptionContent, Seq<char>> = match patch.verification_code {
            Some(code) => if s.verification_code == Some(code) {
                Ok(SubscriptionContent { verified: true, ..s })
            } else {
                Err("Verification code mismatch for subscription "@ + id)
            },
            None => Ok(s),
        };
        match checked {
            Err(m) => Err(m),
            Ok(s2) => Ok(
                SubscriptionContent {
                    types: match patch.types {
                        Some(t) => t,
                        None => s2.types,
                    },
                    expires: match patch.expires {
                        Some(e) => Some(e),
                        None => s2.expires,
                    },
                    ..s2
                },
            ),
        }
    }
}

fn join3(a: &str, b: &str, c: &str) -> (r: String)
    ensures
        r@ == a@ + b@ + c@,
{
    let x = concat(a, b);
    concat(x.as_str(), c)
}

/// Changes subscription `id` for the principal.
pub fn update_subscription(registry: &mut Registry, id: &str, patch: PushSubscriptionUpdate, principal: &Principal) -> (r: Result<(), String>)
    ensures
        match update_result(registry_contents(*old(registry)), id@, patch@, principal.account_id@) {
            Ok(s) => r is Ok && registry_contents(*final(registry)) == registry_contents(*old(registry)).insert(id@, s),
            Err(m) => r is Err && r->Err_0@ == m && registry_contents(*final(registry)) == registry_contents(*old(registry)),
        },
{
    let mut sub = match registry_get(registry, id) {
        Some(s) => s,
        None => {
            return Err(concat("Subscription not found: ", id));
        },
    };
    if !str_eq(sub.principal_id.as_str(), principal.account_id.as_str()) {
        return Err(join3("Subscription ", id, " not owned by this principal"));
    }
    let ghost pv = patch@;
    let PushSubscriptionUpdate { verification_code, types, expires } = patch;
    if let Some(code) = verification_code {
        let matches = match &sub.verification_code {
            Some(c) => str_eq(c.as_str(), code.as_str()),
            None => false,
        };
        if matches {
            sub.verified = true;
        } else {
            return Err(concat("Verification code mismatch for subscription ", id));
        }
    }
    if let Some(t) = types {
        sub.types = t;
    }
    if let Some(e) = expires {
        sub.expires = Some(e);
    }
    registry_insert(registry, string_from(id), sub);
    Ok(())
}

/// What removing subscription `id` gives: it must exist and belong to
/// `owner`.
pub open spec fn destroy_result(c: Map<Seq<char>, SubscriptionContent>, id: Seq<char>, owner: Seq<char>) -> Result<(), Seq<char>> {
    if !c.contains_key(id) {
        Err("Subscription not found: "@ + id)
    } else if c[id].principal_id != owner {
        Err("Subscription "@ + id + " not owned by this principal"@)
    } else {
        Ok(())
    }
}

/// Removes subscription `id` for the principal.
pub fn destroy_subscription(registry: &mut Registry, id: &str, principal: &Principal) -> (r: Result<(), String>)
    ensures
        match destroy_result(registry_contents(*old(registry)), id@, principal.account_id@) {
            Ok(()) => r is Ok && registry_contents(*final(registry)) == registry_contents(*old(registry)).remove(id@),
            Err(m) => r is Err && r->Err_0@ == m && registry_contents(*final(registry)) == registry_contents(*old(registry)),
        },
{
    let owned = match registry_get(registry, id) {
        None => {
            return Err(concat("Subscription not found: ", id));
        },
        Some(s) => str_eq(s.principal_id.as_str(), principal.account_id.as_str()),
    };
    if !owned {
        return Err(join3("Subscription ", id, " not owned by this principal"));
    }
    registry_remove(registry, id);
    Ok(())
}

// ── PushSubscription/set ────────────────────────────────────────────────────

/// `PushSubscription/set` arguments.
#[derive(Debug)]
pub struct PushSubscriptionSetRequest {
    pub create: Option<Vec<(String, PushSubscriptionCreate)>>,
    pub update: Option<Vec<(String, PushSubscriptionUpdate)>>,
    pub destroy: Option<Vec<String>>,
}

/// `PushSubscription/set` result; every map is left out when it would be
/// empty, and an updated subscription is given as no object.
#[derive(Debug)]
pub struct PushSubscriptionSetResponse {
    pub created: Option<Vec<(String, PushSubscriptionCreated)>>,
    pub updated: Option<Vec<(String, Option<JsonValue>)>>,
    pub destroyed: Option<Vec<String>>,
    pub not_created: Option<Vec<(String, JmapSetError)>>,
    pub not_updated: Option<Vec<(String, JmapSetError)>>,
    pub not_destroyed: Option<Vec<(String, JmapSetError)>>,
}

/// A `serverFail` error with a description.
pub open spec fn server_fail(d: Seq<char>) -> SetErrorView {
    SetErrorView { error_type: "serverFail"@, description: Some(d) }
}

/// How far a `PushSubscription/set` call has got.
pub struct PushSetProgress {
    pub registry: Map<Seq<char>, SubscriptionContent>,
    pub updated: Seq<Seq<char>>,
    pub not_updated: Seq<(Seq<char>, SetErrorView)>,
    pub destroyed: Seq<Seq<char>>,
    pub not_destroyed: Seq<(Seq<char>, SetErrorView)>,
}

/// The updates in order.
pub open spec fn push_updates_fold(p: PushSetProgress, updates: Seq<(Seq<char>, UpdateContent)>, owner: Seq<char>) -> PushSetProgress
    decreases updates.len(),
{
    if updates.len() == 0 {
        p
    } else {
        let q = push_updates_fold(p, updates.drop_last(), owner);
        let (id, patch) = updates.last();
        match update_result(q.registry, id, patch, owner) {
            Ok(s) => PushSetProgress {
                registry: q.registry.insert(id, s),
                updated: if q.updated.contains(id) { q.updated } else { q.updated.push(id) },
                ..q
            },
            Err(m) => PushSetProgress { not_updated: vput(q.not_updated, id, server_fail(m)), ..q },
        }
    }
}

/// Updates leave the destroy outcomes as they were.
proof fn lemma_updates_keep_destroys(p: PushSetProgress, updates: Seq<(Seq<char>, UpdateContent)>, owner: Seq<char>)
    ensures
        push_updates_fold(p, updates, owner).destroyed == p.destroyed,
        push_updates_fold(p, updates, owner).not_destroyed == p.not_destroyed,
    decreases updates.len(),
{
    if updates.len() > 0 {
        lemma_updates_keep_destroys(p, updates.drop_last(), owner);
    }
}

/// The destroys in order.
pub open spec fn push_destroys_fold(p: PushSetProgress, ids: Seq<Seq<char>>, owner: Seq<char>) -> PushSetProgress
    decreases ids.len(),
{
    if ids.len() == 0 {
        p
    } else {
        let q = push_destroys_fold(p, ids.drop_last(), owner);
        let id = ids.last();
        match destroy_result(q.registry, id, owner) {
            Ok(()) => PushSetProgress { registry: q.registry.remove(id), destroyed: q.destroyed.push(id), ..q },
            Err(m) => PushSetProgress { not_destroyed: vput(q.not_destroyed, id, server_fail(m)), ..q },
        }
    }
}

/// What was done outside the library for one create: the id and the
/// verification code drawn for it (or the random source's error, from
/// `generate_verification_code`), and how the verification push ended,
/// when one was sent.
#[derive(Debug)]
pub struct CreateAttempt {
    pub id: String,
    pub code: Result<String, String>,
    pub push: Option<VerificationPush>,
}

/// A verification push is sent for a create exactly when its URL is HTTPS
/// and a code was drawn.
pub open spec fn push_sent_for(c: PushSubscriptionCreate, a: CreateAttempt) -> bool {
    (a.push is Some) == (seq_starts_with(c.url@, "https://"@) && a.code is Ok)
}

/// What one create gives, from registry `reg`: a URL that is not HTTPS is
/// refused and nothing is registered; then a failed random source is
/// reported; then the subscription is registered only if its verification
/// push was delivered.
pub open spec fn push_create_result(
    reg: Map<Seq<char>, SubscriptionContent>,
    c: PushSubscriptionCreate,
    owner: Seq<char>,
    a: CreateAttempt,
) -> (Map<Seq<char>, SubscriptionContent>, Result<CreatedContent, Seq<char>>) {
    if !seq_starts_with(c.url@, "https://"@) {
        (reg, Err(url_error_text(c.url@)))
    } else {
        match a.code {
            Err(e) => (reg, Err(e@)),
            Ok(k) => match a.push {
                Some(VerificationPush::Delivered) => (
                    reg.insert(a.id@, new_subscription(c, owner, a.id@, k@)),
                    Ok(CreatedContent { id: a.id@, verification_code: k@ }),
                ),
                Some(VerificationPush::Gone) => (reg, Err("Push endpoint returned 410 Gone during verification"@)),
                Some(VerificationPush::Failed(e)) => (reg, Err("Failed to send verification push: "@ + e@)),
                None => (reg, Err(seq![])),
            },
        }
    }
}

/// How far the creates of a `PushSubscription/set` call have got.
pub struct PushCreateProgress {
    pub registry: Map<Seq<char>, SubscriptionContent>,
    pub created: Seq<(Seq<char>, CreatedContent)>,
    pub not_created: Seq<(Seq<char>, SetErrorView)>,
}

/// The creates in order, the `i`-th with attempt `attempts[i]`.
pub open spec fn push_creates_fold(
    reg: Map<Seq<char>, SubscriptionContent>,
    creates: Seq<(String, PushSubscriptionCreate)>,
    owner: Seq<char>,
    attempts: Seq<CreateAttempt>,
) -> PushCreateProgress
    decreases creates.len(),
{
    if creates.len() == 0 {
        PushCreateProgress { registry: reg, created: seq![], not_created: seq![] }
    } else {
        let n = creates.len() - 1;
        let q = push_creates_fold(reg, creates.drop_last(), owner, attempts);
        let (r2, res) = push_create_result(q.registry, creates[n].1, owner, attempts[n]);
        match res {
            Ok(x) => PushCreateProgress { registry: r2, created: vput(q.created, creates[n].0@, x), ..q },
            Err(m) => PushCreateProgress { registry: r2, not_created: vput(q.not_created, creates[n].0@, server_fail(m)), ..q },
        }
    }
}

/// The creates of a request, in order.
pub open spec fn creates_of(o: Option<Vec<(String, PushSubscriptionCreate)>>) -> Seq<(String, PushSubscriptionCreate)> {
    match o {
        Some(c) => c@,
        None => seq![],
    }
}

/// The updates of a request, in order.
pub open spec fn updates_view(o: Option<Vec<(String, PushSubscriptionUpdate)>>) -> Seq<(Seq<char>, UpdateContent)> {
    match o {
        Some(u) => pairs_view(u@),
        None => seq![],
    }
}

/// The ids a request destroys, in order.
pub open spec fn destroys_view(o: Option<Vec<String>>) -> Seq<Seq<char>> {
    match o {
        Some(d) => strings_view(d@),
        None => seq![],
    }
}

/// The updated ids of a response.
pub open spec fn push_updated_ids(o: Option<Vec<(String, Option<JsonValue>)>>) -> Option<Seq<(Seq<char>, bool)>> {
    match o {
        Some(v) => Some(v@.map_values(|p: (String, Option<JsonValue>)| (p.0@, p.1 is Some))),
        None => None,
    }
}

/// `PushSubscription/set` for the principal over a registry, given what
/// was done outside for each create (`attempts[i]` for the `i`-th):
/// creates, then updates, then destroys are applied in order.
pub fn push_subscription_set_with_state(
    request: PushSubscriptionSetRequest,
    principal: &Principal,
    registry: &mut Registry,
    attempts: Vec<CreateAttempt>,
) -> (r: PushSubscriptionSetResponse)
    requires
        attempts@.len() >= creates_of(request.create).len(),
        forall|i: int|
            0 <= i < creates_of(request.create).len() ==> push_sent_for(
                #[trigger] creates_of(request.create)[i].1,
                attempts@[i],
            ),
    ensures
        ({
            let cp = push_creates_fold(
                registry_contents(*old(registry)),
                creates_of(request.create),
                principal.account_id@,
                attempts@,
            );
            let start = PushSetProgress {
                registry: cp.registry,
                updated: seq![],
                not_updated: seq![],
                destroyed: seq![],
                not_destroyed: seq![],
            };
            let p = push_destroys_fold(
                push_updates_fold(start, updates_view(request.update), principal.account_id@),
                destroys_view(request.destroy),
                principal.account_id@,
            );
            &&& registry_contents(*final(registry)) == p.registry
            &&& opt_pairs_view(r.created) == nonempty(cp.created)
            &&& opt_pairs_view(r.not_created) == nonempty(cp.not_created)
            &&& push_updated_ids(r.updated) == nonempty(p.updated.map_values(|k: Seq<char>| (k, false)))
            &&& opt_pairs_view(r.not_updated) == nonempty(p.not_updated)
            &&& crate::maps::opt_strings_view(r.destroyed) == nonempty(p.destroyed)
            &&& opt_pairs_view(r.not_destroyed) == nonempty(p.not_destroyed)
        }),
{
    let ghost creates = creates_of(request.create);
    let ghost owner = principal.account_id@;
    let ghost reg0 = registry_contents(*registry);
    let ghost att = attempts@;
    let ghost uv = updates_view(request.update);
    let ghost dv = destroys_view(request.destroy);
    let PushSubscriptionSetRequest { create, update, destroy } = request;
    let mut created_map: Vec<(String, PushSubscriptionCreated)> = Vec::new();
    let mut not_created: Vec<(String, JmapSetError)> = Vec::new();
    proof {
        lemma_pairs_view_len(created_map@);
        lemma_pairs_view_len(not_created@);
    }
    let mut cs: Vec<(String, PushSubscriptionCreate)> = match create {
        Some(c) => c,
        None => Vec::new(),
    };
    assert(cs@ == creates);
    let total: usize = cs.len();
    let mut rest_a = attempts;
    let mut i: usize = 0;
    assert(creates.take(0) =~= Seq::<(String, PushSubscriptionCreate)>::empty());
    while i < total
        invariant
            i <= total,
            total == creates.len(),
            cs@ == creates.skip(i as int),
            rest_a@ == att.skip(i as int),
            owner == principal.account_id@,
            att.len() >= creates.len(),
            forall|j: int| 0 <= j < creates.len() ==> push_sent_for(#[trigger] creates[j].1, att[j]),
            ({
                let q = push_creates_fold(reg0, creates.take(i as int), owner, att);
                &&& registry_contents(*registry) == q.registry
                &&& pairs_view(created_map@) == q.created
                &&& pairs_view(not_created@) == q.not_created
            }),
        decreases total - i,
    {
        let (cid, c) = cs.remove(0);
        let a = rest_a.remove(0);
        proof {
            assert(creates[i as int] == (cid, c));
            assert(att[i as int] == a);
            assert(cs@ =~= creates.skip(i + 1));
            assert(rest_a@ =~= att.skip(i + 1));
            assert(creates.take(i + 1).drop_last() =~= creates.take(i as int));
            assert(creates.take(i + 1)[i as int] == creates[i as int]);
        }
        let ghost cg = c;
        let ghost ag = a;
        let ghost q = push_creates_fold(reg0, creates.take(i as int), owner, att);
        let ghost step = push_create_result(q.registry, cg, owner, ag);
        let outcome: Result<PushSubscriptionCreated, String> = match validate_push_url(c.url.as_str()) {
            Err(e) => Err(e),
            Ok(()) => {
                let CreateAttempt { id, code, push } = a;
                match code {
                    Err(e) => Err(e),
                    Ok(k) => {
                        match prepare_subscription(c, principal, id, k) {
                            Err(e) => Err(e),
                            Ok(sub) => {
                                match push {
                                    Some(pv) => finish_subscription(registry, sub, pv),
                                    None => Err(String::new()),
                                }
                            },
                        }
                    },
                }
            },
        };
        assert(registry_contents(*registry) == step.0);
        match outcome {
            Ok(x) => {
                assert(step.1 == Ok::<CreatedContent, Seq<char>>(x@));
                vput_exec(&mut created_map, cid, x);
            },
            Err(m) => {
                assert(step.1 == Err::<CreatedContent, Seq<char>>(m@));
                vput_exec(&mut not_created, cid, JmapSetError { error_type: string_from("serverFail"), description: Some(m) });
            },
        }
        i = i + 1;
    }
    assert(creates.take(total as int) =~= creates);
    let ghost start = PushSetProgress {
        registry: registry_contents(*registry),
        updated: seq![],
        not_updated: seq![],
        destroyed: seq![],
        not_destroyed: seq![],
    };
    let mut updated: Vec<String> = Vec::new();
    let mut not_updated: Vec<(String, JmapSetError)> = Vec::new();
    proof {
        lemma_pairs_view_len(not_updated@);
        assert(strings_view(updated@) =~= Seq::<Seq<char>>::empty());
    }
    if let Some(umap) = update {
        proof {
            lemma_pairs_view_len(umap@);
            assert(uv.take(0) =~= Seq::<(Seq<char>, UpdateContent)>::empty());
        }
        let mut rest = umap;
        let ghost orig = rest@;
        let total: usize = rest.len();
        let mut i: usize = 0;
        while i < total
            invariant
                i <= orig.len(),
                rest@ == orig.skip(i as int),
                uv == pairs_view(orig),
                uv.len() == orig.len(),
                orig.len() == total,
                forall|j: int| 0 <= j < orig.len() ==> #[trigger] uv[j] == (orig[j].0@, orig[j].1@),
                ({
                    let p = push_updates_fold(start, uv.take(i as int), principal.account_id@);
                    &&& registry_contents(*registry) == p.registry
                    &&& strings_view(updated@) == p.updated
                    &&& pairs_view(not_updated@) == p.not_updated
                }),
            decreases total - i,
        {
            let (id, patch) = rest.remove(0);
            proof {
                assert(orig[i as int] == (id, patch));
                assert(rest@ =~= orig.skip(i + 1));
                assert(uv.take(i + 1).drop_last() =~= uv.take(i as int));
                assert(uv.take(i + 1).last() == uv[i as int]);
            }
            match update_subscription(registry, id.as_str(), patch, principal) {
                Ok(()) => {
                    if !crate::methods::email_query_helpers::contains_id(updated.as_slice(), id.as_str()) {
                        let ghost before = updated@;
                        let ghost idv = id@;
                        updated.push(id);
                        proof {
                            assert(strings_view(updated@) =~= strings_view(before).push(idv));
                        }
                    }
                },
                Err(m) => {
                    vput_exec(&mut not_updated, id, JmapSetError { error_type: string_from("serverFail"), description: Some(m) });
                },
            }
            i = i + 1;
        }
        proof {
            assert(uv.take(orig.len() as int) =~= uv);
        }
    } else {
        assert(uv.take(0) =~= uv);
    }
    let ghost after_updates = push_updates_fold(start, uv, principal.account_id@);
    proof {
        lemma_updates_keep_destroys(start, uv, principal.account_id@);
    }
    let mut destroyed: Vec<String> = Vec::new();
    let mut not_destroyed: Vec<(String, JmapSetError)> = Vec::new();
    proof {
        lemma_pairs_view_len(not_destroyed@);
        assert(strings_view(destroyed@) =~= Seq::<Seq<char>>::empty());
    }
    if let Some(ids) = &destroy {
        let mut i: usize = 0;
        assert(dv.take(0) =~= Seq::<Seq<char>>::empty());
        while i < ids.len()
            invariant
                i <= ids@.len(),
                dv == strings_view(ids@),
                ({
                    let p = push_destroys_fold(after_updates, dv.take(i as int), principal.account_id@);
                    &&& registry_contents(*registry) == p.registry
                    &&& strings_view(destroyed@) == p.destroyed
                    &&& pairs_view(not_destroyed@) == p.not_destroyed
                    &&& p.updated == after_updates.updated
                    &&& p.not_updated == after_updates.not_updated
                }),
            decreases ids.len() - i,
        {
            proof {
                assert(dv.take(i + 1).drop_last() =~= dv.take(i as int));
                assert(dv.take(i + 1).last() == ids@[i as int]@);
            }
            match destroy_subscription(registry, ids[i].as_str(), principal) {
                Ok(()) => {
                    let ghost before = destroyed@;
                    destroyed.push(ids[i].clone());
                    proof {
                        assert(strings_view(destroyed@) =~= strings_view(before).push(ids@[i as int]@));
                    }
                },
                Err(m) => {
                    vput_exec(&mut not_destroyed, ids[i].clone(), JmapSetError { error_type: string_from("serverFail"), description: Some(m) });
                },
            }
            i = i + 1;
        }
        assert(dv.take(ids@.len() as int) =~= dv);
    } else {
        assert(dv.take(0) =~= dv);
    }
    let mut updated_map: Vec<(String, Option<JsonValue>)> = Vec::new();
    let mut k: usize = 0;
    while k < updated.len()
        invariant
            k <= updated@.len(),
            updated_map@.map_values(|p: (String, Option<JsonValue>)| (p.0@, p.1 is Some)) == strings_view(updated@).take(k as int).map_values(|s: Seq<char>| (s, false)),
        decreases updated.len() - k,
    {
        let ghost before = updated_map@;
        updated_map.push((updated[k].clone(), None));
        proof {
            assert(updated_map@.map_values(|p: (String, Option<JsonValue>)| (p.0@, p.1 is Some)) =~= before.map_values(|p: (String, Option<JsonValue>)| (p.0@, p.1 is Some)).push((updated@[k as int]@, false)));
            assert(strings_view(updated@).take(k + 1).map_values(|s: Seq<char>| (s, false)) =~= strings_view(updated@).take(k as int).map_values(|s: Seq<char>| (s, false)).push((updated@[k as int]@, false)));
        }
        k = k + 1;
    }
    assert(strings_view(updated@).take(updated@.len() as int) =~= strings_view(updated@));
    PushSubscriptionSetResponse {
        created: nonempty_vec(created_map),
        updated: nonempty_vec(updated_map),
        destroyed: nonempty_vec(destroyed),
        not_created: nonempty_vec(not_created),
        not_updated: nonempty_vec(not_updated),
        not_destroyed: nonempty_vec(not_destroyed),
    }
}


// ── Laws ────────────────────────────────────────────────────────────────────

/// A subscription is destroyed or updated only by the principal that owns
/// it: for anyone else both are refused.
pub proof fn law_only_owner_changes(c: Map<Seq<char>, SubscriptionContent>, id: Seq<char>, patch: UpdateContent, who: Seq<char>)
    requires
        c.contains_key(id),
        c[id].principal_id != who,
    ensures
        destroy_result(c, id, who) is Err,
        update_result(c, id, patch, who) is Err,
{
}

/// After a destroy, the subscription is gone and every other one is as it
/// was.
pub proof fn law_destroy_removes_only_it(c: Map<Seq<char>, SubscriptionContent>, id: Seq<char>, other: Seq<char>)
    requires
        other != id,
    ensures
        !c.remove(id).contains_key(id),
        c.contains_key(other) ==> c.remove(id).contains_key(other) && c.remove(id)[other] == c[other],
{
}

/// A subscription is verified only by its own verification code: an update
/// that names another code is refused.
pub proof fn law_wrong_code_refused(c: Map<Seq<char>, SubscriptionContent>, id: Seq<char>, patch: UpdateContent, who: Seq<char>)
    requires
        c.contains_key(id),
        c[id].principal_id == who,
        patch.verification_code matches Some(code) && c[id].verification_code != Some(code),
    ensures
        update_result(c, id, patch, who) is Err,
{
}

/// A create whose URL is not HTTPS is refused with the HTTPS error, and
/// the registry stays as it was; whatever was drawn for it is not used.
pub proof fn law_http_create_refused(
    reg: Map<Seq<char>, SubscriptionContent>,
    c: PushSubscriptionCreate,
    owner: Seq<char>,
    a: CreateAttempt,
)
    requires
        !seq_starts_with(c.url@, "https://"@),
    ensures
        push_create_result(reg, c, owner, a) == (reg, Err::<CreatedContent, Seq<char>>(url_error_text(c.url@))),
        push_sent_for(c, a) ==> a.push is None,
{
}

/// In a run of creates, one whose URL is not HTTPS adds its creation id to
/// `notCreated` with `serverFail` and the HTTPS error, and registers
/// nothing: the registry and `created` stay as the creates before it left
/// them.
pub proof fn law_http_create_in_batch(
    reg: Map<Seq<char>, SubscriptionContent>,
    before: Seq<(String, PushSubscriptionCreate)>,
    cid: String,
    c: PushSubscriptionCreate,
    owner: Seq<char>,
    attempts: Seq<CreateAttempt>,
)
    requires
        !seq_starts_with(c.url@, "https://"@),
    ensures
        ({
            let q = push_creates_fold(reg, before, owner, attempts);
            let p = push_creates_fold(reg, before.push((cid, c)), owner, attempts);
            &&& p.registry == q.registry
            &&& p.created == q.created
            &&& p.not_created == vput(q.not_created, cid@, server_fail(url_error_text(c.url@)))
        }),
{
    assert(before.push((cid, c)).drop_last() =~= before);
}

} // verus!
