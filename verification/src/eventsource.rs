//! Server-sent state changes (RFC 8620 §7.3): the latest state of each
//! data type, the change that a notification broadcasts, and what a
//! listener on the event stream is sent.
use vstd::prelude::*;

use tokio::sync::broadcast::{Receiver, Sender};

use crate::maps::{lemma_pairs_view_len, lemma_vindex, lemma_vput, pairs_view, vget, vlookup, vput, vput_exec};
use crate::methods::email_query_helpers::contains_id;
use crate::text::{chars_of, split_on, split_on_exec, string_of, strings_view, trim_chars, trim_ws};

verus! {

/// The sending half of a `tokio::sync::broadcast` channel.
#[verifier::external_type_specification]
#[verifier::external_body]
#[verifier::reject_recursive_types(T)]
pub struct ExBroadcastSender<T>(tokio::sync::broadcast::Sender<T>);

/// The receiving half of a `tokio::sync::broadcast` channel.
#[verifier::external_type_specification]
#[verifier::external_body]
#[verifier::reject_recursive_types(T)]
pub struct ExBroadcastReceiver<T>(tokio::sync::broadcast::Receiver<T>);

/// `Clone for Sender`: another handle on the same channel. Nothing is
/// claimed of it.
pub assume_specification<T>[<tokio::sync::broadcast::Sender<T> as std::clone::Clone>::clone](tx: &Sender<T>) -> (r: Sender<T>);

/// How many changes the channel holds for a listener that falls behind.
pub const CHANNEL_CAPACITY: usize = 100;

/// Seconds between pings when the query names no interval.
pub const DEFAULT_PING_SECS: u64 = 30;

/// The text of the error event sent to a listener that fell behind.
pub const LAGGED_MESSAGE: &'static str = "Client lagged behind";

/// The capacity that a broadcast channel of changes was made with: how
/// many changes it holds for a listener that falls behind (tokio rounds the
/// buffer up to a power of two).
pub uninterp spec fn channel_capacity(tx: Sender<StateChange>) -> usize;

/// `tokio::sync::broadcast::channel`, keeping the sending half (the
/// receiving half is dropped): a channel made with the capacity asked for.
/// The channel panics on a capacity of zero or above `usize::MAX / 2`,
/// which `requires` leaves out.
#[verifier::external_body]
fn open_channel(capacity: usize) -> (tx: Sender<StateChange>)
    requires
        0 < capacity <= usize::MAX / 2,
    ensures
        channel_capacity(tx) == capacity,
{
    tokio::sync::broadcast::channel(capacity).0
}

/// `Sender::send`: hands the change to every current listener. Whether any
/// listener was there is not reported.
#[verifier::external_body]
fn broadcast(tx: &Sender<StateChange>, change: StateChange) {
    let _ = tx.send(change);
}

/// `Sender::subscribe`: a listener that receives the changes sent after
/// this call. (The channel refuses a listener past `usize::MAX / 4` live
/// ones, a count that memory rules out.)
#[verifier::external_body]
fn listen(tx: &Sender<StateChange>) -> (rx: Receiver<StateChange>) {
    tx.subscribe()
}

/// A state change: each changed data type with its new state.
#[derive(Debug, Clone)]
pub struct StateChange {
    pub changed: Vec<(String, String)>,
}

impl StateChange {
    /// The changed data types with their states.
    pub open spec fn entries(&self) -> Seq<(Seq<char>, Seq<char>)> {
        pairs_view(self.changed@)
    }

    /// The new state of a data type, if it changed.
    pub fn get(&self, data_type: &str) -> (r: Option<&String>)
        ensures
            match r {
                Some(s) => vget(self.entries(), data_type@) == Some(s@),
                None => vget(self.entries(), data_type@) is None,
            },
    {
        vlookup(&self.changed, data_type)
    }

    /// Whether nothing changed.
    pub fn is_empty(&self) -> (r: bool)
        ensures
            r == (self.changed@.len() == 0),
    {
        self.changed.len() == 0
    }
}

/// The change a notification broadcasts: the one data type with its new
/// state.
pub fn change_of(data_type: String, new_state: String) -> (r: StateChange)
    ensures
        r.entries() == seq![(data_type@, new_state@)],
{
    let ghost d = data_type@;
    let ghost s = new_state@;
    let mut changed: Vec<(String, String)> = Vec::new();
    changed.push((data_type, new_state));
    proof {
        lemma_pairs_view_len(changed@);
        assert(pairs_view(changed@) =~= seq![(d, s)]);
    }
    StateChange { changed }
}

/// The latest state of each data type, and the channel on which changes
/// go out to listeners.
#[derive(Clone)]
pub struct EventSourceManager {
    tx: Sender<StateChange>,
    states: Vec<(String, String)>,
    /// The changes handed to the channel so far, in order.
    sent: Ghost<Seq<Seq<(Seq<char>, Seq<char>)>>>,
}

impl EventSourceManager {
    /// The latest state of each data type that was notified, in the order
    /// the types were first notified.
    pub closed spec fn states(&self) -> Seq<(Seq<char>, Seq<char>)> {
        pairs_view(self.states@)
    }

    /// The changes sent to listeners so far, oldest first, each as its
    /// changed data types with their states.
    pub closed spec fn sent(&self) -> Seq<Seq<(Seq<char>, Seq<char>)>> {
        self.sent@
    }

    /// How many changes the channel holds for a listener that falls behind.
    pub closed spec fn capacity(&self) -> usize {
        channel_capacity(self.tx)
    }

    /// A manager that knows no state yet, whose channel holds
    /// `CHANNEL_CAPACITY` changes.
    pub fn new() -> (r: Self)
        ensures
            r.states() == Seq::<(Seq<char>, Seq<char>)>::empty(),
            r.capacity() == CHANNEL_CAPACITY,
            r.sent() == Seq::<Seq<(Seq<char>, Seq<char>)>>::empty(),
    {
        let r = EventSourceManager {
            tx: open_channel(CHANNEL_CAPACITY),
            states: Vec::new(),
            sent: Ghost(Seq::empty()),
        };
        assert(pairs_view(r.states@) =~= Seq::<(Seq<char>, Seq<char>)>::empty());
        r
    }

    /// Records the new state of a data type and sends the change to every
    /// listener.
    pub fn notify_change(&mut self, data_type: String, new_state: String)
        ensures
            final(self).states() == vput(old(self).states(), data_type@, new_state@),
            final(self).capacity() == old(self).capacity(),
            final(self).sent() == old(self).sent().push(seq![(data_type@, new_state@)]),
    {
        vput_exec(&mut self.states, data_type.clone(), new_state.clone());
        let change = change_of(data_type, new_state);
        self.sent = Ghost(self.sent@.push(change.entries()));
        broadcast(&self.tx, change);
    }

    /// The latest state of a data type, if it was ever notified.
    pub fn get_state(&self, data_type: &str) -> (r: Option<String>)
        ensures
            match r {
                Some(s) => vget(self.states(), data_type@) == Some(s@),
                None => vget(self.states(), data_type@) is None,
            },
    {
        match vlookup(&self.states, data_type) {
            Some(s) => Some(s.clone()),
            None => None,
        }
    }

    /// A listener for the changes notified from now on.
    pub fn subscribe(&self) -> Receiver<StateChange> {
        listen(&self.tx)
    }
}

impl Default for EventSourceManager {
    fn default() -> (r: Self)
        ensures
            r.states() == Seq::<(Seq<char>, Seq<char>)>::empty(),
            r.capacity() == CHANNEL_CAPACITY,
            r.sent() == Seq::<Seq<(Seq<char>, Seq<char>)>>::empty(),
    {
        Self::new()
    }
}

/// After a data type is notified, reading its state gives the new state,
/// and every other data type reads as before.
pub proof fn notify_then_get(states: Seq<(Seq<char>, Seq<char>)>, data_type: Seq<char>, new_state: Seq<char>, other: Seq<char>)
    requires
        other != data_type,
    ensures
        vget(vput(states, data_type, new_state), data_type) == Some(new_state),
        vget(vput(states, data_type, new_state), other) == vget(states, other),
{
    lemma_vput(states, data_type, new_state, data_type);
    lemma_vput(states, data_type, new_state, other);
}

/// A manager that was never notified knows no state.
pub proof fn fresh_manager_knows_nothing(data_type: Seq<char>)
    ensures
        vget(Seq::<(Seq<char>, Seq<char>)>::empty(), data_type) is None,
{
}

/// The query of an event-stream request.
#[derive(Debug)]
pub struct EventSourceQuery {
    /// Data types to send, separated by commas.
    pub types: Option<String>,
    /// Seconds after which the stream closes.
    pub closeafter: Option<u64>,
    /// Seconds between pings.
    pub ping: Option<u64>,
}

/// A push subscription as the event-source module names it: where to push,
/// and which data types.
#[derive(Debug, Clone)]
pub struct PushSubscription {
    pub url: String,
    pub types: Option<Vec<String>>,
}

/// The data types a `types` query names: its comma-separated pieces,
/// trimmed.
pub open spec fn types_filter(types: Option<Seq<char>>) -> Option<Seq<Seq<char>>> {
    match types {
        Some(t) => Some(split_on(t, ',').map_values(|p: Seq<char>| trim_ws(p))),
        None => None,
    }
}

/// The data types the query asks for, or `None` for every type.
pub fn parse_types_filter(types: &Option<String>) -> (r: Option<Vec<String>>)
    ensures
        match r {
            Some(v) => types_filter(opt_text(*types)) == Some(strings_view(v@)),
            None => types.is_none(),
        },
{
    match types {
        Some(t) => {
            let pieces = split_on_exec(&chars_of(t.as_str()), ',');
            let ghost all = split_on(t@, ',');
            let mut out: Vec<String> = Vec::new();
            let mut i: usize = 0;
            while i < pieces.len()
                invariant
                    i <= pieces@.len(),
                    pieces@.len() == all.len(),
                    forall|j: int| 0 <= j < pieces@.len() ==> #[trigger] pieces@[j]@ == all[j],
                    strings_view(out@) == all.take(i as int).map_values(|p: Seq<char>| trim_ws(p)),
                decreases pieces.len() - i,
            {
                let piece = trim_chars(&pieces[i]);
                let ghost before = out@;
                out.push(string_of(piece.as_slice()));
                proof {
                    assert(strings_view(out@) =~= strings_view(before).push(trim_ws(all[i as int])));
                    assert(all.take(i + 1).map_values(|p: Seq<char>| trim_ws(p)) =~= all.take(i as int).map_values(
                        |p: Seq<char>| trim_ws(p),
                    ).push(trim_ws(all[i as int])));
                }
                i = i + 1;
            }
            assert(all.take(all.len() as int) =~= all);
            Some(out)
        },
        None => None,
    }
}

/// The text of an optional string.
pub open spec fn opt_text(o: Option<String>) -> Option<Seq<char>> {
    match o {
        Some(s) => Some(s@),
        None => None,
    }
}

/// The changes whose data type is in the filter, in order.
pub open spec fn keep_types(changes: Seq<(Seq<char>, Seq<char>)>, filter: Seq<Seq<char>>) -> Seq<(Seq<char>, Seq<char>)>
    decreases changes.len(),
{
    if changes.len() == 0 {
        changes
    } else if filter.contains(changes.last().0) {
        keep_types(changes.drop_last(), filter).push(changes.last())
    } else {
        keep_types(changes.drop_last(), filter)
    }
}

/// The changes a listener is sent: those of the types it asked for, or
/// all of them.
pub open spec fn filtered_changes(changes: Seq<(Seq<char>, Seq<char>)>, filter: Option<Seq<Seq<char>>>) -> Seq<(Seq<char>, Seq<char>)> {
    match filter {
        Some(f) => keep_types(changes, f),
        None => changes,
    }
}

/// The optional filter's contents.
pub open spec fn opt_filter(o: Option<Vec<String>>) -> Option<Seq<Seq<char>>> {
    match o {
        Some(v) => Some(strings_view(v@)),
        None => None,
    }
}

/// The part of a change that a listener with the filter is sent.
pub fn filter_change(change: &StateChange, filter: &Option<Vec<String>>) -> (r: StateChange)
    ensures
        r.entries() == filtered_changes(change.entries(), opt_filter(*filter)),
{
    match filter {
        None => change.clone_change(),
        Some(f) => {
            let mut out: Vec<(String, String)> = Vec::new();
            let mut i: usize = 0;
            proof {
                lemma_pairs_view_len(change.changed@);
                lemma_pairs_view_len(out@);
                assert(change.entries().take(0) =~= Seq::<(Seq<char>, Seq<char>)>::empty());
            }
            while i < change.changed.len()
                invariant
                    i <= change.changed@.len(),
                    change.entries().len() == change.changed@.len(),
                    forall|j: int| 0 <= j < change.changed@.len() ==> #[trigger] change.entries()[j] == (
                        change.changed@[j].0@,
                        change.changed@[j].1@,
                    ),
                    pairs_view(out@) == keep_types(change.entries().take(i as int), strings_view(f@)),
                decreases change.changed.len() - i,
            {
                let ghost e = change.entries();
                proof {
                    assert(e.take(i + 1).drop_last() =~= e.take(i as int));
                    assert(e.take(i + 1).last() == e[i as int]);
                }
                if contains_id(f.as_slice(), change.changed[i].0.as_str()) {
                    let ghost before = out@;
                    out.push((change.changed[i].0.clone(), change.changed[i].1.clone()));
                    proof {
                        lemma_pairs_view_len(out@);
                        lemma_pairs_view_len(before);
                        assert(pairs_view(out@) =~= pairs_view(before).push(e[i as int]));
                    }
                }
                i = i + 1;
            }
            assert(change.entries().take(change.changed@.len() as int) =~= change.entries());
            StateChange { changed: out }
        },
    }
}

impl StateChange {
    /// A copy of the change.
    pub fn clone_change(&self) -> (r: StateChange)
        ensures
            r.entries() == self.entries(),
    {
        let mut out: Vec<(String, String)> = Vec::new();
        let mut i: usize = 0;
        proof {
            lemma_pairs_view_len(self.changed@);
        }
        while i < self.changed.len()
            invariant
                i <= self.changed@.len(),
                pairs_view(out@) == pairs_view(self.changed@).take(i as int),
            decreases self.changed.len() - i,
        {
            let ghost before = out@;
            out.push((self.changed[i].0.clone(), self.changed[i].1.clone()));
            proof {
                lemma_pairs_view_len(out@);
                lemma_pairs_view_len(before);
                assert(pairs_view(out@) =~= pairs_view(self.changed@).take(i + 1));
            }
            i = i + 1;
        }
        assert(pairs_view(self.changed@).take(self.changed@.len() as int) =~= pairs_view(self.changed@));
        StateChange { changed: out }
    }
}

/// What the event stream's wait ended with.
#[derive(Debug)]
pub enum StreamEvent {
    /// A change was received.
    Change(StateChange),
    /// The listener fell behind and changes were lost.
    Lagged,
    /// The channel closed.
    Closed,
    /// The ping interval passed with nothing received.
    PingDue,
}

/// What the event stream does next.
#[derive(Debug)]
pub enum StreamAction {
    /// Send a `state` event with these changes.
    SendState(StateChange),
    /// Send an `error` event with this text.
    SendError(String),
    /// Send a ping comment.
    SendPing,
    /// Send nothing and wait again.
    Wait,
    /// End the stream.
    Close,
}

/// Whether the stream has run its time: `closeafter` seconds have passed.
pub fn should_close(close_after_secs: Option<u64>, elapsed_secs: u64) -> (r: bool)
    ensures
        r == match close_after_secs {
            Some(t) => elapsed_secs >= t,
            None => false,
        },
{
    match close_after_secs {
        Some(t) => elapsed_secs >= t,
        None => false,
    }
}

/// The seconds between pings: as asked, or the default.
pub fn ping_interval_secs(ping: Option<u64>) -> (r: u64)
    ensures
        r == match ping {
            Some(p) => p,
            None => DEFAULT_PING_SECS,
        },
{
    match ping {
        Some(p) => p,
        None => DEFAULT_PING_SECS,
    }
}

/// What the stream does with what its wait ended with: a change goes out
/// filtered, unless nothing of it is left; a lag is reported; a closed
/// channel ends the stream; a quiet interval sends a ping.
pub fn next_action(filter: &Option<Vec<String>>, event: StreamEvent) -> (r: StreamAction)
    ensures
        match event {
            StreamEvent::Change(c) => {
                let kept = filtered_changes(c.entries(), opt_filter(*filter));
                if kept.len() == 0 {
                    r is Wait
                } else {
                    r matches StreamAction::SendState(s) && s.entries() == kept
                }
            },
            StreamEvent::Lagged => r matches StreamAction::SendError(m) && m@ == LAGGED_MESSAGE@,
            StreamEvent::Closed => r is Close,
            StreamEvent::PingDue => r is SendPing,
        },
{
    match event {
        StreamEvent::Change(c) => {
            let kept = filter_change(&c, filter);
            proof {
                lemma_pairs_view_len(kept.changed@);
            }
            if kept.is_empty() {
                StreamAction::Wait
            } else {
                StreamAction::SendState(kept)
            }
        },
        StreamEvent::Lagged => StreamAction::SendError(crate::text::string_from(LAGGED_MESSAGE)),
        StreamEvent::Closed => StreamAction::Close,
        StreamEvent::PingDue => StreamAction::SendPing,
    }
}

} // verus!
