//! The configuration that the control plane pushes: the store of targets, the
//! store of policies, and the handlers that apply a batch of updates to them.

use crate::names::NameMap;
use crate::outbound::{decoded, Target, TargetView};
use crate::proto::{XdsRbac, XdsTarget};
use crate::rbac::{rules_permit, Identity, ResourceType, ResourceTypeView, RuleSet, RuleSetView};
use crate::xds::batch::{
    accepted, announced, applied, key_of, lemma_ordered_grows, lemma_touched_grows,
    lemma_untouched_is_unchanged, order_after, order_step, ordered, present, rejection_of,
    rejections, removals_of, touched, upserts_of, ConfigMessage,
};
use crate::xds::types::{rejection_views, RejectedConfig, XdsUpdate};
use tokio::sync::broadcast::error::SendError;
use tokio::sync::broadcast::{Receiver, Sender};
use tokio_util::sync::CancellationToken;
use vstd::prelude::*;

pub mod batch;
pub mod client;
pub mod error;
pub mod laws;
pub mod types;

verus! {

/// The capacity that the change channel of a store is made with, where none
/// is asked for: how many notifications it keeps at the least for a
/// subscriber that lags.
pub const BROADCAST_BACKLOG: usize = 16;

/// `tokio_util::sync::CancellationToken`, carried as it is.
#[verifier::external_type_specification]
#[verifier::external_body]
pub struct ExCancellationToken(CancellationToken);

/// `tokio::sync::broadcast::Sender`, carried as it is.
#[verifier::external_type_specification]
#[verifier::external_body]
#[verifier::reject_recursive_types(T)]
pub struct ExSender<T>(Sender<T>);

/// `tokio::sync::broadcast::Receiver`, carried as it is.
#[verifier::external_type_specification]
#[verifier::external_body]
#[verifier::reject_recursive_types(T)]
pub struct ExReceiver<T>(Receiver<T>);

/// `tokio::sync::broadcast::error::SendError`, carried as it is.
#[verifier::external_type_specification]
#[verifier::external_body]
#[verifier::reject_recursive_types(T)]
pub struct ExSendError<T>(SendError<T>);

/// `CancellationToken::new`: a token of its own. It is made while the
/// entries of `live` hold their tokens, so it is none of them: the crate's
/// `==` tells tokens apart by the state that they share, and the new token
/// shares its state with no other. Nothing is claimed of that state.
#[verifier::external_body]
fn new_token(live: &NameMap<TargetEntry>) -> (token: CancellationToken)
    ensures
        forall|name: Seq<char>| #[trigger]
            live@.contains_key(name) ==> token != live@[name].cancel,
{
    CancellationToken::new()
}

/// `CancellationToken::clone`: a handle of the same token. The crate's own
/// `==` takes a token and its clone for one: they share one state, and to
/// cancel either is to cancel both.
#[verifier::external_body]
pub(crate) fn clone_token(token: &CancellationToken) -> (copy: CancellationToken)
    ensures
        copy == *token,
{
    token.clone()
}

/// `CancellationToken::cancel`: cancels the token and every clone of it; a
/// token that is cancelled stays so. The state of a token lies behind the
/// value, so nothing is claimed here.
#[verifier::external_body]
fn cancel_token(token: &CancellationToken) {
    token.cancel()
}

/// The capacity that a channel was made with: how many values it keeps for
/// a receiver that lags. It is fixed when the channel is made and is the
/// same for every handle of it.
pub uninterp spec fn capacity_of(tx: Sender<String>) -> usize;

/// `tokio::sync::broadcast::channel`, of which the sending half is kept:
/// the channel is made with the capacity asked for. It panics on a capacity
/// of zero or above half of `usize::MAX`. (What it allocates is the next
/// power of two, so it may keep more than the capacity, never less.)
#[verifier::external_body]
fn open_channel(capacity: usize) -> (tx: Sender<String>)
    requires
        0 < capacity <= usize::MAX / 2,
    ensures
        capacity_of(tx) == capacity,
{
    tokio::sync::broadcast::channel(capacity).0
}

/// `Sender::send`: hands a value to the subscribers there are at this
/// moment. How many there are is not known here, so nothing is claimed of
/// the result.
#[verifier::external_body]
fn send_name(tx: &Sender<String>, name: String) -> Result<usize, SendError<String>> {
    tx.send(name)
}

/// The channel that a receiver listens on. It is fixed when the receiver is
/// made.
pub uninterp spec fn channel_of(rx: Receiver<String>) -> Sender<String>;

/// `Sender::subscribe`: a receiver on the channel of this sender, for what
/// is sent from now on. It panics only where the channel already has as
/// many receivers as it can count.
#[verifier::external_body]
fn new_receiver(tx: &Sender<String>) -> (rx: Receiver<String>)
    ensures
        channel_of(rx) == *tx,
{
    tx.subscribe()
}

/// Why a configuration message was not taken into a store.
#[derive(Clone, Copy, Debug, PartialEq, Eq, Structural)]
pub enum ParseError {
    /// A part that the message must have is absent or empty.
    MissingFields,
    /// A part of the message is present and cannot be used.
    InvalidSchema,
}

impl ParseError {
    /// The reason in words.
    pub fn message(&self) -> (text: &'static str)
        ensures
            text@ == match *self {
                ParseError::MissingFields => "missing fields"@,
                ParseError::InvalidSchema => "invalid schema"@,
            },
    {
        match self {
            ParseError::MissingFields => "missing fields",
            ParseError::InvalidSchema => "invalid schema",
        }
    }
}

/// One entry of the target store.
pub struct TargetEntry {
    target: Target,
    proto: XdsTarget,
    cancel: CancellationToken,
    signal: Ghost<nat>,
}

/// What the target store holds under one name: the decoded target, the
/// message it was decoded from, and the cancellation signal of the entry.
pub struct TargetEntryView {
    pub target: TargetView,
    pub proto: XdsTarget,
    /// The handle of the signal, as it is handed to those who read the
    /// target.
    pub cancel: CancellationToken,
    /// The number of the signal. The store numbers the signals that it
    /// makes, one after the other, and makes a new one for every entry that
    /// it installs.
    pub signal: nat,
}

impl View for TargetEntry {
    type V = TargetEntryView;

    closed spec fn view(&self) -> TargetEntryView {
        TargetEntryView {
            target: self.target@,
            proto: self.proto,
            cancel: self.cancel,
            signal: self.signal@,
        }
    }
}

/// The state of the target store.
pub struct TargetStoreView {
    /// The entries by name.
    pub entries: Map<Seq<char>, TargetEntryView>,
    /// The names handed to the change channel so far, oldest first. This
    /// is the store's own record, written where the name is handed over.
    pub notified: Seq<Seq<char>>,
    /// The signals that the store has fired, by number. This is the
    /// store's own record, written where the signal is fired.
    pub fired: Set<nat>,
    /// How many signals the store has made so far; the next one gets this
    /// number.
    pub issued: nat,
    /// The change channel of the store.
    pub channel: Sender<String>,
    /// The capacity that the change channel was made with. The channel
    /// keeps at least that many notifications for a subscriber that lags:
    /// as many as the next power of two.
    pub backlog: usize,
}

impl TargetStoreView {
    /// The signals fired once the entry under `name`, if there is one, has
    /// been given up.
    pub open spec fn retiring(self, name: Seq<char>) -> Set<nat> {
        if self.entries.contains_key(name) {
            self.fired.insert(self.entries[name].signal)
        } else {
            self.fired
        }
    }

    /// The state after `name` was removed: its signal is fired, its entry is
    /// gone, and the name was notified.
    pub open spec fn removed(self, name: Seq<char>) -> TargetStoreView {
        TargetStoreView {
            entries: self.entries.remove(name),
            notified: self.notified.push(name),
            fired: self.retiring(name),
            ..self
        }
    }

    /// The state after `target`, decoded from `proto`, was installed with a
    /// signal of its own, whose handle is `cancel`: the signal gets the next
    /// number, the signal of an entry that is replaced is fired, and the
    /// name was notified.
    pub open spec fn installed(
        self,
        target: TargetView,
        proto: XdsTarget,
        cancel: CancellationToken,
    ) -> TargetStoreView {
        TargetStoreView {
            entries: self.entries.insert(
                target.name,
                TargetEntryView { target, proto, cancel, signal: self.issued },
            ),
            notified: self.notified.push(target.name),
            fired: self.retiring(target.name),
            issued: self.issued + 1,
            ..self
        }
    }

    /// The decoded target under each name.
    pub open spec fn targets(self) -> Map<Seq<char>, TargetView> {
        self.entries.map_values(|e: TargetEntryView| e.target)
    }

    /// The message under each name.
    pub open spec fn protos(self) -> Map<Seq<char>, XdsTarget> {
        self.entries.map_values(|e: TargetEntryView| e.proto)
    }

    /// The signal `id` is that of the entry under `name`.
    pub open spec fn signal_of(self, name: Seq<char>, id: nat) -> bool {
        self.entries.contains_key(name) && self.entries[name].signal == id
    }

    /// What holds of every store: each entry stands under the name of its
    /// target, which is what its message decodes to; every entry has a
    /// signal of its own, by its number and by its handle, one that the
    /// store made; no signal of an entry is fired; and the capacity is that
    /// of the channel.
    pub open spec fn valid(self) -> bool {
        &&& entries_agree(self.entries)
        &&& forall|name: Seq<char>| #[trigger]
            self.entries.contains_key(name) ==> self.entries[name].signal < self.issued
                && !self.fired.contains(self.entries[name].signal)
        &&& forall|a: Seq<char>, b: Seq<char>|
            #[trigger] self.entries.contains_key(a) && #[trigger] self.entries.contains_key(b) && (
            self.entries[a].signal == self.entries[b].signal || self.entries[a].cancel
                == self.entries[b].cancel) ==> a == b
        &&& forall|id: nat| #[trigger] self.fired.contains(id) ==> id < self.issued
        &&& self.backlog == capacity_of(self.channel)
    }
}

/// Every entry stands under the name of its target, and its target is what
/// its message decodes to.
pub open spec fn entries_agree(entries: Map<Seq<char>, TargetEntryView>) -> bool {
    forall|name: Seq<char>| #[trigger]
        entries.contains_key(name) ==> entries[name].target.name == name && decoded(
            entries[name].proto,
        ) == Ok::<TargetView, ParseError>(entries[name].target)
}

/// The targets that the proxy can reach, by name. Each entry owns a
/// cancellation signal; work bound to a target is aborted when the store
/// fires it, which it does when the entry is removed or replaced.
pub struct TargetStore {
    by_name: NameMap<TargetEntry>,
    broadcast_tx: Sender<String>,
    notified: Ghost<Seq<Seq<char>>>,
    fired: Ghost<Set<nat>>,
    issued: Ghost<nat>,
}

impl View for TargetStore {
    type V = TargetStoreView;

    closed spec fn view(&self) -> TargetStoreView {
        TargetStoreView {
            entries: self.by_name@.map_values(|e: TargetEntry| e@),
            notified: self.notified@,
            fired: self.fired@,
            issued: self.issued@,
            channel: self.broadcast_tx,
            backlog: capacity_of(self.broadcast_tx),
        }
    }
}

impl TargetStore {
    /// No name is held twice, and every decoded target is valid in itself.
    pub closed spec fn inv(&self) -> bool {
        &&& self.by_name.wf()
        &&& forall|name: Seq<char>| #[trigger]
            self.by_name@.contains_key(name) ==> self.by_name@[name].target.wf()
    }

    /// The store is sound within, and its state is valid.
    pub open spec fn wf(&self) -> bool {
        self.inv() && self@.valid()
    }

    /// The names held, in the order in which they were last inserted.
    pub closed spec fn names(&self) -> Seq<Seq<char>> {
        self.by_name.names()
    }

    /// An empty store with a change channel of its own, made with a
    /// capacity of `BROADCAST_BACKLOG`.
    pub fn new() -> (store: Self)
        ensures
            store.wf(),
            store@ == (TargetStoreView {
                entries: Map::empty(),
                notified: Seq::empty(),
                fired: Set::empty(),
                issued: 0,
                backlog: BROADCAST_BACKLOG,
                ..store@
            }),
            store.names() == Seq::<Seq<char>>::empty(),
    {
        TargetStore::with_backlog(BROADCAST_BACKLOG).unwrap()
    }

    /// An empty store whose change channel is made with a capacity of
    /// `backlog`: the capacity asked for. The channel keeps at least that
    /// many notifications for a subscriber that lags, as many as the next
    /// power of two. There is no channel with a capacity of zero or of more
    /// than half of what a `usize` can count.
    pub fn with_backlog(backlog: usize) -> (r: Option<Self>)
        ensures
            r is Some <==> 0 < backlog <= usize::MAX / 2,
            r matches Some(store) ==> store.wf() && store@ == (TargetStoreView {
                entries: Map::empty(),
                notified: Seq::empty(),
                fired: Set::empty(),
                issued: 0,
                backlog,
                ..store@
            }) && store.names() == Seq::<Seq<char>>::empty(),
    {
        if backlog == 0 || backlog > usize::MAX / 2 {
            return None;
        }
        let store = TargetStore {
            by_name: NameMap::new(),
            broadcast_tx: open_channel(backlog),
            notified: Ghost(Seq::empty()),
            fired: Ghost(Set::empty()),
            issued: Ghost(0),
        };
        assert(store@.entries =~= Map::<Seq<char>, TargetEntryView>::empty());
        Some(store)
    }

    /// Fires the signal of the entry under `name`, if there is one, and takes
    /// the entry out.
    fn retire(&mut self, name: &str)
        requires
            old(self).wf(),
        ensures
            final(self).wf(),
            final(self)@ == (TargetStoreView {
                entries: old(self)@.entries.remove(name@),
                fired: old(self)@.retiring(name@),
                ..old(self)@
            }),
            final(self).names() == crate::names::without(old(self).names(), name@),
    {
        match self.by_name.get(name) {
            Some(entry) => {
                cancel_token(&entry.cancel);
                self.fired = Ghost(self.fired@.insert(entry.signal@));
            },
            None => {},
        }
        self.by_name.remove(name);
        assert(self@.entries =~= old(self)@.entries.remove(name@));
    }

    /// Hands `name` to the change channel. Whether a subscriber is there to
    /// take it makes no difference to the store.
    fn notify(&mut self, name: String)
        requires
            old(self).wf(),
        ensures
            final(self).wf(),
            final(self)@ == (TargetStoreView {
                notified: old(self)@.notified.push(name@),
                ..old(self)@
            }),
            final(self).names() == old(self).names(),
    {
        self.notified = Ghost(self.notified@.push(name@));
        let _ = send_name(&self.broadcast_tx, name);
    }

    /// Removes the target `name`: fires its cancellation signal, drops the
    /// decoded target and its message, and notifies the name. Where no
    /// target of that name is held, only the name is notified.
    pub fn remove(&mut self, name: &str)
        requires
            old(self).wf(),
        ensures
            final(self).wf(),
            final(self)@ == old(self)@.removed(name@),
            final(self).names() == crate::names::without(old(self).names(), name@),
    {
        self.retire(name);
        self.notify(name.to_owned());
    }

    /// Decodes `target` and installs it under its name, with a cancellation
    /// signal that the store makes for this entry. Its handle is that of no
    /// entry held before, the replaced one among them; by the store's count
    /// it has a number of its own and is not fired. The signal of an entry
    /// that is replaced is fired first. A message that does not decode
    /// leaves the store as it was.
    pub fn insert(&mut self, target: XdsTarget) -> (r: Result<(), ParseError>)
        requires
            old(self).wf(),
        ensures
            final(self).wf(),
            match r {
                Ok(()) => decoded(target) is Ok && final(self)@.entries.contains_key(target.name@)
                    && final(self)@ == old(self)@.installed(
                    decoded(target).unwrap(),
                    target,
                    final(self)@.entries[target.name@].cancel,
                ),
                Err(e) => decoded(target) == Err::<TargetView, ParseError>(e) && final(self)@
                    == old(self)@,
            },
            final(self).names() == if r is Ok {
                crate::names::without(old(self).names(), target.name@).push(target.name@)
            } else {
                old(self).names()
            },
            r is Ok ==> forall|name: Seq<char>| #[trigger]
                old(self)@.entries.contains_key(name) ==> final(self)@.entries[target.name@].cancel
                    != old(self)@.entries[name].cancel,
    {
        let outbound_target = match Target::decode(&target) {
            Ok(decoded) => decoded,
            Err(e) => {
                return Err(e);
            },
        };
        let target_name = target.name.clone();
        let cancel = new_token(&self.by_name);
        proof {
            assert forall|name: Seq<char>| #[trigger]
                old(self)@.entries.contains_key(name) implies cancel != old(
                self,
            )@.entries[name].cancel by {
                assert(self.by_name@.contains_key(name));
            }
        }
        self.retire(target_name.as_str());
        let entry = TargetEntry {
            target: outbound_target,
            proto: target,
            cancel,
            signal: Ghost(self.issued@),
        };
        let ghost installed = entry@;
        let ghost before = self@.entries;
        proof {
            crate::names::lemma_without_twice(old(self).names(), target.name@);
        }
        self.issued = Ghost(self.issued@ + 1);
        self.by_name.insert(target_name.clone(), entry);
        assert(self@.entries =~= before.insert(target.name@, installed));
        assert(self@.entries =~= old(self)@.entries.insert(target.name@, installed));
        self.notify(target_name);
        Ok(())
    }

    /// The decoded target under `name`, with the cancellation signal of its
    /// entry.
    pub fn get(&self, name: &str) -> (r: Option<(&Target, &CancellationToken)>)
        requires
            self.wf(),
        ensures
            match r {
                Some((target, cancel)) => self@.entries.contains_key(name@) && target@
                    == self@.entries[name@].target && *cancel == self@.entries[name@].cancel
                    && target.wf() && !self@.fired.contains(self@.entries[name@].signal),
                None => !self@.entries.contains_key(name@),
            },
    {
        match self.by_name.get(name) {
            Some(entry) => Some((&entry.target, &entry.cancel)),
            None => None,
        }
    }

    /// The message that the target under `name` was decoded from.
    pub fn get_proto(&self, name: &str) -> (r: Option<&XdsTarget>)
        requires
            self.wf(),
        ensures
            match r {
                Some(proto) => self@.entries.contains_key(name@) && *proto
                    == self@.entries[name@].proto && decoded(*proto) == Ok::<
                    TargetView,
                    ParseError,
                >(self@.entries[name@].target),
                None => !self@.entries.contains_key(name@),
            },
    {
        match self.by_name.get(name) {
            Some(entry) => Some(&entry.proto),
            None => None,
        }
    }

    /// The number of targets held.
    pub fn len(&self) -> (n: usize)
        requires
            self.wf(),
        ensures
            n == self.names().len(),
            n == self@.entries.dom().len(),
    {
        let n = self.by_name.len();
        proof {
            assert(self@.entries.dom() =~= self.by_name@.dom());
        }
        n
    }

    /// The targets held, each with its name and the cancellation signal of
    /// its entry, in the order of `names`.
    pub fn iter(&self) -> (all: Vec<(String, &Target, &CancellationToken)>)
        requires
            self.wf(),
        ensures
            all@.len() == self.names().len(),
            forall|i: int|
                0 <= i < all@.len() ==> {
                    let (name, target, cancel) = #[trigger] all@[i];
                    &&& name@ == self.names()[i]
                    &&& self@.entries.contains_key(name@)
                    &&& target@ == self@.entries[name@].target
                    &&& *cancel == self@.entries[name@].cancel
                },
            forall|name: Seq<char>|
                self@.entries.contains_key(name) ==> self.names().contains(name),
    {
        let mut all: Vec<(String, &Target, &CancellationToken)> = Vec::new();
        let n = self.by_name.len();
        proof {
            self.by_name.lemma_names_list_the_map();
        }
        let mut i: usize = 0;
        while i < n
            invariant
                i <= n,
                n == self.by_name.names().len(),
                n == self.by_name.values().len(),
                self.wf(),
                all@.len() == i,
                forall|j: int|
                    0 <= j < self.by_name.names().len() ==> self.by_name@.contains_key(
                        #[trigger] self.by_name.names()[j],
                    ) && self.by_name@[self.by_name.names()[j]] == self.by_name.values()[j],
                forall|j: int|
                    0 <= j < i ==> {
                        let (name, target, cancel) = #[trigger] all@[j];
                        &&& name@ == self.names()[j]
                        &&& self@.entries.contains_key(name@)
                        &&& target@ == self@.entries[name@].target
                        &&& *cancel == self@.entries[name@].cancel
                    },
            decreases n - i,
        {
            let name = self.by_name.name_at(i).clone();
            let entry = self.by_name.value_at(i);
            proof {
                assert(self.by_name@.contains_key(self.by_name.names()[i as int]));
            }
            all.push((name, &entry.target, &entry.cancel));
            i += 1;
        }
        all
    }

    /// The message of every target held, each with its name, in the order
    /// of `names`: what an operator is shown of the store.
    pub fn snapshot(&self) -> (all: Vec<(String, &XdsTarget)>)
        requires
            self.wf(),
        ensures
            all@.len() == self.names().len(),
            forall|i: int|
                0 <= i < all@.len() ==> {
                    let (name, proto) = #[trigger] all@[i];
                    &&& name@ == self.names()[i]
                    &&& self@.entries.contains_key(name@)
                    &&& *proto == self@.entries[name@].proto
                },
            forall|name: Seq<char>|
                self@.entries.contains_key(name) ==> self.names().contains(name),
    {
        let mut all: Vec<(String, &XdsTarget)> = Vec::new();
        let n = self.by_name.len();
        proof {
            self.by_name.lemma_names_list_the_map();
        }
        let mut i: usize = 0;
        while i < n
            invariant
                i <= n,
                n == self.by_name.names().len(),
                n == self.by_name.values().len(),
                self.wf(),
                all@.len() == i,
                forall|j: int|
                    0 <= j < self.by_name.names().len() ==> self.by_name@.contains_key(
                        #[trigger] self.by_name.names()[j],
                    ) && self.by_name@[self.by_name.names()[j]] == self.by_name.values()[j],
                forall|j: int|
                    0 <= j < i ==> {
                        let (name, proto) = #[trigger] all@[j];
                        &&& name@ == self.names()[j]
                        &&& self@.entries.contains_key(name@)
                        &&& *proto == self@.entries[name@].proto
                    },
            decreases n - i,
        {
            let name = self.by_name.name_at(i).clone();
            let entry = self.by_name.value_at(i);
            proof {
                assert(self.by_name@.contains_key(self.by_name.names()[i as int]));
            }
            all.push((name, &entry.proto));
            i += 1;
        }
        all
    }

    /// A receiver of the names that change from now on: a receiver on the
    /// change channel of this store, to which the store hands every name
    /// that it notifies.
    pub fn subscribe(&self) -> (rx: Receiver<String>)
        ensures
            channel_of(rx) == self@.channel,
    {
        new_receiver(&self.broadcast_tx)
    }
}

impl Default for TargetStore {
    fn default() -> (store: Self)
        ensures
            store.wf(),
            store@ == (TargetStoreView {
                entries: Map::empty(),
                notified: Seq::empty(),
                fired: Set::empty(),
                issued: 0,
                backlog: BROADCAST_BACKLOG,
                ..store@
            }),
            store.names() == Seq::<Seq<char>>::empty(),
    {
        Self::new()
    }
}

/// One entry of the policy store.
#[derive(Clone)]
pub struct PolicyEntry {
    rules: RuleSet,
    proto: XdsRbac,
}

/// What the policy store holds under one name: the decoded rule set and the
/// message it was decoded from.
pub struct PolicyEntryView {
    pub rules: RuleSetView,
    pub proto: XdsRbac,
}

impl View for PolicyEntry {
    type V = PolicyEntryView;

    closed spec fn view(&self) -> PolicyEntryView {
        PolicyEntryView { rules: self.rules@, proto: self.proto }
    }
}

/// Every entry stands under the name of its rule set, and its rule set is
/// what its message decodes to.
pub open spec fn policies_agree(entries: Map<Seq<char>, PolicyEntryView>) -> bool {
    forall|name: Seq<char>| #[trigger]
        entries.contains_key(name) ==> entries[name].rules.name == name && crate::rbac::decoded(
            entries[name].proto,
        ) == Ok::<RuleSetView, ParseError>(entries[name].rules)
}

/// Some rule of some policy permits the caller to reach the resource.
pub open spec fn policies_permit(
    entries: Map<Seq<char>, PolicyEntryView>,
    resource: ResourceTypeView,
    identity: Map<Seq<char>, Seq<char>>,
) -> bool {
    exists|name: Seq<char>| #[trigger]
        entries.contains_key(name) && rules_permit(entries[name].rules.rules, resource, identity)
}

/// The policies in force, by name. A policy owns no cancellation signal: a
/// change takes effect with the next request.
#[derive(Clone)]
pub struct PolicyStore {
    by_name: NameMap<PolicyEntry>,
}

impl View for PolicyStore {
    type V = Map<Seq<char>, PolicyEntryView>;

    closed spec fn view(&self) -> Map<Seq<char>, PolicyEntryView> {
        self.by_name@.map_values(|e: PolicyEntry| e@)
    }
}

impl PolicyStore {
    /// No name is held twice.
    pub closed spec fn inv(&self) -> bool {
        self.by_name.wf()
    }

    /// The store is sound within, and every entry stands under the name of
    /// its rule set, which is what its message decodes to.
    pub open spec fn wf(&self) -> bool {
        self.inv() && policies_agree(self@)
    }

    /// The names held, in the order in which they were last inserted.
    pub closed spec fn names(&self) -> Seq<Seq<char>> {
        self.by_name.names()
    }

    /// An empty store.
    pub fn new() -> (store: Self)
        ensures
            store.wf(),
            store@ == Map::<Seq<char>, PolicyEntryView>::empty(),
            store.names() == Seq::<Seq<char>>::empty(),
    {
        let store = PolicyStore { by_name: NameMap::new() };
        assert(store@ =~= Map::<Seq<char>, PolicyEntryView>::empty());
        store
    }

    /// Decodes `policy` and installs it under its name, in place of what was
    /// there. A message that does not decode leaves the store as it was.
    pub fn insert(&mut self, policy: XdsRbac) -> (r: Result<(), ParseError>)
        requires
            old(self).wf(),
        ensures
            final(self).wf(),
            match r {
                Ok(()) => crate::rbac::decoded(policy) is Ok && final(self)@ == old(self)@.insert(
                    policy.name@,
                    PolicyEntryView { rules: crate::rbac::decoded(policy).unwrap(), proto: policy },
                ),
                Err(e) => crate::rbac::decoded(policy) == Err::<RuleSetView, ParseError>(e)
                    && final(self)@ == old(self)@,
            },
            final(self).names() == if r is Ok {
                crate::names::without(old(self).names(), policy.name@).push(policy.name@)
            } else {
                old(self).names()
            },
    {
        let rule_set = match RuleSet::try_from(&policy) {
            Ok(rules) => rules,
            Err(e) => {
                return Err(e);
            },
        };
        let policy_name = policy.name.clone();
        let entry = PolicyEntry { rules: rule_set, proto: policy };
        let ghost installed = entry@;
        self.by_name.insert(policy_name, entry);
        assert(self@ =~= old(self)@.insert(policy.name@, installed));
        Ok(())
    }

    /// The decoded rule set under `name`.
    pub fn get(&self, name: &str) -> (r: Option<&RuleSet>)
        requires
            self.wf(),
        ensures
            match r {
                Some(rules) => self@.contains_key(name@) && rules@ == self@[name@].rules,
                None => !self@.contains_key(name@),
            },
    {
        match self.by_name.get(name) {
            Some(entry) => Some(&entry.rules),
            None => None,
        }
    }

    /// The message that the policy under `name` was decoded from.
    pub fn get_proto(&self, name: &str) -> (r: Option<&XdsRbac>)
        requires
            self.wf(),
        ensures
            match r {
                Some(proto) => self@.contains_key(name@) && *proto == self@[name@].proto
                    && crate::rbac::decoded(*proto) == Ok::<RuleSetView, ParseError>(
                    self@[name@].rules,
                ),
                None => !self@.contains_key(name@),
            },
    {
        match self.by_name.get(name) {
            Some(entry) => Some(&entry.proto),
            None => None,
        }
    }

    /// Removes the policy `name`: the decoded rule set and its message.
    pub fn remove(&mut self, name: &str)
        requires
            old(self).wf(),
        ensures
            final(self).wf(),
            final(self)@ == old(self)@.remove(name@),
            final(self).names() == crate::names::without(old(self).names(), name@),
    {
        self.by_name.remove(name);
        assert(self@ =~= old(self)@.remove(name@));
    }

    /// Whether any rule of any policy permits `claims` to reach `resource`.
    pub fn validate(&self, resource: &ResourceType, claims: &Identity) -> (b: bool)
        requires
            self.wf(),
            claims.wf(),
        ensures
            b == policies_permit(self@, resource@, claims@),
    {
        let n = self.by_name.len();
        proof {
            self.by_name.lemma_names_list_the_map();
        }
        let mut i: usize = 0;
        while i < n
            invariant
                i <= n,
                n == self.by_name.names().len(),
                n == self.by_name.values().len(),
                claims.wf(),
                forall|j: int|
                    0 <= j < n ==> self.by_name@.contains_key(#[trigger] self.by_name.names()[j])
                        && self.by_name@[self.by_name.names()[j]] == self.by_name.values()[j],
                forall|name: Seq<char>|
                    self.by_name@.contains_key(name) ==> self.by_name.names().contains(name),
                forall|j: int|
                    0 <= j < i ==> !rules_permit(
                        (#[trigger] self.by_name.values()[j])@.rules.rules,
                        resource@,
                        claims@,
                    ),
            decreases n - i,
        {
            let policy = self.by_name.value_at(i);
            if policy.rules.validate(resource, claims) {
                proof {
                    let name = self.by_name.names()[i as int];
                    assert(self.by_name@.contains_key(name));
                    assert(self@.contains_key(name));
                }
                return true;
            }
            i += 1;
        }
        proof {
            assert forall|name: Seq<char>| #[trigger] self@.contains_key(name) implies !rules_permit(
                self@[name].rules.rules,
                resource@,
                claims@,
            ) by {
                assert(self.by_name@.contains_key(name));
                assert(self.by_name.names().contains(name));
                let j = choose|j: int|
                    0 <= j < self.by_name.names().len() && self.by_name.names()[j] == name;
                assert(self.by_name@.contains_key(self.by_name.names()[j]));
                assert(self.by_name.values()[j]@ == self@[name]);
            }
        }
        false
    }

    /// The number of policies held.
    pub fn len(&self) -> (n: usize)
        requires
            self.wf(),
        ensures
            n == self.names().len(),
            n == self@.dom().len(),
    {
        let n = self.by_name.len();
        proof {
            assert(self@.dom() =~= self.by_name@.dom());
        }
        n
    }

    /// The message of every policy held, each with its name, in the order
    /// of `names`: what an operator is shown of the store.
    pub fn snapshot(&self) -> (all: Vec<(String, &XdsRbac)>)
        requires
            self.wf(),
        ensures
            all@.len() == self.names().len(),
            forall|i: int|
                0 <= i < all@.len() ==> {
                    let (name, proto) = #[trigger] all@[i];
                    &&& name@ == self.names()[i]
                    &&& self@.contains_key(name@)
                    &&& *proto == self@[name@].proto
                },
            forall|name: Seq<char>| self@.contains_key(name) ==> self.names().contains(name),
    {
        let mut all: Vec<(String, &XdsRbac)> = Vec::new();
        let n = self.by_name.len();
        proof {
            self.by_name.lemma_names_list_the_map();
        }
        let mut i: usize = 0;
        while i < n
            invariant
                i <= n,
                n == self.by_name.names().len(),
                n == self.by_name.values().len(),
                self.wf(),
                all@.len() == i,
                forall|j: int|
                    0 <= j < self.by_name.names().len() ==> self.by_name@.contains_key(
                        #[trigger] self.by_name.names()[j],
                    ) && self.by_name@[self.by_name.names()[j]] == self.by_name.values()[j],
                forall|j: int|
                    0 <= j < i ==> {
                        let (name, proto) = #[trigger] all@[j];
                        &&& name@ == self.names()[j]
                        &&& self@.contains_key(name@)
                        &&& *proto == self@[name@].proto
                    },
            decreases n - i,
        {
            let name = self.by_name.name_at(i).clone();
            let entry = self.by_name.value_at(i);
            proof {
                assert(self.by_name@.contains_key(self.by_name.names()[i as int]));
            }
            all.push((name, &entry.proto));
            i += 1;
        }
        all
    }

    /// Removes every policy.
    pub fn clear(&mut self)
        ensures
            final(self).wf(),
            final(self)@ == Map::<Seq<char>, PolicyEntryView>::empty(),
            final(self).names() == Seq::<Seq<char>>::empty(),
    {
        self.by_name.clear();
        assert(self@ =~= Map::<Seq<char>, PolicyEntryView>::empty());
    }
}

impl Default for PolicyStore {
    fn default() -> (store: Self)
        ensures
            store.wf(),
            store@ == Map::<Seq<char>, PolicyEntryView>::empty(),
            store.names() == Seq::<Seq<char>>::empty(),
    {
        Self::new()
    }
}

/// The configuration that requests are served from. Every change is made by
/// one writer that holds the store for a whole batch.
pub struct XdsStore {
    pub targets: TargetStore,
    pub policies: PolicyStore,
}

impl XdsStore {
    /// Both stores are valid.
    pub open spec fn wf(&self) -> bool {
        self.targets.wf() && self.policies.wf()
    }

    /// An empty store.
    pub fn new() -> (store: Self)
        ensures
            store.wf(),
            store.targets@ == (TargetStoreView {
                entries: Map::empty(),
                notified: Seq::empty(),
                fired: Set::empty(),
                issued: 0,
                backlog: BROADCAST_BACKLOG,
                ..store.targets@
            }),
            store.targets.names() == Seq::<Seq<char>>::empty(),
            store.policies@ == Map::<Seq<char>, PolicyEntryView>::empty(),
            store.policies.names() == Seq::<Seq<char>>::empty(),
    {
        XdsStore { targets: TargetStore::new(), policies: PolicyStore::new() }
    }
}

/// Every change to the stores goes through here, on a store that the caller
/// holds for writing.
#[derive(Clone, Copy, Debug)]
pub struct ProxyStateUpdateMutator {}

impl ProxyStateUpdateMutator {
    /// Installs a target. See [`TargetStore::insert`].
    pub fn insert_target(&self, state: &mut XdsStore, target: XdsTarget) -> (r: Result<
        (),
        ParseError,
    >)
        requires
            old(state).wf(),
        ensures
            final(state).wf(),
            final(state).policies == old(state).policies,
            match r {
                Ok(()) => target.fault() is None && final(state).targets@.entries.contains_key(
                    target.name@,
                ) && final(state).targets@ == old(state).targets@.installed(
                    decoded(target).unwrap(),
                    target,
                    final(state).targets@.entries[target.name@].cancel,
                ),
                Err(e) => target.fault() == Some(e) && final(state).targets@ == old(
                    state,
                ).targets@,
            },
            final(state).targets.names() == if r is Ok {
                crate::names::without(old(state).targets.names(), target.name@).push(target.name@)
            } else {
                old(state).targets.names()
            },
    {
        state.targets.insert(target)
    }

    /// Removes a target. See [`TargetStore::remove`].
    pub fn remove_target(&self, state: &mut XdsStore, xds_name: &str)
        requires
            old(state).wf(),
        ensures
            final(state).wf(),
            final(state).policies == old(state).policies,
            final(state).targets@ == old(state).targets@.removed(xds_name@),
            final(state).targets.names() == crate::names::without(
                old(state).targets.names(),
                xds_name@,
            ),
    {
        state.targets.remove(xds_name);
    }

    /// Installs a policy. See [`PolicyStore::insert`].
    pub fn insert_rbac(&self, state: &mut XdsStore, rbac: XdsRbac) -> (r: Result<(), ParseError>)
        requires
            old(state).wf(),
        ensures
            final(state).wf(),
            final(state).targets == old(state).targets,
            match r {
                Ok(()) => rbac.fault() is None && final(state).policies@ == old(
                    state,
                ).policies@.insert(
                    rbac.name@,
                    PolicyEntryView { rules: crate::rbac::decoded(rbac).unwrap(), proto: rbac },
                ),
                Err(e) => rbac.fault() == Some(e) && final(state).policies@ == old(
                    state,
                ).policies@,
            },
            final(state).policies.names() == if r is Ok {
                crate::names::without(old(state).policies.names(), rbac.name@).push(rbac.name@)
            } else {
                old(state).policies.names()
            },
    {
        state.policies.insert(rbac)
    }

    /// Removes a policy. See [`PolicyStore::remove`].
    pub fn remove_rbac(&self, state: &mut XdsStore, xds_name: &str)
        requires
            old(state).wf(),
        ensures
            final(state).wf(),
            final(state).targets == old(state).targets,
            final(state).policies@ == old(state).policies@.remove(xds_name@),
            final(state).policies.names() == crate::names::without(
                old(state).policies.names(),
                xds_name@,
            ),
    {
        state.policies.remove(xds_name);
    }
}

/// The signal `id` was that of an entry of `before` which the batch
/// touches.
pub open spec fn given_up(
    before: TargetStoreView,
    updates: Seq<XdsUpdate<XdsTarget>>,
    id: nat,
) -> bool {
    exists|name: Seq<char>| touched(updates, name) && #[trigger] before.signal_of(name, id)
}

/// What a batch of target updates leaves of the store `before`.
/// - The messages held are those that the updates leave, and the names
///   notified are those that the batch announces.
/// - An entry that the batch does not touch is the entry it was, with the
///   signal it had. An entry that the batch installs has a signal that the
///   store made during the batch.
/// - The signal of every entry of `before` that the batch touches is fired.
///   No other signal of `before` is newly fired: what is newly fired was the
///   signal of such an entry, or was made during the batch.
/// - A batch that announces nothing makes and fires no signal.
pub open spec fn targets_after(
    before: TargetStoreView,
    updates: Seq<XdsUpdate<XdsTarget>>,
    after: TargetStoreView,
) -> bool {
    &&& after.protos() == applied(before.protos(), updates)
    &&& after.notified == before.notified + announced(updates)
    &&& after.backlog == before.backlog
    &&& after.channel == before.channel
    &&& before.issued <= after.issued
    &&& before.fired.subset_of(after.fired)
    &&& announced(updates).len() == 0 ==> after.fired == before.fired && after.issued
        == before.issued
    &&& forall|name: Seq<char>|
        !touched(updates, name) && #[trigger] before.entries.contains_key(name)
            ==> after.entries.contains_key(name) && after.entries[name] == before.entries[name]
    &&& forall|name: Seq<char>|
        touched(updates, name) && #[trigger] before.entries.contains_key(name)
            ==> after.fired.contains(before.entries[name].signal)
    &&& forall|name: Seq<char>|
        touched(updates, name) && #[trigger] after.entries.contains_key(name)
            ==> after.entries[name].signal >= before.issued
    &&& forall|id: nat| #[trigger]
        after.fired.contains(id) ==> before.fired.contains(id) || id >= before.issued
            || given_up(before, updates, id)
}

/// What one update leaves of the store: a removal removes, an upsert that
/// the store takes installs, and one that it rejects changes nothing.
pub open spec fn target_step(
    mid: TargetStoreView,
    update: XdsUpdate<XdsTarget>,
    post: TargetStoreView,
) -> bool {
    match update {
        XdsUpdate::Remove(name) => post == mid.removed(name@),
        XdsUpdate::Update(r) => match decoded(r.resource) {
            Ok(target) => post == mid.installed(
                target,
                r.resource,
                post.entries[r.resource.name@].cancel,
            ),
            Err(_) => post == mid,
        },
    }
}

/// One more update of a batch keeps what the batch leaves of the store.
pub proof fn lemma_targets_after_step(
    before: TargetStoreView,
    done: Seq<XdsUpdate<XdsTarget>>,
    mid: TargetStoreView,
    update: XdsUpdate<XdsTarget>,
    post: TargetStoreView,
)
    requires
        before.valid(),
        mid.valid(),
        targets_after(before, done, mid),
        target_step(mid, update, post),
    ensures
        targets_after(before, done.push(update), post),
{
    let next = done.push(update);
    let key = key_of(update);
    assert(next.drop_last() =~= done);
    assert(next.last() == update);
    assert forall|name: Seq<char>|
        touched(next, name) <==> touched(done, name) || (accepted(update) && key == name) by {
        lemma_touched_grows(next, name);
    }
    if accepted(update) {
        match update {
            XdsUpdate::Remove(name) => {
                assert(post.protos() =~= mid.protos().remove(name@));
            },
            XdsUpdate::Update(r) => {
                crate::outbound::lemma_decoded_keeps_name(r.resource);
                assert(post.protos() =~= mid.protos().insert(r.resource.name@, r.resource));
            },
        }
        assert(post.notified =~= before.notified + announced(next));
        // the entry under the key, where the store held one, is the one
        // that `before` held or one that the batch installed
        if mid.entries.contains_key(key) && !touched(done, key) {
            lemma_untouched_is_unchanged(before.protos(), done, key);
            assert(mid.protos().contains_key(key));
            assert(before.protos().contains_key(key));
            assert(before.entries.contains_key(key));
            assert(before.signal_of(key, mid.entries[key].signal));
        }
        assert forall|id: nat| #[trigger] post.fired.contains(id) implies before.fired.contains(id)
            || id >= before.issued || given_up(before, next, id) by {
            if mid.fired.contains(id) {
                if given_up(before, done, id) {
                    let name = choose|name: Seq<char>|
                        touched(done, name) && #[trigger] before.signal_of(name, id);
                    assert(touched(next, name) && before.signal_of(name, id));
                }
            } else {
                assert(mid.entries.contains_key(key) && id == mid.entries[key].signal);
                if !touched(done, key) {
                    assert(touched(next, key) && before.signal_of(key, id));
                }
            }
        }
        assert forall|name: Seq<char>|
            touched(next, name) && #[trigger] before.entries.contains_key(name)
                implies post.fired.contains(before.entries[name].signal) by {
            if !touched(done, name) {
                assert(mid.entries.contains_key(name));
            }
        }
    } else {
        assert(post.notified =~= before.notified + announced(next));
        assert forall|id: nat| #[trigger] post.fired.contains(id) implies before.fired.contains(id)
            || id >= before.issued || given_up(before, next, id) by {
            if given_up(before, done, id) {
                let name = choose|name: Seq<char>|
                    touched(done, name) && #[trigger] before.signal_of(name, id);
                assert(touched(next, name) && before.signal_of(name, id));
            }
        }
    }
}

/// What a batch of policy updates leaves of the store `before`.
pub open spec fn policies_after(
    before: Map<Seq<char>, PolicyEntryView>,
    updates: Seq<XdsUpdate<XdsRbac>>,
    after: Map<Seq<char>, PolicyEntryView>,
) -> bool {
    after.map_values(|e: PolicyEntryView| e.proto) == applied(
        before.map_values(|e: PolicyEntryView| e.proto),
        updates,
    )
}

/// The result of a handler: `Ok` where nothing was rejected, else the
/// rejections.
pub open spec fn handled(r: Result<(), Vec<RejectedConfig>>) -> Seq<(Seq<char>, ParseError)> {
    match r {
        Ok(()) => Seq::empty(),
        Err(rejects) => rejection_views(rejects@),
    }
}

/// How an update ended, with the rejection taken by its view.
pub open spec fn outcome_view(outcome: Option<RejectedConfig>) -> Option<(Seq<char>, ParseError)> {
    match outcome {
        Some(rejection) => Some(rejection@),
        None => None,
    }
}

/// The view of each outcome of a list.
pub open spec fn outcome_views(outcomes: Seq<Option<RejectedConfig>>) -> Seq<
    Option<(Seq<char>, ParseError)>,
> {
    outcomes.map_values(|o: Option<RejectedConfig>| outcome_view(o))
}

/// The outcomes are those of the updates, one for one.
pub open spec fn outcomes_of<T: ConfigMessage>(
    outcomes: Seq<Option<RejectedConfig>>,
    updates: Seq<XdsUpdate<T>>,
) -> bool {
    outcome_views(outcomes) == updates.map_values(|u: XdsUpdate<T>| rejection_of(u))
}

/// The rejections among the outcomes of a batch, in order.
pub fn collect_rejections(outcomes: Vec<Option<RejectedConfig>>) -> (rejects: Vec<RejectedConfig>)
    ensures
        rejection_views(rejects@) == present(outcome_views(outcomes@)),
{
    let mut rejects: Vec<RejectedConfig> = Vec::new();
    proof {
        assert(outcome_views(outcomes@.take(0)) =~= Seq::empty());
        assert(rejection_views(rejects@) =~= Seq::empty());
    }
    for outcome in it: outcomes
        invariant
            it.seq() == outcomes@,
            rejection_views(rejects@) == present(outcome_views(outcomes@.take(it.index() as int))),
    {
        proof {
            let next = outcome_views(outcomes@.take(it.index() + 1));
            assert(next.drop_last() =~= outcome_views(outcomes@.take(it.index() as int)));
            assert(next.last() == outcome_view(outcome));
        }
        match outcome {
            Some(rejection) => {
                proof {
                    assert(rejection_views(rejects@.push(rejection)) =~= rejection_views(
                        rejects@,
                    ).push(rejection@));
                }
                rejects.push(rejection);
            },
            None => {},
        }
    }
    proof {
        assert(outcomes@.take(outcomes@.len() as int) =~= outcomes@);
    }
    rejects
}

/// Puts a batch in the order in which a handler applies it: the removals
/// first, then the upserts, each group in the order it came in.
pub fn order_updates<T>(updates: Vec<XdsUpdate<T>>) -> (sorted: Vec<XdsUpdate<T>>)
    ensures
        sorted@ == ordered(updates@),
{
    let mut removes: Vec<XdsUpdate<T>> = Vec::new();
    let mut upserts: Vec<XdsUpdate<T>> = Vec::new();
    proof {
        assert(removes@ =~= removals_of(updates@.take(0)));
        assert(upserts@ =~= upserts_of(updates@.take(0)));
    }
    for update in it: updates
        invariant
            it.seq() == updates@,
            removes@ == removals_of(updates@.take(it.index() as int)),
            upserts@ == upserts_of(updates@.take(it.index() as int)),
    {
        proof {
            let next = updates@.take(it.index() + 1);
            assert(next.drop_last() =~= updates@.take(it.index() as int));
            assert(next.last() == update);
            lemma_ordered_grows(next);
        }
        match update {
            XdsUpdate::Remove(name) => removes.push(XdsUpdate::Remove(name)),
            XdsUpdate::Update(resource) => upserts.push(XdsUpdate::Update(resource)),
        }
    }
    proof {
        assert(updates@.take(updates@.len() as int) =~= updates@);
    }
    removes.append(&mut upserts);
    removes
}

impl ProxyStateUpdateMutator {
    /// Applies a batch of target updates in the order in which they stand,
    /// and says for each how it ended: absent where the store took it, else
    /// the rejection. An upsert that is rejected does not stop the rest of
    /// the batch.
    pub fn apply_targets(&self, state: &mut XdsStore, updates: Vec<XdsUpdate<XdsTarget>>) -> (outcomes:
        Vec<Option<RejectedConfig>>)
        requires
            old(state).wf(),
        ensures
            final(state).wf(),
            final(state).policies == old(state).policies,
            targets_after(old(state).targets@, updates@, final(state).targets@),
            final(state).targets.names() == order_after(old(state).targets.names(), updates@),
            outcomes_of(outcomes@, updates@),
    {
        let mut outcomes: Vec<Option<RejectedConfig>> = Vec::new();
        let ghost before = state.targets@;
        let ghost judge = |u: XdsUpdate<XdsTarget>| rejection_of(u);
        proof {
            assert(outcome_views(outcomes@) =~= updates@.take(0).map_values(judge));
            assert(before.notified + announced(updates@.take(0)) =~= before.notified);
            assert forall|name: Seq<char>| !touched(updates@.take(0), name) by {
                if touched(updates@.take(0), name) {
                    let i = choose|i: int| crate::xds::batch::touches(updates@.take(0), i, name);
                }
            }
        }
        for update in it: updates
            invariant
                it.seq() == updates@,
                state.wf(),
                state.policies == old(state).policies,
                before == old(state).targets@,
                before.valid(),
                judge == |u: XdsUpdate<XdsTarget>| rejection_of(u),
                targets_after(before, updates@.take(it.index() as int), state.targets@),
                state.targets.names() == order_after(
                    old(state).targets.names(),
                    updates@.take(it.index() as int),
                ),
                outcome_views(outcomes@) == updates@.take(it.index() as int).map_values(judge),
        {
            let ghost done = updates@.take(it.index() as int);
            let ghost next = updates@.take(it.index() + 1);
            let ghost mid = state.targets@;
            proof {
                assert(next =~= done.push(update));
                assert(next.map_values(judge) =~= done.map_values(judge).push(
                    rejection_of(update),
                ));
            }
            let outcome = match update {
                XdsUpdate::Update(r) => {
                    let name = r.name;
                    match self.insert_target(state, r.resource) {
                        Ok(()) => None,
                        Err(reason) => Some(RejectedConfig::new(name, reason)),
                    }
                },
                XdsUpdate::Remove(name) => {
                    self.remove_target(state, name.as_str());
                    None
                },
            };
            proof {
                lemma_targets_after_step(before, done, mid, update, state.targets@);
                assert(next.drop_last() =~= done);
                assert(next.last() == update);
            }
            proof {
                assert(outcome_views(outcomes@.push(outcome)) =~= outcome_views(outcomes@).push(
                    outcome_view(outcome),
                ));
            }
            outcomes.push(outcome);
        }
        proof {
            assert(updates@.take(updates@.len() as int) =~= updates@);
        }
        outcomes
    }

    /// Handles a batch of target updates: the removals are applied first,
    /// then the upserts. `Ok` where the store took every one; else the
    /// rejections, the rest of the batch being applied all the same.
    pub fn handle_targets(&self, state: &mut XdsStore, updates: Vec<XdsUpdate<XdsTarget>>) -> (r:
        Result<(), Vec<RejectedConfig>>)
        requires
            old(state).wf(),
        ensures
            final(state).wf(),
            final(state).policies == old(state).policies,
            targets_after(old(state).targets@, ordered(updates@), final(state).targets@),
            final(state).targets.names() == order_after(
                old(state).targets.names(),
                ordered(updates@),
            ),
            handled(r) == rejections(ordered(updates@)),
            r is Ok <==> rejections(ordered(updates@)).len() == 0,
            final(state).targets@.entries.dom() == old(state).targets@.entries.dom().difference(
                crate::xds::laws::touched_names(removals_of(updates@)),
            ).union(crate::xds::laws::touched_names(upserts_of(updates@))),
    {
        proof {
            crate::xds::laws::lemma_names_after_batch(old(state).targets@.protos(), updates@);
            assert(old(state).targets@.protos().dom() =~= old(state).targets@.entries.dom());
        }
        let rejects = collect_rejections(self.apply_targets(state, order_updates(updates)));
        proof {
            assert(state.targets@.protos().dom() =~= state.targets@.entries.dom());
        }
        if rejects.len() == 0 {
            assert(rejections(ordered(updates@)) =~= Seq::empty());
            Ok(())
        } else {
            Err(rejects)
        }
    }

    /// Applies a batch of policy updates in the order in which they stand,
    /// and says for each how it ended: absent where the store took it, else
    /// the rejection. An upsert that is rejected does not stop the rest of
    /// the batch.
    pub fn apply_rbac(&self, state: &mut XdsStore, updates: Vec<XdsUpdate<XdsRbac>>) -> (outcomes:
        Vec<Option<RejectedConfig>>)
        requires
            old(state).wf(),
        ensures
            final(state).wf(),
            final(state).targets == old(state).targets,
            policies_after(old(state).policies@, updates@, final(state).policies@),
            final(state).policies.names() == order_after(old(state).policies.names(), updates@),
            outcomes_of(outcomes@, updates@),
    {
        let mut outcomes: Vec<Option<RejectedConfig>> = Vec::new();
        let ghost before = state.policies@;
        let ghost judge = |u: XdsUpdate<XdsRbac>| rejection_of(u);
        proof {
            assert(outcome_views(outcomes@) =~= updates@.take(0).map_values(judge));
        }
        for update in it: updates
            invariant
                it.seq() == updates@,
                state.wf(),
                state.targets == old(state).targets,
                before == old(state).policies@,
                judge == |u: XdsUpdate<XdsRbac>| rejection_of(u),
                policies_after(before, updates@.take(it.index() as int), state.policies@),
                state.policies.names() == order_after(
                    old(state).policies.names(),
                    updates@.take(it.index() as int),
                ),
                outcome_views(outcomes@) == updates@.take(it.index() as int).map_values(judge),
        {
            let ghost done = updates@.take(it.index() as int);
            let ghost next = updates@.take(it.index() + 1);
            let ghost mid = state.policies@;
            proof {
                assert(next.drop_last() =~= done);
                assert(next.last() == update);
                assert(next.map_values(judge) =~= done.map_values(judge).push(
                    rejection_of(update),
                ));
            }
            let outcome = match update {
                XdsUpdate::Update(r) => {
                    let name = r.name;
                    match self.insert_rbac(state, r.resource) {
                        Ok(()) => {
                            proof {
                                assert(state.policies@.map_values(|e: PolicyEntryView| e.proto)
                                    =~= mid.map_values(|e: PolicyEntryView| e.proto).insert(
                                    r.resource.name@,
                                    r.resource,
                                ));
                            }
                            None
                        },
                        Err(reason) => Some(RejectedConfig::new(name, reason)),
                    }
                },
                XdsUpdate::Remove(name) => {
                    self.remove_rbac(state, name.as_str());
                    proof {
                        assert(state.policies@.map_values(|e: PolicyEntryView| e.proto)
                            =~= mid.map_values(|e: PolicyEntryView| e.proto).remove(name@));
                    }
                    None
                },
            };
            proof {
                assert(outcome_views(outcomes@.push(outcome)) =~= outcome_views(outcomes@).push(
                    outcome_view(outcome),
                ));
            }
            outcomes.push(outcome);
        }
        proof {
            assert(updates@.take(updates@.len() as int) =~= updates@);
        }
        outcomes
    }

    /// Handles a batch of policy updates: the removals are applied first,
    /// then the upserts. `Ok` where the store took every one; else the
    /// rejections, the rest of the batch being applied all the same.
    pub fn handle_rbac(&self, state: &mut XdsStore, updates: Vec<XdsUpdate<XdsRbac>>) -> (r:
        Result<(), Vec<RejectedConfig>>)
        requires
            old(state).wf(),
        ensures
            final(state).wf(),
            final(state).targets == old(state).targets,
            policies_after(old(state).policies@, ordered(updates@), final(state).policies@),
            final(state).policies.names() == order_after(
                old(state).policies.names(),
                ordered(updates@),
            ),
            handled(r) == rejections(ordered(updates@)),
            r is Ok <==> rejections(ordered(updates@)).len() == 0,
            final(state).policies@.dom() == old(state).policies@.dom().difference(
                crate::xds::laws::touched_names(removals_of(updates@)),
            ).union(crate::xds::laws::touched_names(upserts_of(updates@))),
    {
        proof {
            let held = old(state).policies@.map_values(|e: PolicyEntryView| e.proto);
            crate::xds::laws::lemma_names_after_batch(held, updates@);
            assert(held.dom() =~= old(state).policies@.dom());
        }
        let rejects = collect_rejections(self.apply_rbac(state, order_updates(updates)));
        proof {
            assert(state.policies@.map_values(|e: PolicyEntryView| e.proto).dom()
                =~= state.policies@.dom());
        }
        if rejects.len() == 0 {
            assert(rejections(ordered(updates@)) =~= Seq::empty());
            Ok(())
        } else {
            Err(rejects)
        }
    }
}

} // verus!
