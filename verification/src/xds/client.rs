//! The client side of the incremental configuration protocol: what the
//! proxy tracks of each resource type, what it asks when a stream opens,
//! and how it answers each frame that the control plane pushes.

use crate::names::NameMap;
use crate::proto::text_map;
use crate::proto::{XdsRbac, XdsTarget};
use crate::xds::batch::{applied, rejection_of, rejections, ConfigMessage};
use crate::xds::types::{
    rejection_text, rejection_views, RejectedConfig, XdsResource, XdsUpdate, RBAC_TYPE,
    TARGET_TYPE,
};
use crate::xds::{
    collect_rejections, outcome_views, outcomes_of, policies_after, targets_after, ParseError,
    ProxyStateUpdateMutator, XdsStore,
};
use vstd::arithmetic::power2::{lemma2_to64, lemma_pow2_strictly_increases, pow2};
use vstd::prelude::*;

verus! {

/// A resource of a frame: its name, its version, and its message. The
/// message is absent where the body of the resource could not be read as a
/// message of the frame's type.
#[derive(Clone, Debug)]
pub struct Resource<T> {
    pub name: String,
    pub version: String,
    pub resource: Option<T>,
}

/// A frame that the control plane pushed for one resource type.
#[derive(Clone, Debug)]
pub struct DeltaResources<T> {
    pub resources: Vec<Resource<T>>,
    pub removed_resources: Vec<String>,
    pub nonce: String,
    pub system_version_info: String,
}

/// A request of the client: a subscription when a stream opens, and after
/// that the answer to a frame.
#[derive(Clone, Debug)]
pub struct DeltaDiscoveryRequest {
    pub type_url: String,
    /// What the client says of itself; sent when a stream opens.
    pub node: NameMap<String>,
    /// The version that the client holds of each resource; sent when a
    /// stream opens.
    pub initial_resource_versions: NameMap<String>,
    /// The nonce of the frame that is answered; empty when a stream opens.
    pub response_nonce: String,
    /// Why the frame is refused; absent where it is accepted.
    pub error_detail: Option<String>,
}

/// What a [`DeltaDiscoveryRequest`] holds.
pub struct RequestView {
    pub type_url: Seq<char>,
    pub node: Map<Seq<char>, Seq<char>>,
    pub initial_resource_versions: Map<Seq<char>, Seq<char>>,
    pub response_nonce: Seq<char>,
    pub error_detail: Option<Seq<char>>,
}

impl View for DeltaDiscoveryRequest {
    type V = RequestView;

    open spec fn view(&self) -> RequestView {
        RequestView {
            type_url: self.type_url@,
            node: text_map(self.node@),
            initial_resource_versions: text_map(self.initial_resource_versions@),
            response_nonce: self.response_nonce@,
            error_detail: match self.error_detail {
                Some(detail) => Some(detail@),
                None => None,
            },
        }
    }
}

impl DeltaDiscoveryRequest {
    /// Whether the request accepts the frame that it answers.
    pub fn is_ack(&self) -> (b: bool)
        ensures
            b == (self@.error_detail is None),
    {
        self.error_detail.is_none()
    }
}

/// The reason given for a frame with a body that could not be read.
pub const MALFORMED_FRAME: &'static str = "malformed frame";

/// The reason given for a frame of a type that the client does not know.
pub const UNKNOWN_TYPE: &'static str = "unknown resource type";

/// Some resource of the frame has no message.
pub open spec fn malformed<T>(resources: Seq<Resource<T>>) -> bool {
    exists|i: int| 0 <= i < resources.len() && (#[trigger] resources[i]).resource is None
}

/// The removals of a frame as updates.
pub open spec fn removals<T>(names: Seq<String>) -> Seq<XdsUpdate<T>> {
    names.map_values(|name: String| XdsUpdate::<T>::Remove(name))
}

/// The resources of a frame as updates.
pub open spec fn upserts<T>(resources: Seq<Resource<T>>) -> Seq<XdsUpdate<T>> {
    resources.map_values(
        |r: Resource<T>|
            XdsUpdate::Update(XdsResource { name: r.name, resource: r.resource.unwrap() }),
    )
}

/// The batch that a frame stands for: its removals, then its resources.
pub open spec fn batch_of<T>(frame: DeltaResources<T>) -> Seq<XdsUpdate<T>> {
    removals(frame.removed_resources@) + upserts(frame.resources@)
}

/// The versions tracked once the names of a list are forgotten.
pub open spec fn forget(versions: Map<Seq<char>, Seq<char>>, names: Seq<String>) -> Map<
    Seq<char>,
    Seq<char>,
>
    decreases names.len(),
{
    if names.len() == 0 {
        versions
    } else {
        forget(versions, names.drop_last()).remove(names.last()@)
    }
}

/// The versions tracked once the resources of a list are noted: each one
/// that the store takes, under its name, in order.
pub open spec fn track<T: ConfigMessage>(
    versions: Map<Seq<char>, Seq<char>>,
    resources: Seq<Resource<T>>,
) -> Map<Seq<char>, Seq<char>>
    decreases resources.len(),
{
    if resources.len() == 0 {
        versions
    } else {
        let before = track(versions, resources.drop_last());
        let last = resources.last();
        if last.resource is Some && last.resource.unwrap().fault() is None {
            before.insert(last.name@, last.version@)
        } else {
            before
        }
    }
}

/// The versions tracked after a frame: removals are forgotten whatever
/// else happens, and the upserts that the store takes are noted.
pub open spec fn versions_after<T: ConfigMessage>(
    versions: Map<Seq<char>, Seq<char>>,
    frame: DeltaResources<T>,
) -> Map<Seq<char>, Seq<char>> {
    track(forget(versions, frame.removed_resources@), frame.resources@)
}

/// The answer to a frame: an acknowledgement where nothing was rejected,
/// else a refusal that cites the first rejection. It carries the nonce of
/// the frame.
pub open spec fn answer(
    type_url: Seq<char>,
    nonce: Seq<char>,
    rejected: Seq<(Seq<char>, ParseError)>,
) -> RequestView {
    RequestView {
        type_url,
        node: Map::empty(),
        initial_resource_versions: Map::empty(),
        response_nonce: nonce,
        error_detail: if rejected.len() == 0 {
            None
        } else {
            Some(rejection_text(rejected[0]))
        },
    }
}

/// The refusal of a frame for a reason that is no rejection of a resource.
pub open spec fn refusal(type_url: Seq<char>, nonce: Seq<char>, reason: Seq<char>) -> RequestView {
    RequestView {
        type_url,
        node: Map::empty(),
        initial_resource_versions: Map::empty(),
        response_nonce: nonce,
        error_detail: Some(reason),
    }
}

/// Builds the refusal of a frame.
pub fn refuse(type_url: &str, nonce: &str, reason: &str) -> (request: DeltaDiscoveryRequest)
    ensures
        request@ == refusal(type_url@, nonce@, reason@),
{
    let request = DeltaDiscoveryRequest {
        type_url: type_url.to_owned(),
        node: NameMap::new(),
        initial_resource_versions: NameMap::new(),
        response_nonce: nonce.to_owned(),
        error_detail: Some(reason.to_owned()),
    };
    assert(text_map(request.node@) =~= Map::empty());
    assert(text_map(request.initial_resource_versions@) =~= Map::empty());
    request
}

/// Whether some resource of the frame has no message.
pub fn is_malformed<T>(resources: &Vec<Resource<T>>) -> (b: bool)
    ensures
        b == malformed(resources@),
{
    let mut i: usize = 0;
    while i < resources.len()
        invariant
            i <= resources@.len(),
            forall|j: int| 0 <= j < i ==> (#[trigger] resources@[j]).resource is Some,
        decreases resources@.len() - i,
    {
        if resources[i].resource.is_none() {
            return true;
        }
        i += 1;
    }
    false
}

/// Taking a name out of a map of strings takes it out of their characters.
pub proof fn lemma_text_map_remove(m: Map<Seq<char>, String>, key: Seq<char>)
    ensures
        text_map(m.remove(key)) == text_map(m).remove(key),
{
    assert(text_map(m.remove(key)) =~= text_map(m).remove(key));
}

/// What the client tracks of one resource type.
pub struct Subscription {
    type_url: String,
    resource_versions: NameMap<String>,
    nonce: String,
    initial_resource_versions_sent: bool,
    acked: bool,
}

/// What a [`Subscription`] holds.
pub struct SubscriptionView {
    /// The resource type.
    pub type_url: Seq<char>,
    /// The version of every resource that is tracked, by name.
    pub resource_versions: Map<Seq<char>, Seq<char>>,
    /// The nonce of the last frame received.
    pub nonce: Seq<char>,
    /// The versions held have been declared on a stream at least once.
    pub initial_resource_versions_sent: bool,
    /// A frame of this type has been acknowledged.
    pub acked: bool,
}

impl View for Subscription {
    type V = SubscriptionView;

    closed spec fn view(&self) -> SubscriptionView {
        SubscriptionView {
            type_url: self.type_url@,
            resource_versions: text_map(self.resource_versions@),
            nonce: self.nonce@,
            initial_resource_versions_sent: self.initial_resource_versions_sent,
            acked: self.acked,
        }
    }
}

/// The request that opens a subscription: it declares the versions held
/// and carries no nonce.
pub open spec fn opening(sub: SubscriptionView, node: Map<Seq<char>, Seq<char>>) -> RequestView {
    RequestView {
        type_url: sub.type_url,
        node,
        initial_resource_versions: sub.resource_versions,
        response_nonce: Seq::empty(),
        error_detail: None,
    }
}

/// What was kept of the resources of a frame: of each, in order, its name
/// and its version.
pub open spec fn noted_of<T>(noted: Seq<(String, String)>, resources: Seq<Resource<T>>) -> bool {
    &&& noted.len() == resources.len()
    &&& forall|i: int|
        0 <= i < noted.len() ==> (#[trigger] noted[i]).0@ == resources[i].name@ && noted[i].1@
            == resources[i].version@
}

impl Subscription {
    /// No name is tracked twice.
    pub closed spec fn wf(&self) -> bool {
        self.resource_versions.wf()
    }

    /// A subscription to `type_url` that tracks nothing yet.
    pub fn new(type_url: &str) -> (sub: Self)
        ensures
            sub.wf(),
            sub@ == (SubscriptionView {
                type_url: type_url@,
                resource_versions: Map::empty(),
                nonce: Seq::empty(),
                initial_resource_versions_sent: false,
                acked: false,
            }),
    {
        let sub = Subscription {
            type_url: type_url.to_owned(),
            resource_versions: NameMap::new(),
            nonce: String::new(),
            initial_resource_versions_sent: false,
            acked: false,
        };
        assert(text_map(sub.resource_versions@) =~= Map::empty());
        sub
    }

    /// The version tracked of the resource `name`.
    pub fn version_of(&self, name: &str) -> (r: Option<&String>)
        requires
            self.wf(),
        ensures
            match r {
                Some(version) => self@.resource_versions.contains_key(name@)
                    && self@.resource_versions[name@] == version@,
                None => !self@.resource_versions.contains_key(name@),
            },
    {
        self.resource_versions.get(name)
    }

    /// The number of resources tracked.
    pub fn len(&self) -> (n: usize)
        requires
            self.wf(),
        ensures
            n == self@.resource_versions.dom().len(),
    {
        let n = self.resource_versions.len();
        proof {
            assert(self@.resource_versions.dom() =~= self.resource_versions@.dom());
        }
        n
    }

    /// The request that opens the subscription on a stream. It declares the
    /// version of every resource that is tracked, so that the control plane
    /// sends only what has changed since.
    pub fn initial_request(&mut self, node: &NameMap<String>) -> (request: DeltaDiscoveryRequest)
        requires
            old(self).wf(),
            node.wf(),
        ensures
            final(self).wf(),
            request@ == opening(old(self)@, text_map(node@)),
            final(self)@ == (SubscriptionView {
                initial_resource_versions_sent: true,
                ..old(self)@
            }),
    {
        self.initial_resource_versions_sent = true;
        DeltaDiscoveryRequest {
            type_url: self.type_url.clone(),
            node: node.duplicate(),
            initial_resource_versions: self.resource_versions.duplicate(),
            response_nonce: String::new(),
            error_detail: None,
        }
    }

    /// Brings the versions up to date with a frame that was applied:
    /// forgets what it removed, and notes each upsert that the store took.
    fn note<T: ConfigMessage>(
        &mut self,
        removed: &Vec<String>,
        noted: Vec<(String, String)>,
        outcomes: &Vec<Option<RejectedConfig>>,
        Ghost(frame): Ghost<DeltaResources<T>>,
    )
        requires
            old(self).wf(),
            !malformed(frame.resources@),
            removed@ == frame.removed_resources@,
            noted_of(noted@, frame.resources@),
            outcomes_of(outcomes@, batch_of(frame)),
        ensures
            final(self).wf(),
            final(self)@ == (SubscriptionView {
                resource_versions: versions_after(old(self)@.resource_versions, frame),
                ..old(self)@
            }),
    {
        let ghost start = self@.resource_versions;
        let mut i: usize = 0;
        while i < removed.len()
            invariant
                i <= removed@.len(),
                self.wf(),
                self@ == (SubscriptionView {
                    resource_versions: forget(start, removed@.take(i as int)),
                    ..old(self)@
                }),
            decreases removed@.len() - i,
        {
            proof {
                let next = removed@.take(i + 1);
                assert(next.drop_last() =~= removed@.take(i as int));
                assert(next.last() == removed@[i as int]);
                lemma_text_map_remove(self.resource_versions@, removed@[i as int]@);
            }
            self.resource_versions.remove(removed[i].as_str());
            i += 1;
        }
        let ghost cleared = self@.resource_versions;
        let ghost judge = |u: XdsUpdate<T>| rejection_of(u);
        proof {
            assert(removed@.take(i as int) =~= removed@);
            assert(outcome_views(outcomes@).len() == batch_of(frame).map_values(judge).len());
        }
        let offset = removed.len();
        let total = outcomes.len();
        let mut at: usize = offset;
        for pair in it: noted
            invariant
                it.seq() == noted@,
                at == offset + it.index(),
                total == outcomes@.len(),
                self.wf(),
                offset == removed@.len(),
                removed@ == frame.removed_resources@,
                !malformed(frame.resources@),
                noted_of(noted@, frame.resources@),
                outcomes_of(outcomes@, batch_of(frame)),
                outcomes@.len() == removed@.len() + noted@.len(),
                self@ == (SubscriptionView {
                    resource_versions: track(cleared, frame.resources@.take(it.index() as int)),
                    ..old(self)@
                }),
        {
            let ghost k = it.index() as int;
            proof {
                let next = frame.resources@.take(k + 1);
                assert(next.drop_last() =~= frame.resources@.take(k));
                assert(next.last() == frame.resources@[k]);
                assert(noted@[k] == pair);
                assert(frame.resources@[k].resource is Some);
                let update = batch_of(frame)[offset + k];
                assert(update == upserts(frame.resources@)[k]);
                assert(outcome_views(outcomes@)[offset + k] == batch_of(frame).map_values(
                    |u: XdsUpdate<T>| rejection_of(u),
                )[offset + k]);
                crate::proto::lemma_text_map_insert(self.resource_versions@, pair.0@, pair.1);
            }
            if outcomes[at].is_none() {
                self.resource_versions.insert(pair.0, pair.1);
            }
            at += 1;
        }
        proof {
            assert(frame.resources@.take(noted@.len() as int) =~= frame.resources@);
        }
    }
}

/// Takes a frame apart: the batch that it stands for, the names that it
/// removes, and the name and version of each of its resources.
pub fn split<T>(frame: DeltaResources<T>) -> (parts: (
    Vec<XdsUpdate<T>>,
    Vec<String>,
    Vec<(String, String)>,
))
    requires
        !malformed(frame.resources@),
    ensures
        parts.0@ == batch_of(frame),
        parts.1@ == frame.removed_resources@,
        noted_of(parts.2@, frame.resources@),
{
    let DeltaResources { resources, removed_resources, nonce, system_version_info } = frame;
    let mut updates: Vec<XdsUpdate<T>> = Vec::new();
    let mut i: usize = 0;
    while i < removed_resources.len()
        invariant
            i <= removed_resources@.len(),
            updates@ == removals::<T>(removed_resources@.take(i as int)),
        decreases removed_resources@.len() - i,
    {
        updates.push(XdsUpdate::Remove(removed_resources[i].clone()));
        proof {
            assert(removed_resources@.take(i + 1) =~= removed_resources@.take(i as int).push(
                removed_resources@[i as int],
            ));
            assert(removals::<T>(removed_resources@.take(i + 1)) =~= removals::<T>(
                removed_resources@.take(i as int),
            ).push(XdsUpdate::Remove(removed_resources@[i as int])));
        }
        i += 1;
    }
    proof {
        assert(removed_resources@.take(i as int) =~= removed_resources@);
    }
    let mut noted: Vec<(String, String)> = Vec::new();
    for resource in it: resources
        invariant
            it.seq() == resources@,
            !malformed(resources@),
            updates@ == removals::<T>(removed_resources@) + upserts(
                resources@.take(it.index() as int),
            ),
            noted_of(noted@, resources@.take(it.index() as int)),
    {
        let ghost k = it.index() as int;
        proof {
            assert(resources@[k].resource is Some);
            assert(resources@.take(k + 1) =~= resources@.take(k).push(resources@[k]));
            assert(upserts(resources@.take(k + 1)) =~= upserts(resources@.take(k)).push(
                upserts(resources@)[k],
            ));
        }
        let Resource { name, version, resource: body } = resource;
        match body {
            Some(message) => {
                noted.push((name.clone(), version));
                updates.push(XdsUpdate::Update(XdsResource { name, resource: message }));
            },
            None => {},
        }
        proof {
            assert forall|j: int| 0 <= j < noted@.len() implies (#[trigger] noted@[j]).0@
                == resources@.take(k + 1)[j].name@ && noted@[j].1@ == resources@.take(
                k + 1,
            )[j].version@ by {
                if j < k {
                    assert(resources@.take(k)[j] == resources@.take(k + 1)[j]);
                }
            }
        }
    }
    proof {
        assert(resources@.take(resources@.len() as int) =~= resources@);
    }
    (updates, removed_resources, noted)
}

/// What a frame leaves of a subscription. The nonce of the frame is kept
/// in any case. A frame with a body that could not be read changes nothing
/// else; any other frame brings the versions up to date, and is
/// acknowledged where nothing was rejected.
pub open spec fn subscription_after<T: ConfigMessage>(
    sub: SubscriptionView,
    frame: DeltaResources<T>,
) -> SubscriptionView {
    if malformed(frame.resources@) {
        SubscriptionView { nonce: frame.nonce@, ..sub }
    } else {
        SubscriptionView {
            nonce: frame.nonce@,
            resource_versions: versions_after(sub.resource_versions, frame),
            acked: sub.acked || rejections(batch_of(frame)).len() == 0,
            ..sub
        }
    }
}

/// The answer that a frame gets.
pub open spec fn answer_to<T: ConfigMessage>(
    type_url: Seq<char>,
    frame: DeltaResources<T>,
) -> RequestView {
    if malformed(frame.resources@) {
        refusal(type_url, frame.nonce@, MALFORMED_FRAME@)
    } else {
        answer(type_url, frame.nonce@, rejections(batch_of(frame)))
    }
}

impl Subscription {
    /// Keeps the nonce of a frame that has arrived.
    fn keep_nonce(&mut self, nonce: String)
        requires
            old(self).wf(),
        ensures
            final(self).wf(),
            final(self)@ == (SubscriptionView { nonce: nonce@, ..old(self)@ }),
    {
        self.nonce = nonce;
    }

    /// Answers the frame whose nonce is kept, given what was rejected of
    /// it: an acknowledgement where that is nothing, else a refusal that
    /// cites the first rejection.
    fn conclude(&mut self, rejects: &Vec<RejectedConfig>) -> (request: DeltaDiscoveryRequest)
        requires
            old(self).wf(),
        ensures
            final(self).wf(),
            request@ == answer(old(self)@.type_url, old(self)@.nonce, rejection_views(rejects@)),
            final(self)@ == (SubscriptionView {
                acked: old(self)@.acked || rejects@.len() == 0,
                ..old(self)@
            }),
    {
        let error_detail = if rejects.len() == 0 {
            self.acked = true;
            None
        } else {
            Some(rejects[0].describe())
        };
        let request = DeltaDiscoveryRequest {
            type_url: self.type_url.clone(),
            node: NameMap::new(),
            initial_resource_versions: NameMap::new(),
            response_nonce: self.nonce.clone(),
            error_detail,
        };
        assert(text_map(request.node@) =~= Map::empty());
        assert(text_map(request.initial_resource_versions@) =~= Map::empty());
        request
    }

    /// Refuses the frame whose nonce is kept, for a reason that is no
    /// rejection of a resource.
    fn decline(&self, reason: &str) -> (request: DeltaDiscoveryRequest)
        requires
            self.wf(),
        ensures
            request@ == refusal(self@.type_url, self@.nonce, reason@),
    {
        refuse(self.type_url.as_str(), self.nonce.as_str(), reason)
    }
}

/// Where the client stands with its stream.
#[derive(Clone, Copy, Debug, PartialEq, Eq, Structural)]
pub enum Phase {
    /// No stream; the client waits to connect.
    Disconnected,
    /// A stream is being opened.
    Opening,
    /// The subscriptions are sent and frames are consumed.
    Streaming,
}

/// The shortest delay before a new connection is tried, in milliseconds.
pub const BACKOFF_BASE_MS: u64 = 500;

/// The longest delay before jitter, in milliseconds.
pub const BACKOFF_CAP_MS: u64 = 30_000;

/// The width of the jitter, in thousandths of the delay: from a fifth less
/// to a fifth more.
pub const JITTER_SPAN: u64 = 400;

/// The delay after `failures` failures in a row, before jitter: the base
/// doubled each time, up to the cap.
pub open spec fn backoff_base(failures: nat) -> int {
    if BACKOFF_BASE_MS * pow2(failures) < BACKOFF_CAP_MS {
        BACKOFF_BASE_MS * pow2(failures)
    } else {
        BACKOFF_CAP_MS as int
    }
}

/// The delay after `failures` failures in a row. `jitter` picks a point
/// between a fifth less and a fifth more than the delay before jitter: 0
/// the least, `JITTER_SPAN` and above the most.
pub open spec fn backoff_millis(failures: nat, jitter: int) -> int {
    let span = if jitter < JITTER_SPAN {
        jitter
    } else {
        JITTER_SPAN as int
    };
    backoff_base(failures) * (1000 - JITTER_SPAN / 2 + span) / 1000
}

/// The delay before the next connection is tried.
pub fn backoff(failures: u32, jitter: u16) -> (millis: u64)
    ensures
        millis == backoff_millis(failures as nat, jitter as int),
        BACKOFF_BASE_MS * 4 / 5 <= millis <= BACKOFF_CAP_MS * 6 / 5,
{
    proof {
        lemma2_to64();
        if failures >= 6 {
            if failures > 6 {
                lemma_pow2_strictly_increases(6, failures as nat);
            }
            assert(BACKOFF_BASE_MS * pow2(failures as nat) >= BACKOFF_CAP_MS) by (nonlinear_arith)
                requires
                    pow2(failures as nat) >= 64,
            ;
        }
    }
    let base: u64 = if failures == 0 {
        500
    } else if failures == 1 {
        1_000
    } else if failures == 2 {
        2_000
    } else if failures == 3 {
        4_000
    } else if failures == 4 {
        8_000
    } else if failures == 5 {
        16_000
    } else {
        BACKOFF_CAP_MS
    };
    let span: u64 = if (jitter as u64) < JITTER_SPAN {
        jitter as u64
    } else {
        JITTER_SPAN
    };
    base * (1000 - JITTER_SPAN / 2 + span) / 1000
}

/// What the client has to know to subscribe.
#[derive(Clone, Debug)]
pub struct Config {
    /// Where the control plane listens.
    pub xds_address: String,
    /// What the client says of itself when a stream opens.
    pub metadata: NameMap<String>,
}

/// The client of the control plane: one stream, and on it a subscription
/// to targets and one to policies.
pub struct AdsClient {
    node: NameMap<String>,
    targets: Subscription,
    policies: Subscription,
    updater: ProxyStateUpdateMutator,
    phase: Phase,
    failures: u32,
    ready: bool,
}

/// What an [`AdsClient`] holds.
pub struct AdsClientView {
    /// What the client says of itself when a stream opens.
    pub node: Map<Seq<char>, Seq<char>>,
    /// The subscription to targets.
    pub targets: SubscriptionView,
    /// The subscription to policies.
    pub policies: SubscriptionView,
    /// Where the client stands with its stream.
    pub phase: Phase,
    /// How many streams have failed in a row.
    pub failures: u32,
    /// The readiness signal has been given.
    pub ready: bool,
}

impl View for AdsClient {
    type V = AdsClientView;

    closed spec fn view(&self) -> AdsClientView {
        AdsClientView {
            node: text_map(self.node@),
            targets: self.targets@,
            policies: self.policies@,
            phase: self.phase,
            failures: self.failures,
            ready: self.ready,
        }
    }
}

/// The answer to a frame, and whether the readiness signal is to be given
/// with it.
#[derive(Clone, Debug)]
pub struct Reply {
    pub request: DeltaDiscoveryRequest,
    pub ready: bool,
}

impl AdsClientView {
    /// Both subscriptions have had a frame acknowledged.
    pub open spec fn all_acked(self) -> bool {
        self.targets.acked && self.policies.acked
    }

    /// The state once readiness has been looked at: it is signalled when
    /// both subscriptions have had a frame acknowledged, and only once.
    pub open spec fn settled(self) -> AdsClientView {
        AdsClientView { ready: self.ready || self.all_acked(), ..self }
    }

    /// Whether the readiness signal is given on the way to `settled`.
    pub open spec fn signals(self) -> bool {
        !self.ready && self.all_acked()
    }

    /// The state after a frame of targets.
    pub open spec fn after_targets(self, frame: DeltaResources<XdsTarget>) -> AdsClientView {
        (AdsClientView { targets: subscription_after(self.targets, frame), ..self }).settled()
    }

    /// The state after a frame of policies.
    pub open spec fn after_policies(self, frame: DeltaResources<XdsRbac>) -> AdsClientView {
        (AdsClientView { policies: subscription_after(self.policies, frame), ..self }).settled()
    }
}

impl AdsClient {
    /// The subscriptions are valid and are those to targets and to
    /// policies.
    pub closed spec fn wf(&self) -> bool {
        &&& self.node.wf()
        &&& self.targets.wf()
        &&& self.policies.wf()
        &&& self.targets@.type_url == TARGET_TYPE@
        &&& self.policies@.type_url == RBAC_TYPE@
    }

    /// A client that has no stream and tracks nothing.
    pub fn new(config: Config) -> (client: Self)
        requires
            config.metadata.wf(),
        ensures
            client.wf(),
            client@ == (AdsClientView {
                node: text_map(config.metadata@),
                targets: SubscriptionView {
                    type_url: TARGET_TYPE@,
                    resource_versions: Map::empty(),
                    nonce: Seq::empty(),
                    initial_resource_versions_sent: false,
                    acked: false,
                },
                policies: SubscriptionView {
                    type_url: RBAC_TYPE@,
                    resource_versions: Map::empty(),
                    nonce: Seq::empty(),
                    initial_resource_versions_sent: false,
                    acked: false,
                },
                phase: Phase::Disconnected,
                failures: 0,
                ready: false,
            }),
    {
        AdsClient {
            node: config.metadata,
            targets: Subscription::new(TARGET_TYPE),
            policies: Subscription::new(RBAC_TYPE),
            updater: ProxyStateUpdateMutator {  },
            phase: Phase::Disconnected,
            failures: 0,
            ready: false,
        }
    }

    /// The subscription to targets.
    pub fn targets(&self) -> (sub: &Subscription)
        requires
            self.wf(),
        ensures
            sub.wf(),
            sub@ == self@.targets,
    {
        &self.targets
    }

    /// The subscription to policies.
    pub fn policies(&self) -> (sub: &Subscription)
        requires
            self.wf(),
        ensures
            sub.wf(),
            sub@ == self@.policies,
    {
        &self.policies
    }

    /// Where the client stands with its stream.
    pub fn phase(&self) -> (phase: Phase)
        ensures
            phase == self@.phase,
    {
        self.phase
    }

    /// Looks at readiness: the signal is given when both subscriptions
    /// have had a frame acknowledged, and only once.
    fn settle(&mut self) -> (signal: bool)
        requires
            old(self).wf(),
        ensures
            final(self).wf(),
            final(self)@ == old(self)@.settled(),
            signal == old(self)@.signals(),
    {
        if !self.ready && self.targets.acked && self.policies.acked {
            self.ready = true;
            true
        } else {
            false
        }
    }

    /// The requests that open the subscriptions on a new stream, one for
    /// each resource type: each declares the versions that the client
    /// holds and carries no nonce.
    pub fn subscribe(&mut self) -> (requests: Vec<DeltaDiscoveryRequest>)
        requires
            old(self).wf(),
        ensures
            final(self).wf(),
            requests@.len() == 2,
            requests@[0]@ == opening(old(self)@.targets, old(self)@.node),
            requests@[1]@ == opening(old(self)@.policies, old(self)@.node),
            final(self)@ == (AdsClientView {
                targets: SubscriptionView {
                    initial_resource_versions_sent: true,
                    ..old(self)@.targets
                },
                policies: SubscriptionView {
                    initial_resource_versions_sent: true,
                    ..old(self)@.policies
                },
                ..old(self)@
            }),
    {
        let mut requests: Vec<DeltaDiscoveryRequest> = Vec::new();
        let first = self.targets.initial_request(&self.node);
        requests.push(first);
        let second = self.policies.initial_request(&self.node);
        requests.push(second);
        requests
    }

    /// Takes a frame of targets: applies it to the store, brings the
    /// versions up to date, and answers it. The store must be held for
    /// writing until this returns, so that readers see the state before
    /// the frame or the state after it.
    pub fn on_targets(&mut self, state: &mut XdsStore, frame: DeltaResources<XdsTarget>) -> (reply:
        Reply)
        requires
            old(self).wf(),
            old(state).wf(),
        ensures
            final(self).wf(),
            final(state).wf(),
            final(state).policies == old(state).policies,
            final(self)@ == old(self)@.after_targets(frame),
            reply.request@ == answer_to(TARGET_TYPE@, frame),
            reply.ready == (AdsClientView {
                targets: subscription_after(old(self)@.targets, frame),
                ..old(self)@
            }).signals(),
            if malformed(frame.resources@) {
                final(state).targets == old(state).targets
            } else {
                targets_after(old(state).targets@, batch_of(frame), final(state).targets@)
            },
            old(self)@.targets.resource_versions.dom() == old(state).targets@.entries.dom()
                && names_agree(frame.resources@) ==> final(self)@.targets.resource_versions.dom()
                == final(state).targets@.entries.dom(),
    {
        proof {
            assert(old(state).targets@.protos().dom() =~= old(state).targets@.entries.dom());
            if !malformed(frame.resources@) && names_agree(frame.resources@) && old(
                self,
            )@.targets.resource_versions.dom() == old(state).targets@.entries.dom() {
                lemma_versions_follow_store(
                    old(self)@.targets.resource_versions,
                    old(state).targets@.protos(),
                    frame,
                );
            }
        }
        self.targets.keep_nonce(frame.nonce.clone());
        let request = if is_malformed(&frame.resources) {
            self.targets.decline(MALFORMED_FRAME)
        } else {
            let (updates, removed, noted) = split(frame);
            let outcomes = self.updater.apply_targets(state, updates);
            self.targets.note::<XdsTarget>(&removed, noted, &outcomes, Ghost(frame));
            let rejects = collect_rejections(outcomes);
            self.targets.conclude(&rejects)
        };
        let ready = self.settle();
        proof {
            assert(state.targets@.protos().dom() =~= state.targets@.entries.dom());
        }
        Reply { request, ready }
    }

    /// Takes a frame of policies: applies it to the store, brings the
    /// versions up to date, and answers it. The store must be held for
    /// writing until this returns.
    pub fn on_policies(&mut self, state: &mut XdsStore, frame: DeltaResources<XdsRbac>) -> (reply:
        Reply)
        requires
            old(self).wf(),
            old(state).wf(),
        ensures
            final(self).wf(),
            final(state).wf(),
            final(state).targets == old(state).targets,
            final(self)@ == old(self)@.after_policies(frame),
            reply.request@ == answer_to(RBAC_TYPE@, frame),
            reply.ready == (AdsClientView {
                policies: subscription_after(old(self)@.policies, frame),
                ..old(self)@
            }).signals(),
            if malformed(frame.resources@) {
                final(state).policies == old(state).policies
            } else {
                policies_after(old(state).policies@, batch_of(frame), final(state).policies@)
            },
            old(self)@.policies.resource_versions.dom() == old(state).policies@.dom()
                && names_agree(frame.resources@) ==> final(self)@.policies.resource_versions.dom()
                == final(state).policies@.dom(),
    {
        proof {
            let held = old(state).policies@.map_values(|e: crate::xds::PolicyEntryView| e.proto);
            assert(held.dom() =~= old(state).policies@.dom());
            if !malformed(frame.resources@) && names_agree(frame.resources@) && old(
                self,
            )@.policies.resource_versions.dom() == old(state).policies@.dom() {
                lemma_versions_follow_store(old(self)@.policies.resource_versions, held, frame);
            }
        }
        self.policies.keep_nonce(frame.nonce.clone());
        let request = if is_malformed(&frame.resources) {
            self.policies.decline(MALFORMED_FRAME)
        } else {
            let (updates, removed, noted) = split(frame);
            let outcomes = self.updater.apply_rbac(state, updates);
            self.policies.note::<XdsRbac>(&removed, noted, &outcomes, Ghost(frame));
            let rejects = collect_rejections(outcomes);
            self.policies.conclude(&rejects)
        };
        let ready = self.settle();
        proof {
            assert(state.policies@.map_values(|e: crate::xds::PolicyEntryView| e.proto).dom()
                =~= state.policies@.dom());
        }
        Reply { request, ready }
    }
}

/// Every resource of the frame goes by the name that its message carries.
pub open spec fn names_agree<T: ConfigMessage>(resources: Seq<Resource<T>>) -> bool {
    forall|i: int|
        0 <= i < resources.len() && (#[trigger] resources[i]).resource is Some
            ==> resources[i].name@ == resources[i].resource.unwrap().key()
}

/// Applying two batches one after the other is applying them joined.
pub proof fn lemma_applied_joined<T: ConfigMessage>(
    held: Map<Seq<char>, T>,
    first: Seq<XdsUpdate<T>>,
    second: Seq<XdsUpdate<T>>,
)
    ensures
        applied(held, first + second) == applied(applied(held, first), second),
    decreases second.len(),
{
    if second.len() == 0 {
        assert(first + second =~= first);
    } else {
        assert((first + second).drop_last() =~= first + second.drop_last());
        lemma_applied_joined(held, first, second.drop_last());
    }
}

/// Forgetting the names that a frame removes leaves the names that the
/// store holds after the removals.
pub proof fn lemma_forget_follows<T: ConfigMessage>(
    versions: Map<Seq<char>, Seq<char>>,
    held: Map<Seq<char>, T>,
    names: Seq<String>,
)
    requires
        versions.dom() == held.dom(),
    ensures
        forget(versions, names).dom() == applied(held, removals::<T>(names)).dom(),
    decreases names.len(),
{
    if names.len() > 0 {
        lemma_forget_follows(versions, held, names.drop_last());
        assert(removals::<T>(names).drop_last() =~= removals::<T>(names.drop_last()));
        let before = applied(held, removals::<T>(names.drop_last()));
        assert(forget(versions, names).dom() =~= before.remove(names.last()@).dom());
    }
}

/// Noting the resources of a frame leaves the names that the store holds
/// after the upserts, where every resource goes by the name of its message.
pub proof fn lemma_track_follows<T: ConfigMessage>(
    versions: Map<Seq<char>, Seq<char>>,
    held: Map<Seq<char>, T>,
    resources: Seq<Resource<T>>,
)
    requires
        versions.dom() == held.dom(),
        !malformed(resources),
        names_agree(resources),
    ensures
        track(versions, resources).dom() == applied(held, upserts(resources)).dom(),
    decreases resources.len(),
{
    if resources.len() > 0 {
        let shorter = resources.drop_last();
        assert forall|i: int| 0 <= i < shorter.len() implies (#[trigger] shorter[i]).resource is Some
            && shorter[i].name@ == shorter[i].resource.unwrap().key() by {
            assert(shorter[i] == resources[i]);
        }
        lemma_track_follows(versions, held, shorter);
        assert(upserts(resources).drop_last() =~= upserts(shorter));
        let last = resources.last();
        assert(last == resources[resources.len() - 1]);
        let before = applied(held, upserts(shorter));
        if last.resource.unwrap().fault() is None {
            assert(track(versions, resources).dom() =~= before.insert(
                last.name@,
                last.resource.unwrap(),
            ).dom());
        }
    }
}

/// The names whose versions are tracked stay the names that the store
/// holds: where they are the same before a frame, they are the same after
/// it. This holds of every frame in which each resource goes by the name of
/// its message.
pub proof fn lemma_versions_follow_store<T: ConfigMessage>(
    versions: Map<Seq<char>, Seq<char>>,
    held: Map<Seq<char>, T>,
    frame: DeltaResources<T>,
)
    requires
        versions.dom() == held.dom(),
        !malformed(frame.resources@),
        names_agree(frame.resources@),
    ensures
        versions_after(versions, frame).dom() == applied(held, batch_of(frame)).dom(),
{
    let removed = removals::<T>(frame.removed_resources@);
    lemma_forget_follows(versions, held, frame.removed_resources@);
    lemma_track_follows(
        forget(versions, frame.removed_resources@),
        applied(held, removed),
        frame.resources@,
    );
    lemma_applied_joined(held, removed, upserts(frame.resources@));
}

/// What reaches the client from outside.
#[derive(Clone, Debug)]
pub enum Event {
    /// It is time to connect: at the start, and when a delay has passed.
    Start,
    /// The stream is open.
    Opened,
    /// The control plane pushed a frame of targets.
    Targets(DeltaResources<XdsTarget>),
    /// The control plane pushed a frame of policies.
    Policies(DeltaResources<XdsRbac>),
    /// The control plane pushed a frame of a type that the client does not
    /// know.
    Unknown { type_url: String, nonce: String },
    /// The stream failed, or could not be opened. `jitter` is a number drawn
    /// for the delay, from 0 to `JITTER_SPAN`.
    Failed { jitter: u16 },
}

/// What the client asks to be done.
#[derive(Clone, Debug)]
pub enum Action {
    /// Nothing.
    Idle,
    /// Open a stream.
    Open,
    /// Send the requests that open the subscriptions.
    Subscribe(Vec<DeltaDiscoveryRequest>),
    /// Send the answer to a frame, and give the readiness signal where the
    /// answer says so.
    Answer(Reply),
    /// Wait before the next `Start`.
    Backoff { millis: u64 },
}

/// Every resource of the frame that the event brings goes by the name that
/// its message carries.
pub open spec fn event_names_agree(event: Event) -> bool {
    match event {
        Event::Targets(frame) => names_agree(frame.resources@),
        Event::Policies(frame) => names_agree(frame.resources@),
        _ => true,
    }
}

/// The names whose versions the client tracks are the names that the store
/// holds, for targets and for policies.
pub open spec fn in_step(client: AdsClientView, state: XdsStore) -> bool {
    &&& client.targets.resource_versions.dom() == state.targets@.entries.dom()
    &&& client.policies.resource_versions.dom() == state.policies@.dom()
}

impl AdsClient {
    /// Takes one event and says what to do next. A frame is only looked at
    /// while streaming; a failure ends the stream and asks for a delay that
    /// grows with every failure in a row; an event that does not fit the
    /// phase is passed over.
    pub fn step(&mut self, state: &mut XdsStore, event: Event) -> (action: Action)
        requires
            old(self).wf(),
            old(state).wf(),
        ensures
            final(self).wf(),
            final(state).wf(),
            in_step(old(self)@, *old(state)) && event_names_agree(event) ==> in_step(
                final(self)@,
                *final(state),
            ),
            match (old(self)@.phase, event) {
                (Phase::Disconnected, Event::Start) => {
                    &&& action is Open
                    &&& final(self)@ == (AdsClientView { phase: Phase::Opening, ..old(self)@ })
                    &&& *final(state) == *old(state)
                },
                (Phase::Opening, Event::Opened) => {
                    &&& action matches Action::Subscribe(requests)
                    &&& requests@.len() == 2
                    &&& requests@[0]@ == opening(old(self)@.targets, old(self)@.node)
                    &&& requests@[1]@ == opening(old(self)@.policies, old(self)@.node)
                    &&& final(self)@ == (AdsClientView {
                        targets: SubscriptionView {
                            initial_resource_versions_sent: true,
                            ..old(self)@.targets
                        },
                        policies: SubscriptionView {
                            initial_resource_versions_sent: true,
                            ..old(self)@.policies
                        },
                        phase: Phase::Streaming,
                        failures: 0,
                        ..old(self)@
                    })
                    &&& *final(state) == *old(state)
                },
                (Phase::Streaming, Event::Targets(frame)) => {
                    &&& action matches Action::Answer(reply)
                    &&& reply.request@ == answer_to(TARGET_TYPE@, frame)
                    &&& reply.ready == (AdsClientView {
                        targets: subscription_after(old(self)@.targets, frame),
                        ..old(self)@
                    }).signals()
                    &&& final(self)@ == old(self)@.after_targets(frame)
                    &&& final(state).policies == old(state).policies
                    &&& if malformed(frame.resources@) {
                        final(state).targets == old(state).targets
                    } else {
                        targets_after(old(state).targets@, batch_of(frame), final(state).targets@)
                    }
                },
                (Phase::Streaming, Event::Policies(frame)) => {
                    &&& action matches Action::Answer(reply)
                    &&& reply.request@ == answer_to(RBAC_TYPE@, frame)
                    &&& reply.ready == (AdsClientView {
                        policies: subscription_after(old(self)@.policies, frame),
                        ..old(self)@
                    }).signals()
                    &&& final(self)@ == old(self)@.after_policies(frame)
                    &&& final(state).targets == old(state).targets
                    &&& if malformed(frame.resources@) {
                        final(state).policies == old(state).policies
                    } else {
                        policies_after(
                            old(state).policies@,
                            batch_of(frame),
                            final(state).policies@,
                        )
                    }
                },
                (Phase::Streaming, Event::Unknown { type_url, nonce }) => {
                    &&& action matches Action::Answer(reply)
                    &&& reply.request@ == refusal(type_url@, nonce@, UNKNOWN_TYPE@)
                    &&& !reply.ready
                    &&& final(self)@ == old(self)@
                    &&& *final(state) == *old(state)
                },
                (Phase::Opening, Event::Failed { jitter }) | (
                    Phase::Streaming,
                    Event::Failed { jitter },
                ) => {
                    &&& action matches Action::Backoff { millis }
                    &&& millis == backoff_millis(old(self)@.failures as nat, jitter as int)
                    &&& final(self)@ == (AdsClientView {
                        phase: Phase::Disconnected,
                        failures: if old(self)@.failures < u32::MAX {
                            (old(self)@.failures + 1) as u32
                        } else {
                            u32::MAX
                        },
                        ..old(self)@
                    })
                    &&& *final(state) == *old(state)
                },
                _ => {
                    &&& action is Idle
                    &&& final(self)@ == old(self)@
                    &&& *final(state) == *old(state)
                },
            },
    {
        match (self.phase, event) {
            (Phase::Disconnected, Event::Start) => {
                self.phase = Phase::Opening;
                Action::Open
            },
            (Phase::Opening, Event::Opened) => {
                let requests = self.subscribe();
                self.phase = Phase::Streaming;
                self.failures = 0;
                Action::Subscribe(requests)
            },
            (Phase::Streaming, Event::Targets(frame)) => Action::Answer(
                self.on_targets(state, frame),
            ),
            (Phase::Streaming, Event::Policies(frame)) => Action::Answer(
                self.on_policies(state, frame),
            ),
            (Phase::Streaming, Event::Unknown { type_url, nonce }) => Action::Answer(
                Reply {
                    request: refuse(type_url.as_str(), nonce.as_str(), UNKNOWN_TYPE),
                    ready: false,
                },
            ),
            (Phase::Opening, Event::Failed { jitter }) | (
                Phase::Streaming,
                Event::Failed { jitter },
            ) => {
                let millis = backoff(self.failures, jitter);
                self.phase = Phase::Disconnected;
                self.failures = self.failures.saturating_add(1);
                Action::Backoff { millis }
            },
            _ => Action::Idle,
        }
    }
}

} // verus!
