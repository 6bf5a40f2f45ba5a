//! What holds of the stores whatever they are asked to do.

use crate::proto::XdsTarget;
use crate::names::{lemma_without_none, without};
use crate::xds::batch::{
    accepted, announced, applied, key_of, lemma_announced_is_in_batch, lemma_change_is_announced,
    lemma_touched_grows, lemma_untouched_is_unchanged, lemma_upsert_stands, order_after, ordered,
    rejections, removals_of, touched, touches, upserts_of, ConfigMessage,
};
use crate::xds::client::{
    answer, answer_to, batch_of, lemma_applied_joined, lemma_versions_follow_store, malformed,
    names_agree, removals, track, upserts, versions_after, DeltaResources, Resource,
};
use crate::xds::types::XdsUpdate;
use crate::outbound::{decoded, TargetView};
use crate::xds::{targets_after, ParseError, PolicyEntryView, TargetStoreView};
use tokio_util::sync::CancellationToken;
use vstd::prelude::*;

verus! {

/// A target that was removed is not found any more, and the cancellation
/// signal that its entry had is fired. No signal of an entry that stays is
/// fired by it.
pub proof fn lemma_removed_target_is_gone(store: TargetStoreView, name: Seq<char>)
    requires
        store.valid(),
    ensures
        store.removed(name).valid(),
        !store.removed(name).entries.contains_key(name),
        store.entries.contains_key(name) ==> store.removed(name).fired.contains(
            store.entries[name].signal,
        ),
        store.fired.subset_of(store.removed(name).fired),
        forall|other: Seq<char>|
            other != name && #[trigger] store.entries.contains_key(other)
                ==> !store.removed(name).fired.contains(store.entries[other].signal),
{
}

/// An entry that is installed with a handle that no entry holds has a
/// signal that is new: it is not fired, and no other entry has it. The
/// signal of the entry that it replaces is fired, and no signal of another
/// entry is.
pub proof fn lemma_installed_signal_is_new(
    store: TargetStoreView,
    target: TargetView,
    proto: XdsTarget,
    cancel: CancellationToken,
)
    requires
        store.valid(),
        decoded(proto) == Ok::<TargetView, ParseError>(target),
        forall|name: Seq<char>| #[trigger]
            store.entries.contains_key(name) ==> store.entries[name].cancel != cancel,
    ensures
        store.installed(target, proto, cancel).valid(),
        !store.installed(target, proto, cancel).fired.contains(
            store.installed(target, proto, cancel).entries[target.name].signal,
        ),
        !store.retiring(target.name).contains(
            store.installed(target, proto, cancel).entries[target.name].signal,
        ),
        forall|other: Seq<char>|
            other != target.name && #[trigger] store.entries.contains_key(other) ==> store.installed(
                target,
                proto,
                cancel,
            ).entries[other] == store.entries[other] && store.entries[other].signal
                != store.installed(target, proto, cancel).entries[target.name].signal
                && !store.installed(target, proto, cancel).fired.contains(
                store.entries[other].signal,
            ),
        store.entries.contains_key(target.name) ==> store.installed(
            target,
            proto,
            cancel,
        ).fired.contains(store.entries[target.name].signal),
        store.fired.subset_of(store.installed(target, proto, cancel).fired),
{
    crate::outbound::lemma_decoded_keeps_name(proto);
}

/// A target that was inserted is found under its name, with the message
/// that was inserted.
pub proof fn lemma_inserted_target_is_held(
    store: TargetStoreView,
    target: TargetView,
    proto: XdsTarget,
    cancel: CancellationToken,
)
    ensures
        store.installed(target, proto, cancel).protos().contains_key(target.name),
        store.installed(target, proto, cancel).protos()[target.name] == proto,
        store.installed(target, proto, cancel).targets()[target.name] == target,
{
}

/// A target that was inserted and then removed is not found.
pub proof fn lemma_target_inserted_then_removed(
    store: TargetStoreView,
    target: TargetView,
    proto: XdsTarget,
    cancel: CancellationToken,
)
    ensures
        !store.installed(target, proto, cancel).removed(target.name).protos().contains_key(
            target.name,
        ),
{
}

/// What the store holds, it takes again: the message of every entry
/// decodes, to the target of that entry, and carries the name that the
/// entry stands under.
pub proof fn lemma_held_message_is_taken(store: TargetStoreView, name: Seq<char>)
    requires
        store.valid(),
        store.entries.contains_key(name),
    ensures
        store.entries[name].proto.fault() is None,
        store.entries[name].proto.key() == name,
        decoded(store.entries[name].proto) == Ok::<TargetView, ParseError>(
            store.entries[name].target,
        ),
{
    crate::outbound::lemma_decoded_keeps_name(store.entries[name].proto);
}

/// After a batch, every signal that the store holds is unfired and belongs
/// to one entry alone; the signal of an entry that the batch does not touch
/// is the one it had.
pub proof fn lemma_stored_signals_are_unfired(
    before: TargetStoreView,
    updates: Seq<XdsUpdate<XdsTarget>>,
    after: TargetStoreView,
    name: Seq<char>,
)
    requires
        before.valid(),
        after.valid(),
        targets_after(before, updates, after),
        after.entries.contains_key(name),
    ensures
        !after.fired.contains(after.entries[name].signal),
        !touched(updates, name) && before.entries.contains_key(name) ==> after.entries[name]
            == before.entries[name],
        touched(updates, name) ==> after.entries[name].signal >= before.issued,
{
}

/// A policy that was inserted is found under its name, with the message
/// that was inserted; once it is removed it is not found.
pub proof fn lemma_policy_round_trip(
    store: Map<Seq<char>, PolicyEntryView>,
    name: Seq<char>,
    entry: PolicyEntryView,
)
    ensures
        store.insert(name, entry).contains_key(name),
        store.insert(name, entry)[name].proto == entry.proto,
        !store.insert(name, entry).remove(name).contains_key(name),
{
}

/// A batch of which the store takes nothing leaves the store as it was:
/// no entry changes, no signal is fired and no name is notified. A batch
/// without updates is such a batch.
pub proof fn lemma_idle_batch_changes_nothing(
    before: TargetStoreView,
    updates: Seq<XdsUpdate<XdsTarget>>,
    after: TargetStoreView,
)
    requires
        targets_after(before, updates, after),
        announced(updates).len() == 0,
    ensures
        after == before,
{
    assert(after.notified =~= before.notified);
    assert forall|name: Seq<char>| !touched(updates, name) by {
        if touched(updates, name) {
            let i = choose|i: int| touches(updates, i, name);
            lemma_accepted_is_announced(updates, i);
        }
    }
    assert forall|name: Seq<char>|
        after.entries.contains_key(name) == before.entries.contains_key(name) by {
        lemma_untouched_is_unchanged(before.protos(), updates, name);
        assert(after.protos().contains_key(name) == after.entries.contains_key(name));
        assert(before.protos().contains_key(name) == before.entries.contains_key(name));
    }
    assert(after.entries =~= before.entries);
}

/// A batch that holds an update which the store takes announces a name.
pub proof fn lemma_accepted_is_announced<T: ConfigMessage>(updates: Seq<XdsUpdate<T>>, i: int)
    requires
        0 <= i < updates.len(),
        accepted(updates[i]),
    ensures
        announced(updates).len() > 0,
    decreases updates.len(),
{
    if i < updates.len() - 1 {
        lemma_accepted_is_announced(updates.drop_last(), i);
    }
}

/// A frame without resources and without removals is acknowledged.
pub proof fn lemma_empty_frame_is_acknowledged<T: ConfigMessage>(
    type_url: Seq<char>,
    frame: DeltaResources<T>,
)
    requires
        frame.resources@.len() == 0,
        frame.removed_resources@.len() == 0,
    ensures
        batch_of(frame) == Seq::<XdsUpdate<T>>::empty(),
        answer_to(type_url, frame).error_detail is None,
        answer_to(type_url, frame).response_nonce == frame.nonce@,
{
    assert(batch_of(frame) =~= Seq::<XdsUpdate<T>>::empty());
    crate::xds::batch::lemma_empty_batch::<T>(Map::empty());
}

/// The entry of a name that no update taken by the store speaks of is
/// unchanged by the batch: the entry that it was, with the signal that it
/// had, or absent as before. So a resource that was only rejected leaves
/// no trace in the store.
pub proof fn lemma_untouched_target_is_unchanged(
    before: TargetStoreView,
    updates: Seq<XdsUpdate<XdsTarget>>,
    after: TargetStoreView,
    name: Seq<char>,
)
    requires
        targets_after(before, updates, after),
        !touched(updates, name),
    ensures
        after.entries.contains_key(name) == before.entries.contains_key(name),
        before.entries.contains_key(name) ==> after.entries[name] == before.entries[name],
{
    lemma_untouched_is_unchanged(before.protos(), updates, name);
    assert(after.protos().contains_key(name) == after.entries.contains_key(name));
    assert(before.protos().contains_key(name) == before.entries.contains_key(name));
}

/// A batch that changes what the store holds notifies at least one name,
/// and every name that a batch notifies is the name of one of its updates.
pub proof fn lemma_changed_store_notifies(
    before: TargetStoreView,
    updates: Seq<XdsUpdate<XdsTarget>>,
    after: TargetStoreView,
)
    requires
        targets_after(before, updates, after),
    ensures
        after.protos() != before.protos() ==> after.notified.len() > before.notified.len(),
        before.notified.len() <= after.notified.len(),
        forall|k: int|
            before.notified.len() <= k < after.notified.len() ==> touched(
                updates,
                #[trigger] after.notified[k],
            ),
        after.notified.subrange(0, before.notified.len() as int) == before.notified,
{
    if after.protos() != before.protos() {
        lemma_change_is_announced(before.protos(), updates);
    }
    assert forall|k: int| before.notified.len() <= k < after.notified.len() implies touched(
        updates,
        #[trigger] after.notified[k],
    ) by {
        lemma_announced_is_in_batch(updates, k - before.notified.len());
    }
    assert(after.notified.subrange(0, before.notified.len() as int) =~= before.notified);
}

/// An upsert of a frame that the store takes stands after the frame,
/// unless a later upsert of the same frame speaks of the same name: the
/// removals of a frame come before its upserts, so a frame that removes a
/// name and upserts it leaves the upsert.
pub proof fn lemma_upsert_outlives_removal<T: ConfigMessage>(
    held: Map<Seq<char>, T>,
    frame: DeltaResources<T>,
    i: int,
)
    requires
        !malformed(frame.resources@),
        0 <= i < frame.resources@.len(),
        frame.resources@[i].resource.unwrap().fault() is None,
        forall|j: int|
            i < j < frame.resources@.len() && frame.resources@[j].resource.unwrap().fault() is None
                ==> (#[trigger] frame.resources@[j]).resource.unwrap().key()
                != frame.resources@[i].resource.unwrap().key(),
    ensures
        applied(held, batch_of(frame)).contains_key(frame.resources@[i].resource.unwrap().key()),
        applied(held, batch_of(frame))[frame.resources@[i].resource.unwrap().key()]
            == frame.resources@[i].resource.unwrap(),
{
    let batch = batch_of(frame);
    let offset = removals::<T>(frame.removed_resources@).len() as int;
    let at = offset + i;
    assert(frame.resources@[i].resource is Some);
    assert(batch[at] == upserts(frame.resources@)[i]);
    assert forall|j: int| at < j < batch.len() implies !touches(batch, j, key_of(batch[at])) by {
        let k = j - offset;
        assert(frame.resources@[k].resource is Some);
        assert(batch[j] == upserts(frame.resources@)[k]);
    }
    lemma_upsert_stands(held, batch, at);
}

/// The batch that a frame stands for is already in the order in which a
/// handler applies it.
pub proof fn lemma_frame_batch_is_ordered<T: ConfigMessage>(frame: DeltaResources<T>)
    requires
        !malformed(frame.resources@),
    ensures
        crate::xds::batch::ordered(batch_of(frame)) == batch_of(frame),
{
    let first = removals::<T>(frame.removed_resources@);
    let second = upserts(frame.resources@);
    assert forall|i: int| 0 <= i < first.len() implies (#[trigger] first[i]) is Remove by {}
    assert forall|i: int| 0 <= i < second.len() implies (#[trigger] second[i]) is Update by {}
    crate::xds::batch::lemma_ordered_already(first, second);
}

/// A target whose message is the same across a re-insertion is found with
/// that message before the batch and after it: a batch that ends with the
/// upsert of a message that the store already holds under its name leaves
/// that message there.
pub proof fn lemma_reinsertion_keeps_message<T: ConfigMessage>(
    held: Map<Seq<char>, T>,
    updates: Seq<XdsUpdate<T>>,
)
    requires
        updates.len() > 0,
        updates.last() is Update,
        accepted(updates.last()),
        held.contains_key(key_of(updates.last())),
        held[key_of(updates.last())] == updates.last()->Update_0.resource,
    ensures
        applied(held, updates).contains_key(key_of(updates.last())),
        applied(held, updates)[key_of(updates.last())] == held[key_of(updates.last())],
{
}

/// The answer to a frame refuses it exactly where the store rejected one
/// of its resources or a body could not be read, and a refusal for a
/// rejection cites the first one.
pub proof fn lemma_refusal_cites_first_rejection<T: ConfigMessage>(
    type_url: Seq<char>,
    frame: DeltaResources<T>,
)
    requires
        !malformed(frame.resources@),
    ensures
        answer_to(type_url, frame).error_detail is Some <==> rejections(batch_of(frame)).len() > 0,
        rejections(batch_of(frame)).len() > 0 ==> answer_to(type_url, frame).error_detail == Some(
            crate::xds::types::rejection_text(rejections(batch_of(frame))[0]),
        ),
        answer_to(type_url, frame) == answer(type_url, frame.nonce@, rejections(batch_of(frame))),
{
}

/// The versions tracked after a run of frames, taken in order. A frame with
/// a body that could not be read is passed over.
pub open spec fn versions_after_all<T: ConfigMessage>(
    versions: Map<Seq<char>, Seq<char>>,
    frames: Seq<DeltaResources<T>>,
) -> Map<Seq<char>, Seq<char>>
    decreases frames.len(),
{
    if frames.len() == 0 {
        versions
    } else {
        let before = versions_after_all(versions, frames.drop_last());
        if malformed(frames.last().resources@) {
            before
        } else {
            versions_after(before, frames.last())
        }
    }
}

/// The messages held after a run of frames, taken in order. A frame with a
/// body that could not be read is passed over.
pub open spec fn held_after_all<T: ConfigMessage>(
    held: Map<Seq<char>, T>,
    frames: Seq<DeltaResources<T>>,
) -> Map<Seq<char>, T>
    decreases frames.len(),
{
    if frames.len() == 0 {
        held
    } else {
        let before = held_after_all(held, frames.drop_last());
        if malformed(frames.last().resources@) {
            before
        } else {
            applied(before, batch_of(frames.last()))
        }
    }
}

/// After any run of frames, the names whose versions are tracked are the
/// names that the store holds, where they were the same at the start and
/// every resource of every frame goes by the name of its message.
pub proof fn lemma_versions_follow_store_always<T: ConfigMessage>(
    versions: Map<Seq<char>, Seq<char>>,
    held: Map<Seq<char>, T>,
    frames: Seq<DeltaResources<T>>,
)
    requires
        versions.dom() == held.dom(),
        forall|i: int| 0 <= i < frames.len() ==> names_agree((#[trigger] frames[i]).resources@),
    ensures
        versions_after_all(versions, frames).dom() == held_after_all(held, frames).dom(),
    decreases frames.len(),
{
    if frames.len() > 0 {
        let shorter = frames.drop_last();
        assert forall|i: int| 0 <= i < shorter.len() implies names_agree(
            (#[trigger] shorter[i]).resources@,
        ) by {
            assert(shorter[i] == frames[i]);
        }
        lemma_versions_follow_store_always(versions, held, shorter);
        let last = frames[frames.len() - 1];
        assert(names_agree(last.resources@));
        if !malformed(last.resources@) {
            lemma_versions_follow_store(
                versions_after_all(versions, shorter),
                held_after_all(held, shorter),
                last,
            );
        }
    }
}

/// The names that the taken updates of a batch speak of.
pub open spec fn touched_names<T: ConfigMessage>(updates: Seq<XdsUpdate<T>>) -> Set<Seq<char>> {
    Set::new(|name: Seq<char>| touched(updates, name))
}

/// After removals alone, the names held are those held before but for the
/// names removed.
pub proof fn lemma_names_after_removals<T: ConfigMessage>(
    held: Map<Seq<char>, T>,
    removals: Seq<XdsUpdate<T>>,
)
    requires
        forall|i: int| 0 <= i < removals.len() ==> (#[trigger] removals[i]) is Remove,
    ensures
        applied(held, removals).dom() == held.dom().difference(touched_names(removals)),
    decreases removals.len(),
{
    if removals.len() == 0 {
        assert forall|name: Seq<char>| !touched(removals, name) by {
            if touched(removals, name) {
                let i = choose|i: int| touches(removals, i, name);
            }
        }
        assert(applied(held, removals).dom() =~= held.dom().difference(touched_names(removals)));
    } else {
        let shorter = removals.drop_last();
        let last = removals[removals.len() - 1];
        assert(last is Remove);
        assert forall|i: int| 0 <= i < shorter.len() implies (#[trigger] shorter[i]) is Remove by {
            assert(shorter[i] == removals[i]);
        }
        lemma_names_after_removals(held, shorter);
        assert forall|name: Seq<char>|
            touched(removals, name) <==> touched(shorter, name) || key_of(last) == name by {
            lemma_touched_grows(removals, name);
        }
        assert(applied(held, removals).dom() =~= held.dom().difference(touched_names(removals)));
    }
}

/// After upserts alone, the names held are those held before and the names
/// of the upserts that the store took.
pub proof fn lemma_names_after_upserts<T: ConfigMessage>(
    held: Map<Seq<char>, T>,
    upserts: Seq<XdsUpdate<T>>,
)
    requires
        forall|i: int| 0 <= i < upserts.len() ==> (#[trigger] upserts[i]) is Update,
    ensures
        applied(held, upserts).dom() == held.dom().union(touched_names(upserts)),
    decreases upserts.len(),
{
    if upserts.len() == 0 {
        assert forall|name: Seq<char>| !touched(upserts, name) by {
            if touched(upserts, name) {
                let i = choose|i: int| touches(upserts, i, name);
            }
        }
        assert(applied(held, upserts).dom() =~= held.dom().union(touched_names(upserts)));
    } else {
        let shorter = upserts.drop_last();
        let last = upserts[upserts.len() - 1];
        assert(last is Update);
        assert forall|i: int| 0 <= i < shorter.len() implies (#[trigger] shorter[i]) is Update by {
            assert(shorter[i] == upserts[i]);
        }
        lemma_names_after_upserts(held, shorter);
        assert forall|name: Seq<char>|
            touched(upserts, name) <==> touched(shorter, name) || (accepted(last) && key_of(last)
                == name) by {
            lemma_touched_grows(upserts, name);
        }
        assert(applied(held, upserts).dom() =~= held.dom().union(touched_names(upserts)));
    }
}

/// After a batch that a handler has applied, the names held are those held
/// before, but for the names that the batch removes, and the names of the
/// upserts that the store took. Both the decoded targets and the messages
/// stand under these names.
pub proof fn lemma_names_after_batch<T: ConfigMessage>(
    held: Map<Seq<char>, T>,
    updates: Seq<XdsUpdate<T>>,
)
    ensures
        applied(held, ordered(updates)).dom() == held.dom().difference(
            touched_names(removals_of(updates)),
        ).union(touched_names(upserts_of(updates))),
{
    let first = removals_of(updates);
    let second = upserts_of(updates);
    updates.filter_lemma(|u: XdsUpdate<T>| u is Remove);
    updates.filter_lemma(|u: XdsUpdate<T>| u is Update);
    lemma_names_after_removals(held, first);
    lemma_names_after_upserts(applied(held, first), second);
    lemma_applied_joined(held, first, second);
}

/// A held message that a batch upserts again is found after the batch as
/// before it, whatever the batch did to its name earlier, as long as no
/// later update that the store takes speaks of the name.
pub proof fn lemma_reupsert_keeps_message(
    before: TargetStoreView,
    updates: Seq<XdsUpdate<XdsTarget>>,
    after: TargetStoreView,
    i: int,
)
    requires
        before.valid(),
        targets_after(before, updates, after),
        0 <= i < updates.len(),
        updates[i] is Update,
        before.entries.contains_key(key_of(updates[i])),
        updates[i]->Update_0.resource == before.entries[key_of(updates[i])].proto,
        forall|j: int| i < j < updates.len() ==> !touches(updates, j, key_of(updates[i])),
    ensures
        after.entries.contains_key(key_of(updates[i])),
        after.entries[key_of(updates[i])].proto == before.entries[key_of(updates[i])].proto,
{
    let name = key_of(updates[i]);
    lemma_held_message_is_taken(before, name);
    lemma_upsert_stands(before.protos(), updates, i);
    assert(after.protos().contains_key(name));
}

/// The name that update `i` of a batch speaks of.
pub open spec fn key_at<T: ConfigMessage>(updates: Seq<XdsUpdate<T>>, i: int) -> Seq<char> {
    key_of(updates[i])
}

/// The names that the updates of a batch speak of, one for one.
pub open spec fn keys_of<T: ConfigMessage>(updates: Seq<XdsUpdate<T>>) -> Seq<Seq<char>> {
    Seq::new(updates.len(), |i: int| key_at(updates, i))
}

/// The batch is made of upserts that the store takes, of names that are
/// not in `order`, each name once.
pub open spec fn new_upserts<T: ConfigMessage>(
    order: Seq<Seq<char>>,
    updates: Seq<XdsUpdate<T>>,
) -> bool {
    &&& forall|i: int|
        0 <= i < updates.len() ==> (#[trigger] updates[i]) is Update && accepted(updates[i])
    &&& forall|i: int, j: int|
        0 <= i < j < updates.len() ==> #[trigger] key_at(updates, i) != #[trigger] key_at(
            updates,
            j,
        )
    &&& forall|i: int, k: int|
        0 <= i < updates.len() && 0 <= k < order.len() ==> #[trigger] key_at(updates, i)
            != #[trigger] order[k]
}

/// Upserts of new names, each name once, all taken by the store, are listed
/// after what was held, in the order of the batch: after N such upserts a
/// store that was empty lists exactly those N names, none twice.
pub proof fn lemma_new_upserts_are_listed<T: ConfigMessage>(
    order: Seq<Seq<char>>,
    updates: Seq<XdsUpdate<T>>,
)
    requires
        new_upserts(order, updates),
    ensures
        order_after(order, updates) == order + keys_of(updates),
        order_after(order, updates).len() == order.len() + updates.len(),
    decreases updates.len(),
{
    if updates.len() == 0 {
        assert(order + keys_of(updates) =~= order);
    } else {
        let shorter = updates.drop_last();
        let n = updates.len() - 1;
        let last = updates[n];
        let key = key_at(updates, n);
        assert(last is Update && accepted(last));
        assert(new_upserts(order, shorter)) by {
            assert forall|i: int| 0 <= i < shorter.len() implies (#[trigger] shorter[i]) is Update
                && accepted(shorter[i]) by {
                assert(shorter[i] == updates[i]);
            }
            assert forall|i: int, j: int| 0 <= i < j < shorter.len() implies #[trigger] key_at(
                shorter,
                i,
            ) != #[trigger] key_at(shorter, j) by {
                assert(key_at(shorter, i) == key_at(updates, i));
                assert(key_at(shorter, j) == key_at(updates, j));
            }
            assert forall|i: int, k: int|
                0 <= i < shorter.len() && 0 <= k < order.len() implies #[trigger] key_at(
                shorter,
                i,
            ) != #[trigger] order[k] by {
                assert(key_at(shorter, i) == key_at(updates, i));
            }
        }
        lemma_new_upserts_are_listed(order, shorter);
        let before = order + keys_of(shorter);
        assert forall|j: int| 0 <= j < before.len() implies before[j] != key by {
            if j < order.len() {
                assert(before[j] == order[j]);
            } else {
                let i = j - order.len();
                assert(before[j] == key_at(shorter, i));
                assert(key_at(shorter, i) == key_at(updates, i));
            }
        }
        lemma_without_none(before, key);
        assert(order_after(order, updates) == without(before, key).push(key));
        assert(before.push(key) =~= order + keys_of(updates)) by {
            assert forall|j: int| 0 <= j < shorter.len() implies keys_of(shorter)[j] == keys_of(
                updates,
            )[j] by {
                assert(key_at(shorter, j) == key_at(updates, j));
            }
        }
    }
}

/// The versions tracked after resources of new names, each name once, all
/// taken by the store: each of them under its name, beside what was tracked
/// before. Where nothing was tracked before, exactly as many as there are
/// resources are tracked after.
pub proof fn lemma_new_versions_are_tracked<T: ConfigMessage>(
    versions: Map<Seq<char>, Seq<char>>,
    resources: Seq<Resource<T>>,
)
    requires
        forall|i: int|
            0 <= i < resources.len() ==> (#[trigger] resources[i]).resource is Some
                && resources[i].resource.unwrap().fault() is None,
        forall|i: int, j: int|
            0 <= i < j < resources.len() ==> (#[trigger] resources[i]).name@
                != (#[trigger] resources[j]).name@,
        versions.dom().finite(),
        forall|i: int| 0 <= i < resources.len() ==> !versions.contains_key(
            (#[trigger] resources[i]).name@,
        ),
    ensures
        forall|i: int|
            0 <= i < resources.len() ==> track(versions, resources).contains_key(
                (#[trigger] resources[i]).name@,
            ) && track(versions, resources)[resources[i].name@] == resources[i].version@,
        forall|name: Seq<char>|
            versions.contains_key(name) ==> #[trigger] track(versions, resources).contains_key(
                name,
            ) && track(versions, resources)[name] == versions[name],
        track(versions, resources).dom().finite(),
        track(versions, resources).dom().len() == versions.dom().len() + resources.len(),
    decreases resources.len(),
{
    if resources.len() > 0 {
        let shorter = resources.drop_last();
        let n = resources.len() - 1;
        let last = resources[n];
        assert(last.resource is Some && last.resource.unwrap().fault() is None);
        assert forall|i: int| 0 <= i < shorter.len() implies (#[trigger] shorter[i]).resource is Some
            && shorter[i].resource.unwrap().fault() is None && !versions.contains_key(
            shorter[i].name@,
        ) by {
            assert(shorter[i] == resources[i]);
        }
        assert forall|i: int, j: int| 0 <= i < j < shorter.len() implies (#[trigger] shorter[i]).name@
            != (#[trigger] shorter[j]).name@ by {
            assert(shorter[i] == resources[i]);
            assert(shorter[j] == resources[j]);
        }
        lemma_new_versions_are_tracked(versions, shorter);
        let before = track(versions, shorter);
        // the last name is new: not tracked before, and not among the others
        if before.contains_key(last.name@) {
            lemma_tracked_names(versions, shorter, last.name@);
            let i = choose|i: int| 0 <= i < shorter.len() && (#[trigger] shorter[i]).name@
                == last.name@;
            assert(shorter[i] == resources[i]);
            assert(resources[i].name@ != resources[n].name@);
        }
        assert(track(versions, resources) == before.insert(last.name@, last.version@));
        assert forall|i: int| 0 <= i < resources.len() implies track(
            versions,
            resources,
        ).contains_key((#[trigger] resources[i]).name@) && track(
            versions,
            resources,
        )[resources[i].name@] == resources[i].version@ by {
            if i < n {
                assert(shorter[i] == resources[i]);
            }
        }
    }
}

/// A name that is tracked after resources were noted was tracked before or
/// is the name of one of them.
pub proof fn lemma_tracked_names<T: ConfigMessage>(
    versions: Map<Seq<char>, Seq<char>>,
    resources: Seq<Resource<T>>,
    name: Seq<char>,
)
    requires
        track(versions, resources).contains_key(name),
    ensures
        versions.contains_key(name) || exists|i: int|
            0 <= i < resources.len() && (#[trigger] resources[i]).name@ == name,
    decreases resources.len(),
{
    if resources.len() > 0 {
        let shorter = resources.drop_last();
        let n = resources.len() - 1;
        if track(versions, shorter).contains_key(name) {
            lemma_tracked_names(versions, shorter, name);
            if !versions.contains_key(name) {
                let i = choose|i: int| 0 <= i < shorter.len() && (#[trigger] shorter[i]).name@
                    == name;
                assert(resources[i] == shorter[i]);
            }
        } else {
            assert(resources[n].name@ == name);
        }
    }
}

} // verus!
