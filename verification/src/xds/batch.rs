//! What a batch of updates does to a store, as a function of the messages
//! that the store held before, and the laws that hold of every batch.

use crate::outbound::decoded;
use crate::proto::{XdsRbac, XdsTarget};
use crate::xds::types::XdsUpdate;
use crate::xds::ParseError;
use vstd::prelude::*;

verus! {

/// A configuration message that a store keeps under a name.
pub trait ConfigMessage: Sized {
    /// The name under which a store keeps the message.
    spec fn key(&self) -> Seq<char>;

    /// Why the message cannot be installed; `None` where it can.
    spec fn fault(&self) -> Option<ParseError>;
}

impl ConfigMessage for XdsTarget {
    open spec fn key(&self) -> Seq<char> {
        self.name@
    }

    open spec fn fault(&self) -> Option<ParseError> {
        match decoded(*self) {
            Ok(_) => None,
            Err(e) => Some(e),
        }
    }
}

impl ConfigMessage for XdsRbac {
    open spec fn key(&self) -> Seq<char> {
        self.name@
    }

    open spec fn fault(&self) -> Option<ParseError> {
        match crate::rbac::decoded(*self) {
            Ok(_) => None,
            Err(e) => Some(e),
        }
    }
}

/// The store takes the update: a removal always, an upsert where its
/// message can be installed.
pub open spec fn accepted<T: ConfigMessage>(update: XdsUpdate<T>) -> bool {
    match update {
        XdsUpdate::Update(r) => r.resource.fault() is None,
        XdsUpdate::Remove(_) => true,
    }
}

/// The name in the store that the update speaks of.
pub open spec fn key_of<T: ConfigMessage>(update: XdsUpdate<T>) -> Seq<char> {
    match update {
        XdsUpdate::Update(r) => r.resource.key(),
        XdsUpdate::Remove(name) => name@,
    }
}

/// The messages held after one update.
pub open spec fn step<T: ConfigMessage>(held: Map<Seq<char>, T>, update: XdsUpdate<T>) -> Map<
    Seq<char>,
    T,
> {
    match update {
        XdsUpdate::Update(r) => if r.resource.fault() is None {
            held.insert(r.resource.key(), r.resource)
        } else {
            held
        },
        XdsUpdate::Remove(name) => held.remove(name@),
    }
}

/// The messages held after the updates of a batch, taken in order.
pub open spec fn applied<T: ConfigMessage>(
    held: Map<Seq<char>, T>,
    updates: Seq<XdsUpdate<T>>,
) -> Map<Seq<char>, T>
    decreases updates.len(),
{
    if updates.len() == 0 {
        held
    } else {
        step(applied(held, updates.drop_last()), updates.last())
    }
}

/// The order of the names held after one update: a name that is removed
/// leaves the list, and a name that is installed goes to its end.
pub open spec fn order_step<T: ConfigMessage>(
    order: Seq<Seq<char>>,
    update: XdsUpdate<T>,
) -> Seq<Seq<char>> {
    match update {
        XdsUpdate::Update(r) => if r.resource.fault() is None {
            crate::names::without(order, r.resource.key()).push(r.resource.key())
        } else {
            order
        },
        XdsUpdate::Remove(name) => crate::names::without(order, name@),
    }
}

/// The order of the names held after the updates of a batch, taken in
/// order.
pub open spec fn order_after<T: ConfigMessage>(
    order: Seq<Seq<char>>,
    updates: Seq<XdsUpdate<T>>,
) -> Seq<Seq<char>>
    decreases updates.len(),
{
    if updates.len() == 0 {
        order
    } else {
        order_step(order_after(order, updates.drop_last()), updates.last())
    }
}

/// The names that a batch announces as changed: the name of each update
/// that the store takes, in order.
pub open spec fn announced<T: ConfigMessage>(updates: Seq<XdsUpdate<T>>) -> Seq<Seq<char>>
    decreases updates.len(),
{
    if updates.len() == 0 {
        Seq::empty()
    } else if accepted(updates.last()) {
        announced(updates.drop_last()).push(key_of(updates.last()))
    } else {
        announced(updates.drop_last())
    }
}

/// The rejection that an update ends in: for an upsert that the store does
/// not take, the name of the resource and the reason.
pub open spec fn rejection_of<T: ConfigMessage>(update: XdsUpdate<T>) -> Option<
    (Seq<char>, ParseError),
> {
    match update {
        XdsUpdate::Update(r) => match r.resource.fault() {
            Some(reason) => Some((r.name@, reason)),
            None => None,
        },
        XdsUpdate::Remove(_) => None,
    }
}

/// The values that are present in a list, in order.
pub open spec fn present<A>(items: Seq<Option<A>>) -> Seq<A>
    decreases items.len(),
{
    if items.len() == 0 {
        Seq::empty()
    } else {
        match items.last() {
            Some(item) => present(items.drop_last()).push(item),
            None => present(items.drop_last()),
        }
    }
}

/// The rejections of a batch: for each upsert that the store does not take,
/// in order, the name of the resource and the reason.
pub open spec fn rejections<T: ConfigMessage>(updates: Seq<XdsUpdate<T>>) -> Seq<
    (Seq<char>, ParseError),
> {
    present(updates.map_values(|u: XdsUpdate<T>| rejection_of(u)))
}

/// The removals of a batch, in order.
pub open spec fn removals_of<T>(updates: Seq<XdsUpdate<T>>) -> Seq<XdsUpdate<T>> {
    updates.filter(|u: XdsUpdate<T>| u is Remove)
}

/// The upserts of a batch, in order.
pub open spec fn upserts_of<T>(updates: Seq<XdsUpdate<T>>) -> Seq<XdsUpdate<T>> {
    updates.filter(|u: XdsUpdate<T>| u is Update)
}

/// A batch as a handler applies it: its removals first, then its upserts,
/// so that an upsert of a name outlives a removal of that name wherever the
/// two stand in the batch.
pub open spec fn ordered<T>(updates: Seq<XdsUpdate<T>>) -> Seq<XdsUpdate<T>> {
    removals_of(updates) + upserts_of(updates)
}

/// One more update goes to the end of the removals or to the end of the
/// upserts.
pub proof fn lemma_ordered_grows<T>(updates: Seq<XdsUpdate<T>>)
    requires
        updates.len() > 0,
    ensures
        removals_of(updates) == if updates.last() is Remove {
            removals_of(updates.drop_last()).push(updates.last())
        } else {
            removals_of(updates.drop_last())
        },
        upserts_of(updates) == if updates.last() is Update {
            upserts_of(updates.drop_last()).push(updates.last())
        } else {
            upserts_of(updates.drop_last())
        },
{
    reveal(Seq::filter);
}

/// A batch of removals followed by upserts is applied as it stands.
pub proof fn lemma_ordered_already<T>(removals: Seq<XdsUpdate<T>>, upserts: Seq<XdsUpdate<T>>)
    requires
        forall|i: int| 0 <= i < removals.len() ==> (#[trigger] removals[i]) is Remove,
        forall|i: int| 0 <= i < upserts.len() ==> (#[trigger] upserts[i]) is Update,
    ensures
        ordered(removals + upserts) == removals + upserts,
{
    lemma_split_ordered(removals, upserts);
}

/// The removals of a batch of removals followed by upserts are the
/// removals, and its upserts the upserts.
pub proof fn lemma_split_ordered<T>(removals: Seq<XdsUpdate<T>>, upserts: Seq<XdsUpdate<T>>)
    requires
        forall|i: int| 0 <= i < removals.len() ==> (#[trigger] removals[i]) is Remove,
        forall|i: int| 0 <= i < upserts.len() ==> (#[trigger] upserts[i]) is Update,
    ensures
        removals_of(removals + upserts) == removals,
        upserts_of(removals + upserts) == upserts,
{
    lemma_only_removals(removals);
    lemma_only_upserts(upserts);
    Seq::filter_distributes_over_add(removals, upserts, |u: XdsUpdate<T>| u is Remove);
    Seq::filter_distributes_over_add(removals, upserts, |u: XdsUpdate<T>| u is Update);
    assert(removals + Seq::<XdsUpdate<T>>::empty() =~= removals);
    assert(Seq::<XdsUpdate<T>>::empty() + upserts =~= upserts);
}

/// A batch of upserts alone is its own upserts and has no removals.
pub proof fn lemma_only_upserts<T>(upserts: Seq<XdsUpdate<T>>)
    requires
        forall|i: int| 0 <= i < upserts.len() ==> (#[trigger] upserts[i]) is Update,
    ensures
        upserts_of(upserts) == upserts,
        removals_of(upserts) == Seq::<XdsUpdate<T>>::empty(),
    decreases upserts.len(),
{
    if upserts.len() == 0 {
        lemma_nothing_to_order::<T>();
        assert(upserts =~= Seq::<XdsUpdate<T>>::empty());
    } else {
        let shorter = upserts.drop_last();
        let last = upserts[upserts.len() - 1];
        assert(last is Update);
        assert(upserts.last() == last);
        assert forall|i: int| 0 <= i < shorter.len() implies (#[trigger] shorter[i]) is Update by {
            assert(shorter[i] == upserts[i]);
        }
        lemma_only_upserts(shorter);
        lemma_ordered_grows(upserts);
        assert(upserts_of(upserts) == shorter.push(last));
        assert(shorter.push(last) =~= upserts);
    }
}

/// A batch of removals alone is its own removals and has no upserts.
pub proof fn lemma_only_removals<T>(removals: Seq<XdsUpdate<T>>)
    requires
        forall|i: int| 0 <= i < removals.len() ==> (#[trigger] removals[i]) is Remove,
    ensures
        removals_of(removals) == removals,
        upserts_of(removals) == Seq::<XdsUpdate<T>>::empty(),
    decreases removals.len(),
{
    if removals.len() == 0 {
        lemma_nothing_to_order::<T>();
        assert(removals =~= Seq::<XdsUpdate<T>>::empty());
    } else {
        let shorter = removals.drop_last();
        let last = removals[removals.len() - 1];
        assert(last is Remove);
        assert(removals.last() == last);
        assert forall|i: int| 0 <= i < shorter.len() implies (#[trigger] shorter[i]) is Remove by {
            assert(shorter[i] == removals[i]);
        }
        lemma_only_removals(shorter);
        lemma_ordered_grows(removals);
        assert(removals_of(removals) == shorter.push(last));
        assert(shorter.push(last) =~= removals);
    }
}

/// A batch without updates has no removals and no upserts.
pub proof fn lemma_nothing_to_order<T>()
    ensures
        removals_of(Seq::<XdsUpdate<T>>::empty()) == Seq::<XdsUpdate<T>>::empty(),
        upserts_of(Seq::<XdsUpdate<T>>::empty()) == Seq::<XdsUpdate<T>>::empty(),
{
    reveal(Seq::filter);
}

/// The update at `i` is taken and speaks of `name`.
pub open spec fn touches<T: ConfigMessage>(updates: Seq<XdsUpdate<T>>, i: int, name: Seq<char>) -> bool {
    0 <= i < updates.len() && accepted(updates[i]) && key_of(updates[i]) == name
}

/// Some update of the batch is taken and speaks of `name`.
pub open spec fn touched<T: ConfigMessage>(updates: Seq<XdsUpdate<T>>, name: Seq<char>) -> bool {
    exists|i: int| touches(updates, i, name)
}

/// A batch without updates changes nothing, announces nothing and rejects
/// nothing.
pub proof fn lemma_empty_batch<T: ConfigMessage>(held: Map<Seq<char>, T>)
    ensures
        applied(held, Seq::<XdsUpdate<T>>::empty()) == held,
        announced(Seq::<XdsUpdate<T>>::empty()) == Seq::<Seq<char>>::empty(),
        rejections(Seq::<XdsUpdate<T>>::empty()) == Seq::<(Seq<char>, ParseError)>::empty(),
{
    assert(Seq::<XdsUpdate<T>>::empty().map_values(|u: XdsUpdate<T>| rejection_of(u)) =~= Seq::empty());
}

/// A batch rejects nothing exactly where the store takes every update.
pub proof fn lemma_no_rejection_means_all_taken<T: ConfigMessage>(updates: Seq<XdsUpdate<T>>)
    ensures
        rejections(updates).len() == 0 <==> forall|i: int|
            0 <= i < updates.len() ==> accepted(#[trigger] updates[i]),
{
    let outcomes = updates.map_values(|u: XdsUpdate<T>| rejection_of(u));
    lemma_present_empty(outcomes);
    if rejections(updates).len() == 0 {
        assert forall|i: int| 0 <= i < updates.len() implies accepted(#[trigger] updates[i]) by {
            assert(outcomes[i] is None);
        }
    } else {
        let i = choose|i: int| 0 <= i < outcomes.len() && outcomes[i] is Some;
        assert(!accepted(updates[i]));
    }
}

/// Nothing is present in a list exactly where every item is absent.
pub proof fn lemma_present_empty<A>(items: Seq<Option<A>>)
    ensures
        present(items).len() == 0 <==> forall|i: int|
            0 <= i < items.len() ==> (#[trigger] items[i]) is None,
    decreases items.len(),
{
    if items.len() > 0 {
        let before = items.drop_last();
        lemma_present_empty(before);
        if present(items).len() == 0 {
            assert forall|i: int| 0 <= i < items.len() implies (#[trigger] items[i]) is None by {
                if i < before.len() {
                    assert(before[i] == items[i]);
                }
            }
        } else {
            if items.last() is None {
                let i = choose|i: int| 0 <= i < before.len() && !((#[trigger] before[i]) is None);
                assert(items[i] == before[i]);
            }
        }
    }
}

/// One more update touches what the batch before it touched, and its own
/// name where it is taken.
pub proof fn lemma_touched_grows<T: ConfigMessage>(updates: Seq<XdsUpdate<T>>, name: Seq<char>)
    requires
        updates.len() > 0,
    ensures
        touched(updates, name) <==> touched(updates.drop_last(), name) || (accepted(
            updates.last(),
        ) && key_of(updates.last()) == name),
{
    let before = updates.drop_last();
    if touched(updates, name) {
        let i = choose|i: int| touches(updates, i, name);
        if i < before.len() {
            assert(touches(before, i, name));
        }
    }
    if touched(before, name) {
        let i = choose|i: int| touches(before, i, name);
        assert(touches(updates, i, name));
    }
    if accepted(updates.last()) && key_of(updates.last()) == name {
        assert(touches(updates, updates.len() - 1, name));
    }
}

/// A name that no taken update of the batch speaks of is held after the
/// batch exactly where it was held before, with the same message. So the
/// entry of a resource that was only rejected is unchanged: what it was, or
/// absent.
pub proof fn lemma_untouched_is_unchanged<T: ConfigMessage>(
    held: Map<Seq<char>, T>,
    updates: Seq<XdsUpdate<T>>,
    name: Seq<char>,
)
    requires
        !touched(updates, name),
    ensures
        applied(held, updates).contains_key(name) == held.contains_key(name),
        held.contains_key(name) ==> applied(held, updates)[name] == held[name],
    decreases updates.len(),
{
    if updates.len() > 0 {
        lemma_touched_grows(updates, name);
        lemma_untouched_is_unchanged(held, updates.drop_last(), name);
    }
}

/// A batch that changes what is held announces at least one name.
pub proof fn lemma_change_is_announced<T: ConfigMessage>(
    held: Map<Seq<char>, T>,
    updates: Seq<XdsUpdate<T>>,
)
    requires
        applied(held, updates) != held,
    ensures
        announced(updates).len() > 0,
    decreases updates.len(),
{
    if updates.len() > 0 {
        if !accepted(updates.last()) {
            lemma_change_is_announced(held, updates.drop_last());
        }
    }
}

/// Every name that a batch announces is the name of one of its updates.
pub proof fn lemma_announced_is_in_batch<T: ConfigMessage>(updates: Seq<XdsUpdate<T>>, k: int)
    requires
        0 <= k < announced(updates).len(),
    ensures
        touched(updates, announced(updates)[k]),
    decreases updates.len(),
{
    if updates.len() > 0 {
        let before = updates.drop_last();
        let name = announced(updates)[k];
        lemma_touched_grows(updates, name);
        if k < announced(before).len() {
            lemma_announced_is_in_batch(before, k);
        }
    }
}

/// After a batch that ends with an upsert that the store takes, the store
/// holds that message under its name, whatever the batch did to the name
/// before: a removal and an upsert of one name leave the upsert.
pub proof fn lemma_last_upsert_stands<T: ConfigMessage>(
    held: Map<Seq<char>, T>,
    updates: Seq<XdsUpdate<T>>,
)
    requires
        updates.len() > 0,
        updates.last() is Update,
        accepted(updates.last()),
    ensures
        applied(held, updates).contains_key(key_of(updates.last())),
        applied(held, updates)[key_of(updates.last())] == updates.last()->Update_0.resource,
{
}

/// An upsert that the store takes, of a name that later updates of the
/// batch do not touch, stands after the batch.
pub proof fn lemma_upsert_stands<T: ConfigMessage>(
    held: Map<Seq<char>, T>,
    updates: Seq<XdsUpdate<T>>,
    i: int,
)
    requires
        0 <= i < updates.len(),
        updates[i] is Update,
        accepted(updates[i]),
        forall|j: int| i < j < updates.len() ==> !touches(updates, j, key_of(updates[i])),
    ensures
        applied(held, updates).contains_key(key_of(updates[i])),
        applied(held, updates)[key_of(updates[i])] == updates[i]->Update_0.resource,
    decreases updates.len(),
{
    let last = updates.len() - 1;
    if i == last {
        lemma_last_upsert_stands(held, updates);
    } else {
        let before = updates.drop_last();
        assert(!touches(updates, last, key_of(updates[i])));
        assert forall|j: int| i < j < before.len() implies !touches(
            before,
            j,
            key_of(before[i]),
        ) by {
            assert(!touches(updates, j, key_of(updates[i])));
        }
        lemma_upsert_stands(held, before, i);
    }
}

} // verus!
