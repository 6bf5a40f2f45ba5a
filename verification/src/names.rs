//! A map keyed by names, kept as a list of slots in which no name occurs
//! twice. Its view is a `Map` from the name's characters to the value; the
//! order of the slots is the order in which the names were last inserted.

use vstd::prelude::*;

verus! {

/// One entry of a [`NameMap`].
#[derive(Clone, Debug)]
pub struct Slot<V> {
    pub name: String,
    pub value: V,
}

/// The name held at position `i`.
pub open spec fn name_at<V>(slots: Seq<Slot<V>>, i: int) -> Seq<char> {
    slots[i].name@
}

/// No two positions hold the same name.
pub open spec fn distinct_names<V>(slots: Seq<Slot<V>>) -> bool {
    forall|i: int, j: int|
        0 <= i < slots.len() && 0 <= j < slots.len() && #[trigger] name_at(slots, i)
            == #[trigger] name_at(slots, j) ==> i == j
}

/// Some position holds `name`.
pub open spec fn holds_name<V>(slots: Seq<Slot<V>>, name: Seq<char>) -> bool {
    exists|i: int| 0 <= i < slots.len() && #[trigger] name_at(slots, i) == name
}

/// A position that holds `name`, where there is one.
pub open spec fn position_of<V>(slots: Seq<Slot<V>>, name: Seq<char>) -> int {
    choose|i: int| 0 <= i < slots.len() && #[trigger] name_at(slots, i) == name
}

/// The map that a list of slots stands for.
pub open spec fn slots_map<V>(slots: Seq<Slot<V>>) -> Map<Seq<char>, V> {
    Map::new(
        |name: Seq<char>| holds_name(slots, name),
        |name: Seq<char>| slots[position_of(slots, name)].value,
    )
}

/// A list of names without `name`.
pub open spec fn without(names: Seq<Seq<char>>, name: Seq<char>) -> Seq<Seq<char>> {
    names.filter(|n: Seq<char>| n != name)
}

/// The names of a list of slots, in order.
pub open spec fn slots_names<V>(slots: Seq<Slot<V>>) -> Seq<Seq<char>> {
    Seq::new(slots.len(), |i: int| name_at(slots, i))
}

/// In a list without repeated names, the slot at `i` is the one the map gives
/// for its name.
pub proof fn lemma_slot_is_mapped<V>(slots: Seq<Slot<V>>, i: int)
    requires
        distinct_names(slots),
        0 <= i < slots.len(),
    ensures
        slots_map(slots).contains_key(slots[i].name@),
        slots_map(slots)[slots[i].name@] == slots[i].value,
        position_of(slots, slots[i].name@) == i,
{
    let name = name_at(slots, i);
    assert(holds_name(slots, name));
    let p = position_of(slots, name);
    assert(name_at(slots, p) == name_at(slots, i));
}

/// Appending a slot whose name is new inserts it into the map.
pub proof fn lemma_push_slot<V>(slots: Seq<Slot<V>>, slot: Slot<V>)
    requires
        distinct_names(slots),
        !holds_name(slots, slot.name@),
    ensures
        distinct_names(slots.push(slot)),
        slots_map(slots.push(slot)) == slots_map(slots).insert(slot.name@, slot.value),
{
    let after = slots.push(slot);
    assert forall|i: int, j: int|
        0 <= i < after.len() && 0 <= j < after.len() && #[trigger] name_at(after, i)
            == #[trigger] name_at(after, j) implies i == j by {
        if i < slots.len() {
            assert(name_at(slots, i) == name_at(after, i));
        }
        if j < slots.len() {
            assert(name_at(slots, j) == name_at(after, j));
        }
    }
    let want = slots_map(slots).insert(slot.name@, slot.value);
    assert forall|name: Seq<char>| slots_map(after).contains_key(name) <==> want.contains_key(
        name,
    ) by {
        if holds_name(slots, name) {
            let p = position_of(slots, name);
            assert(name_at(after, p) == name);
        }
        if name == slot.name@ {
            assert(name_at(after, slots.len() as int) == name);
        }
        if holds_name(after, name) {
            let p = position_of(after, name);
            if p < slots.len() {
                assert(name_at(slots, p) == name);
            }
        }
    }
    assert forall|name: Seq<char>| slots_map(after).contains_key(name) implies slots_map(
        after,
    )[name] == want[name] by {
        let p = position_of(after, name);
        lemma_slot_is_mapped(after, p);
        if p < slots.len() {
            assert(name_at(slots, p) == name);
            lemma_slot_is_mapped(slots, p);
        }
    }
    assert(slots_map(after) =~= want);
}

/// Taking out the slot at `i` removes its name from the map.
pub proof fn lemma_remove_slot<V>(slots: Seq<Slot<V>>, i: int)
    requires
        distinct_names(slots),
        0 <= i < slots.len(),
    ensures
        distinct_names(slots.remove(i)),
        !holds_name(slots.remove(i), slots[i].name@),
        slots_map(slots.remove(i)) == slots_map(slots).remove(slots[i].name@),
{
    let after = slots.remove(i);
    let gone = slots[i].name@;
    assert forall|a: int| 0 <= a < after.len() implies #[trigger] name_at(after, a) == name_at(
        slots,
        if a < i {
            a
        } else {
            a + 1
        },
    ) by {}
    assert forall|a: int, b: int|
        0 <= a < after.len() && 0 <= b < after.len() && #[trigger] name_at(after, a)
            == #[trigger] name_at(after, b) implies a == b by {
        let a0 = if a < i {
            a
        } else {
            a + 1
        };
        let b0 = if b < i {
            b
        } else {
            b + 1
        };
        assert(name_at(slots, a0) == name_at(slots, b0));
    }
    if holds_name(after, gone) {
        let p = position_of(after, gone);
        let shifted = if p < i {
            p
        } else {
            p + 1
        };
        assert(name_at(slots, shifted) == name_at(slots, i));
    }
    let want = slots_map(slots).remove(gone);
    assert forall|name: Seq<char>| slots_map(after).contains_key(name) <==> want.contains_key(
        name,
    ) by {
        if holds_name(after, name) {
            let p = position_of(after, name);
            let shifted = if p < i {
                p
            } else {
                p + 1
            };
            assert(name_at(slots, shifted) == name);
        }
        if holds_name(slots, name) && name != gone {
            let p = position_of(slots, name);
            let q = if p < i {
                p
            } else {
                p - 1
            };
            assert(name_at(after, q) == name);
        }
    }
    assert forall|name: Seq<char>| slots_map(after).contains_key(name) implies slots_map(
        after,
    )[name] == want[name] by {
        let p = position_of(after, name);
        lemma_slot_is_mapped(after, p);
        let shifted = if p < i {
            p
        } else {
            p + 1
        };
        assert(name_at(slots, shifted) == name);
        lemma_slot_is_mapped(slots, shifted);
    }
    assert(slots_map(after) =~= want);
}

/// A map from names to values.
#[derive(Clone, Debug)]
pub struct NameMap<V> {
    slots: Vec<Slot<V>>,
}

impl<V> View for NameMap<V> {
    type V = Map<Seq<char>, V>;

    closed spec fn view(&self) -> Map<Seq<char>, V> {
        slots_map(self.slots@)
    }
}

impl<V> NameMap<V> {
    /// No name is held twice.
    pub closed spec fn wf(&self) -> bool {
        distinct_names(self.slots@)
    }

    /// The names held, in the order in which they were last inserted.
    pub closed spec fn names(&self) -> Seq<Seq<char>> {
        slots_names(self.slots@)
    }

    /// The values held, in the order of `names`.
    pub closed spec fn values(&self) -> Seq<V> {
        Seq::new(self.slots@.len(), |i: int| self.slots@[i].value)
    }

    /// `names` and `values` list the map: every name once, each with its value.
    pub proof fn lemma_names_list_the_map(self)
        requires
            self.wf(),
        ensures
            self.names().len() == self.values().len(),
            self.names().no_duplicates(),
            forall|i: int|
                0 <= i < self.names().len() ==> self@.contains_key(#[trigger] self.names()[i])
                    && self@[self.names()[i]] == self.values()[i],
            forall|name: Seq<char>| self@.contains_key(name) ==> self.names().contains(name),
    {
        let slots = self.slots@;
        assert forall|i: int, j: int|
            0 <= i < self.names().len() && 0 <= j < self.names().len() && i != j implies self.names()[i]
            != self.names()[j] by {
            assert(name_at(slots, i) == self.names()[i]);
            assert(name_at(slots, j) == self.names()[j]);
        }
        assert forall|i: int| 0 <= i < self.names().len() implies self@.contains_key(
            #[trigger] self.names()[i],
        ) && self@[self.names()[i]] == self.values()[i] by {
            lemma_slot_is_mapped(slots, i);
        }
        assert forall|name: Seq<char>| self@.contains_key(name) implies self.names().contains(
            name,
        ) by {
            let p = position_of(slots, name);
            assert(self.names()[p] == name);
        }
    }

    /// An empty map.
    pub fn new() -> (m: Self)
        ensures
            m.wf(),
            m@ == Map::<Seq<char>, V>::empty(),
            m.names() == Seq::<Seq<char>>::empty(),
    {
        let m = NameMap { slots: Vec::new() };
        assert(m@ =~= Map::<Seq<char>, V>::empty());
        assert(m.names() =~= Seq::<Seq<char>>::empty());
        m
    }

    /// The number of names held.
    pub fn len(&self) -> (n: usize)
        requires
            self.wf(),
        ensures
            n == self.names().len(),
            n == self@.dom().len(),
            self@.dom().finite(),
    {
        proof {
            self.lemma_names_list_the_map();
            self.lemma_domain_is_names();
        }
        self.slots.len()
    }

    /// The domain of the map is the set of the listed names, and is as large
    /// as the list is long.
    pub proof fn lemma_domain_is_names(self)
        requires
            self.wf(),
        ensures
            self@.dom() == self.names().to_set(),
            self@.dom().finite(),
            self@.dom().len() == self.names().len(),
    {
        self.lemma_names_list_the_map();
        assert(self@.dom() =~= self.names().to_set()) by {
            assert forall|name: Seq<char>| self@.dom().contains(name) <==> self.names().to_set().contains(
                name,
            ) by {
                if self.names().contains(name) {
                    let i = choose|i: int| 0 <= i < self.names().len() && self.names()[i] == name;
                    assert(self@.contains_key(self.names()[i]));
                }
            }
        }
        self.names().unique_seq_to_set();
    }

    /// The position of `name`, or `None` where the map does not hold it.
    fn find(&self, name: &str) -> (r: Option<usize>)
        ensures
            match r {
                Some(i) => i < self.slots@.len() && name_at(self.slots@, i as int) == name@,
                None => !holds_name(self.slots@, name@),
            },
    {
        let wanted = name.to_owned();
        let mut i: usize = 0;
        while i < self.slots.len()
            invariant
                i <= self.slots@.len(),
                wanted@ == name@,
                forall|j: int| 0 <= j < i ==> name_at(self.slots@, j) != name@,
            decreases self.slots@.len() - i,
        {
            if self.slots[i].name == wanted {
                return Some(i);
            }
            i += 1;
        }
        None
    }

    /// Whether the map holds `name`.
    pub fn contains(&self, name: &str) -> (b: bool)
        ensures
            b == self@.contains_key(name@),
    {
        self.find(name).is_some()
    }

    /// The value held under `name`.
    pub fn get(&self, name: &str) -> (r: Option<&V>)
        requires
            self.wf(),
        ensures
            match r {
                Some(v) => self@.contains_key(name@) && *v == self@[name@],
                None => !self@.contains_key(name@),
            },
    {
        match self.find(name) {
            Some(i) => {
                proof {
                    lemma_slot_is_mapped(self.slots@, i as int);
                }
                Some(&self.slots[i].value)
            },
            None => None,
        }
    }

    /// Takes `name` out of the map and hands back what was held under it.
    pub fn remove(&mut self, name: &str) -> (r: Option<V>)
        requires
            old(self).wf(),
        ensures
            final(self).wf(),
            final(self)@ == old(self)@.remove(name@),
            match r {
                Some(v) => old(self)@.contains_key(name@) && v == old(self)@[name@],
                None => !old(self)@.contains_key(name@),
            },
            final(self).names() == without(old(self).names(), name@),
    {
        match self.find(name) {
            Some(i) => {
                proof {
                    lemma_slot_is_mapped(self.slots@, i as int);
                    lemma_remove_slot(self.slots@, i as int);
                    lemma_names_without(self.slots@, i as int);
                }
                let slot = self.slots.remove(i);
                Some(slot.value)
            },
            None => {
                proof {
                    lemma_names_keep(self.slots@, name@);
                    assert(self@ =~= self@.remove(name@));
                }
                None
            },
        }
    }

    /// Puts `value` under `name`, in the last position, and hands back what
    /// was held under that name before.
    pub fn insert(&mut self, name: String, value: V) -> (r: Option<V>)
        requires
            old(self).wf(),
        ensures
            final(self).wf(),
            final(self)@ == old(self)@.insert(name@, value),
            match r {
                Some(v) => old(self)@.contains_key(name@) && v == old(self)@[name@],
                None => !old(self)@.contains_key(name@),
            },
            final(self).names() == without(old(self).names(), name@).push(name@),
    {
        let before = self.remove(name.as_str());
        proof {
            let slot = Slot { name, value };
            assert(!self@.contains_key(name@));
            assert(!holds_name(self.slots@, name@));
            lemma_push_slot(self.slots@, slot);
            assert(slots_names(self.slots@.push(slot)) =~= slots_names(self.slots@).push(name@));
            assert(old(self)@.remove(name@).insert(name@, value) =~= old(self)@.insert(
                name@,
                value,
            ));
        }
        self.slots.push(Slot { name, value });
        before
    }

    /// The name at position `i` of `names`.
    pub fn name_at(&self, i: usize) -> (r: &String)
        requires
            i < self.names().len(),
        ensures
            r@ == self.names()[i as int],
    {
        &self.slots[i].name
    }

    /// The value at position `i` of `values`.
    pub fn value_at(&self, i: usize) -> (r: &V)
        requires
            i < self.values().len(),
        ensures
            *r == self.values()[i as int],
    {
        &self.slots[i].value
    }

    /// Empties the map.
    pub fn clear(&mut self)
        ensures
            final(self).wf(),
            final(self)@ == Map::<Seq<char>, V>::empty(),
            final(self).names() == Seq::<Seq<char>>::empty(),
    {
        self.slots.clear();
        assert(self@ =~= Map::<Seq<char>, V>::empty());
        assert(self.names() =~= Seq::<Seq<char>>::empty());
    }
}

impl NameMap<String> {
    /// A copy of the map: the same names in the same order, each with a copy
    /// of its value.
    pub fn duplicate(&self) -> (copy: Self)
        requires
            self.wf(),
        ensures
            copy.wf(),
            copy@ == self@,
            copy.names() == self.names(),
    {
        let mut slots: Vec<Slot<String>> = Vec::new();
        let mut i: usize = 0;
        while i < self.slots.len()
            invariant
                i <= self.slots@.len(),
                slots@ == self.slots@.take(i as int),
            decreases self.slots@.len() - i,
        {
            let slot = &self.slots[i];
            slots.push(Slot { name: slot.name.clone(), value: slot.value.clone() });
            proof {
                assert(self.slots@.take(i + 1) =~= self.slots@.take(i as int).push(
                    self.slots@[i as int],
                ));
            }
            i += 1;
        }
        proof {
            assert(self.slots@.take(i as int) =~= self.slots@);
        }
        NameMap { slots }
    }
}

/// The names of a list from which position `i` was taken are the old names
/// without that one.
proof fn lemma_names_without<V>(slots: Seq<Slot<V>>, i: int)
    requires
        distinct_names(slots),
        0 <= i < slots.len(),
    ensures
        slots_names(slots.remove(i)) == without(slots_names(slots), slots[i].name@),
{
    let gone = slots[i].name@;
    let names = slots_names(slots);
    assert(slots_names(slots.remove(i)) =~= names.remove(i));
    assert forall|j: int| 0 <= j < names.len() && j != i implies names[j] != gone by {
        assert(name_at(slots, j) == names[j]);
        assert(name_at(slots, i) == gone);
    }
    lemma_without_one(names, i, gone);
}

/// Leaving out a name that occurs exactly once, at `i`, removes position `i`.
proof fn lemma_without_one(names: Seq<Seq<char>>, i: int, gone: Seq<char>)
    requires
        0 <= i < names.len(),
        names[i] == gone,
        forall|j: int| 0 <= j < names.len() && j != i ==> names[j] != gone,
    ensures
        without(names, gone) == names.remove(i),
    decreases names.len(),
{
    reveal(Seq::filter);
    let last = names.len() - 1;
    if i == last {
        lemma_without_none(names.drop_last(), gone);
        assert(names.remove(i) =~= names.drop_last());
    } else {
        lemma_without_one(names.drop_last(), i, gone);
        assert(names.remove(i) =~= names.drop_last().remove(i).push(names[last]));
    }
}

/// Leaving out a name that does not occur changes nothing.
pub proof fn lemma_without_none(names: Seq<Seq<char>>, gone: Seq<char>)
    requires
        forall|j: int| 0 <= j < names.len() ==> names[j] != gone,
    ensures
        without(names, gone) == names,
    decreases names.len(),
{
    reveal(Seq::filter);
    if names.len() > 0 {
        lemma_without_none(names.drop_last(), gone);
        assert(names.drop_last().push(names.last()) =~= names);
    }
}

/// Leaving a name out a second time changes nothing.
pub proof fn lemma_without_twice(names: Seq<Seq<char>>, gone: Seq<char>)
    ensures
        without(without(names, gone), gone) == without(names, gone),
{
    names.filter_lemma(|n: Seq<char>| n != gone);
    lemma_without_none(without(names, gone), gone);
}

/// The names of a list that does not hold `name` are unchanged by leaving it
/// out.
proof fn lemma_names_keep<V>(slots: Seq<Slot<V>>, name: Seq<char>)
    requires
        !holds_name(slots, name),
    ensures
        without(slots_names(slots), name) == slots_names(slots),
{
    let names = slots_names(slots);
    assert forall|j: int| 0 <= j < names.len() implies names[j] != name by {
        assert(name_at(slots, j) == names[j]);
    }
    lemma_without_none(names, name);
}

} // verus!
