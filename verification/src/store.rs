//! The editor's picture of the shared parameter store.
//!
//! The audio engine owns the real store. The editor works on a snapshot of
//! it that holds, for every parameter, its descriptor, the group that it
//! belongs to and its current value, and reads and writes that snapshot
//! through `read` and `write` alone.

use vstd::prelude::*;
use crate::param::{DescriptorView, ParamId, ParameterDescriptor};

verus! {

/// Why a descriptor cannot be added to a store.
#[derive(Clone, Copy, Debug, PartialEq, Eq, Structural)]
pub enum StoreError {
    /// The descriptor's kind admits no value, or its default is out of range.
    MalformedKind,
    /// Another parameter already uses the identifier.
    DuplicateId,
}

/// Descriptors, groups and current values of all parameters, in
/// registration order. The group of a parameter is given as the names of
/// the groups that lead to it, outermost first.
pub struct ParameterStore {
    descriptors: Vec<ParameterDescriptor>,
    groups: Vec<Vec<String>>,
    values: Vec<i64>,
}

/// The mathematical content of a [`ParameterStore`].
pub ghost struct StoreView {
    pub descriptors: Seq<DescriptorView>,
    pub groups: Seq<Seq<Seq<char>>>,
    pub values: Seq<int>,
}

impl StoreView {
    /// Every slot holds a well-formed descriptor and an admissible value, and
    /// no identifier is used twice.
    pub open spec fn wf(self) -> bool {
        &&& self.values.len() == self.descriptors.len()
        &&& self.groups.len() == self.descriptors.len()
        &&& forall|i: int|
            0 <= i < self.descriptors.len() ==> (#[trigger] self.descriptors[i]).kind.wf()
        &&& forall|i: int|
            0 <= i < self.descriptors.len() ==> self.descriptors[i].kind.admits(
                #[trigger] self.values[i],
            )
        &&& forall|i: int, j: int|
            0 <= i < j < self.descriptors.len() ==> (#[trigger] self.descriptors[i]).id != (
            #[trigger] self.descriptors[j]).id
    }

    /// Whether slot `i` exists and belongs to the parameter `id`.
    pub open spec fn holds_at(self, id: ParamId, i: int) -> bool {
        0 <= i < self.descriptors.len() && self.descriptors[i].id == id
    }

    /// Whether the store has a slot for `id`.
    pub open spec fn contains(self, id: ParamId) -> bool {
        exists|i: int| self.holds_at(id, i)
    }

    /// The slot of `id`.
    pub open spec fn position(self, id: ParamId) -> int {
        choose|i: int| self.holds_at(id, i)
    }

    /// The descriptor of `id`.
    pub open spec fn descriptor(self, id: ParamId) -> DescriptorView {
        self.descriptors[self.position(id)]
    }

    /// The group of `id`: the names of the groups that lead to it.
    pub open spec fn group(self, id: ParamId) -> Seq<Seq<char>> {
        self.groups[self.position(id)]
    }

    /// The current value of `id`.
    pub open spec fn value(self, id: ParamId) -> int {
        self.values[self.position(id)]
    }

    /// The identifiers of all parameters, in registration order.
    pub open spec fn ids(self) -> Seq<ParamId> {
        Seq::new(self.descriptors.len(), |i: int| self.descriptors[i].id)
    }

    /// The store after `value` was written to `id`: the slot of `id` holds the
    /// admissible value nearest to `value`, and nothing else has changed.
    pub open spec fn written(self, id: ParamId, value: int) -> StoreView {
        StoreView {
            descriptors: self.descriptors,
            groups: self.groups,
            values: self.values.update(
                self.position(id),
                self.descriptor(id).kind.clamped(value),
            ),
        }
    }

    /// The store after a parameter with the given descriptor was added to
    /// the given group.
    pub open spec fn registered(
        self,
        descriptor: DescriptorView,
        group: Seq<Seq<char>>,
    ) -> StoreView {
        StoreView {
            descriptors: self.descriptors.push(descriptor),
            groups: self.groups.push(group),
            values: self.values.push(descriptor.kind.initial()),
        }
    }
}

/// In a well-formed store the slot of an identifier is unique.
pub proof fn lemma_position_unique(store: StoreView, id: ParamId, i: int)
    requires
        store.wf(),
        store.holds_at(id, i),
    ensures
        store.contains(id),
        store.position(id) == i,
{
    let p = store.position(id);
    assert(store.holds_at(id, p));
    if p < i {
        assert(store.descriptors[p].id != store.descriptors[i].id);
    } else if i < p {
        assert(store.descriptors[i].id != store.descriptors[p].id);
    }
}

impl View for ParameterStore {
    type V = StoreView;

    closed spec fn view(&self) -> StoreView {
        StoreView {
            descriptors: self.descriptors.deep_view(),
            groups: self.groups.deep_view(),
            values: self.values@.map_values(|v: i64| v as int),
        }
    }
}

impl ParameterStore {
    /// A store without parameters.
    pub fn new() -> (store: ParameterStore)
        ensures
            store@.descriptors.len() == 0,
            store@.groups.len() == 0,
            store@.values.len() == 0,
            store@.wf(),
    {
        let store = ParameterStore {
            descriptors: Vec::new(),
            groups: Vec::new(),
            values: Vec::new(),
        };
        assert(store@.descriptors =~= Seq::empty());
        assert(store@.groups =~= Seq::empty());
        assert(store@.values =~= Seq::empty());
        store
    }

    /// The number of parameters.
    pub fn len(&self) -> (n: usize)
        ensures
            n == self@.descriptors.len(),
    {
        self.descriptors.len()
    }

    /// Looks up the slot of `id`.
    pub fn find(&self, id: ParamId) -> (slot: Option<usize>)
        requires
            self@.wf(),
        ensures
            match slot {
                Some(i) => self@.contains(id) && self@.position(id) == i,
                None => !self@.contains(id),
            },
    {
        let mut i: usize = 0;
        while i < self.descriptors.len()
            invariant
                i <= self.descriptors.len(),
                self@.descriptors.len() == self.descriptors.len(),
                self@.wf(),
                forall|k: int| 0 <= k < i ==> !self@.holds_at(id, k),
                forall|k: int|
                    0 <= k < self.descriptors.len() ==> self@.descriptors[k].id
                        == #[trigger] self.descriptors[k].id,
            decreases self.descriptors.len() - i,
        {
            if self.descriptors[i].id == id {
                proof {
                    assert(self@.holds_at(id, i as int));
                    lemma_position_unique(self@, id, i as int);
                }
                return Some(i);
            }
            i += 1;
        }
        None
    }

    /// Whether the store has a slot for `id`.
    pub fn contains(&self, id: ParamId) -> (found: bool)
        requires
            self@.wf(),
        ensures
            found == self@.contains(id),
    {
        self.find(id).is_some()
    }

    /// Adds a parameter to a group. It starts at the initial value of its
    /// kind.
    ///
    /// A malformed kind or an identifier that is already in use is refused,
    /// and the store is left as it was.
    pub fn register(&mut self, descriptor: ParameterDescriptor, group: Vec<String>) -> (outcome:
        Result<(), StoreError>)
        requires
            old(self)@.wf(),
        ensures
            final(self)@.wf(),
            match outcome {
                Ok(()) => {
                    &&& descriptor@.kind.wf()
                    &&& !old(self)@.contains(descriptor.id)
                    &&& final(self)@ == old(self)@.registered(descriptor@, group.deep_view())
                    &&& final(self)@.contains(descriptor.id)
                    &&& final(self)@.descriptor(descriptor.id) == descriptor@
                    &&& final(self)@.group(descriptor.id) == group.deep_view()
                    &&& final(self)@.value(descriptor.id) == descriptor@.kind.initial()
                    &&& forall|other: ParamId| #[trigger]
                        old(self)@.contains(other) ==> {
                            &&& final(self)@.contains(other)
                            &&& final(self)@.descriptor(other) == old(self)@.descriptor(other)
                            &&& final(self)@.group(other) == old(self)@.group(other)
                            &&& final(self)@.value(other) == old(self)@.value(other)
                        }
                },
                Err(StoreError::MalformedKind) => {
                    &&& !descriptor@.kind.wf()
                    &&& final(self)@ == old(self)@
                },
                Err(StoreError::DuplicateId) => {
                    &&& descriptor@.kind.wf()
                    &&& old(self)@.contains(descriptor.id)
                    &&& final(self)@ == old(self)@
                },
            },
    {
        if !descriptor.kind.is_well_formed() {
            return Err(StoreError::MalformedKind);
        }
        if self.find(descriptor.id).is_some() {
            return Err(StoreError::DuplicateId);
        }
        let ghost before = self@;
        let value: i64 = descriptor.kind.initial();
        self.descriptors.push(descriptor);
        self.groups.push(group);
        self.values.push(value);
        proof {
            assert(self@.descriptors =~= before.descriptors.push(descriptor@));
            assert(self@.groups =~= before.groups.push(group.deep_view()));
            assert(self@.values =~= before.values.push(descriptor@.kind.initial()));
            assert forall|i: int, j: int| 0 <= i < j < self@.descriptors.len() implies (
            #[trigger] self@.descriptors[i]).id != (#[trigger] self@.descriptors[j]).id by {
                if j == before.descriptors.len() {
                    assert(!before.holds_at(descriptor.id, i));
                }
            }
            let last = before.descriptors.len() as int;
            assert(self@.holds_at(descriptor.id, last));
            lemma_position_unique(self@, descriptor.id, last);
            assert forall|other: ParamId| #[trigger] before.contains(other) implies {
                &&& self@.contains(other)
                &&& self@.descriptor(other) == before.descriptor(other)
                &&& self@.group(other) == before.group(other)
                &&& self@.value(other) == before.value(other)
            } by {
                let there = before.position(other);
                assert(before.holds_at(other, there));
                assert(self@.holds_at(other, there));
                lemma_position_unique(self@, other, there);
            }
        }
        Ok(())
    }

    /// The descriptor of `id`.
    pub fn descriptor(&self, id: ParamId) -> (descriptor: &ParameterDescriptor)
        requires
            self@.wf(),
            self@.contains(id),
        ensures
            descriptor@ == self@.descriptor(id),
            descriptor.id == id,
            descriptor@.kind.wf(),
    {
        let slot = self.find(id);
        let i: usize = slot.unwrap();
        assert(self@.holds_at(id, self@.position(id)));
        &self.descriptors[i]
    }

    /// The group of `id`: the names of the groups that lead to it,
    /// outermost first.
    pub fn group(&self, id: ParamId) -> (group: &Vec<String>)
        requires
            self@.wf(),
            self@.contains(id),
        ensures
            group.deep_view() == self@.group(id),
    {
        let slot = self.find(id);
        let i: usize = slot.unwrap();
        &self.groups[i]
    }

    /// The current value of `id`.
    pub fn read(&self, id: ParamId) -> (value: i64)
        requires
            self@.wf(),
            self@.contains(id),
        ensures
            value == self@.value(id),
            self@.descriptor(id).kind.admits(value as int),
    {
        let slot = self.find(id);
        let i: usize = slot.unwrap();
        self.values[i]
    }

    /// Stores the admissible value nearest to `value` in the slot of `id` and
    /// returns what was stored. No other slot changes.
    pub fn write(&mut self, id: ParamId, value: i64) -> (stored: i64)
        requires
            old(self)@.wf(),
            old(self)@.contains(id),
        ensures
            final(self)@ == old(self)@.written(id, value as int),
            final(self)@.wf(),
            stored == old(self)@.descriptor(id).kind.clamped(value as int),
            final(self)@.value(id) == stored,
            forall|other: ParamId| #[trigger]
                old(self)@.contains(other) ==> {
                    &&& final(self)@.contains(other)
                    &&& final(self)@.descriptor(other) == old(self)@.descriptor(other)
                    &&& final(self)@.group(other) == old(self)@.group(other)
                    &&& other != id ==> final(self)@.value(other) == old(self)@.value(other)
                },
    {
        let slot = self.find(id);
        let i: usize = slot.unwrap();
        let ghost before = self@;
        let stored: i64 = self.descriptors[i].kind.clamp(value);
        self.values.set(i, stored);
        proof {
            assert(self@.values =~= before.values.update(i as int, stored as int));
            assert(before.holds_at(id, i as int));
            assert forall|other: ParamId| #[trigger] before.contains(other) implies {
                &&& self@.contains(other)
                &&& self@.descriptor(other) == before.descriptor(other)
                &&& self@.group(other) == before.group(other)
                &&& other != id ==> self@.value(other) == before.value(other)
                &&& other == id ==> self@.value(other) == stored
            } by {
                let there = before.position(other);
                assert(before.holds_at(other, there));
                assert(self@.holds_at(other, there));
                lemma_position_unique(self@, other, there);
            }
            assert(before.contains(id));
        }
        stored
    }

    /// The identifiers of all parameters, in registration order.
    pub fn ids(&self) -> (ids: Vec<ParamId>)
        ensures
            ids@ == self@.ids(),
    {
        let mut ids: Vec<ParamId> = Vec::new();
        let mut i: usize = 0;
        while i < self.descriptors.len()
            invariant
                i <= self.descriptors.len(),
                self@.descriptors.len() == self.descriptors.len(),
                ids.len() == i,
                forall|k: int| 0 <= k < i ==> ids[k] == self@.descriptors[k].id,
            decreases self.descriptors.len() - i,
        {
            ids.push(self.descriptors[i].id);
            i += 1;
        }
        assert(ids@ =~= self@.ids());
        ids
    }
}

} // verus!
